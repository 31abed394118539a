//! Syntactic validation of DNS hostnames, used for the SNI entry.
//!
//! A valid hostname here is 1 to 253 bytes of dot-separated labels,
//! each label 1 to 63 bytes of ASCII letters, digits and hyphens,
//! neither starting nor ending with a hyphen.  A name that fails the
//! check is treated as absent by the callers, never as fatal.

use vstd::prelude::*;

verus! {

/// Byte allowed inside a label: ASCII letter, digit or hyphen.
pub open spec fn is_hostname_byte(c: u8) -> bool {
    (97 <= c <= 122) || (65 <= c <= 90) || (48 <= c <= 57) || c == 45
}

/// Checks the labels of `s` from position `i` on, `n` bytes of the
/// current label already seen.  At a dot or at the end, the label so
/// far must be 1 to 63 bytes and must not end with a hyphen; a label
/// must not start with a hyphen.
pub open spec fn labels_ok_from(s: Seq<u8>, i: int, n: int) -> bool
    decreases s.len() - i,
{
    if i >= s.len() {
        1 <= n <= 63 && s[i - 1] != 45
    } else if s[i] == 46 {
        1 <= n <= 63 && s[i - 1] != 45 && labels_ok_from(s, i + 1, 0)
    } else {
        is_hostname_byte(s[i]) && (n == 0 ==> s[i] != 45) && labels_ok_from(s, i + 1, n + 1)
    }
}

/// Syntactically valid DNS hostname.
pub open spec fn valid_hostname(s: Seq<u8>) -> bool {
    1 <= s.len() <= 253 && labels_ok_from(s, 0, 0)
}

fn hostname_byte(c: u8) -> (r: bool)
    ensures
        r == is_hostname_byte(c),
{
    (97 <= c && c <= 122) || (65 <= c && c <= 90) || (48 <= c && c <= 57) || c == 45
}

/// Decides `valid_hostname` for the given bytes.
pub fn check_hostname(s: &[u8]) -> (r: bool)
    ensures
        r == valid_hostname(s@),
{
    let n = s.len();
    if n < 1 || n > 253 {
        return false;
    }
    let mut i: usize = 0;
    let mut label_len: usize = 0;
    loop
        invariant
            i <= n,
            n == s@.len(),
            1 <= n <= 253,
            label_len <= i,
            labels_ok_from(s@, 0, 0) == labels_ok_from(s@, i as int, label_len as int),
        decreases n - i,
    {
        if i == n {
            return label_len >= 1 && label_len <= 63 && s[i - 1] != 45;
        }
        let c = s[i];
        if c == 46 {
            if !(label_len >= 1 && label_len <= 63 && s[i - 1] != 45) {
                return false;
            }
            label_len = 0;
        } else {
            if !hostname_byte(c) {
                return false;
            }
            if label_len == 0 && c == 45 {
                return false;
            }
            label_len = label_len + 1;
        }
        i = i + 1;
    }
}

} // verus!
