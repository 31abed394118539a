use std::sync::Arc;

use rustls::{
    cipher_suite::TLS13_CHACHA20_POLY1305_SHA256, version::TLS13, ClientConfig, ClientConnection,
    RootCertStore,
};

use tls_client_hello_parser::{ParseError, Parser};

#[test]
fn test_parse() -> Result<(), Box<dyn std::error::Error>> {
    {
        let mut parser = Parser::new();

        match parser.parse(b"") {
            Err(ParseError::EndOfStream) => {}
            x => panic!("{x:?}"),
        }
    }

    {
        let mut parser = Parser::new();

        match parser.parse(b"foo") {
            Ok(None) => {}
            x => panic!("{x:?}"),
        }
        match parser.parse(b"") {
            Err(ParseError::EndOfStream) => {}
            x => panic!("{x:?}"),
        }
    }

    {
        let mut parser = Parser::new();

        let root_store = RootCertStore::empty();
        let client_config = ClientConfig::builder()
            .with_safe_defaults()
            .with_root_certificates(root_store)
            .with_no_client_auth();
        let client_config = Arc::new(client_config);
        let mut client = ClientConnection::new(client_config, "example.com".try_into()?)?;
        let mut buf = Vec::new();
        client.write_tls(&mut buf)?;

        let buf_last_byte = buf.pop().expect("");
        for bytes in buf.chunks(10) {
            match parser.parse(bytes) {
                Ok(None) => {}
                x => panic!("{x:?}"),
            }
        }

        match parser.parse(&[buf_last_byte]) {
            Ok(Some(chp)) => {
                let ch = chp.client_hello().expect("client_hello");
                assert_eq!(ch.server_name().as_deref(), Some("example.com"));
            }
            x => panic!("{x:?}"),
        }
    }

    {
        let mut parser = Parser::new();

        let root_store = RootCertStore::empty();
        let client_config = ClientConfig::builder()
            .with_cipher_suites(&[TLS13_CHACHA20_POLY1305_SHA256])
            .with_safe_default_kx_groups()
            .with_protocol_versions(&[&TLS13])?
            .with_root_certificates(root_store)
            .with_no_client_auth();
        let client_config = Arc::new(client_config);
        let mut client = ClientConnection::new(client_config, "xxx.com".try_into()?)?;
        let mut buf = Vec::new();
        client.write_tls(&mut buf)?;

        match parser.parse(&buf) {
            Ok(Some(chp)) => {
                assert_eq!(chp.get_versions_extension(), Some(vec![0x0304]));
                let ch = chp.client_hello().expect("client_hello");
                assert_eq!(ch.server_name().as_deref(), Some("xxx.com"));
            }
            x => panic!("{x:?}"),
        }
    }

    Ok(())
}
