use file_transfer::{
    check_plain_name, client_security, create_uri, join_path, port_text, resolve_under,
    server_security, ClientSecurity, Commands, ConfigError, ServerSecurity, TransferError,
    CODE_CANCELLED, CODE_INTERNAL, CODE_INVALID_ARGUMENT, CODE_NOT_FOUND, CODE_UNAVAILABLE,
};

fn s(text: &str) -> Option<String> {
    Some(text.to_string())
}

fn address(v6: bool, text: &str) -> Option<(bool, String)> {
    Some((v6, text.to_string()))
}

#[test]
fn uri_for_ipv4_without_tls() {
    assert_eq!(
        create_uri("127.0.0.1", address(false, "127.0.0.1"), 50051, false),
        "http://127.0.0.1:50051"
    );
}

#[test]
fn uri_for_ipv6_is_bracketed_in_canonical_form() {
    assert_eq!(create_uri("::1", address(true, "::1"), 443, true), "https://[::1]:443");
    assert_eq!(
        create_uri("0:0:0:0:0:0:0:1", address(true, "::1"), 1, false),
        "http://[::1]:1"
    );
}

#[test]
fn uri_for_host_that_is_no_address_keeps_it_verbatim() {
    assert_eq!(create_uri("localhost", None, 0, true), "https://localhost:0");
    assert_eq!(create_uri("a:b", None, 1, false), "http://a:b:1");
}

#[test]
fn port_in_decimal() {
    assert_eq!(port_text(0), "0");
    assert_eq!(port_text(7), "7");
    assert_eq!(port_text(10), "10");
    assert_eq!(port_text(65535), "65535");
}

#[test]
fn paths_join_with_one_separator() {
    assert_eq!(join_path("dir", "abc"), "dir/abc");
    assert_eq!(join_path("dir/", "abc"), "dir/abc");
    assert_eq!(join_path("", "abc"), "abc");
    assert_eq!(resolve_under("/srv", "abc"), s("/srv/abc"));
    assert_eq!(resolve_under("/srv", "a/b"), None);
}

#[test]
fn plain_names() {
    assert!(check_plain_name("abc"));
    assert!(check_plain_name(".hidden"));
    assert!(check_plain_name("..."));
    assert!(!check_plain_name(""));
    assert!(!check_plain_name("."));
    assert!(!check_plain_name(".."));
    assert!(!check_plain_name("a/b"));
    assert!(!check_plain_name("a\\b"));
    assert!(!check_plain_name("a\0b"));
}

#[test]
fn status_codes_round_trip() {
    let all = [
        TransferError::Connection,
        TransferError::ProtocolViolation,
        TransferError::NotFound,
        TransferError::Io,
        TransferError::CancelledByPeer,
    ];
    for e in all {
        assert_eq!(TransferError::from_status_code(e.status_code()), e);
    }
    assert_eq!(TransferError::NotFound.status_code(), CODE_NOT_FOUND);
    assert_eq!(CODE_NOT_FOUND, 5);
    assert_eq!(CODE_INVALID_ARGUMENT, 3);
    assert_eq!(CODE_INTERNAL, 13);
    assert_eq!(CODE_UNAVAILABLE, 14);
    assert_eq!(CODE_CANCELLED, 1);
    assert_eq!(TransferError::from_status_code(2), TransferError::Io);
}

#[test]
fn client_configurations() {
    assert!(matches!(client_security(true, None, None, None), Ok(ClientSecurity::Insecure)));
    assert_eq!(
        client_security(true, s("ca"), None, None).err(),
        Some(ConfigError::InsecureWithCertificates)
    );
    assert_eq!(client_security(false, None, None, None).err(), Some(ConfigError::MissingCaCert));
    assert_eq!(
        client_security(false, s("ca"), s("cert"), None).err(),
        Some(ConfigError::IncompleteIdentity)
    );
    match client_security(false, s("ca"), None, None) {
        Ok(ClientSecurity::ServerAuth { ca_cert }) => assert_eq!(ca_cert, "ca"),
        _ => panic!("a CA alone gives server authentication"),
    }
    match client_security(false, s("ca"), s("cert"), s("key")) {
        Ok(sec @ ClientSecurity::Mutual { .. }) => {
            assert!(sec.uses_tls());
            if let ClientSecurity::Mutual { ca_cert, cert, key } = sec {
                assert_eq!((ca_cert.as_str(), cert.as_str(), key.as_str()), ("ca", "cert", "key"));
            }
        }
        _ => panic!("a CA with an identity gives mutual authentication"),
    }
    assert!(!ClientSecurity::Insecure.uses_tls());
}

#[test]
fn server_configurations() {
    assert!(matches!(server_security(true, None, None, None), Ok(ServerSecurity::Insecure)));
    assert_eq!(
        server_security(true, s("cert"), s("key"), None).err(),
        Some(ConfigError::InsecureWithCertificates)
    );
    assert_eq!(
        server_security(false, s("cert"), None, s("ca")).err(),
        Some(ConfigError::MissingIdentity)
    );
    let tls = server_security(false, s("cert"), s("key"), None).unwrap();
    assert!(matches!(tls, ServerSecurity::Tls { .. }));
    assert!(!tls.requires_client_identity());
}

#[test]
fn mutual_tls_server_requires_client_identity() {
    let server = server_security(false, s("cert"), s("key"), s("ca")).unwrap();
    assert!(server.requires_client_identity());
    match server {
        ServerSecurity::MutualTls { cert, key, client_ca } => {
            assert_eq!((cert.as_str(), key.as_str(), client_ca.as_str()), ("cert", "key", "ca"));
        }
        _ => panic!("a CA on the server asks for client identities"),
    }
    let client_without_identity = client_security(false, s("ca"), None, None).unwrap();
    assert!(!matches!(client_without_identity, ClientSecurity::Mutual { .. }));
}

#[test]
fn command_local_paths() {
    let download = Commands::Download { file: "abc".to_string(), directory: "/tmp/in".to_string() };
    assert_eq!(download.local_path(), s("/tmp/in/abc"));
    let upload = Commands::Upload { file: "abc".to_string(), directory: "out/".to_string() };
    assert_eq!(upload.local_path(), s("out/abc"));
    assert_eq!(Commands::List.local_path(), None);
}
