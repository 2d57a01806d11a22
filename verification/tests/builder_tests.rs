use ssh_manager::builder::{file_transfer_args, key_install_args, session_args};
use ssh_manager::errors::ErrorKind;
use ssh_manager::registry::{Connection, PortMapping};
use ssh_manager::text::{parse_port, u16_to_string};

fn box1(mappings: Vec<PortMapping>) -> Connection {
    Connection {
        slug: "box1".to_string(),
        address: "1.2.3.4".to_string(),
        port: 22,
        user: "root".to_string(),
        ssh_key: "/k".to_string(),
        port_mappings: mappings,
    }
}

#[test]
fn session_args_with_one_mapping() {
    let conn = box1(vec![PortMapping { local_port: 8080, remote_port: 80 }]);
    let args = session_args(&conn);
    assert_eq!(
        args,
        vec!["-i", "/k", "-p", "22", "-L", "8080:localhost:80", "root@1.2.3.4"]
    );
}

#[test]
fn session_args_keep_mapping_order_and_duplicates() {
    let conn = box1(vec![
        PortMapping { local_port: 8080, remote_port: 80 },
        PortMapping { local_port: 8080, remote_port: 80 },
        PortMapping { local_port: 5432, remote_port: 5433 },
    ]);
    let args = session_args(&conn);
    assert_eq!(
        args,
        vec![
            "-i",
            "/k",
            "-p",
            "22",
            "-L",
            "8080:localhost:80",
            "-L",
            "8080:localhost:80",
            "-L",
            "5432:localhost:5433",
            "root@1.2.3.4"
        ]
    );
}

#[test]
fn file_transfer_args_use_capital_port_flag_and_no_forwards() {
    let conn = box1(vec![PortMapping { local_port: 8080, remote_port: 80 }]);
    let args = file_transfer_args(&conn);
    assert_eq!(args, vec!["-i", "/k", "-P", "22", "root@1.2.3.4"]);
}

#[test]
fn key_install_args_exact() {
    let mut conn = box1(Vec::new());
    conn.port = 2222;
    let args = key_install_args(&conn);
    assert_eq!(args, vec!["-i", "/k", "-p", "2222", "root@1.2.3.4"]);
}

#[test]
fn builders_are_deterministic() {
    let conn = box1(vec![PortMapping { local_port: 8080, remote_port: 80 }]);
    assert_eq!(session_args(&conn), session_args(&conn));
    assert_eq!(file_transfer_args(&conn), file_transfer_args(&conn));
    assert_eq!(key_install_args(&conn), key_install_args(&conn));
}

#[test]
fn u16_to_string_renders_decimal() {
    assert_eq!(u16_to_string(0), "0");
    assert_eq!(u16_to_string(7), "7");
    assert_eq!(u16_to_string(22), "22");
    assert_eq!(u16_to_string(443), "443");
    assert_eq!(u16_to_string(8080), "8080");
    assert_eq!(u16_to_string(65535), "65535");
}

#[test]
fn parse_port_accepts_valid_values() {
    assert_eq!(parse_port("22"), Ok(22));
    assert_eq!(parse_port("0"), Ok(0));
    assert_eq!(parse_port("007"), Ok(7));
    assert_eq!(parse_port("+80"), Ok(80));
    assert_eq!(parse_port("65535"), Ok(65535));
}

#[test]
fn parse_port_rejects_invalid_values() {
    assert_eq!(parse_port(""), Err(ErrorKind::InvalidInput));
    assert_eq!(parse_port("+"), Err(ErrorKind::InvalidInput));
    assert_eq!(parse_port("x"), Err(ErrorKind::InvalidInput));
    assert_eq!(parse_port("2 2"), Err(ErrorKind::InvalidInput));
    assert_eq!(parse_port(" 22"), Err(ErrorKind::InvalidInput));
    assert_eq!(parse_port("-1"), Err(ErrorKind::InvalidInput));
    assert_eq!(parse_port("65536"), Err(ErrorKind::InvalidInput));
    assert_eq!(parse_port("99999999999"), Err(ErrorKind::InvalidInput));
}

#[test]
fn error_kinds_describe_themselves() {
    assert_eq!(ErrorKind::NotFound("s".to_string()).describe(), "connection not found");
    assert_eq!(
        ErrorKind::DuplicateKey("s".to_string()).describe(),
        "a connection with this slug already exists"
    );
    assert_eq!(ErrorKind::DataCorrupt.describe(), "the registry file is not valid");
}
