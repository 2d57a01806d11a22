use ssh_manager::errors::ErrorKind;
use ssh_manager::json::render_registry;
use ssh_manager::parse::parse_registry;
use ssh_manager::registry::{Config, Connection, PortMapping};

fn conn(slug: &str, address: &str, port: u16, mappings: Vec<PortMapping>) -> Connection {
    Connection {
        slug: slug.to_string(),
        address: address.to_string(),
        port,
        user: "root".to_string(),
        ssh_key: "/k".to_string(),
        port_mappings: mappings,
    }
}

#[test]
fn saved_file_omits_default_port() {
    let mut config = Config { connections: Vec::new() };
    config.add_connection(conn("box1", "1.2.3.4", 22, Vec::new())).unwrap();
    let text = render_registry(&config);
    assert_eq!(
        text,
        "{\"connections\":[{\"slug\":\"box1\",\"address\":\"1.2.3.4\",\"user\":\"root\",\
         \"ssh_key\":\"/k\",\"port_mappings\":[]}]}"
    );
    let loaded = parse_registry(&text).unwrap();
    let found = loaded.find_connection("box1").expect("box1 must load back");
    assert_eq!(found.port, 22);
}

#[test]
fn saved_file_includes_non_default_port() {
    let mut config = Config { connections: Vec::new() };
    config.add_connection(conn("box1", "1.2.3.4", 2222, Vec::new())).unwrap();
    let text = render_registry(&config);
    assert_eq!(
        text,
        "{\"connections\":[{\"slug\":\"box1\",\"address\":\"1.2.3.4\",\"port\":2222,\
         \"user\":\"root\",\"ssh_key\":\"/k\",\"port_mappings\":[]}]}"
    );
}

#[test]
fn empty_registry_round_trips() {
    let config = Config { connections: Vec::new() };
    let text = render_registry(&config);
    assert_eq!(text, "{\"connections\":[]}");
    let loaded = parse_registry(&text).unwrap();
    assert_eq!(loaded.connections.len(), 0);
}

#[test]
fn full_registry_round_trips() {
    let mut config = Config { connections: Vec::new() };
    config
        .add_connection(conn(
            "box1",
            "1.2.3.4",
            22,
            vec![
                PortMapping { local_port: 8080, remote_port: 80 },
                PortMapping { local_port: 65535, remote_port: 1 },
            ],
        ))
        .unwrap();
    config.add_connection(conn("box2", "example.test", 2222, Vec::new())).unwrap();
    let text = render_registry(&config);
    let loaded = parse_registry(&text).unwrap();
    assert_eq!(loaded.connections.len(), 2);
    let first = &loaded.connections[0];
    assert_eq!(first.slug, "box1");
    assert_eq!(first.address, "1.2.3.4");
    assert_eq!(first.port, 22);
    assert_eq!(first.user, "root");
    assert_eq!(first.ssh_key, "/k");
    assert_eq!(first.port_mappings.len(), 2);
    assert_eq!(first.port_mappings[0], PortMapping { local_port: 8080, remote_port: 80 });
    assert_eq!(first.port_mappings[1], PortMapping { local_port: 65535, remote_port: 1 });
    let second = &loaded.connections[1];
    assert_eq!(second.slug, "box2");
    assert_eq!(second.address, "example.test");
    assert_eq!(second.port, 2222);
}

#[test]
fn quotes_and_backslashes_round_trip() {
    let mut config = Config { connections: Vec::new() };
    let mut c = conn("odd", "1.2.3.4", 22, Vec::new());
    c.user = "a\"b\\c".to_string();
    c.ssh_key = "C:\\keys\\id".to_string();
    config.add_connection(c).unwrap();
    let text = render_registry(&config);
    let loaded = parse_registry(&text).unwrap();
    assert_eq!(loaded.connections[0].user, "a\"b\\c");
    assert_eq!(loaded.connections[0].ssh_key, "C:\\keys\\id");
}

#[test]
fn saving_a_loaded_file_writes_it_back_unchanged() {
    let mut config = Config { connections: Vec::new() };
    config
        .add_connection(conn("box1", "1.2.3.4", 8022, vec![PortMapping {
            local_port: 3000,
            remote_port: 3000,
        }]))
        .unwrap();
    let text = render_registry(&config);
    let loaded = parse_registry(&text).unwrap();
    assert_eq!(render_registry(&loaded), text);
}

#[test]
fn pretty_printed_document_loads() {
    let text = "{\n  \"connections\": [\n    {\n      \"slug\": \"box1\",\n      \
                \"address\": \"1.2.3.4\",\n      \"user\": \"root\",\n      \
                \"ssh_key\": \"/k\",\n      \"port_mappings\": [\n        {\n          \
                \"local_port\": 8080,\n          \"remote_port\": 80\n        }\n      ]\n    \
                }\n  ]\n}\n";
    let loaded = parse_registry(text).unwrap();
    assert_eq!(loaded.connections.len(), 1);
    let c = &loaded.connections[0];
    assert_eq!(c.slug, "box1");
    assert_eq!(c.port, 22);
    assert_eq!(c.port_mappings, vec![PortMapping { local_port: 8080, remote_port: 80 }]);
}

#[test]
fn absent_port_mappings_defaults_to_empty() {
    let text = "{\"connections\":[{\"slug\":\"s\",\"address\":\"a\",\
                \"user\":\"u\",\"ssh_key\":\"k\"}]}";
    let loaded = parse_registry(text).unwrap();
    assert_eq!(loaded.connections[0].port_mappings.len(), 0);
    assert_eq!(loaded.connections[0].port, 22);
}

#[test]
fn explicit_port_in_document_is_read() {
    let text = "{\"connections\":[{\"slug\":\"s\",\"address\":\"a\",\"port\":443,\
                \"user\":\"u\",\"ssh_key\":\"k\",\"port_mappings\":[]}]}";
    let loaded = parse_registry(text).unwrap();
    assert_eq!(loaded.connections[0].port, 443);
}

#[test]
fn escape_letters_in_document_are_resolved() {
    let text = "{\"connections\":[{\"slug\":\"s\",\"address\":\"a\\nb\\tc\",\
                \"user\":\"u\\/v\",\"ssh_key\":\"k\",\"port_mappings\":[]}]}";
    let loaded = parse_registry(text).unwrap();
    assert_eq!(loaded.connections[0].address, "a\nb\tc");
    assert_eq!(loaded.connections[0].user, "u/v");
}

#[test]
fn control_characters_are_escaped_on_save_and_round_trip() {
    let mut config = Config { connections: Vec::new() };
    let mut c = conn("ctl", "1.2.3.4", 22, Vec::new());
    c.user = "a\nb\u{1}c".to_string();
    config.add_connection(c).unwrap();
    let text = render_registry(&config);
    assert!(text.contains("a\\u000ab\\u0001c"));
    assert!(!text.contains('\n'));
    let loaded = parse_registry(&text).unwrap();
    assert_eq!(loaded.connections[0].user, "a\nb\u{1}c");
}

#[test]
fn unicode_escapes_for_control_characters_are_read() {
    let text = "{\"connections\":[{\"slug\":\"s\",\"address\":\"a\\u0009b\\u001Fc\",\
                \"user\":\"u\",\"ssh_key\":\"k\",\"port_mappings\":[]}]}";
    let loaded = parse_registry(text).unwrap();
    assert_eq!(loaded.connections[0].address, "a\tb\u{1f}c");
}

#[test]
fn malformed_documents_fail_with_data_corrupt() {
    let cases = vec![
        "",
        "not json",
        "{}",
        "{\"connections\":}",
        "{\"connections\":[",
        "{\"connections\":[]",
        "{\"connections\":[]}}",
        "{\"connections\":[]} trailing",
        "{\"connections\":[{\"slug\":\"s\"}]}",
        "{\"connections\":[{\"slug\":\"s\",\"address\":\"a\",\"user\":\"u\",\
         \"ssh_key\":\"k\",\"port_mappings\":[]},]}",
    ];
    for text in cases {
        assert_eq!(parse_registry(text).unwrap_err(), ErrorKind::DataCorrupt, "input: {}", text);
    }
}

#[test]
fn out_of_range_or_malformed_ports_fail() {
    let too_big = "{\"connections\":[{\"slug\":\"s\",\"address\":\"a\",\"port\":65536,\
                   \"user\":\"u\",\"ssh_key\":\"k\",\"port_mappings\":[]}]}";
    assert_eq!(parse_registry(too_big).unwrap_err(), ErrorKind::DataCorrupt);
    let leading_zero = "{\"connections\":[{\"slug\":\"s\",\"address\":\"a\",\"port\":022,\
                        \"user\":\"u\",\"ssh_key\":\"k\",\"port_mappings\":[]}]}";
    assert_eq!(parse_registry(leading_zero).unwrap_err(), ErrorKind::DataCorrupt);
    let largest = "{\"connections\":[{\"slug\":\"s\",\"address\":\"a\",\"port\":65535,\
                   \"user\":\"u\",\"ssh_key\":\"k\",\"port_mappings\":[]}]}";
    assert_eq!(parse_registry(largest).unwrap().connections[0].port, 65535);
}

#[test]
fn duplicate_slugs_in_document_are_loaded_as_stored() {
    let text = "{\"connections\":[\
                {\"slug\":\"s\",\"address\":\"a\",\"user\":\"u\",\"ssh_key\":\"k\",\"port_mappings\":[]},\
                {\"slug\":\"s\",\"address\":\"b\",\"user\":\"u\",\"ssh_key\":\"k\",\"port_mappings\":[]}]}";
    let loaded = parse_registry(text).unwrap();
    assert_eq!(loaded.connections.len(), 2);
    assert_eq!(loaded.find_connection("s").unwrap().address, "a");
}
