use ssh_manager::errors::ErrorKind;
use ssh_manager::registry::{Config, Connection, PortMapping, default_port, is_default_port};

fn conn(slug: &str, address: &str, port: u16, mappings: Vec<PortMapping>) -> Connection {
    Connection {
        slug: slug.to_string(),
        address: address.to_string(),
        port,
        user: "root".to_string(),
        ssh_key: "/k".to_string(),
        port_mappings: mappings,
    }
}

fn sample_registry() -> Config {
    let mut config = Config { connections: Vec::new() };
    config.add_connection(conn("box1", "1.2.3.4", 22, Vec::new())).unwrap();
    config.add_connection(conn("box2", "5.6.7.8", 2222, Vec::new())).unwrap();
    config.add_connection(conn("box3", "9.9.9.9", 22, Vec::new())).unwrap();
    config
}

#[test]
fn default_port_is_22() {
    assert_eq!(default_port(), 22);
    assert!(is_default_port(&22));
    assert!(!is_default_port(&2222));
}

#[test]
fn add_then_find_returns_added() {
    let mut config = Config { connections: Vec::new() };
    let c = conn("box1", "1.2.3.4", 22, vec![PortMapping { local_port: 8080, remote_port: 80 }]);
    config.add_connection(c).unwrap();
    let found = config.find_connection("box1").expect("added connection must be found");
    assert_eq!(found.slug, "box1");
    assert_eq!(found.address, "1.2.3.4");
    assert_eq!(found.port, 22);
    assert_eq!(found.user, "root");
    assert_eq!(found.ssh_key, "/k");
    assert_eq!(found.port_mappings.len(), 1);
    assert_eq!(found.port_mappings[0], PortMapping { local_port: 8080, remote_port: 80 });
}

#[test]
fn add_duplicate_fails_and_leaves_registry_unchanged() {
    let mut config = Config { connections: Vec::new() };
    config.add_connection(conn("box1", "1.2.3.4", 22, Vec::new())).unwrap();
    let r = config.add_connection(conn("box1", "5.6.7.8", 2222, Vec::new()));
    assert_eq!(r, Err(ErrorKind::DuplicateKey("box1".to_string())));
    assert_eq!(config.connections.len(), 1);
    assert_eq!(config.connections[0].address, "1.2.3.4");
}

#[test]
fn remove_present_shrinks_by_one_and_find_misses() {
    let mut config = sample_registry();
    config.remove_connection("box2").unwrap();
    assert_eq!(config.connections.len(), 2);
    assert!(config.find_connection("box2").is_none());
    assert_eq!(config.connections[0].slug, "box1");
    assert_eq!(config.connections[1].slug, "box3");
}

#[test]
fn remove_absent_fails_and_leaves_registry_unchanged() {
    let mut config = sample_registry();
    let r = config.remove_connection("nope");
    assert_eq!(r, Err(ErrorKind::NotFound("nope".to_string())));
    assert_eq!(config.connections.len(), 3);
}

#[test]
fn update_same_slug_preserves_position() {
    let mut config = sample_registry();
    config.update_connection("box2", conn("box2", "10.0.0.1", 2022, Vec::new())).unwrap();
    assert_eq!(config.connections.len(), 3);
    assert_eq!(config.connections[1].slug, "box2");
    assert_eq!(config.connections[1].address, "10.0.0.1");
    assert_eq!(config.connections[1].port, 2022);
}

#[test]
fn update_rename_preserves_position() {
    let mut config = sample_registry();
    config.update_connection("box2", conn("elsewhere", "5.6.7.8", 2222, Vec::new())).unwrap();
    assert_eq!(config.connections.len(), 3);
    assert_eq!(config.connections[1].slug, "elsewhere");
    assert!(config.find_connection("box2").is_none());
}

#[test]
fn update_rename_onto_existing_slug_fails_and_keeps_original() {
    let mut config = sample_registry();
    let r = config.update_connection("box1", conn("box2", "0.0.0.0", 1, Vec::new()));
    assert_eq!(r, Err(ErrorKind::DuplicateKey("box2".to_string())));
    let original = config.find_connection("box1").expect("box1 must still be present");
    assert_eq!(original.address, "1.2.3.4");
    assert_eq!(original.port, 22);
    assert_eq!(config.connections.len(), 3);
}

#[test]
fn update_missing_slug_fails_with_not_found() {
    let mut config = sample_registry();
    let r = config.update_connection("nope", conn("nope", "0.0.0.0", 1, Vec::new()));
    assert_eq!(r, Err(ErrorKind::NotFound("nope".to_string())));
    assert_eq!(config.connections.len(), 3);
}

#[test]
fn update_missing_slug_reports_not_found_even_when_new_slug_collides() {
    let mut config = sample_registry();
    let r = config.update_connection("nope", conn("box2", "0.0.0.0", 1, Vec::new()));
    assert_eq!(r, Err(ErrorKind::NotFound("nope".to_string())));
    assert_eq!(config.connections.len(), 3);
    assert_eq!(config.find_connection("box2").unwrap().address, "5.6.7.8");
}

#[test]
fn find_connection_mut_returns_position() {
    let mut config = sample_registry();
    assert_eq!(config.find_connection_mut("box3"), Some(2));
    assert_eq!(config.find_connection_mut("nope"), None);
}

#[test]
fn add_port_mapping_appends_in_order() {
    let mut config = sample_registry();
    config.add_port_mapping("box1", PortMapping { local_port: 8080, remote_port: 80 }).unwrap();
    config.add_port_mapping("box1", PortMapping { local_port: 8080, remote_port: 80 }).unwrap();
    config.add_port_mapping("box1", PortMapping { local_port: 5432, remote_port: 5432 }).unwrap();
    let found = config.find_connection("box1").unwrap();
    assert_eq!(found.port_mappings.len(), 3);
    assert_eq!(found.port_mappings[0], PortMapping { local_port: 8080, remote_port: 80 });
    assert_eq!(found.port_mappings[1], PortMapping { local_port: 8080, remote_port: 80 });
    assert_eq!(found.port_mappings[2], PortMapping { local_port: 5432, remote_port: 5432 });
}

#[test]
fn add_port_mapping_on_missing_slug_fails() {
    let mut config = sample_registry();
    let r = config.add_port_mapping("nope", PortMapping { local_port: 1, remote_port: 2 });
    assert_eq!(r, Err(ErrorKind::NotFound("nope".to_string())));
    assert_eq!(config.find_connection("box1").unwrap().port_mappings.len(), 0);
}
