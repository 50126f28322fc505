use load_balancer::cli::{client_config, manager_config, server_config};
use load_balancer::table::{Address, Table};

fn args(items: &[&str]) -> Vec<String> {
    items.iter().map(|s| s.to_string()).collect()
}

#[test]
fn manager_needs_host_and_port() {
    let c = manager_config(&args(&["manager", "0.0.0.0", "8000"])).unwrap();
    assert_eq!(c.host, "0.0.0.0");
    assert_eq!(c.port, "8000");
    assert!(manager_config(&args(&["manager", "0.0.0.0"])).is_none());
    assert!(manager_config(&args(&["manager", "a", "b", "c"])).is_none());
}

#[test]
fn server_takes_one_client_by_default() {
    let c = server_config(&args(&["server", "m", "1", "s", "2"])).unwrap();
    assert_eq!(c.manager_host, "m");
    assert_eq!(c.manager_port, "1");
    assert_eq!(c.server_host, "s");
    assert_eq!(c.server_port, "2");
    assert_eq!(c.max_clients, "1");
    let c = server_config(&args(&["server", "m", "1", "s", "2", "7"])).unwrap();
    assert_eq!(c.max_clients, "7");
    assert!(server_config(&args(&["server", "m", "1", "s"])).is_none());
    assert!(server_config(&args(&["server", "m", "1", "s", "2", "7", "8"])).is_none());
}

#[test]
fn client_needs_two_addresses() {
    let c = client_config(&args(&["client", "m", "1", "c", "2"])).unwrap();
    assert_eq!(c.manager_host, "m");
    assert_eq!(c.client_port, "2");
    assert!(client_config(&args(&["client", "m", "1", "c"])).is_none());
    assert!(client_config(&args(&["client", "m", "1", "c", "2", "3"])).is_none());
}

#[test]
fn table_keeps_one_value_per_address() {
    let mut t: Table<u32> = Table::new();
    let h = "h".to_string();
    let p = "1".to_string();
    assert!(!t.contains(&h, &p));
    t.put(Address { host: h.clone(), port: p.clone() }, 5);
    assert_eq!(t.get(&h, &p), Some(&5));
    t.put(Address { host: h.clone(), port: p.clone() }, 6);
    assert_eq!(t.get(&h, &p), Some(&6));
    t.put(Address { host: h.clone(), port: "2".to_string() }, 7);
    assert_eq!(t.take(&h, &p), Some(6));
    assert_eq!(t.take(&h, &p), None);
    assert_eq!(t.get(&h, &"2".to_string()), Some(&7));
}

#[test]
fn address_copy_is_equal() {
    let a = Address { host: "x".to_string(), port: "9".to_string() };
    let b = a.copy();
    assert_eq!(b.host, "x");
    assert_eq!(b.port, "9");
}
