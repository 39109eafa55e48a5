use unport::registry::Registry;
use unport::types::Service;
use unport::{PORT_RANGE_END, PORT_RANGE_START};

fn svc(domain: &str, port: u16, pid: u32, directory: &str) -> Service {
    Service { domain: domain.to_string(), port, pid, directory: directory.to_string() }
}

#[test]
fn daemon_test_registry_new() {
    let registry = Registry::new();
    assert!(registry.list().is_empty());
}

#[test]
fn test_registry_register_and_get() {
    let mut registry = Registry::new();
    let service = svc("test.localhost", 4000, 12345, "/test");
    registry.register(service).unwrap();

    let found = registry.get("test.localhost");
    assert!(found.is_some());
    assert_eq!(found.unwrap().port, 4000);
}

#[test]
fn daemon_test_registry_unregister() {
    let mut registry = Registry::new();
    let service = svc("test.localhost", 4000, 12345, "/test");
    registry.register(service).unwrap();

    let removed = registry.unregister("test.localhost");
    assert!(removed.is_some());
    assert!(registry.get("test.localhost").is_none());
}

#[test]
fn test_registry_list() {
    let mut registry = Registry::new();
    registry.register(svc("a.localhost", 4000, 1000, "/a")).unwrap();
    registry.register(svc("b.localhost", 4001, 1001, "/b")).unwrap();

    let list = registry.list();
    assert_eq!(list.len(), 2);
}

#[test]
fn daemon_test_registry_get_port_increments() {
    let mut registry = Registry::new();
    let port1 = registry.get_port();
    let port2 = registry.get_port();
    assert_ne!(port1, port2);
    assert!(port1 >= PORT_RANGE_START);
    assert!(port2 >= PORT_RANGE_START);
}

#[test]
fn test_registry_cleanup_dead_removes_dead() {
    let mut registry = Registry::new();
    registry.register(svc("dead.localhost", 4000, 4000000, "/dead")).unwrap();

    // The liveness probe found no PID alive.
    registry.cleanup_dead(&Vec::new());
    assert!(registry.list().is_empty());
}

#[test]
fn test_registry_new() {
    let registry = Registry::new();
    let services = registry.list();
    assert!(services.is_empty());
}

#[test]
fn test_registry_register() {
    let mut registry = Registry::new();
    let service = svc("api.localhost", 4000, 12345, "/test/api");
    registry.register(service).unwrap();

    let services = registry.list();
    assert_eq!(services.len(), 1);
    assert_eq!(services[0].domain, "api.localhost");
}

#[test]
fn test_registry_get() {
    let mut registry = Registry::new();
    let service = svc("api.localhost", 4000, 12345, "/test/api");
    registry.register(service).unwrap();

    let found = registry.get("api.localhost");
    assert!(found.is_some());
    assert_eq!(found.unwrap().port, 4000);

    let not_found = registry.get("nonexistent.localhost");
    assert!(not_found.is_none());
}

#[test]
fn test_registry_unregister() {
    let mut registry = Registry::new();
    let service = svc("api.localhost", 4000, 12345, "/test/api");
    registry.register(service).unwrap();
    assert_eq!(registry.list().len(), 1);

    let removed = registry.unregister("api.localhost");
    assert!(removed.is_some());
    assert_eq!(removed.unwrap().domain, "api.localhost");
    assert_eq!(registry.list().len(), 0);
}

#[test]
fn test_registry_unregister_nonexistent() {
    let mut registry = Registry::new();
    let removed = registry.unregister("nonexistent.localhost");
    assert!(removed.is_none());
}

#[test]
fn test_registry_get_port() {
    let mut registry = Registry::new();

    let port1 = registry.get_port();
    let port2 = registry.get_port();

    assert!(port1 >= 4000);
    assert!(port2 >= 4000);
    assert_ne!(port1, port2);
}

#[test]
fn test_registry_multiple_services() {
    let mut registry = Registry::new();

    let services = vec![
        svc("api.localhost", 4000, 1001, "/test/api"),
        svc("web.localhost", 4001, 1002, "/test/web"),
        svc("admin.localhost", 4002, 1003, "/test/admin"),
    ];

    for service in services {
        registry.register(service).unwrap();
    }

    assert_eq!(registry.list().len(), 3);
    assert!(registry.get("api.localhost").is_some());
    assert!(registry.get("web.localhost").is_some());
    assert!(registry.get("admin.localhost").is_some());
}

#[test]
fn test_registry_cleanup_dead_removes_dead_processes() {
    let mut registry = Registry::new();
    let service = svc("dead.localhost", 4000, 4000000, "/test/dead");
    registry.register(service).unwrap();

    assert_eq!(registry.list().len(), 1);

    registry.cleanup_dead(&Vec::new());

    assert_eq!(registry.list().len(), 0);
}

#[test]
fn test_cleanup_dead_keeps_listed_alive() {
    let mut registry = Registry::new();
    registry.register(svc("alive.localhost", 4000, 12345, "/alive")).unwrap();
    registry.register(svc("gone.localhost", 4001, 54321, "/gone")).unwrap();

    registry.cleanup_dead(&vec![12345]);

    let list = registry.list();
    assert_eq!(list.len(), 1);
    assert_eq!(list[0].domain, "alive.localhost");
}

#[test]
fn daemon_tests_test_registry_get_port_increments() {
    let mut registry = Registry::new();

    let ports: Vec<u16> = (0..5).map(|_| registry.get_port()).collect();

    for (i, port) in ports.iter().enumerate() {
        for (j, other) in ports.iter().enumerate() {
            if i != j {
                assert_ne!(port, other, "Ports should be unique");
            }
        }
    }
}

#[test]
fn test_registry_list_returns_all_services() {
    let mut registry = Registry::new();

    for i in 0..5u16 {
        let service = Service {
            domain: format!("service{}.localhost", i),
            port: 4000 + i,
            pid: 1000 + i as u32,
            directory: format!("/test/service{}", i),
        };
        registry.register(service).unwrap();
    }

    let list = registry.list();
    assert_eq!(list.len(), 5);
}

#[test]
fn test_registry_get_returns_correct_service() {
    let mut registry = Registry::new();

    registry.register(svc("api.localhost", 4000, 1000, "/app/api")).unwrap();
    registry.register(svc("web.localhost", 4001, 1001, "/app/web")).unwrap();

    let api = registry.get("api.localhost");
    assert!(api.is_some());
    assert_eq!(api.unwrap().port, 4000);

    let web = registry.get("web.localhost");
    assert!(web.is_some());
    assert_eq!(web.unwrap().port, 4001);
}

#[test]
fn test_registry_unregister_only_removes_target() {
    let mut registry = Registry::new();

    registry.register(svc("api.localhost", 4000, 1000, "/app/api")).unwrap();
    registry.register(svc("web.localhost", 4001, 1001, "/app/web")).unwrap();
    assert_eq!(registry.list().len(), 2);

    registry.unregister("api.localhost");
    assert_eq!(registry.list().len(), 1);
    assert!(registry.get("api.localhost").is_none());
    assert!(registry.get("web.localhost").is_some());
}

#[test]
fn test_register_conflict_is_refused() {
    let mut registry = Registry::new();
    registry.register(svc("api.localhost", 4000, 1, "/a")).unwrap();
    let second = registry.register(svc("api.localhost", 4001, 2, "/b"));
    assert!(second.is_err());
    // The first registration is untouched.
    assert_eq!(registry.get("api.localhost").unwrap().port, 4000);
}

#[test]
fn test_allocator_stays_in_range_and_wraps() {
    let mut registry = Registry::new();
    let mut last = 0u16;
    for _ in 0..=(PORT_RANGE_END - PORT_RANGE_START) as u32 + 3 {
        let p = registry.get_port();
        assert!((PORT_RANGE_START..=PORT_RANGE_END).contains(&p));
        last = p;
    }
    // 1001 ports cover the range; the cycle then restarts at its start.
    assert_eq!(last, PORT_RANGE_START + 2);
}

#[test]
fn test_empty_registry_persists_as_empty_object() {
    let mut registry = Registry::new();
    registry.register(svc("a.localhost", 4000, 4000000, "/x")).unwrap();
    registry.cleanup_dead(&Vec::new());
    assert!(registry.list().is_empty());
    assert_eq!(registry.to_json(), "{}");
}

#[test]
fn test_persistence_round_trip() {
    let mut registry = Registry::new();
    registry.register(svc("api.localhost", 4000, 101, "/app/api")).unwrap();
    registry.register(svc("web.localhost", 4001, 102, "/app/web")).unwrap();
    // The largest representable port and PID survive the trip too.
    registry.register(svc("edge.localhost", 65535, u32::MAX, "/edge")).unwrap();

    let doc = registry.to_json();
    let loaded = Registry::from_json(doc.as_str()).unwrap();

    let before = registry.list();
    let after = loaded.list();
    assert_eq!(before.len(), after.len());
    for (a, b) in before.iter().zip(after.iter()) {
        assert_eq!(a.domain, b.domain);
        assert_eq!(a.port, b.port);
        assert_eq!(a.pid, b.pid);
        assert_eq!(a.directory, b.directory);
    }
}

#[test]
fn test_persistence_round_trip_with_escapes() {
    let mut registry = Registry::new();
    registry.register(svc("api.localhost", 4000, 7, "/tmp/\"odd\\dir\"\nname")).unwrap();

    let doc = registry.to_json();
    let loaded = Registry::from_json(doc.as_str()).unwrap();
    let after = loaded.list();
    assert_eq!(after.len(), 1);
    assert_eq!(after[0].directory, "/tmp/\"odd\\dir\"\nname");
}

#[test]
fn test_load_with_out_of_range_port_restarts_cursor() {
    // A hand-edited document may hold a port outside the reserved range;
    // the cursor then restarts at the start of the range.
    let mut registry = Registry::new();
    registry.register(svc("odd.localhost", 9999, 1, "/odd")).unwrap();
    let doc = registry.to_json();
    let mut loaded = Registry::from_json(doc.as_str()).unwrap();
    assert_eq!(loaded.get_port(), 4000);
}

#[test]
fn test_load_at_range_end_wraps_cursor() {
    let mut registry = Registry::new();
    registry.register(svc("last.localhost", PORT_RANGE_END, 1, "/last")).unwrap();
    let doc = registry.to_json();
    let mut loaded = Registry::from_json(doc.as_str()).unwrap();
    assert_eq!(loaded.get_port(), PORT_RANGE_START);
}

#[test]
fn test_load_tolerates_document_whitespace() {
    // A hand-edited document may space and break its lines differently;
    // the reader only insists on the service objects themselves.
    let doc = "  {\n\n\t\"api.localhost\"  :\n   {\"domain\":\"api.localhost\",\"port\":4000,\"pid\":7,\"directory\":\"/a\"} ,\n\n\"web.localhost\":{\"domain\":\"web.localhost\",\"port\":4001,\"pid\":8,\"directory\":\"/b\"}\n\n}\n";
    let loaded = Registry::from_json(doc).unwrap();
    let list = loaded.list();
    assert_eq!(list.len(), 2);
    assert_eq!(list[0].domain, "api.localhost");
    assert_eq!(list[1].domain, "web.localhost");
    assert_eq!(list[1].port, 4001);
}

#[test]
fn test_load_tolerates_empty_object_whitespace() {
    let loaded = Registry::from_json(" {\n }\n").unwrap();
    assert!(loaded.list().is_empty());
}

#[test]
fn test_load_rejects_duplicate_keys() {
    let doc = "{\n  \"a.localhost\": {\"domain\":\"a.localhost\",\"port\":4000,\"pid\":1,\"directory\":\"/a\"},\n  \"a.localhost\": {\"domain\":\"a.localhost\",\"port\":4001,\"pid\":2,\"directory\":\"/b\"}\n}";
    assert!(Registry::from_json(doc).is_none());
}

#[test]
fn test_load_rejects_garbage() {
    assert!(Registry::from_json("").is_none());
    assert!(Registry::from_json("not json at all").is_none());
    assert!(Registry::from_json("{ \"a\": 1 }").is_none());
}

#[test]
fn test_fresh_start_register_restart_scenario() {
    // A fresh daemon hands out the first port of the range.
    let mut registry = Registry::new();
    assert_eq!(registry.get_port(), 4000);

    registry.register(svc("api.localhost", 4000, 4242, "/tmp")).unwrap();
    let list = registry.list();
    assert_eq!(list.len(), 1);
    assert_eq!(list[0].domain, "api.localhost");

    // Restart: save, then load. The entry survives, and the allocator
    // resumes past the port in use.
    let doc = registry.to_json();
    let mut restarted = Registry::from_json(doc.as_str()).unwrap();
    let list = restarted.list();
    assert_eq!(list.len(), 1);
    assert_eq!(list[0].domain, "api.localhost");
    assert_eq!(restarted.get_port(), 4001);
}
