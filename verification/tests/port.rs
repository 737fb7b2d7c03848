use composite::port::{contains_port, remove_port, Port};

fn port(node_name: &str, slot_name: &'static str) -> Port {
    Port {
        node_name: node_name.to_string(),
        slot_name,
    }
}

#[test]
fn port_equality_is_structural() {
    assert_eq!(port("a", "X"), port("a", "X"));
    assert_ne!(port("a", "X"), port("b", "X"));
    assert_ne!(port("a", "X"), port("a", "Y"));
    assert_ne!(port("a", "X"), port("b", "Y"));
    assert!(port("a", "X").same(&port("a", "X")));
    assert!(!port("a", "X").same(&port("a", "Y")));
    assert!(!port("a", "X").same(&port("c", "X")));
}

#[test]
fn port_clone_is_equal() {
    let p = port("node", "SLOT");
    let q = p.clone();
    assert_eq!(p, q);
    assert_eq!(q.node_name, "node");
    assert_eq!(q.slot_name, "SLOT");
}

#[test]
fn contains_port_finds_by_both_fields() {
    let ports = vec![port("a", "X"), port("b", "Y")];
    assert!(contains_port(&ports, &port("a", "X")));
    assert!(contains_port(&ports, &port("b", "Y")));
    assert!(!contains_port(&ports, &port("a", "Y")));
    assert!(!contains_port(&ports, &port("b", "X")));
    assert!(!contains_port(&[], &port("a", "X")));
}

#[test]
fn remove_port_takes_out_every_occurrence() {
    let mut ports = vec![
        port("a", "X"),
        port("b", "Y"),
        port("a", "X"),
        port("c", "Z"),
        port("a", "X"),
    ];
    remove_port(&mut ports, &port("a", "X"));
    assert_eq!(ports, vec![port("b", "Y"), port("c", "Z")]);
}

#[test]
fn remove_port_keeps_the_order_of_the_others() {
    let mut ports = vec![port("d", "X"), port("a", "X"), port("c", "X"), port("b", "X")];
    remove_port(&mut ports, &port("c", "X"));
    assert_eq!(ports, vec![port("d", "X"), port("a", "X"), port("b", "X")]);
}

#[test]
fn remove_port_of_an_absent_port_changes_nothing() {
    let mut ports = vec![port("a", "X"), port("b", "Y")];
    remove_port(&mut ports, &port("a", "Y"));
    assert_eq!(ports, vec![port("a", "X"), port("b", "Y")]);
    let mut none: Vec<Port> = Vec::new();
    remove_port(&mut none, &port("a", "X"));
    assert!(none.is_empty());
}

#[test]
fn remove_port_can_empty_the_list() {
    let mut ports = vec![port("a", "X"), port("a", "X")];
    remove_port(&mut ports, &port("a", "X"));
    assert!(ports.is_empty());
}
