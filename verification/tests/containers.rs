use std::collections::HashMap;

use osmon::container::enumerate_containers;
use osmon::entity::{ContainerEntity, PortBinding};
use osmon::rowop::RowOp;

fn container(id: &str) -> ContainerEntity {
    ContainerEntity {
        id: id.to_string(),
        created_secs: 0,
        command: "/bin/sh".to_string(),
        image: "alpine:latest".to_string(),
        labels: vec![("app".to_string(), "web".to_string())],
        names: vec!["/web".to_string()],
        ports: vec![
            PortBinding {
                ip: Some("0.0.0.0".to_string()),
                private_port: 80,
                public_port: Some(8080),
            },
            PortBinding { ip: None, private_port: 443, public_port: None },
        ],
        state: "running".to_string(),
        status: "Up 2 hours".to_string(),
        size_rw: None,
    }
}

fn cell_map(ops: &[RowOp]) -> HashMap<(u64, u64), String> {
    let mut cells = HashMap::new();
    for op in ops {
        if let RowOp::SetCell { row, col, value, .. } = op {
            cells.insert((*row, *col), value.clone());
        }
    }
    cells
}

#[test]
fn one_container_full_projection() {
    let ops = enumerate_containers(&vec![container("abc123")], 5);
    match &ops[0] {
        RowOp::CreateRow { row, key } => {
            assert_eq!(*row, 0);
            assert_eq!(key, "abc123");
        }
        _ => panic!("expected the row create first"),
    }
    let cells = cell_map(&ops);
    assert_eq!(cells[&(0, 0)], "Thu, 1 Jan 1970 00:00:00 +0000");
    assert_eq!(cells[&(0, 1)], "/bin/sh");
    assert_eq!(cells[&(0, 2)], "abc123");
    assert_eq!(cells[&(0, 3)], "alpine:latest");
    assert_eq!(cells[&(0, 4)], "app: web");
    assert_eq!(cells[&(0, 5)], "/web");
    assert_eq!(cells[&(0, 6)], "0.0.0.0:80, 8080");
    assert_eq!(cells[&(0, 7)], "running");
    assert_eq!(cells[&(0, 8)], "Up 2 hours");
    assert_eq!(cells[&(0, 9)], "0");
}

#[test]
fn containers_keyed_by_enumeration_order() {
    let ops = enumerate_containers(&vec![container("first"), container("second")], 1);
    let creates: Vec<(u64, String)> = ops
        .iter()
        .filter_map(|op| match op {
            RowOp::CreateRow { row, key } => Some((*row, key.clone())),
            _ => None,
        })
        .collect();
    assert_eq!(creates, vec![(0, "first".to_string()), (1, "second".to_string())]);
    // eleven operations per container: the create and ten cells
    assert_eq!(ops.len(), 22);
}

#[test]
fn empty_enumeration_emits_nothing() {
    let ops = enumerate_containers(&Vec::new(), 1);
    assert!(ops.is_empty());
}
