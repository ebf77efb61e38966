use osmon::container::{
    container_columns, created_cell, labels_line, names_line, ports_line, size_rw_cell,
};
use osmon::entity::PortBinding;
use osmon::process::{cpu_cell, disk_cell, mem_cell, process_columns};
use osmon::text::{join_all, u64_to_dec, u64_to_padded};

#[test]
fn decimal_rendering() {
    assert_eq!(u64_to_dec(0), "0");
    assert_eq!(u64_to_dec(7), "7");
    assert_eq!(u64_to_dec(1234567), "1234567");
    assert_eq!(u64_to_dec(u64::MAX), "18446744073709551615");
}

#[test]
fn padded_rendering() {
    assert_eq!(u64_to_padded(5, 4), "0005");
    assert_eq!(u64_to_padded(123, 3), "123");
    assert_eq!(u64_to_padded(0, 3), "000");
    assert_eq!(u64_to_padded(98765, 3), "765");
}

#[test]
fn cpu_cell_formatting() {
    assert_eq!(cpu_cell(123456), "12.3456%");
    assert_eq!(cpu_cell(0), "0.0000%");
    assert_eq!(cpu_cell(5), "0.0005%");
    assert_eq!(cpu_cell(1000000), "100.0000%");
}

#[test]
fn mem_cell_formatting() {
    assert_eq!(mem_cell(1500), "1.500");
    assert_eq!(mem_cell(999), "0.999");
    assert_eq!(mem_cell(0), "0.000");
    assert_eq!(mem_cell(123456), "123.456");
}

#[test]
fn disk_cell_formatting() {
    assert_eq!(disk_cell(2500000, 1000000), "2.500 / 1.000");
    assert_eq!(disk_cell(1999, 0), "0.001 / 0.000");
    assert_eq!(disk_cell(0, 0), "0.000 / 0.000");
}

#[test]
fn join_with_separator() {
    let items = vec!["a".to_string(), "b".to_string(), "c".to_string()];
    assert_eq!(join_all(&items, ", "), "a, b, c");
    let one = vec!["only".to_string()];
    assert_eq!(join_all(&one, ", "), "only");
    let none: Vec<String> = Vec::new();
    assert_eq!(join_all(&none, ", "), "");
}

#[test]
fn ports_cell_mixed_bindings() {
    let ports = vec![
        PortBinding {
            ip: Some("0.0.0.0".to_string()),
            private_port: 80,
            public_port: Some(8080),
        },
        PortBinding { ip: None, private_port: 443, public_port: None },
    ];
    assert_eq!(ports_line(&ports), "0.0.0.0:80, 8080");
}

#[test]
fn ports_cell_edge_cases() {
    let none: Vec<PortBinding> = Vec::new();
    assert_eq!(ports_line(&none), "");
    let unpublished = vec![PortBinding {
        ip: Some("127.0.0.1".to_string()),
        private_port: 443,
        public_port: None,
    }];
    assert_eq!(ports_line(&unpublished), "127.0.0.1:443");
    let two = vec![
        PortBinding { ip: Some("10.0.0.1".to_string()), private_port: 80, public_port: None },
        PortBinding { ip: Some("10.0.0.2".to_string()), private_port: 81, public_port: Some(91) },
    ];
    assert_eq!(ports_line(&two), "10.0.0.1:80, 10.0.0.2:81, 91");
}

#[test]
fn labels_cell_formatting() {
    let labels = vec![
        ("app".to_string(), "web".to_string()),
        ("tier".to_string(), "front".to_string()),
    ];
    assert_eq!(labels_line(&labels), "app: web, tier: front");
    let none: Vec<(String, String)> = Vec::new();
    assert_eq!(labels_line(&none), "");
}

#[test]
fn names_cell_formatting() {
    let names = vec!["/web".to_string(), "/web-old".to_string()];
    assert_eq!(names_line(&names), "/web,/web-old");
    let none: Vec<String> = Vec::new();
    assert_eq!(names_line(&none), "");
}

#[test]
fn size_cell_formatting() {
    assert_eq!(size_rw_cell(&Some(42)), "42");
    assert_eq!(size_rw_cell(&None), "0");
}

#[test]
fn created_cell_rfc2822() {
    assert_eq!(created_cell(0), "Thu, 1 Jan 1970 00:00:00 +0000");
    assert_eq!(created_cell(1431648000), "Fri, 15 May 2015 00:00:00 +0000");
}

#[test]
fn created_cell_unrepresentable() {
    assert_eq!(created_cell(i64::MIN), "");
    assert_eq!(created_cell(i64::MAX), "");
}

#[test]
fn column_schemas() {
    let proc_cols = process_columns();
    let labels: Vec<&str> = proc_cols.iter().map(|c| c.1.as_str()).collect();
    assert_eq!(
        labels,
        vec!["PID", "Process Name", "Status", "Cpu Usage", "Memory Usage (Mb)",
            "Disk Usage (Mb) R/W"]
    );
    let cont_cols = container_columns();
    let labels: Vec<&str> = cont_cols.iter().map(|c| c.1.as_str()).collect();
    assert_eq!(
        labels,
        vec!["created", "command", "id", "image", "labels", "names", "ports", "state", "status",
            "size_rw"]
    );
    for (i, c) in proc_cols.iter().enumerate() {
        assert_eq!(c.0, i as u64);
    }
    for (i, c) in cont_cols.iter().enumerate() {
        assert_eq!(c.0, i as u64);
    }
}
