use std::collections::{HashMap, HashSet};

use osmon::entity::ProcessEntity;
use osmon::reconcile::{Reconciler, SourceOutcome};
use osmon::rowop::RowOp;

fn entity(pid: u64, name: &str) -> ProcessEntity {
    ProcessEntity {
        pid,
        name: name.to_string(),
        status: "Running".to_string(),
        cpu_e4: 12500,
        memory_kb: 2048,
        disk_read_bytes: 1000000,
        disk_written_bytes: 500000,
    }
}

fn creates(ops: &[RowOp]) -> Vec<u64> {
    ops.iter()
        .filter_map(|op| match op {
            RowOp::CreateRow { row, .. } => Some(*row),
            _ => None,
        })
        .collect()
}

fn deletes(ops: &[RowOp]) -> Vec<u64> {
    ops.iter()
        .filter_map(|op| match op {
            RowOp::DeleteRow { row } => Some(*row),
            _ => None,
        })
        .collect()
}

fn set_cell_rows(ops: &[RowOp]) -> HashSet<u64> {
    ops.iter()
        .filter_map(|op| match op {
            RowOp::SetCell { row, .. } => Some(*row),
            _ => None,
        })
        .collect()
}

/// A fake sink: replays the operations against a row set and a cell map,
/// as the live table would.
fn apply(rows: &mut HashSet<u64>, cells: &mut HashMap<(u64, u64), String>, ops: &[RowOp]) {
    for op in ops {
        match op {
            RowOp::CreateRow { row, .. } => {
                rows.insert(*row);
            }
            RowOp::SetCell { row, col, value, .. } => {
                cells.insert((*row, *col), value.clone());
            }
            RowOp::DeleteRow { row } => {
                rows.remove(row);
            }
        }
    }
}

#[test]
fn two_tick_scenario() {
    let mut r = Reconciler::new();
    let snap1 = vec![entity(100, "a"), entity(200, "b")];
    let ops1 = r.tick(&snap1, 1);
    assert_eq!(creates(&ops1), vec![100, 200]);
    assert_eq!(deletes(&ops1), Vec::<u64>::new());
    let known1: HashSet<u64> = r.known.iter().copied().collect();
    assert_eq!(known1, HashSet::from([100, 200]));

    let snap2 = vec![entity(200, "b"), entity(300, "c")];
    let ops2 = r.tick(&snap2, 2);
    assert_eq!(creates(&ops2), vec![300]);
    assert_eq!(deletes(&ops2), vec![100]);
    // attribute updates touch exactly the rows of the fresh snapshot
    assert_eq!(set_cell_rows(&ops2), HashSet::from([200, 300]));
    let known2: HashSet<u64> = r.known.iter().copied().collect();
    assert_eq!(known2, HashSet::from([200, 300]));
}

#[test]
fn create_carries_key_and_identity_column() {
    let mut r = Reconciler::new();
    let ops = r.tick(&vec![entity(42, "init")], 7);
    match &ops[0] {
        RowOp::CreateRow { row, key } => {
            assert_eq!(*row, 42);
            assert_eq!(key, "42");
        }
        other => panic!("expected a create first, got {:?}", discriminant_name(other)),
    }
    match &ops[1] {
        RowOp::SetCell { row, col, value, ts } => {
            assert_eq!((*row, *col), (42, 0));
            assert_eq!(value, "42");
            assert_eq!(*ts, 7);
        }
        other => panic!("expected the identity column, got {:?}", discriminant_name(other)),
    }
}

fn discriminant_name(op: &RowOp) -> &'static str {
    match op {
        RowOp::CreateRow { .. } => "CreateRow",
        RowOp::SetCell { .. } => "SetCell",
        RowOp::DeleteRow { .. } => "DeleteRow",
    }
}

#[test]
fn update_cells_carry_projected_values() {
    let mut r = Reconciler::new();
    let ops = r.tick(&vec![entity(9, "proc")], 3);
    let mut rows = HashSet::new();
    let mut cells = HashMap::new();
    apply(&mut rows, &mut cells, &ops);
    assert_eq!(cells[&(9, 0)], "9");
    assert_eq!(cells[&(9, 1)], "proc");
    assert_eq!(cells[&(9, 2)], "Running");
    assert_eq!(cells[&(9, 3)], "1.2500%");
    assert_eq!(cells[&(9, 4)], "2.048");
    assert_eq!(cells[&(9, 5)], "1.000 / 0.500");
}

#[test]
fn empty_name_filtered_until_named() {
    let mut r = Reconciler::new();
    let ops1 = r.tick(&vec![entity(400, "")], 1);
    assert!(ops1.is_empty());
    assert!(r.known.is_empty());

    let ops2 = r.tick(&vec![entity(400, "x")], 2);
    assert_eq!(creates(&ops2), vec![400]);
    let known: HashSet<u64> = r.known.iter().copied().collect();
    assert_eq!(known, HashSet::from([400]));
}

#[test]
fn name_turning_empty_deletes_the_row() {
    let mut r = Reconciler::new();
    r.tick(&vec![entity(500, "x")], 1);
    let ops = r.tick(&vec![entity(500, "")], 2);
    assert_eq!(creates(&ops), Vec::<u64>::new());
    assert_eq!(deletes(&ops), vec![500]);
    assert!(r.known.is_empty());
}

#[test]
fn convergence_over_a_snapshot_sequence() {
    let mut r = Reconciler::new();
    let mut rows = HashSet::new();
    let mut cells = HashMap::new();

    let snapshots = vec![
        vec![entity(1, "a"), entity(2, "b")],
        vec![entity(2, "b"), entity(3, "c"), entity(4, "")],
        vec![],
        vec![entity(5, "e")],
    ];
    let visible: Vec<HashSet<u64>> = vec![
        HashSet::from([1, 2]),
        HashSet::from([2, 3]),
        HashSet::new(),
        HashSet::from([5]),
    ];
    for (i, snap) in snapshots.iter().enumerate() {
        let ops = r.tick(snap, i as u64);
        apply(&mut rows, &mut cells, &ops);
        assert_eq!(rows, visible[i]);
    }
}

#[test]
fn no_duplicate_create_across_consecutive_ticks() {
    let mut r = Reconciler::new();
    let ops1 = r.tick(&vec![entity(77, "p")], 1);
    let ops2 = r.tick(&vec![entity(77, "p")], 2);
    let total = creates(&ops1).iter().filter(|&&id| id == 77).count()
        + creates(&ops2).iter().filter(|&&id| id == 77).count();
    assert_eq!(total, 1);
}

#[test]
fn vanished_identity_deleted_exactly_once() {
    let mut r = Reconciler::new();
    r.tick(&vec![entity(8, "gone")], 1);
    let ops = r.tick(&vec![], 2);
    assert_eq!(deletes(&ops), vec![8]);
}

#[test]
fn repeating_a_snapshot_is_idempotent() {
    let mut r = Reconciler::new();
    let snap = vec![entity(10, "a"), entity(20, "b")];
    let ops1 = r.tick(&snap, 1);
    let mut rows = HashSet::new();
    let mut cells = HashMap::new();
    apply(&mut rows, &mut cells, &ops1);
    let rows_after_first = rows.clone();
    let cells_after_first = cells.clone();

    let ops2 = r.tick(&snap, 2);
    assert!(creates(&ops2).is_empty());
    assert!(deletes(&ops2).is_empty());
    apply(&mut rows, &mut cells, &ops2);
    assert_eq!(rows, rows_after_first);
    assert_eq!(cells, cells_after_first);
}

#[test]
fn reappearing_identity_is_a_new_row() {
    let mut r = Reconciler::new();
    r.tick(&vec![entity(100, "a")], 1);
    r.tick(&vec![], 2);
    // the identity comes back after an absence window: created again
    let ops = r.tick(&vec![entity(100, "a")], 3);
    assert_eq!(creates(&ops), vec![100]);
}

#[test]
fn updates_carry_the_tick_timestamp() {
    let mut r = Reconciler::new();
    let ops = r.tick(&vec![entity(1, "a"), entity(2, "b")], 99);
    for op in &ops {
        if let RowOp::SetCell { ts, .. } = op {
            assert_eq!(*ts, 99);
        }
    }
}

#[test]
fn source_failure_changes_nothing() {
    let mut r = Reconciler::new();
    let snap = vec![entity(1, "a")];
    let ops = r.on_tick(&SourceOutcome::Snapshot(snap), 1);
    let mut rows = HashSet::new();
    let mut cells = HashMap::new();
    apply(&mut rows, &mut cells, &ops);
    let known_before = r.known.clone();

    let ops_failed = r.on_tick(&SourceOutcome::Unavailable, 2);
    assert!(ops_failed.is_empty());
    assert_eq!(r.known, known_before);
    apply(&mut rows, &mut cells, &ops_failed);
    assert_eq!(rows, HashSet::from([1]));
}
