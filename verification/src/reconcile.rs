//! The reconciliation engine. On every tick it diffs the previously known
//! identity set against a fresh snapshot and emits exactly the row mutations
//! that bring the external table up to date: a create (with the identity
//! column) for every newly visible entity, an unconditional overwrite of all
//! display attributes for every visible entity, and a delete for every
//! identity that is no longer visible. Entities with an empty display name
//! are treated as absent.

use vstd::prelude::*;

use crate::entity::ProcessEntity;
use crate::process::{cpu_cell, disk_cell, mem_cell};
use crate::process::{cpu_cell_chars, disk_cell_chars, mem_cell_chars};
use crate::rowop::{ops_view, RowOp, RowOpModel};
use crate::text::{dec_digits, u64_to_dec};

verus! {

/// The set of identities a sequence of identities holds.
pub open spec fn id_set(ids: Seq<u64>) -> Set<u64> {
    Set::new(|id: u64| ids.contains(id))
}

/// Holds when no identity occurs twice in the sequence.
pub open spec fn distinct_seq(ids: Seq<u64>) -> bool {
    forall|i: int, j: int| 0 <= i < j < ids.len() ==> ids[i] != ids[j]
}

/// Holds when no two entities of the snapshot share an identity.
pub open spec fn distinct_ids(s: Seq<ProcessEntity>) -> bool {
    forall|i: int, j: int| 0 <= i < j < s.len() ==> s[i].pid != s[j].pid
}

/// The identities the snapshot makes visible: those of its entities whose
/// display name is non-empty.
pub open spec fn snapshot_ids(s: Seq<ProcessEntity>) -> Set<u64> {
    Set::new(
        |id: u64|
            exists|j: int|
                0 <= j < s.len() && (#[trigger] s[j]).pid == id && s[j].name@.len() > 0,
    )
}

/// The operations that establish a new row: the row itself, keyed by the
/// decimal identity, then the identity column.
pub open spec fn create_ops(e: ProcessEntity, now: u64) -> Seq<RowOpModel> {
    seq![
        RowOpModel::CreateRow { row: e.pid, key: dec_digits(e.pid as nat) },
        RowOpModel::SetCell { row: e.pid, col: 0, value: dec_digits(e.pid as nat), ts: now },
    ]
}

/// The operations that overwrite every display attribute of one entity's
/// row, columns 1 through 5, with the tick's timestamp.
pub open spec fn update_ops(e: ProcessEntity, now: u64) -> Seq<RowOpModel> {
    seq![
        RowOpModel::SetCell { row: e.pid, col: 1, value: e.name@, ts: now },
        RowOpModel::SetCell { row: e.pid, col: 2, value: e.status@, ts: now },
        RowOpModel::SetCell { row: e.pid, col: 3, value: cpu_cell_chars(e.cpu_e4 as nat), ts: now },
        RowOpModel::SetCell {
            row: e.pid,
            col: 4,
            value: mem_cell_chars(e.memory_kb as nat),
            ts: now,
        },
        RowOpModel::SetCell {
            row: e.pid,
            col: 5,
            value: disk_cell_chars(e.disk_read_bytes as nat, e.disk_written_bytes as nat),
            ts: now,
        },
    ]
}

/// What one entity contributes to a tick, given the identities known before
/// the tick: nothing if it is not visible, its full projection preceded by a
/// create if it is new, its full projection alone otherwise.
pub open spec fn entity_ops(known: Set<u64>, e: ProcessEntity, now: u64) -> Seq<RowOpModel> {
    if e.name@.len() == 0 {
        Seq::empty()
    } else if known.contains(e.pid) {
        update_ops(e, now)
    } else {
        create_ops(e, now) + update_ops(e, now)
    }
}

/// The create and update operations of a tick, in snapshot order.
pub open spec fn refresh_ops(known: Set<u64>, s: Seq<ProcessEntity>, now: u64) -> Seq<RowOpModel>
    decreases s.len(),
{
    if s.len() == 0 {
        Seq::empty()
    } else {
        entity_ops(known, s.first(), now) + refresh_ops(known, s.drop_first(), now)
    }
}

/// The delete operations of a tick: one delete for each known identity that
/// the fresh snapshot no longer makes visible, in known order.
pub open spec fn delete_ops(known: Seq<u64>, current: Set<u64>) -> Seq<RowOpModel>
    decreases known.len(),
{
    if known.len() == 0 {
        Seq::empty()
    } else {
        (if current.contains(known.first()) {
            Seq::empty()
        } else {
            seq![RowOpModel::DeleteRow { row: known.first() }]
        }) + delete_ops(known.drop_first(), current)
    }
}

/// Everything one successful tick emits: creates and updates in snapshot
/// order, then the deletes in known order.
pub open spec fn tick_ops(known: Seq<u64>, s: Seq<ProcessEntity>, now: u64) -> Seq<RowOpModel> {
    refresh_ops(id_set(known), s, now) + delete_ops(known, snapshot_ids(s))
}

/// The outcome of one Entity Source call: a full snapshot, or a failure
/// (daemon unreachable, permission denied) that must leave the table alone.
pub enum SourceOutcome {
    Snapshot(Vec<ProcessEntity>),
    Unavailable,
}

/// The reconciler's only persistent state: the identities that had a
/// visible row at the end of the last successful tick.
pub struct Reconciler {
    /// Known identities, each held once. Treat as read-only: `tick` is the
    /// only intended writer.
    pub known: Vec<u64>,
}

/// Whether the vector holds the identity.
fn contains_id(v: &Vec<u64>, id: u64) -> (b: bool)
    ensures
        b == v@.contains(id),
{
    let n = v.len();
    let mut i: usize = 0;
    while i < n
        invariant
            n == v@.len(),
            i <= n,
            forall|j: int| 0 <= j < i ==> v@[j] != id,
        decreases n - i,
    {
        if v[i] == id {
            return true;
        }
        i = i + 1;
    }
    false
}

impl Reconciler {
    /// The state invariant: no identity is known twice.
    pub open spec fn wf(&self) -> bool {
        distinct_seq(self.known@)
    }

    /// A reconciler that knows nothing yet.
    pub fn new() -> (r: Reconciler)
        ensures
            r.wf(),
            r.known@.len() == 0,
    {
        Reconciler { known: Vec::new() }
    }

    /// One reconciliation pass over a fresh snapshot. Returns exactly the
    /// operations of [`tick_ops`], and afterwards knows exactly the
    /// identities the snapshot makes visible.
    pub fn tick(&mut self, snapshot: &Vec<ProcessEntity>, now: u64) -> (ops: Vec<RowOp>)
        requires
            old(self).wf(),
        ensures
            final(self).wf(),
            id_set(final(self).known@) == snapshot_ids(snapshot@),
            ops_view(ops@) == tick_ops(old(self).known@, snapshot@, now),
    {
        let ghost k = id_set(self.known@);
        let ghost svw = snapshot@;
        let mut ops: Vec<RowOp> = Vec::new();
        let mut next_known: Vec<u64> = Vec::new();
        let n = snapshot.len();
        let mut i: usize = 0;
        proof {
            assert(svw.skip(0) =~= svw);
            assert(ops_view(ops@) + refresh_ops(k, svw, now) =~= refresh_ops(k, svw, now));
        }
        while i < n
            invariant
                self.known@ == old(self).known@,
                n == svw.len(),
                svw == snapshot@,
                i <= n,
                k == id_set(self.known@),
                ops_view(ops@) + refresh_ops(k, svw.skip(i as int), now) == refresh_ops(
                    k,
                    svw,
                    now,
                ),
                distinct_seq(next_known@),
                forall|id: u64| #[trigger]
                    next_known@.contains(id) <==> snapshot_ids(svw.take(i as int)).contains(id),
            decreases n - i,
        {
            let ghost ops0 = ops@;
            let ghost nk0 = next_known@;
            proof {
                assert(svw.skip(i as int).first() == svw[i as int]);
                assert(svw.skip(i as int).drop_first() =~= svw.skip(i as int + 1));
            }
            let e = &snapshot[i];
            if !e.name.as_str().is_empty() {
                if !contains_id(&self.known, e.pid) {
                    let key = u64_to_dec(e.pid);
                    let id_cell = u64_to_dec(e.pid);
                    ops.push(RowOp::CreateRow { row: e.pid, key });
                    ops.push(RowOp::SetCell { row: e.pid, col: 0, value: id_cell, ts: now });
                }
                ops.push(RowOp::SetCell { row: e.pid, col: 1, value: e.name.clone(), ts: now });
                ops.push(RowOp::SetCell { row: e.pid, col: 2, value: e.status.clone(), ts: now });
                ops.push(RowOp::SetCell { row: e.pid, col: 3, value: cpu_cell(e.cpu_e4), ts: now });
                ops.push(
                    RowOp::SetCell { row: e.pid, col: 4, value: mem_cell(e.memory_kb), ts: now },
                );
                ops.push(
                    RowOp::SetCell {
                        row: e.pid,
                        col: 5,
                        value: disk_cell(e.disk_read_bytes, e.disk_written_bytes),
                        ts: now,
                    },
                );
                if !contains_id(&next_known, e.pid) {
                    next_known.push(e.pid);
                }
            }
            proof {
                assert(ops_view(ops@) =~= ops_view(ops0) + entity_ops(k, svw[i as int], now));
                assert(refresh_ops(k, svw.skip(i as int), now) == entity_ops(k, svw[i as int], now)
                    + refresh_ops(k, svw.skip(i as int + 1), now));
                assert(ops_view(ops@) + refresh_ops(k, svw.skip(i as int + 1), now)
                    =~= ops_view(ops0) + refresh_ops(k, svw.skip(i as int), now));
                broadcast use vstd::seq_lib::lemma_seq_contains_after_push;

                assert forall|id: u64| #[trigger]
                    next_known@.contains(id) <==> snapshot_ids(
                        svw.take(i as int + 1),
                    ).contains(id) by {
                    lemma_snapshot_ids_take_step(svw, i as int, id);
                    assert(next_known@.contains(id) <==> (nk0.contains(id) || (svw[
                        i as int
                    ].name@.len() > 0 && id == svw[i as int].pid)));
                }
            }
            i = i + 1;
        }
        let ghost cur = snapshot_ids(svw);
        let m = self.known.len();
        let mut j: usize = 0;
        proof {
            assert(svw.take(n as int) =~= svw);
            assert(svw.skip(n as int) =~= Seq::<ProcessEntity>::empty());
            assert(ops_view(ops@) =~= refresh_ops(k, svw, now));
            assert(self.known@.skip(0) =~= self.known@);
            assert(ops_view(ops@) + delete_ops(self.known@, cur) =~= refresh_ops(k, svw, now)
                + delete_ops(self.known@, cur));
        }
        while j < m
            invariant
                self.known@ == old(self).known@,
                m == self.known@.len(),
                j <= m,
                cur == snapshot_ids(svw),
                svw == snapshot@,
                k == id_set(old(self).known@),
                forall|id: u64| #[trigger] next_known@.contains(id) <==> cur.contains(id),
                distinct_seq(next_known@),
                ops_view(ops@) + delete_ops(self.known@.skip(j as int), cur) == refresh_ops(
                    k,
                    svw,
                    now,
                ) + delete_ops(self.known@, cur),
            decreases m - j,
        {
            let ghost ops0 = ops@;
            proof {
                assert(self.known@.skip(j as int).first() == self.known@[j as int]);
                assert(self.known@.skip(j as int).drop_first() =~= self.known@.skip(j as int + 1));
            }
            let id = self.known[j];
            if !contains_id(&next_known, id) {
                ops.push(RowOp::DeleteRow { row: id });
            }
            proof {
                assert(delete_ops(self.known@.skip(j as int), cur) == (if cur.contains(
                    self.known@[j as int],
                ) {
                    Seq::<RowOpModel>::empty()
                } else {
                    seq![RowOpModel::DeleteRow { row: self.known@[j as int] }]
                }) + delete_ops(self.known@.skip(j as int + 1), cur));
                assert(ops_view(ops@) + delete_ops(self.known@.skip(j as int + 1), cur)
                    =~= ops_view(ops0) + delete_ops(self.known@.skip(j as int), cur));
            }
            j = j + 1;
        }
        proof {
            assert(self.known@.skip(m as int) =~= Seq::<u64>::empty());
            assert(ops_view(ops@) =~= refresh_ops(k, svw, now) + delete_ops(self.known@, cur));
            assert(id_set(next_known@) =~= snapshot_ids(svw));
        }
        self.known = next_known;
        ops
    }

    /// One scheduler step: reconcile on a snapshot; on a source failure,
    /// change nothing and emit nothing, so the table keeps its prior state
    /// until the next tick retries.
    pub fn on_tick(&mut self, outcome: &SourceOutcome, now: u64) -> (ops: Vec<RowOp>)
        requires
            old(self).wf(),
        ensures
            final(self).wf(),
            outcome matches SourceOutcome::Snapshot(s) ==> id_set(final(self).known@)
                == snapshot_ids(s@) && ops_view(ops@) == tick_ops(old(self).known@, s@, now),
            outcome matches SourceOutcome::Unavailable ==> final(self).known@ == old(self).known@
                && ops@.len() == 0,
    {
        match outcome {
            SourceOutcome::Snapshot(s) => self.tick(s, now),
            SourceOutcome::Unavailable => Vec::new(),
        }
    }
}

/// Visibility in a one-longer prefix differs from the shorter prefix exactly
/// by the entity at the boundary, when that entity is visible.
proof fn lemma_snapshot_ids_take_step(s: Seq<ProcessEntity>, i: int, id: u64)
    requires
        0 <= i < s.len(),
    ensures
        snapshot_ids(s.take(i + 1)).contains(id) <==> (snapshot_ids(s.take(i)).contains(id) || (
        s[i].pid == id && s[i].name@.len() > 0)),
{
    let a = s.take(i);
    let b = s.take(i + 1);
    assert(b[i] == s[i]);
    if snapshot_ids(b).contains(id) {
        let j = choose|j: int| 0 <= j < b.len() && (#[trigger] b[j]).pid == id && b[j].name@.len()
            > 0;
        if j < i {
            assert(a[j] == b[j]);
            assert(snapshot_ids(a).contains(id));
        }
    }
    if snapshot_ids(a).contains(id) {
        let j = choose|j: int| 0 <= j < a.len() && (#[trigger] a[j]).pid == id && a[j].name@.len()
            > 0;
        assert(b[j] == a[j]);
        assert(snapshot_ids(b).contains(id));
    }
    if s[i].pid == id && s[i].name@.len() > 0 {
        assert(snapshot_ids(b).contains(id));
    }
}

} // verus!
