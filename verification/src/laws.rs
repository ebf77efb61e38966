//! The properties the reconciler is accountable for, proved against the
//! sink model of [`crate::rowop`] and the operation specs of
//! [`crate::reconcile`]: convergence of the visible row set, at most one
//! create per identity across consecutive ticks, exactly one delete for a
//! vanished identity, idempotence of a repeated snapshot, and isolation of
//! source failures.

use vstd::prelude::*;

use crate::entity::ProcessEntity;
use crate::reconcile::{
    create_ops, delete_ops, distinct_ids, distinct_seq, entity_ops, id_set, refresh_ops,
    snapshot_ids, tick_ops, update_ops,
};
use crate::process::{cpu_cell_chars, disk_cell_chars, mem_cell_chars};
use crate::rowop::{
    apply_cells, apply_rows, create_count, delete_count, lemma_apply_cells_concat,
    lemma_apply_rows_concat, mutation_free, RowOpModel,
};
use crate::text::dec_digits;

verus! {

/// A non-empty snapshot makes visible its first entity's identity (when
/// named) together with whatever the rest makes visible.
proof fn lemma_snapshot_ids_unfold(s: Seq<ProcessEntity>)
    requires
        s.len() > 0,
    ensures
        snapshot_ids(s) == (if s.first().name@.len() > 0 {
            snapshot_ids(s.drop_first()).insert(s.first().pid)
        } else {
            snapshot_ids(s.drop_first())
        }),
{
    let rest = s.drop_first();
    let e = s.first();
    let target = if e.name@.len() > 0 {
        snapshot_ids(rest).insert(e.pid)
    } else {
        snapshot_ids(rest)
    };
    assert forall|id: u64| snapshot_ids(s).contains(id) implies target.contains(id) by {
        let j = choose|j: int|
            0 <= j < s.len() && (#[trigger] s[j]).pid == id && s[j].name@.len() > 0;
        if j > 0 {
            assert(rest[j - 1] == s[j]);
            assert(snapshot_ids(rest).contains(id));
        }
    }
    assert forall|id: u64| target.contains(id) implies snapshot_ids(s).contains(id) by {
        if snapshot_ids(rest).contains(id) {
            let j = choose|j: int|
                0 <= j < rest.len() && (#[trigger] rest[j]).pid == id && rest[j].name@.len() > 0;
            assert(s[j + 1] == rest[j]);
        } else {
            assert(s[0].pid == id && s[0].name@.len() > 0);
        }
    }
    assert(snapshot_ids(s) =~= target);
}

/// An empty snapshot makes nothing visible.
proof fn lemma_snapshot_ids_empty(s: Seq<ProcessEntity>)
    requires
        s.len() == 0,
    ensures
        snapshot_ids(s) =~= Set::<u64>::empty(),
{
}

/// The identities of a non-empty sequence are its first one and the rest's.
proof fn lemma_id_set_unfold(ids: Seq<u64>)
    requires
        ids.len() > 0,
    ensures
        id_set(ids) == id_set(ids.drop_first()).insert(ids.first()),
{
    let rest = ids.drop_first();
    let target = id_set(rest).insert(ids.first());
    assert forall|x: u64| id_set(ids).contains(x) implies target.contains(x) by {
        let j = choose|j: int| 0 <= j < ids.len() && ids[j] == x;
        if j > 0 {
            assert(rest[j - 1] == x);
            assert(rest.contains(x));
        }
    }
    assert forall|x: u64| target.contains(x) implies id_set(ids).contains(x) by {
        if id_set(rest).contains(x) {
            let j = choose|j: int| 0 <= j < rest.len() && rest[j] == x;
            assert(ids[j + 1] == x);
            assert(ids.contains(x));
        } else {
            assert(ids[0] == x);
            assert(ids.contains(x));
        }
    }
    assert(id_set(ids) =~= target);
}

/// The full attribute projection creates and deletes nothing.
proof fn lemma_update_mutation_free(e: ProcessEntity, now: u64)
    ensures
        mutation_free(update_ops(e, now)),
{
    let ops = update_ops(e, now);
    assert forall|i: int| 0 <= i < ops.len() implies (#[trigger] ops[i]) matches
        RowOpModel::SetCell { .. } by {
        if i == 0 {
        } else if i == 1 {
        } else if i == 2 {
        } else if i == 3 {
        } else {
            assert(i == 4);
        }
    }
}

/// Operations that only overwrite cells leave the row set alone.
proof fn lemma_apply_rows_mutation_free(rows: Set<u64>, ops: Seq<RowOpModel>)
    requires
        mutation_free(ops),
    ensures
        apply_rows(rows, ops) == rows,
    decreases ops.len(),
{
    if ops.len() > 0 {
        assert(ops[0] matches RowOpModel::SetCell { .. });
        assert forall|i: int| 0 <= i < ops.drop_first().len() implies (#[trigger] ops.drop_first()[
            i
        ]) matches RowOpModel::SetCell { .. } by {
            assert(ops.drop_first()[i] == ops[i + 1]);
        }
        lemma_apply_rows_mutation_free(rows, ops.drop_first());
    }
}

/// Establishing a row adds exactly its identity to the row set.
proof fn lemma_apply_rows_create(rows: Set<u64>, e: ProcessEntity, now: u64)
    ensures
        apply_rows(rows, create_ops(e, now)) == rows.insert(e.pid),
{
    let ops = create_ops(e, now);
    let r1 = rows.insert(e.pid);
    assert(ops.drop_first().drop_first() =~= Seq::<RowOpModel>::empty());
    assert(apply_rows(r1, ops.drop_first().drop_first()) == r1);
    assert(apply_rows(r1, ops.drop_first()) == r1);
    assert(apply_rows(rows, ops) == apply_rows(r1, ops.drop_first()));
}

/// After the create and update phase, the row set has gained exactly the
/// snapshot's visible identities that were not yet known.
proof fn lemma_refresh_rows(rows: Set<u64>, k: Set<u64>, s: Seq<ProcessEntity>, now: u64)
    ensures
        apply_rows(rows, refresh_ops(k, s, now)) == rows.union(snapshot_ids(s).difference(k)),
    decreases s.len(),
{
    if s.len() == 0 {
        lemma_snapshot_ids_empty(s);
        assert(rows.union(snapshot_ids(s).difference(k)) =~= rows);
    } else {
        let e = s.first();
        let rest = s.drop_first();
        lemma_snapshot_ids_unfold(s);
        let eops = entity_ops(k, e, now);
        let rops = refresh_ops(k, rest, now);
        assert(refresh_ops(k, s, now) == eops + rops);
        lemma_apply_rows_concat(rows, eops, rops);
        if e.name@.len() == 0 {
            assert(apply_rows(rows, eops) == rows);
            lemma_refresh_rows(rows, k, rest, now);
            assert(rows.union(snapshot_ids(s).difference(k)) =~= rows.union(
                snapshot_ids(rest).difference(k),
            ));
        } else if k.contains(e.pid) {
            lemma_update_mutation_free(e, now);
            lemma_apply_rows_mutation_free(rows, eops);
            lemma_refresh_rows(rows, k, rest, now);
            assert(rows.union(snapshot_ids(s).difference(k)) =~= rows.union(
                snapshot_ids(rest).difference(k),
            ));
        } else {
            assert(eops == create_ops(e, now) + update_ops(e, now));
            lemma_apply_rows_concat(rows, create_ops(e, now), update_ops(e, now));
            lemma_apply_rows_create(rows, e, now);
            lemma_update_mutation_free(e, now);
            lemma_apply_rows_mutation_free(rows.insert(e.pid), update_ops(e, now));
            lemma_refresh_rows(rows.insert(e.pid), k, rest, now);
            assert(rows.insert(e.pid).union(snapshot_ids(rest).difference(k)) =~= rows.union(
                snapshot_ids(s).difference(k),
            ));
        }
    }
}

/// After the delete phase, the row set has lost exactly the known
/// identities that are no longer visible.
proof fn lemma_delete_rows(rows: Set<u64>, known: Seq<u64>, cur: Set<u64>)
    ensures
        apply_rows(rows, delete_ops(known, cur)) == rows.difference(
            id_set(known).difference(cur),
        ),
    decreases known.len(),
{
    if known.len() == 0 {
        assert(id_set(known) =~= Set::<u64>::empty());
        assert(rows.difference(id_set(known).difference(cur)) =~= rows);
    } else {
        let id0 = known.first();
        let rest = known.drop_first();
        lemma_id_set_unfold(known);
        if cur.contains(id0) {
            assert(delete_ops(known, cur) =~= delete_ops(rest, cur));
            lemma_delete_rows(rows, rest, cur);
            assert(rows.difference(id_set(rest).difference(cur)) =~= rows.difference(
                id_set(known).difference(cur),
            ));
        } else {
            let del = seq![RowOpModel::DeleteRow { row: id0 }];
            assert(delete_ops(known, cur) == del + delete_ops(rest, cur));
            lemma_apply_rows_concat(rows, del, delete_ops(rest, cur));
            assert(del.drop_first() =~= Seq::<RowOpModel>::empty());
            assert(apply_rows(rows.remove(id0), del.drop_first()) == rows.remove(id0));
            assert(apply_rows(rows, del) == rows.remove(id0));
            lemma_delete_rows(rows.remove(id0), rest, cur);
            assert(rows.remove(id0).difference(id_set(rest).difference(cur)) =~= rows.difference(
                id_set(known).difference(cur),
            ));
        }
    }
}

/// Convergence: starting from a table whose rows are exactly the known
/// identities, one successful tick leaves visible exactly the identities of
/// the fresh snapshot with a non-empty display name.
pub proof fn lemma_convergence(rows: Set<u64>, known: Seq<u64>, s: Seq<ProcessEntity>, now: u64)
    requires
        rows == id_set(known),
    ensures
        apply_rows(rows, tick_ops(known, s, now)) == snapshot_ids(s),
{
    let refresh = refresh_ops(id_set(known), s, now);
    let deletes = delete_ops(known, snapshot_ids(s));
    lemma_apply_rows_concat(rows, refresh, deletes);
    lemma_refresh_rows(rows, id_set(known), s, now);
    lemma_delete_rows(rows.union(snapshot_ids(s).difference(id_set(known))), known, snapshot_ids(s));
    assert(rows.union(snapshot_ids(s).difference(rows)).difference(
        id_set(known).difference(snapshot_ids(s)),
    ) =~= snapshot_ids(s));
}

/// Failure isolation: a tick that emits no operations leaves the visible
/// row set exactly as it was. Together with the contract of
/// `Reconciler::on_tick` on an unavailable source (no operations, known set
/// unchanged) this pins the table after a failed tick to the table after
/// the previous tick.
pub proof fn lemma_failure_isolation(rows: Set<u64>)
    ensures
        apply_rows(rows, Seq::<RowOpModel>::empty()) == rows,
{
}

/// Creates in a concatenation are the creates of both halves.
proof fn lemma_create_count_concat(a: Seq<RowOpModel>, b: Seq<RowOpModel>, id: u64)
    ensures
        create_count(a + b, id) == create_count(a, id) + create_count(b, id),
    decreases a.len(),
{
    if a.len() == 0 {
        assert(a + b =~= b);
    } else {
        assert((a + b).first() == a.first());
        assert((a + b).drop_first() =~= a.drop_first() + b);
        lemma_create_count_concat(a.drop_first(), b, id);
    }
}

/// Deletes in a concatenation are the deletes of both halves.
proof fn lemma_delete_count_concat(a: Seq<RowOpModel>, b: Seq<RowOpModel>, id: u64)
    ensures
        delete_count(a + b, id) == delete_count(a, id) + delete_count(b, id),
    decreases a.len(),
{
    if a.len() == 0 {
        assert(a + b =~= b);
    } else {
        assert((a + b).first() == a.first());
        assert((a + b).drop_first() =~= a.drop_first() + b);
        lemma_delete_count_concat(a.drop_first(), b, id);
    }
}

/// Cell overwrites neither create nor delete.
proof fn lemma_counts_mutation_free(ops: Seq<RowOpModel>, id: u64)
    requires
        mutation_free(ops),
    ensures
        create_count(ops, id) == 0,
        delete_count(ops, id) == 0,
    decreases ops.len(),
{
    if ops.len() > 0 {
        assert(ops[0] matches RowOpModel::SetCell { .. });
        assert forall|i: int| 0 <= i < ops.drop_first().len() implies (#[trigger] ops.drop_first()[
            i
        ]) matches RowOpModel::SetCell { .. } by {
            assert(ops.drop_first()[i] == ops[i + 1]);
        }
        lemma_counts_mutation_free(ops.drop_first(), id);
    }
}

/// What one entity's contribution creates: one create of its own row when
/// it is visible and new, nothing else, and never a delete.
proof fn lemma_entity_ops_counts(k: Set<u64>, e: ProcessEntity, now: u64, id: u64)
    ensures
        create_count(entity_ops(k, e, now), id) == (if e.name@.len() > 0 && !k.contains(e.pid)
            && e.pid == id {
            1nat
        } else {
            0nat
        }),
        delete_count(entity_ops(k, e, now), id) == 0,
{
    lemma_update_mutation_free(e, now);
    lemma_counts_mutation_free(update_ops(e, now), id);
    if e.name@.len() > 0 && !k.contains(e.pid) {
        let c = create_ops(e, now);
        assert(c.drop_first().drop_first() =~= Seq::<RowOpModel>::empty());
        assert(create_count(c.drop_first().drop_first(), id) == 0);
        assert(create_count(c.drop_first(), id) == 0);
        assert(create_count(c, id) == (if e.pid == id {
            1nat
        } else {
            0nat
        }));
        assert(delete_count(c.drop_first().drop_first(), id) == 0);
        assert(delete_count(c.drop_first(), id) == 0);
        assert(delete_count(c, id) == 0);
        lemma_create_count_concat(c, update_ops(e, now), id);
        lemma_delete_count_concat(c, update_ops(e, now), id);
    }
}

/// The refresh phase never creates a row for an identity that was already
/// known before the tick.
proof fn lemma_refresh_no_create_when_known(k: Set<u64>, s: Seq<ProcessEntity>, now: u64, id: u64)
    requires
        k.contains(id),
    ensures
        create_count(refresh_ops(k, s, now), id) == 0,
    decreases s.len(),
{
    if s.len() > 0 {
        lemma_create_count_concat(
            entity_ops(k, s.first(), now),
            refresh_ops(k, s.drop_first(), now),
            id,
        );
        lemma_entity_ops_counts(k, s.first(), now, id);
        lemma_refresh_no_create_when_known(k, s.drop_first(), now, id);
    }
}

/// The refresh phase never creates a row for an identity that no entity of
/// the snapshot carries.
proof fn lemma_refresh_no_create_when_absent(k: Set<u64>, s: Seq<ProcessEntity>, now: u64, id: u64)
    requires
        forall|j: int| 0 <= j < s.len() ==> (#[trigger] s[j]).pid != id,
    ensures
        create_count(refresh_ops(k, s, now), id) == 0,
    decreases s.len(),
{
    if s.len() > 0 {
        let rest = s.drop_first();
        assert forall|j: int| 0 <= j < rest.len() implies (#[trigger] rest[j]).pid != id by {
            assert(rest[j] == s[j + 1]);
        }
        lemma_create_count_concat(entity_ops(k, s.first(), now), refresh_ops(k, rest, now), id);
        lemma_entity_ops_counts(k, s.first(), now, id);
        lemma_refresh_no_create_when_absent(k, rest, now, id);
    }
}

/// With no identity observed twice, the refresh phase creates any one row
/// at most once.
proof fn lemma_refresh_create_at_most_once(k: Set<u64>, s: Seq<ProcessEntity>, now: u64, id: u64)
    requires
        distinct_ids(s),
    ensures
        create_count(refresh_ops(k, s, now), id) <= 1,
    decreases s.len(),
{
    if s.len() > 0 {
        let rest = s.drop_first();
        assert forall|i: int, j: int| 0 <= i < j < rest.len() implies rest[i].pid
            != rest[j].pid by {
            assert(rest[i] == s[i + 1] && rest[j] == s[j + 1]);
        }
        lemma_create_count_concat(entity_ops(k, s.first(), now), refresh_ops(k, rest, now), id);
        lemma_entity_ops_counts(k, s.first(), now, id);
        if s.first().pid == id {
            assert forall|j: int| 0 <= j < rest.len() implies (#[trigger] rest[j]).pid != id by {
                assert(rest[j] == s[j + 1]);
                assert(s[0].pid != s[j + 1].pid);
            }
            lemma_refresh_no_create_when_absent(k, rest, now, id);
        } else {
            lemma_refresh_create_at_most_once(k, rest, now, id);
        }
    }
}

/// The delete phase creates nothing.
proof fn lemma_delete_ops_no_create(known: Seq<u64>, cur: Set<u64>, id: u64)
    ensures
        create_count(delete_ops(known, cur), id) == 0,
    decreases known.len(),
{
    if known.len() > 0 {
        let head = if cur.contains(known.first()) {
            Seq::<RowOpModel>::empty()
        } else {
            seq![RowOpModel::DeleteRow { row: known.first() }]
        };
        lemma_create_count_concat(head, delete_ops(known.drop_first(), cur), id);
        if !cur.contains(known.first()) {
            assert(head.drop_first() =~= Seq::<RowOpModel>::empty());
            assert(create_count(head.drop_first(), id) == 0);
        }
        lemma_delete_ops_no_create(known.drop_first(), cur, id);
    }
}

/// The refresh phase deletes nothing.
proof fn lemma_refresh_no_delete(k: Set<u64>, s: Seq<ProcessEntity>, now: u64, id: u64)
    ensures
        delete_count(refresh_ops(k, s, now), id) == 0,
    decreases s.len(),
{
    if s.len() > 0 {
        lemma_delete_count_concat(
            entity_ops(k, s.first(), now),
            refresh_ops(k, s.drop_first(), now),
            id,
        );
        lemma_entity_ops_counts(k, s.first(), now, id);
        lemma_refresh_no_delete(k, s.drop_first(), now, id);
    }
}

/// The delete phase never touches an identity it was not holding.
proof fn lemma_delete_ops_absent(known: Seq<u64>, cur: Set<u64>, id: u64)
    requires
        !known.contains(id),
    ensures
        delete_count(delete_ops(known, cur), id) == 0,
    decreases known.len(),
{
    if known.len() > 0 {
        let rest = known.drop_first();
        assert(known[0] != id);
        assert(!rest.contains(id)) by {
            if rest.contains(id) {
                let j = choose|j: int| 0 <= j < rest.len() && rest[j] == id;
                assert(known[j + 1] == id);
                assert(known.contains(id));
            }
        }
        let head = if cur.contains(known.first()) {
            Seq::<RowOpModel>::empty()
        } else {
            seq![RowOpModel::DeleteRow { row: known.first() }]
        };
        lemma_delete_count_concat(head, delete_ops(rest, cur), id);
        if !cur.contains(known.first()) {
            assert(head.drop_first() =~= Seq::<RowOpModel>::empty());
            assert(delete_count(head.drop_first(), id) == 0);
        }
        lemma_delete_ops_absent(rest, cur, id);
    }
}

/// The delete phase deletes a held, no-longer-visible identity exactly
/// once.
proof fn lemma_delete_ops_once(known: Seq<u64>, cur: Set<u64>, id: u64)
    requires
        distinct_seq(known),
        known.contains(id),
        !cur.contains(id),
    ensures
        delete_count(delete_ops(known, cur), id) == 1,
    decreases known.len(),
{
    let rest = known.drop_first();
    assert forall|i: int, j: int| 0 <= i < j < rest.len() implies rest[i] != rest[j] by {
        assert(rest[i] == known[i + 1] && rest[j] == known[j + 1]);
    }
    let head = if cur.contains(known.first()) {
        Seq::<RowOpModel>::empty()
    } else {
        seq![RowOpModel::DeleteRow { row: known.first() }]
    };
    lemma_delete_count_concat(head, delete_ops(rest, cur), id);
    if known.first() == id {
        assert(head.drop_first() =~= Seq::<RowOpModel>::empty());
        assert(delete_count(head.drop_first(), id) == 0);
        assert(delete_count(head, id) == 1);
        assert(!rest.contains(id)) by {
            if rest.contains(id) {
                let j = choose|j: int| 0 <= j < rest.len() && rest[j] == id;
                assert(known[0] == known[j + 1]);
            }
        }
        lemma_delete_ops_absent(rest, cur, id);
    } else {
        if !cur.contains(known.first()) {
            assert(head.drop_first() =~= Seq::<RowOpModel>::empty());
            assert(delete_count(head.drop_first(), id) == 0);
            assert(delete_count(head, id) == 0);
        }
        assert(rest.contains(id)) by {
            let j = choose|j: int| 0 <= j < known.len() && known[j] == id;
            assert(rest[j - 1] == id);
        }
        lemma_delete_ops_once(rest, cur, id);
    }
}

/// No duplicate creates: an identity visible in two consecutive snapshots
/// receives at most one create across the two ticks — none at all in the
/// second, since the first tick left it known.
pub proof fn lemma_no_duplicate_create(
    known0: Seq<u64>,
    s0: Seq<ProcessEntity>,
    t0: u64,
    known1: Seq<u64>,
    s1: Seq<ProcessEntity>,
    t1: u64,
    id: u64,
)
    requires
        distinct_ids(s0),
        id_set(known1) == snapshot_ids(s0),
        snapshot_ids(s0).contains(id),
        snapshot_ids(s1).contains(id),
    ensures
        create_count(tick_ops(known0, s0, t0), id) + create_count(tick_ops(known1, s1, t1), id)
            <= 1,
{
    lemma_create_count_concat(
        refresh_ops(id_set(known0), s0, t0),
        delete_ops(known0, snapshot_ids(s0)),
        id,
    );
    lemma_refresh_create_at_most_once(id_set(known0), s0, t0, id);
    lemma_delete_ops_no_create(known0, snapshot_ids(s0), id);
    lemma_create_count_concat(
        refresh_ops(id_set(known1), s1, t1),
        delete_ops(known1, snapshot_ids(s1)),
        id,
    );
    lemma_refresh_no_create_when_known(id_set(known1), s1, t1, id);
    lemma_delete_ops_no_create(known1, snapshot_ids(s1), id);
}

/// Deletion completeness: an identity that was known but is no longer
/// visible in the fresh snapshot is deleted exactly once by the tick.
pub proof fn lemma_deletion_completeness(
    known: Seq<u64>,
    s: Seq<ProcessEntity>,
    now: u64,
    id: u64,
)
    requires
        distinct_seq(known),
        known.contains(id),
        !snapshot_ids(s).contains(id),
    ensures
        delete_count(tick_ops(known, s, now), id) == 1,
{
    lemma_delete_count_concat(
        refresh_ops(id_set(known), s, now),
        delete_ops(known, snapshot_ids(s)),
        id,
    );
    lemma_refresh_no_delete(id_set(known), s, now, id);
    lemma_delete_ops_once(known, snapshot_ids(s), id);
}

/// Two mutation-free halves make a mutation-free whole.
proof fn lemma_mutation_free_concat(a: Seq<RowOpModel>, b: Seq<RowOpModel>)
    requires
        mutation_free(a),
        mutation_free(b),
    ensures
        mutation_free(a + b),
{
    assert forall|i: int| 0 <= i < (a + b).len() implies (#[trigger] (a + b)[i]) matches
        RowOpModel::SetCell { .. } by {
        if i < a.len() {
            assert((a + b)[i] == a[i]);
        } else {
            assert((a + b)[i] == b[i - a.len()]);
        }
    }
}

/// When every visible identity is already known, the refresh phase only
/// overwrites cells.
proof fn lemma_refresh_mutation_free(k: Set<u64>, s: Seq<ProcessEntity>, now: u64)
    requires
        forall|id: u64| snapshot_ids(s).contains(id) ==> k.contains(id),
    ensures
        mutation_free(refresh_ops(k, s, now)),
    decreases s.len(),
{
    if s.len() > 0 {
        let e = s.first();
        let rest = s.drop_first();
        lemma_snapshot_ids_unfold(s);
        assert forall|id: u64| snapshot_ids(rest).contains(id) implies k.contains(id) by {
            assert(snapshot_ids(s).contains(id));
        }
        if e.name@.len() > 0 {
            assert(snapshot_ids(s).contains(e.pid));
            lemma_update_mutation_free(e, now);
        }
        lemma_refresh_mutation_free(k, rest, now);
        lemma_mutation_free_concat(entity_ops(k, e, now), refresh_ops(k, rest, now));
    }
}

/// When every known identity is still visible, the delete phase is empty.
proof fn lemma_delete_ops_empty(known: Seq<u64>, cur: Set<u64>)
    requires
        forall|id: u64| known.contains(id) ==> cur.contains(id),
    ensures
        delete_ops(known, cur) == Seq::<RowOpModel>::empty(),
    decreases known.len(),
{
    if known.len() > 0 {
        let rest = known.drop_first();
        assert(known.contains(known.first()));
        assert forall|id: u64| rest.contains(id) implies cur.contains(id) by {
            let j = choose|j: int| 0 <= j < rest.len() && rest[j] == id;
            assert(known[j + 1] == id);
            assert(known.contains(id));
        }
        lemma_delete_ops_empty(rest, cur);
        assert(delete_ops(known, cur) =~= Seq::<RowOpModel>::empty());
    }
}

/// Idempotent update, first half: a tick whose snapshot makes visible
/// exactly the identities already known emits no creates and no deletes —
/// only cell overwrites.
pub proof fn lemma_idempotent_no_mutations(known: Seq<u64>, s: Seq<ProcessEntity>, now: u64)
    requires
        id_set(known) == snapshot_ids(s),
    ensures
        mutation_free(tick_ops(known, s, now)),
{
    lemma_refresh_mutation_free(id_set(known), s, now);
    lemma_delete_ops_empty(known, snapshot_ids(s));
    assert(refresh_ops(id_set(known), s, now) + delete_ops(known, snapshot_ids(s))
        =~= refresh_ops(id_set(known), s, now));
}

/// The display attribute a tick writes into one column of an entity's row
/// (columns 1 through 5).
pub open spec fn attr_value(e: ProcessEntity, col: u64) -> Seq<char> {
    if col == 1 {
        e.name@
    } else if col == 2 {
        e.status@
    } else if col == 3 {
        cpu_cell_chars(e.cpu_e4 as nat)
    } else if col == 4 {
        mem_cell_chars(e.memory_kb as nat)
    } else {
        disk_cell_chars(e.disk_read_bytes as nat, e.disk_written_bytes as nat)
    }
}

/// The cell map `c` holds, for each of the five attribute columns of
/// `e`'s row, exactly `e`'s current display value.
pub open spec fn row_reflected(c: Map<(u64, u64), Seq<char>>, e: ProcessEntity) -> bool {
    &&& c.dom().contains((e.pid, 1)) && c[(e.pid, 1)] == attr_value(e, 1)
    &&& c.dom().contains((e.pid, 2)) && c[(e.pid, 2)] == attr_value(e, 2)
    &&& c.dom().contains((e.pid, 3)) && c[(e.pid, 3)] == attr_value(e, 3)
    &&& c.dom().contains((e.pid, 4)) && c[(e.pid, 4)] == attr_value(e, 4)
    &&& c.dom().contains((e.pid, 5)) && c[(e.pid, 5)] == attr_value(e, 5)
}

/// Some entity of the snapshot carries this identity (whatever its name).
pub open spec fn carries_id(s: Seq<ProcessEntity>, pid: u64) -> bool {
    exists|j: int| 0 <= j < s.len() && (#[trigger] s[j]).pid == pid
}

/// Going from `c` to `c1`, the cell `key` neither appeared, vanished nor
/// changed its value.
pub open spec fn cell_untouched(
    c: Map<(u64, u64), Seq<char>>,
    c1: Map<(u64, u64), Seq<char>>,
    key: (u64, u64),
) -> bool {
    &&& c1.dom().contains(key) <==> c.dom().contains(key)
    &&& c.dom().contains(key) ==> c1[key] == c[key]
}

/// The delete phase never touches a cell.
proof fn lemma_delete_cells(c: Map<(u64, u64), Seq<char>>, known: Seq<u64>, cur: Set<u64>)
    ensures
        apply_cells(c, delete_ops(known, cur)) == c,
    decreases known.len(),
{
    if known.len() > 0 {
        let rest_ops = delete_ops(known.drop_first(), cur);
        lemma_delete_cells(c, known.drop_first(), cur);
        if cur.contains(known.first()) {
            assert(delete_ops(known, cur) =~= rest_ops);
        } else {
            let del = seq![RowOpModel::DeleteRow { row: known.first() }];
            assert(delete_ops(known, cur) == del + rest_ops);
            lemma_apply_cells_concat(c, del, rest_ops);
            assert(del.drop_first() =~= Seq::<RowOpModel>::empty());
            assert(apply_cells(c, del.drop_first()) == c);
            assert(apply_cells(c, del) == c);
        }
    }
}

/// What one entity's contribution writes into the cell map: its five
/// attribute columns, plus the identity column when it is new; every other
/// row's cells are left alone. An invisible entity writes nothing.
proof fn lemma_entity_cells_effect(
    c: Map<(u64, u64), Seq<char>>,
    k: Set<u64>,
    e: ProcessEntity,
    now: u64,
)
    ensures
        ({
            let c1 = apply_cells(c, entity_ops(k, e, now));
            &&& e.name@.len() == 0 ==> c1 == c
            &&& e.name@.len() > 0 ==> row_reflected(c1, e)
            &&& e.name@.len() > 0 && !k.contains(e.pid) ==> c1.dom().contains((e.pid, 0))
                && c1[(e.pid, 0)] == dec_digits(e.pid as nat)
            &&& forall|key: (u64, u64)|
                !(key.0 == e.pid && (1 <= key.1 <= 5 || (key.1 == 0 && !k.contains(e.pid))))
                    ==> #[trigger] cell_untouched(c, c1, key)
        }),
{
    if e.name@.len() == 0 {
        assert(apply_cells(c, entity_ops(k, e, now)) == c);
    } else {
        let u = update_ops(e, now);
        let start = if k.contains(e.pid) {
            c
        } else {
            c.insert((e.pid, 0), dec_digits(e.pid as nat))
        };
        if !k.contains(e.pid) {
            let cr = create_ops(e, now);
            lemma_apply_cells_concat(c, cr, u);
            assert(cr.drop_first().drop_first() =~= Seq::<RowOpModel>::empty());
            assert(apply_cells(start, cr.drop_first().drop_first()) == start);
            assert(apply_cells(c, cr.drop_first()) == start);
            assert(apply_cells(c, cr) == start);
            assert(apply_cells(c, entity_ops(k, e, now)) == apply_cells(start, u));
        }
        let s1 = start.insert((e.pid, 1), e.name@);
        let s2 = s1.insert((e.pid, 2), e.status@);
        let s3 = s2.insert((e.pid, 3), cpu_cell_chars(e.cpu_e4 as nat));
        let s4 = s3.insert((e.pid, 4), mem_cell_chars(e.memory_kb as nat));
        let s5 = s4.insert(
            (e.pid, 5),
            disk_cell_chars(e.disk_read_bytes as nat, e.disk_written_bytes as nat),
        );
        assert(u.drop_first().drop_first().drop_first().drop_first().drop_first()
            =~= Seq::<RowOpModel>::empty());
        assert(apply_cells(s5, u.drop_first().drop_first().drop_first().drop_first().drop_first())
            == s5);
        assert(apply_cells(s4, u.drop_first().drop_first().drop_first().drop_first()) == s5);
        assert(apply_cells(s3, u.drop_first().drop_first().drop_first()) == s5);
        assert(apply_cells(s2, u.drop_first().drop_first()) == s5);
        assert(apply_cells(s1, u.drop_first()) == s5);
        assert(apply_cells(start, u) == s5);
        assert(apply_cells(c, entity_ops(k, e, now)) == s5);
    }
}

/// After the refresh phase, every visible entity's attribute cells hold
/// exactly that entity's current display values, and cells of rows the
/// snapshot does not carry are untouched.
proof fn lemma_refresh_cells_written(
    c: Map<(u64, u64), Seq<char>>,
    k: Set<u64>,
    s: Seq<ProcessEntity>,
    now: u64,
)
    requires
        distinct_ids(s),
    ensures
        ({
            let c1 = apply_cells(c, refresh_ops(k, s, now));
            &&& forall|j: int|
                0 <= j < s.len() && (#[trigger] s[j]).name@.len() > 0 ==> row_reflected(c1, s[j])
            &&& forall|key: (u64, u64)|
                !carries_id(s, key.0) ==> #[trigger] cell_untouched(c, c1, key)
        }),
    decreases s.len(),
{
    if s.len() > 0 {
        let e = s.first();
        let rest = s.drop_first();
        assert forall|i: int, j: int| 0 <= i < j < rest.len() implies rest[i].pid
            != rest[j].pid by {
            assert(rest[i] == s[i + 1] && rest[j] == s[j + 1]);
        }
        lemma_entity_cells_effect(c, k, e, now);
        let ce = apply_cells(c, entity_ops(k, e, now));
        lemma_refresh_cells_written(ce, k, rest, now);
        lemma_apply_cells_concat(c, entity_ops(k, e, now), refresh_ops(k, rest, now));
        let c1 = apply_cells(ce, refresh_ops(k, rest, now));
        assert forall|j: int|
            0 <= j < s.len() && (#[trigger] s[j]).name@.len() > 0 implies row_reflected(
            c1,
            s[j],
        ) by {
            if j == 0 {
                assert(!carries_id(rest, e.pid)) by {
                    if carries_id(rest, e.pid) {
                        let j2 = choose|j2: int|
                            0 <= j2 < rest.len() && (#[trigger] rest[j2]).pid == e.pid;
                        assert(s[j2 + 1] == rest[j2]);
                        assert(s[0].pid != s[j2 + 1].pid);
                    }
                }
                assert(row_reflected(ce, e));
                assert(cell_untouched(ce, c1, (e.pid, 1)));
                assert(cell_untouched(ce, c1, (e.pid, 2)));
                assert(cell_untouched(ce, c1, (e.pid, 3)));
                assert(cell_untouched(ce, c1, (e.pid, 4)));
                assert(cell_untouched(ce, c1, (e.pid, 5)));
            } else {
                assert(rest[j - 1] == s[j]);
                assert(row_reflected(c1, rest[j - 1]));
            }
        }
        assert forall|key: (u64, u64)| !carries_id(s, key.0) implies #[trigger] cell_untouched(
            c,
            c1,
            key,
        ) by {
            assert(s.contains(s[0]));
            assert(!carries_id(rest, key.0)) by {
                if carries_id(rest, key.0) {
                    let j2 = choose|j2: int|
                        0 <= j2 < rest.len() && (#[trigger] rest[j2]).pid == key.0;
                    assert(s[j2 + 1] == rest[j2]);
                    assert(carries_id(s, key.0));
                }
            }
            assert(key.0 != e.pid) by {
                if key.0 == e.pid {
                    assert(carries_id(s, key.0));
                }
            }
            assert(cell_untouched(c, ce, key));
            assert(cell_untouched(ce, c1, key));
        }
    }
}

/// Overwriting cells with the values they already hold changes nothing:
/// the refresh phase of a tick whose snapshot is already fully reflected
/// leaves the cell map as it is.
proof fn lemma_refresh_cells_noop(
    c: Map<(u64, u64), Seq<char>>,
    k: Set<u64>,
    s: Seq<ProcessEntity>,
    now: u64,
)
    requires
        forall|j: int|
            0 <= j < s.len() && (#[trigger] s[j]).name@.len() > 0 ==> k.contains(s[j].pid),
        forall|j: int|
            0 <= j < s.len() && (#[trigger] s[j]).name@.len() > 0 ==> row_reflected(c, s[j]),
    ensures
        apply_cells(c, refresh_ops(k, s, now)) == c,
    decreases s.len(),
{
    if s.len() > 0 {
        let e = s.first();
        let rest = s.drop_first();
        lemma_entity_cells_effect(c, k, e, now);
        let ce = apply_cells(c, entity_ops(k, e, now));
        if e.name@.len() > 0 {
            assert(k.contains(e.pid));
            assert(row_reflected(c, e));
            assert(ce =~= c) by {
                assert forall|key: (u64, u64)| #![auto] ce.dom().contains(key)
                    <==> c.dom().contains(key) by {
                    if key.0 == e.pid && 1 <= key.1 <= 5 {
                        assert(key.1 == 1 || key.1 == 2 || key.1 == 3 || key.1 == 4 || key.1 == 5);
                        assert(row_reflected(c, e) && row_reflected(ce, e));
                    } else {
                        assert(cell_untouched(c, ce, key));
                    }
                }
                assert forall|key: (u64, u64)| #![auto]
                    c.dom().contains(key) implies ce[key] == c[key] by {
                    if key.0 == e.pid && 1 <= key.1 <= 5 {
                        assert(key.1 == 1 || key.1 == 2 || key.1 == 3 || key.1 == 4 || key.1 == 5);
                        assert(row_reflected(c, e) && row_reflected(ce, e));
                    } else {
                        assert(cell_untouched(c, ce, key));
                    }
                }
            }
        }
        assert(ce == c);
        assert forall|j: int|
            0 <= j < rest.len() && (#[trigger] rest[j]).name@.len() > 0 implies k.contains(
            rest[j].pid,
        ) && row_reflected(c, rest[j]) by {
            assert(rest[j] == s[j + 1]);
        }
        lemma_refresh_cells_noop(c, k, rest, now);
        lemma_apply_cells_concat(c, entity_ops(k, e, now), refresh_ops(k, rest, now));
    }
}

/// Idempotent update, second half: after a tick over snapshot `s`, running
/// a second tick over the very same snapshot leaves every cell's value
/// exactly as the first tick left it, whatever the second tick's
/// timestamp.
pub proof fn lemma_idempotent_values(
    c0: Map<(u64, u64), Seq<char>>,
    known0: Seq<u64>,
    s: Seq<ProcessEntity>,
    t0: u64,
    known1: Seq<u64>,
    t1: u64,
)
    requires
        distinct_ids(s),
        id_set(known1) == snapshot_ids(s),
    ensures
        ({
            let c1 = apply_cells(c0, tick_ops(known0, s, t0));
            apply_cells(c1, tick_ops(known1, s, t1)) == c1
        }),
{
    let k0 = id_set(known0);
    let k1 = id_set(known1);
    let refresh0 = refresh_ops(k0, s, t0);
    let deletes0 = delete_ops(known0, snapshot_ids(s));
    lemma_apply_cells_concat(c0, refresh0, deletes0);
    lemma_delete_cells(apply_cells(c0, refresh0), known0, snapshot_ids(s));
    let c1 = apply_cells(c0, refresh0);
    assert(apply_cells(c0, tick_ops(known0, s, t0)) == c1);
    lemma_refresh_cells_written(c0, k0, s, t0);
    assert forall|j: int|
        0 <= j < s.len() && (#[trigger] s[j]).name@.len() > 0 implies k1.contains(s[j].pid) by {
        assert(snapshot_ids(s).contains(s[j].pid));
    }
    lemma_refresh_cells_noop(c1, k1, s, t1);
    let refresh1 = refresh_ops(k1, s, t1);
    let deletes1 = delete_ops(known1, snapshot_ids(s));
    lemma_apply_cells_concat(c1, refresh1, deletes1);
    lemma_delete_cells(apply_cells(c1, refresh1), known1, snapshot_ids(s));
}

} // verus!
