//! Display projection for container entities, and the one-shot enumeration
//! that turns a container snapshot into the full sequence of row operations
//! (container rows are keyed by enumeration order and, unlike process rows,
//! are populated once rather than reconciled on a cadence).
//!
//! Column schema: 0 created, 1 command, 2 id, 3 image, 4 labels, 5 names,
//! 6 ports, 7 state, 8 status, 9 writable-layer size.

use vstd::prelude::*;

use crate::entity::{ContainerEntity, PortBinding};
use crate::rowop::{ops_view, RowOp, RowOpModel};
use crate::text::{dec_digits, joined, u64_to_dec, join_all};

verus! {

/// The RFC 2822 rendering of a Unix timestamp in the UTC zone: a pure
/// function of the seconds value alone. Its meaning is fixed by the
/// contract of [`rfc2822_utc`].
pub uninterp spec fn rfc2822_of(secs: int) -> Seq<char>;

/// The timestamps whose UTC calendar year has one to four non-negative
/// digits — the only dates an RFC 2822 string can carry.
pub open spec fn rfc2822_representable(secs: int) -> bool {
    -62167219200 <= secs <= 253402300799
}

/// Relies on chrono's `DateTime::from_timestamp`, which succeeds for every
/// representable timestamp (its documented range is far wider), and on
/// `DateTime::to_rfc2822`, whose output for a UTC datetime depends on the
/// timestamp alone.
#[verifier::external_body]
fn rfc2822_utc(secs: i64) -> (r: String)
    requires
        rfc2822_representable(secs as int),
    ensures
        r@ == rfc2822_of(secs as int),
{
    match chrono::DateTime::from_timestamp(secs, 0) {
        Some(dt) => dt.to_rfc2822(),
        None => String::new(),
    }
}

/// The created cell: the RFC 2822 rendering of the creation time, or empty
/// for a timestamp no such string can carry.
pub open spec fn created_chars(secs: i64) -> Seq<char> {
    if rfc2822_representable(secs as int) {
        rfc2822_of(secs as int)
    } else {
        Seq::empty()
    }
}

/// Builds the created cell.
pub fn created_cell(secs: i64) -> (r: String)
    ensures
        r@ == created_chars(secs),
{
    if -62167219200i64 <= secs && secs <= 253402300799i64 {
        rfc2822_utc(secs)
    } else {
        String::new()
    }
}

/// The display entry of one label pair: key, colon and space, value.
pub open spec fn label_entry(k: Seq<char>, v: Seq<char>) -> Seq<char> {
    k + seq![':', ' '] + v
}

/// The display entries of a label mapping, in the order handed in.
pub open spec fn label_entries(ls: Seq<(String, String)>) -> Seq<Seq<char>> {
    ls.map_values(|p: (String, String)| label_entry(p.0@, p.1@))
}

/// The labels cell: the entries joined by comma-space, no trailing
/// separator.
pub open spec fn labels_chars(ls: Seq<(String, String)>) -> Seq<char> {
    joined(label_entries(ls), seq![',', ' '])
}

/// The display entry of one port binding that has a host IP: the IP, a
/// colon, the container port, and — when published — comma-space and the
/// host port.
pub open spec fn port_entry(p: PortBinding) -> Seq<char>
    recommends
        p.ip is Some,
{
    p.ip->Some_0@ + seq![':'] + dec_digits(p.private_port as nat) + (if p.public_port is Some {
        seq![',', ' '] + dec_digits(p.public_port->Some_0 as nat)
    } else {
        Seq::empty()
    })
}

/// The display entries of the port bindings: one per binding with a host
/// IP; bindings without one contribute nothing.
pub open spec fn port_entries(ps: Seq<PortBinding>) -> Seq<Seq<char>>
    decreases ps.len(),
{
    if ps.len() == 0 {
        Seq::empty()
    } else {
        (if ps.first().ip is Some {
            seq![port_entry(ps.first())]
        } else {
            Seq::empty()
        }) + port_entries(ps.drop_first())
    }
}

/// The ports cell: the entries joined by comma-space, no trailing
/// separator.
pub open spec fn ports_chars(ps: Seq<PortBinding>) -> Seq<char> {
    joined(port_entries(ps), seq![',', ' '])
}

/// The names cell: the name list joined by commas.
pub open spec fn names_chars(ns: Seq<String>) -> Seq<char> {
    joined(ns.map_values(|n: String| n@), seq![','])
}

/// The writable-layer size cell: the byte count in decimal, absent shown
/// as 0.
pub open spec fn size_rw_chars(size: Option<u64>) -> Seq<char> {
    dec_digits(
        (if size is Some {
            size->Some_0
        } else {
            0
        }) as nat,
    )
}

/// Appending one binding extends the entries by its display entry exactly
/// when it has a host IP.
proof fn lemma_port_entries_push(ps: Seq<PortBinding>, p: PortBinding)
    ensures
        port_entries(ps.push(p)) == port_entries(ps) + (if p.ip is Some {
            seq![port_entry(p)]
        } else {
            Seq::<Seq<char>>::empty()
        }),
    decreases ps.len(),
{
    let tail = if p.ip is Some {
        seq![port_entry(p)]
    } else {
        Seq::<Seq<char>>::empty()
    };
    if ps.len() == 0 {
        assert(ps.push(p).first() == p);
        assert(ps.push(p).drop_first() =~= Seq::<PortBinding>::empty());
        assert(port_entries(ps.push(p).drop_first()) =~= Seq::<Seq<char>>::empty());
        assert(port_entries(ps.push(p)) =~= port_entries(ps) + tail);
    } else {
        assert(ps.push(p).first() == ps.first());
        assert(ps.push(p).drop_first() =~= ps.drop_first().push(p));
        lemma_port_entries_push(ps.drop_first(), p);
        assert(port_entries(ps.push(p)) =~= port_entries(ps) + tail);
    }
}

/// Builds the display entry of one binding with a host IP.
fn port_entry_string(p: &PortBinding) -> (r: String)
    requires
        p.ip is Some,
    ensures
        r@ == port_entry(*p),
{
    let mut s = match &p.ip {
        Some(ip) => ip.clone(),
        None => String::new(),
    };
    s.append(":");
    let private = u64_to_dec(p.private_port);
    s.append(private.as_str());
    match &p.public_port {
        Some(pp) => {
            s.append(", ");
            let public = u64_to_dec(*pp);
            s.append(public.as_str());
        },
        None => {},
    }
    proof {
        reveal_strlit(":");
        reveal_strlit(", ");
        assert(s@ =~= port_entry(*p));
    }
    s
}

/// Builds the ports cell.
pub fn ports_line(ports: &Vec<PortBinding>) -> (r: String)
    ensures
        r@ == ports_chars(ports@),
{
    let mut entries: Vec<String> = Vec::new();
    let n = ports.len();
    let mut i: usize = 0;
    proof {
        assert(ports@.take(0) =~= Seq::<PortBinding>::empty());
        assert(entries@.map_values(|s: String| s@) =~= port_entries(ports@.take(0)));
    }
    while i < n
        invariant
            n == ports@.len(),
            i <= n,
            entries@.map_values(|s: String| s@) == port_entries(ports@.take(i as int)),
        decreases n - i,
    {
        let ghost entries0 = entries@;
        let p = &ports[i];
        if p.ip.is_some() {
            let entry = port_entry_string(p);
            entries.push(entry);
        }
        proof {
            assert(ports@.take(i as int + 1) =~= ports@.take(i as int).push(ports@[i as int]));
            lemma_port_entries_push(ports@.take(i as int), ports@[i as int]);
            if ports@[i as int].ip is Some {
                entries0.lemma_push_map_commute(|s: String| s@, entries@.last());
            }
            assert(entries@.map_values(|s: String| s@) =~= port_entries(
                ports@.take(i as int + 1),
            ));
        }
        i = i + 1;
    }
    proof {
        assert(ports@.take(n as int) =~= ports@);
        reveal_strlit(", ");
    }
    let r = join_all(&entries, ", ");
    proof {
        assert((", ")@ =~= seq![',', ' ']);
    }
    r
}

/// Builds the labels cell.
pub fn labels_line(labels: &Vec<(String, String)>) -> (r: String)
    ensures
        r@ == labels_chars(labels@),
{
    let mut entries: Vec<String> = Vec::new();
    let n = labels.len();
    let mut i: usize = 0;
    proof {
        assert(labels@.take(0) =~= Seq::<(String, String)>::empty());
        assert(entries@.map_values(|s: String| s@) =~= label_entries(labels@.take(0)));
    }
    while i < n
        invariant
            n == labels@.len(),
            i <= n,
            entries@.map_values(|s: String| s@) == label_entries(labels@.take(i as int)),
        decreases n - i,
    {
        let pair = &labels[i];
        let mut entry = pair.0.clone();
        entry.append(": ");
        entry.append(pair.1.as_str());
        proof {
            reveal_strlit(": ");
            assert(entry@ =~= label_entry(labels@[i as int].0@, labels@[i as int].1@));
        }
        let ghost entries0 = entries@;
        entries.push(entry);
        proof {
            assert(labels@.take(i as int + 1) =~= labels@.take(i as int).push(labels@[i as int]));
            labels@.take(i as int).lemma_push_map_commute(
                |p: (String, String)| label_entry(p.0@, p.1@),
                labels@[i as int],
            );
            entries0.lemma_push_map_commute(|s: String| s@, entry);
            assert(entries@.map_values(|s: String| s@) =~= label_entries(
                labels@.take(i as int + 1),
            ));
        }
        i = i + 1;
    }
    proof {
        assert(labels@.take(n as int) =~= labels@);
        reveal_strlit(", ");
    }
    let r = join_all(&entries, ", ");
    proof {
        assert((", ")@ =~= seq![',', ' ']);
    }
    r
}

/// Builds the names cell.
pub fn names_line(names: &Vec<String>) -> (r: String)
    ensures
        r@ == names_chars(names@),
{
    proof {
        reveal_strlit(",");
    }
    let r = join_all(names, ",");
    proof {
        assert((",")@ =~= seq![',']);
    }
    r
}

/// Builds the writable-layer size cell.
pub fn size_rw_cell(size: &Option<u64>) -> (r: String)
    ensures
        r@ == size_rw_chars(*size),
{
    match size {
        Some(bytes) => u64_to_dec(*bytes),
        None => u64_to_dec(0),
    }
}

/// The operations that establish and fill one container's row: the row,
/// keyed by the container's identity string, then all ten columns.
pub open spec fn container_row_ops(c: ContainerEntity, row: u64, now: u64) -> Seq<RowOpModel> {
    seq![
        RowOpModel::CreateRow { row, key: c.id@ },
        RowOpModel::SetCell { row, col: 0, value: created_chars(c.created_secs), ts: now },
        RowOpModel::SetCell { row, col: 1, value: c.command@, ts: now },
        RowOpModel::SetCell { row, col: 2, value: c.id@, ts: now },
        RowOpModel::SetCell { row, col: 3, value: c.image@, ts: now },
        RowOpModel::SetCell { row, col: 4, value: labels_chars(c.labels@), ts: now },
        RowOpModel::SetCell { row, col: 5, value: names_chars(c.names@), ts: now },
        RowOpModel::SetCell { row, col: 6, value: ports_chars(c.ports@), ts: now },
        RowOpModel::SetCell { row, col: 7, value: c.state@, ts: now },
        RowOpModel::SetCell { row, col: 8, value: c.status@, ts: now },
        RowOpModel::SetCell { row, col: 9, value: size_rw_chars(c.size_rw), ts: now },
    ]
}

/// The operations of a one-shot enumeration whose first container gets row
/// identity `row`, the next `row + 1`, and so on.
pub open spec fn enumeration_ops_from(cs: Seq<ContainerEntity>, row: int, now: u64) -> Seq<
    RowOpModel,
>
    decreases cs.len(),
{
    if cs.len() == 0 {
        Seq::empty()
    } else {
        container_row_ops(cs.first(), row as u64, now) + enumeration_ops_from(
            cs.drop_first(),
            row + 1,
            now,
        )
    }
}

/// Everything a one-shot container enumeration emits, rows keyed by
/// enumeration order starting at 0.
pub open spec fn enumeration_ops(cs: Seq<ContainerEntity>, now: u64) -> Seq<RowOpModel> {
    enumeration_ops_from(cs, 0, now)
}

/// Projects a container snapshot into the full sequence of row operations,
/// one row per container in enumeration order.
pub fn enumerate_containers(containers: &Vec<ContainerEntity>, now: u64) -> (ops: Vec<RowOp>)
    ensures
        ops_view(ops@) == enumeration_ops(containers@, now),
{
    let ghost cvw = containers@;
    let mut ops: Vec<RowOp> = Vec::new();
    let n = containers.len();
    let mut i: usize = 0;
    proof {
        assert(cvw.skip(0) =~= cvw);
        assert(ops_view(ops@) + enumeration_ops_from(cvw, 0, now) =~= enumeration_ops(cvw, now));
    }
    while i < n
        invariant
            n == cvw.len(),
            cvw == containers@,
            i <= n,
            ops_view(ops@) + enumeration_ops_from(cvw.skip(i as int), i as int, now)
                == enumeration_ops(cvw, now),
        decreases n - i,
    {
        let ghost ops0 = ops@;
        proof {
            assert(cvw.skip(i as int).first() == cvw[i as int]);
            assert(cvw.skip(i as int).drop_first() =~= cvw.skip(i as int + 1));
        }
        let c = &containers[i];
        let row = i as u64;
        ops.push(RowOp::CreateRow { row, key: c.id.clone() });
        ops.push(RowOp::SetCell { row, col: 0, value: created_cell(c.created_secs), ts: now });
        ops.push(RowOp::SetCell { row, col: 1, value: c.command.clone(), ts: now });
        ops.push(RowOp::SetCell { row, col: 2, value: c.id.clone(), ts: now });
        ops.push(RowOp::SetCell { row, col: 3, value: c.image.clone(), ts: now });
        ops.push(RowOp::SetCell { row, col: 4, value: labels_line(&c.labels), ts: now });
        ops.push(RowOp::SetCell { row, col: 5, value: names_line(&c.names), ts: now });
        ops.push(RowOp::SetCell { row, col: 6, value: ports_line(&c.ports), ts: now });
        ops.push(RowOp::SetCell { row, col: 7, value: c.state.clone(), ts: now });
        ops.push(RowOp::SetCell { row, col: 8, value: c.status.clone(), ts: now });
        ops.push(RowOp::SetCell { row, col: 9, value: size_rw_cell(&c.size_rw), ts: now });
        proof {
            assert(ops_view(ops@) =~= ops_view(ops0) + container_row_ops(
                cvw[i as int],
                i as u64,
                now,
            ));
            assert(enumeration_ops_from(cvw.skip(i as int), i as int, now) == container_row_ops(
                cvw[i as int],
                i as u64,
                now,
            ) + enumeration_ops_from(cvw.skip(i as int + 1), i as int + 1, now));
            assert(ops_view(ops@) + enumeration_ops_from(cvw.skip(i as int + 1), i as int + 1, now)
                =~= ops_view(ops0) + enumeration_ops_from(cvw.skip(i as int), i as int, now));
        }
        i = i + 1;
    }
    proof {
        assert(cvw.skip(n as int) =~= Seq::<ContainerEntity>::empty());
        assert(ops_view(ops@) =~= enumeration_ops(cvw, now));
    }
    ops
}

/// The container table's column schema, declared once at startup: index
/// and label for each of the ten columns.
pub fn container_columns() -> (cols: Vec<(u64, String)>)
    ensures
        cols@.len() == 10,
        forall|i: int| 0 <= i < 10 ==> (#[trigger] cols@[i]).0 == i as u64,
        cols@[0].1@ == "created"@,
        cols@[1].1@ == "command"@,
        cols@[2].1@ == "id"@,
        cols@[3].1@ == "image"@,
        cols@[4].1@ == "labels"@,
        cols@[5].1@ == "names"@,
        cols@[6].1@ == "ports"@,
        cols@[7].1@ == "state"@,
        cols@[8].1@ == "status"@,
        cols@[9].1@ == "size_rw"@,
{
    let mut cols: Vec<(u64, String)> = Vec::new();
    cols.push((0, String::from_str("created")));
    cols.push((1, String::from_str("command")));
    cols.push((2, String::from_str("id")));
    cols.push((3, String::from_str("image")));
    cols.push((4, String::from_str("labels")));
    cols.push((5, String::from_str("names")));
    cols.push((6, String::from_str("ports")));
    cols.push((7, String::from_str("state")));
    cols.push((8, String::from_str("status")));
    cols.push((9, String::from_str("size_rw")));
    cols
}

} // verus!
