//! Display projection for process entities: each table cell as an exact
//! character sequence, and the executable builders proved to produce it.
//!
//! Column schema: 0 PID, 1 name, 2 status, 3 CPU percentage with a fixed
//! four-digit fraction, 4 resident memory in megabytes with a fixed
//! three-digit fraction, 5 disk megabytes read / written.

use vstd::prelude::*;

use crate::entity::ProcessEntity;
use crate::text::{dec_digits, joined, padded_digits, u64_to_dec, u64_to_padded};

verus! {

/// The CPU cell: whole percents, a dot, four fraction digits, a percent sign.
pub open spec fn cpu_cell_chars(cpu_e4: nat) -> Seq<char> {
    dec_digits(cpu_e4 / 10000) + seq!['.'] + padded_digits(cpu_e4 % 10000, 4) + seq!['%']
}

/// The memory cell: kilobytes shown as megabytes with three fraction digits.
pub open spec fn mem_cell_chars(memory_kb: nat) -> Seq<char> {
    dec_digits(memory_kb / 1000) + seq!['.'] + padded_digits(memory_kb % 1000, 3)
}

/// A byte count shown as megabytes with three fraction digits (truncated,
/// not rounded, as a fixed-point projection of the count).
pub open spec fn mb_chars(bytes: nat) -> Seq<char> {
    dec_digits(bytes / 1000000) + seq!['.'] + padded_digits(bytes % 1000000 / 1000, 3)
}

/// The disk cell: megabytes read, a separating slash, megabytes written.
pub open spec fn disk_cell_chars(read_bytes: nat, written_bytes: nat) -> Seq<char> {
    mb_chars(read_bytes) + seq![' ', '/', ' '] + mb_chars(written_bytes)
}

/// The display attributes of one process, in column order 1 through 5.
pub open spec fn update_values(e: ProcessEntity) -> Seq<Seq<char>> {
    seq![
        e.name@,
        e.status@,
        cpu_cell_chars(e.cpu_e4 as nat),
        mem_cell_chars(e.memory_kb as nat),
        disk_cell_chars(e.disk_read_bytes as nat, e.disk_written_bytes as nat),
    ]
}

/// Builds the CPU cell.
pub fn cpu_cell(cpu_e4: u64) -> (r: String)
    ensures
        r@ == cpu_cell_chars(cpu_e4 as nat),
{
    let mut s = u64_to_dec(cpu_e4 / 10000);
    s.append(".");
    let frac = u64_to_padded(cpu_e4 % 10000, 4);
    s.append(frac.as_str());
    s.append("%");
    proof {
        reveal_strlit(".");
        reveal_strlit("%");
        assert(s@ =~= cpu_cell_chars(cpu_e4 as nat));
    }
    s
}

/// Builds the memory cell.
pub fn mem_cell(memory_kb: u64) -> (r: String)
    ensures
        r@ == mem_cell_chars(memory_kb as nat),
{
    let mut s = u64_to_dec(memory_kb / 1000);
    s.append(".");
    let frac = u64_to_padded(memory_kb % 1000, 3);
    s.append(frac.as_str());
    proof {
        reveal_strlit(".");
        assert(s@ =~= mem_cell_chars(memory_kb as nat));
    }
    s
}

/// Builds the megabyte rendering of a byte count.
pub fn mb_string(bytes: u64) -> (r: String)
    ensures
        r@ == mb_chars(bytes as nat),
{
    let mut s = u64_to_dec(bytes / 1000000);
    s.append(".");
    let frac = u64_to_padded(bytes % 1000000 / 1000, 3);
    s.append(frac.as_str());
    proof {
        reveal_strlit(".");
        assert(s@ =~= mb_chars(bytes as nat));
    }
    s
}

/// The process table's column schema, declared once at startup: index and
/// label for each of the six columns.
pub fn process_columns() -> (cols: Vec<(u64, String)>)
    ensures
        cols@.len() == 6,
        forall|i: int| 0 <= i < 6 ==> (#[trigger] cols@[i]).0 == i as u64,
        cols@[0].1@ == "PID"@,
        cols@[1].1@ == "Process Name"@,
        cols@[2].1@ == "Status"@,
        cols@[3].1@ == "Cpu Usage"@,
        cols@[4].1@ == "Memory Usage (Mb)"@,
        cols@[5].1@ == "Disk Usage (Mb) R/W"@,
{
    let mut cols: Vec<(u64, String)> = Vec::new();
    cols.push((0, String::from_str("PID")));
    cols.push((1, String::from_str("Process Name")));
    cols.push((2, String::from_str("Status")));
    cols.push((3, String::from_str("Cpu Usage")));
    cols.push((4, String::from_str("Memory Usage (Mb)")));
    cols.push((5, String::from_str("Disk Usage (Mb) R/W")));
    cols
}

/// Builds the disk cell.
pub fn disk_cell(read_bytes: u64, written_bytes: u64) -> (r: String)
    ensures
        r@ == disk_cell_chars(read_bytes as nat, written_bytes as nat),
{
    let mut s = mb_string(read_bytes);
    s.append(" / ");
    let written = mb_string(written_bytes);
    s.append(written.as_str());
    proof {
        reveal_strlit(" / ");
        assert(s@ =~= disk_cell_chars(read_bytes as nat, written_bytes as nat));
    }
    s
}

} // verus!
