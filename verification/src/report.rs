//! Result types and the table layout shared by the single-run and the suite path: a suite
//! prints one header per mode followed by a row per message size.

use vstd::prelude::*;
use vstd::string::*;
use crate::cli::Mode;
use crate::text::{push_right_aligned, right_aligned};

verus! {

/// What the sending side of a bandwidth run measured.
#[derive(Copy, Clone, Debug, PartialEq, Eq, Structural)]
pub struct BandwidthStats {
    pub msg_size: usize,
    pub iterations: usize,
    pub tx_depth: usize,
    pub elapsed_us: u128,
}

/// A table line: each cell right-aligned in its width, cells separated by two spaces.
pub open spec fn table_line(cells: Seq<(Seq<char>, nat)>) -> Seq<char>
    decreases cells.len(),
{
    if cells.len() == 0 {
        Seq::empty()
    } else if cells.len() == 1 {
        right_aligned(cells[0].0, cells[0].1)
    } else {
        table_line(cells.drop_last()) + "  "@ + right_aligned(cells.last().0, cells.last().1)
    }
}

/// The column titles and widths of `mode`'s table.
pub open spec fn header_cells(mode: Mode) -> Seq<(Seq<char>, nat)> {
    match mode {
        Mode::Latency => seq![
            ("#bytes"@, 8nat),
            ("#iterations"@, 12nat),
            ("t_min[usec]"@, 12nat),
            ("t_max[usec]"@, 12nat),
            ("t_typical[usec]"@, 16nat),
            ("t_avg[usec]"@, 12nat),
            ("t_stdev[usec]"@, 14nat),
            ("99%[usec]"@, 10nat),
            ("99.9%[usec]"@, 12nat),
        ],
        Mode::Accuracy => seq![
            ("#bytes"@, 8nat),
            ("#iterations"@, 12nat),
            ("#received"@, 10nat),
            ("#lost"@, 8nat),
            ("#dup"@, 6nat),
            ("#corrupt"@, 10nat),
            ("ByteAcc[%]"@, 12nat),
            ("BitAcc[%]"@, 12nat),
        ],
        _ => seq![
            ("#bytes"@, 8nat),
            ("#iterations"@, 12nat),
            ("tx_depth"@, 10nat),
            ("BW avg[Gb/sec]"@, 18nat),
            ("MsgRate[Mpps]"@, 14nat),
        ],
    }
}

pub open spec fn cells_view(cells: Seq<(&str, usize)>) -> Seq<(Seq<char>, nat)> {
    cells.map_values(|c: (&str, usize)| (c.0@, c.1 as nat))
}

/// Lays `cells` out as one table line.
fn line_of(cells: &Vec<(&str, usize)>) -> (r: String)
    ensures
        r@ == table_line(cells_view(cells@)),
{
    let mut out = String::new();
    let mut i: usize = 0;
    while i < cells.len()
        invariant
            i <= cells@.len(),
            out@ == table_line(cells_view(cells@.take(i as int))),
        decreases cells@.len() - i,
    {
        let ghost prefix = cells_view(cells@.take(i as int));
        let ghost next = cells_view(cells@.take(i + 1));
        assert(next.drop_last() =~= prefix);
        assert(next.last() == (cells@[i as int].0@, cells@[i as int].1 as nat));
        if i > 0 {
            proof {
                reveal_strlit("  ");
            }
            out.append("  ");
        } else {
            assert(out@ =~= Seq::<char>::empty());
        }
        let (title, width) = cells[i];
        push_right_aligned(&mut out, title, width);
        i = i + 1;
        assert(out@ =~= table_line(next));
    }
    assert(cells@.take(cells@.len() as int) =~= cells@);
    out
}

/// The column header for `mode`'s table, printed once per table rather than once per row. The
/// one-sided RDMA modes report bandwidth and share its columns.
pub fn header(mode: Mode) -> (r: String)
    ensures
        r@ == table_line(header_cells(mode)),
{
    let mut cells: Vec<(&str, usize)> = Vec::new();
    match mode {
        Mode::Latency => {
            cells.push(("#bytes", 8));
            cells.push(("#iterations", 12));
            cells.push(("t_min[usec]", 12));
            cells.push(("t_max[usec]", 12));
            cells.push(("t_typical[usec]", 16));
            cells.push(("t_avg[usec]", 12));
            cells.push(("t_stdev[usec]", 14));
            cells.push(("99%[usec]", 10));
            cells.push(("99.9%[usec]", 12));
        },
        Mode::Accuracy => {
            cells.push(("#bytes", 8));
            cells.push(("#iterations", 12));
            cells.push(("#received", 10));
            cells.push(("#lost", 8));
            cells.push(("#dup", 6));
            cells.push(("#corrupt", 10));
            cells.push(("ByteAcc[%]", 12));
            cells.push(("BitAcc[%]", 12));
        },
        _ => {
            cells.push(("#bytes", 8));
            cells.push(("#iterations", 12));
            cells.push(("tx_depth", 10));
            cells.push(("BW avg[Gb/sec]", 18));
            cells.push(("MsgRate[Mpps]", 14));
        },
    }
    assert(cells_view(cells@) =~= header_cells(mode));
    line_of(&cells)
}

} // verus!
