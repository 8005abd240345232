//! Locating the CPU and GPU temperature columns from a log's header row.

use vstd::prelude::*;
use crate::text::{chars_of, ends_with, trim_bounds, trim_quotes};

verus! {

/// The cells of `s` split at every comma, as `str::split(",")` yields them.
pub open spec fn split_commas(s: Seq<char>) -> Seq<Seq<char>>
    decreases s.len(),
{
    if s.len() == 0 {
        seq![Seq::empty()]
    } else {
        let p = split_commas(s.drop_last());
        if s.last() == ',' {
            p.push(Seq::empty())
        } else {
            p.update(p.len() - 1, p.last().push(s.last()))
        }
    }
}

pub open spec fn package_suffix() -> Seq<char> {
    seq![' ', 'P', 'a', 'c', 'k', 'a', 'g', 'e']
}

pub open spec fn cpu_label() -> Seq<char> {
    seq!['C', 'P', 'U']
}

pub open spec fn gpu_label() -> Seq<char> {
    seq!['G', 'P', 'U']
}

/// The device named by a header cell: the cell without its surrounding
/// quotes and without the `" Package"` ending; none where it has no such ending.
pub open spec fn cell_label(cell: Seq<char>) -> Option<Seq<char>> {
    let t = trim_quotes(cell);
    if ends_with(t, package_suffix()) {
        Some(t.subrange(0, t.len() - package_suffix().len()))
    } else {
        None
    }
}

/// The position of the last cell labelled `name`.
pub open spec fn last_labelled(cells: Seq<Seq<char>>, name: Seq<char>) -> Option<int>
    decreases cells.len(),
{
    if cells.len() == 0 {
        None
    } else if cell_label(cells.last()) == Some(name) {
        Some(cells.len() - 1)
    } else {
        last_labelled(cells.drop_last(), name)
    }
}

/// The column of the header labelled `name`: the last such one, or 0 where none is.
pub open spec fn column_of(header: Seq<char>, name: Seq<char>) -> int {
    match last_labelled(split_commas(header), name) {
        Some(i) => i,
        None => 0,
    }
}

pub proof fn lemma_split_nonempty(s: Seq<char>)
    ensures
        split_commas(s).len() >= 1,
        split_commas(s).len() <= s.len() + 1,
    decreases s.len(),
{
    if s.len() > 0 {
        lemma_split_nonempty(s.drop_last());
    }
}

proof fn lemma_last_labelled_range(cells: Seq<Seq<char>>, name: Seq<char>)
    ensures
        last_labelled(cells, name) matches Some(i) ==> 0 <= i < cells.len() && cell_label(
            cells[i],
        ) == Some(name) && forall|j: int|
            i < j < cells.len() ==> cell_label(#[trigger] cells[j]) != Some(name),
        last_labelled(cells, name) is None ==> forall|j: int|
            0 <= j < cells.len() ==> cell_label(#[trigger] cells[j]) != Some(name),
    decreases cells.len(),
{
    if cells.len() > 0 {
        lemma_last_labelled_range(cells.drop_last(), name);
        assert forall|j: int| 0 <= j < cells.len() - 1 implies cells.drop_last()[j] == cells[j] by {}
    }
}

/// The column found for a name is the last cell of the header whose label is
/// exactly that name, and no later cell has it; where no cell has it, the
/// column is 0.
pub proof fn lemma_column_is_last_match(header: Seq<char>, name: Seq<char>)
    ensures
        ({
            let cells = split_commas(header);
            let c = column_of(header, name);
            &&& (exists|i: int| 0 <= i < cells.len() && cell_label(#[trigger] cells[i]) == Some(name))
                ==> {
                &&& 0 <= c < cells.len()
                &&& cell_label(cells[c]) == Some(name)
                &&& forall|j: int| c < j < cells.len() ==> cell_label(#[trigger] cells[j]) != Some(name)
            }
            &&& (forall|i: int| 0 <= i < cells.len() ==> cell_label(#[trigger] cells[i]) != Some(name))
                ==> c == 0
        }),
{
    lemma_last_labelled_range(split_commas(header), name);
}

/// Whether the cell `cell` is labelled with the three letters `first`, 'P', 'U'.
fn label_matches(cell: &Vec<char>, first: char) -> (r: bool)
    ensures
        r == (cell_label(cell@) == Some(seq![first, 'P', 'U'])),
{
    let (a, b) = trim_bounds(cell, true);
    let ghost t = trim_quotes(cell@);
    assert(t == cell@.subrange(a as int, b as int));
    if b - a < 8 {
        return false;
    }
    let e = b - 8;
    let ok = cell[e] == ' ' && cell[e + 1] == 'P' && cell[e + 2] == 'a' && cell[e + 3] == 'c'
        && cell[e + 4] == 'k' && cell[e + 5] == 'a' && cell[e + 6] == 'g' && cell[e + 7] == 'e';
    proof {
        let tail = t.subrange(t.len() - 8, t.len() as int);
        assert(ok ==> tail =~= package_suffix());
        assert(tail == package_suffix() ==> ok) by {
            if tail == package_suffix() {
                assert(tail[0] == cell@[e as int]);
                assert(tail[1] == cell@[e + 1]);
                assert(tail[2] == cell@[e + 2]);
                assert(tail[3] == cell@[e + 3]);
                assert(tail[4] == cell@[e + 4]);
                assert(tail[5] == cell@[e + 5]);
                assert(tail[6] == cell@[e + 6]);
                assert(tail[7] == cell@[e + 7]);
            }
        }
    }
    if !ok {
        return false;
    }
    let r = e - a == 3 && cell[a] == first && cell[a + 1] == 'P' && cell[a + 2] == 'U';
    proof {
        let l = t.subrange(0, t.len() - 8);
        assert(r ==> l =~= seq![first, 'P', 'U']);
        assert(t.len() == b - a);
        assert(l.len() == e - a);
        if l == seq![first, 'P', 'U'] {
            assert(l.len() == 3);
            assert(l[0] == cell@[a as int]);
            assert(l[1] == cell@[a + 1]);
            assert(l[2] == cell@[a + 2]);
        }
    }
    r
}

/// The zero-based positions `(cpu, gpu)` of the header cells labelled
/// `CPU Package` and `GPU Package`, quotes around a cell aside. Where a label
/// occurs more than once the last wins; where it does not occur its position is 0.
pub fn get_cpu_and_gpu_temp_pos_by_colname(header: &str) -> (r: (usize, usize))
    ensures
        r.0 == column_of(header@, cpu_label()),
        r.1 == column_of(header@, gpu_label()),
{
    let v = chars_of(header);
    let n = v.len();
    let mut cell: Vec<char> = Vec::new();
    let mut idx: usize = 0;
    let mut cpu: usize = 0;
    let mut gpu: usize = 0;
    let mut i: usize = 0;
    proof {
        assert(v@.subrange(0, 0) =~= Seq::<char>::empty());
    }
    while i < n
        invariant
            n == v@.len(),
            i <= n,
            idx <= i,
            split_commas(v@.subrange(0, i as int)).len() == idx + 1,
            split_commas(v@.subrange(0, i as int)).last() == cell@,
            cpu as int == (match last_labelled(
                split_commas(v@.subrange(0, i as int)).drop_last(),
                cpu_label(),
            ) {
                Some(k) => k,
                None => 0,
            }),
            gpu as int == (match last_labelled(
                split_commas(v@.subrange(0, i as int)).drop_last(),
                gpu_label(),
            ) {
                Some(k) => k,
                None => 0,
            }),
        decreases n - i,
    {
        let ghost pre = split_commas(v@.subrange(0, i as int));
        let c = v[i];
        assert(v@.subrange(0, i + 1).drop_last() =~= v@.subrange(0, i as int));
        if c == ',' {
            if label_matches(&cell, 'C') {
                cpu = idx;
            }
            if label_matches(&cell, 'G') {
                gpu = idx;
            }
            proof {
                assert(pre.last() == pre[pre.len() - 1]);
                assert(split_commas(v@.subrange(0, i + 1)).drop_last() =~= pre);
            }
            cell = Vec::new();
            idx = idx + 1;
        } else {
            cell.push(c);
            proof {
                assert(split_commas(v@.subrange(0, i + 1)).drop_last() =~= pre.drop_last());
            }
        }
        i = i + 1;
    }
    proof {
        let cells = split_commas(v@.subrange(0, n as int));
        assert(v@.subrange(0, n as int) =~= header@);
        assert(cells.last() == cells[cells.len() - 1]);
    }
    if label_matches(&cell, 'C') {
        cpu = idx;
    }
    if label_matches(&cell, 'G') {
        gpu = idx;
    }
    proof {
        reveal_with_fuel(last_labelled, 2);
    }
    (cpu, gpu)
}

} // verus!
