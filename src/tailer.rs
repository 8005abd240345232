//! Following a growing sensor log: the state kept between lines and what each
//! new line does to it.

use vstd::prelude::*;
use std::collections::VecDeque;
use crate::columns::{
    column_of, cpu_label, get_cpu_and_gpu_temp_pos_by_colname, gpu_label, split_commas,
};
use crate::error::TelemetryError;
use crate::measurement::{field_temperature, read_temperature};
use crate::series::{pushed, RollingSeries};
use crate::text::chars_of;

verus! {

/// The two temperature histories, oldest reading first.
pub struct HwTemps {
    pub cpu_temps: VecDeque<i16>,
    pub gpu_temps: VecDeque<i16>,
}

/// How far reading has got past the content that was in the log when tailing
/// began: `remaining` bytes of it are still unread, and `live` tells whether
/// reading has gone beyond it.
#[derive(Debug, Clone, Copy, PartialEq, Eq, Structural)]
pub struct TailCursor {
    pub remaining: u64,
    pub live: bool,
}

/// The cursor of a log that held `file_len` bytes, once its header of
/// `header_bytes` bytes is read.
pub open spec fn started(file_len: u64, header_bytes: u64) -> TailCursor {
    TailCursor {
        remaining: if file_len > header_bytes {
            (file_len - header_bytes) as u64
        } else {
            0
        },
        live: header_bytes > file_len,
    }
}

/// The cursor `c` after a line of `bytes` bytes.
pub open spec fn advanced(c: TailCursor, bytes: u64) -> TailCursor {
    TailCursor {
        remaining: if bytes >= c.remaining {
            0
        } else {
            (c.remaining - bytes) as u64
        },
        live: c.live || bytes > c.remaining,
    }
}

/// The cursor after the header and then lines of the lengths `lines`.
pub open spec fn cursor_after(file_len: u64, header_bytes: u64, lines: Seq<u64>) -> TailCursor
    decreases lines.len(),
{
    if lines.len() == 0 {
        started(file_len, header_bytes)
    } else {
        advanced(cursor_after(file_len, header_bytes, lines.drop_last()), lines.last())
    }
}

pub open spec fn total(lines: Seq<u64>) -> int
    decreases lines.len(),
{
    if lines.len() == 0 {
        0
    } else {
        total(lines.drop_last()) + lines.last()
    }
}

/// Reading is live exactly when the header and the lines read so far together
/// exceed the length the log had when tailing began: the backlog never counts.
pub proof fn lemma_live_iff_past_backlog(file_len: u64, header_bytes: u64, lines: Seq<u64>)
    ensures
        cursor_after(file_len, header_bytes, lines).live == (header_bytes + total(lines)
            > file_len),
        cursor_after(file_len, header_bytes, lines).remaining == (if header_bytes + total(lines)
            >= file_len {
            0
        } else {
            file_len - header_bytes - total(lines)
        }),
    decreases lines.len(),
{
    if lines.len() > 0 {
        lemma_live_iff_past_backlog(file_len, header_bytes, lines.drop_last());
        lemma_total_nonneg(lines.drop_last());
    }
}

proof fn lemma_total_nonneg(lines: Seq<u64>)
    ensures
        total(lines) >= 0,
    decreases lines.len(),
{
    if lines.len() > 0 {
        lemma_total_nonneg(lines.drop_last());
    }
}

impl TailCursor {
    pub fn start(file_len: u64, header_bytes: u64) -> (r: TailCursor)
        ensures
            r == started(file_len, header_bytes),
    {
        TailCursor {
            remaining: if file_len > header_bytes {
                file_len - header_bytes
            } else {
                0
            },
            live: header_bytes > file_len,
        }
    }

    pub fn advance(&mut self, bytes: u64)
        ensures
            *final(self) == advanced(*old(self), bytes),
    {
        if bytes > self.remaining {
            self.live = true;
        }
        if bytes >= self.remaining {
            self.remaining = 0;
        } else {
            self.remaining = self.remaining - bytes;
        }
    }
}

/// The temperature in column `col` of the row `line`; a row too short to have
/// that column is malformed.
pub open spec fn column_temperature(line: Seq<char>, col: int) -> Result<i16, TelemetryError> {
    let cells = split_commas(line);
    if 0 <= col < cells.len() {
        field_temperature(cells[col])
    } else {
        Err(TelemetryError::MalformedField)
    }
}

/// The CPU and GPU temperatures of the row `line`, or the first failure.
pub open spec fn row_temperatures(line: Seq<char>, cpu_col: int, gpu_col: int) -> Result<
    (i16, i16),
    TelemetryError,
> {
    match column_temperature(line, cpu_col) {
        Err(e) => Err(e),
        Ok(c) => match column_temperature(line, gpu_col) {
            Err(e) => Err(e),
            Ok(g) => Ok((c, g)),
        },
    }
}

/// The bounds, in characters, of cell `col` of the comma-separated `v`.
fn cell_bounds(v: &Vec<char>, col: usize) -> (r: Option<(usize, usize)>)
    ensures
        r is Some <==> col < split_commas(v@).len(),
        r matches Some((a, b)) ==> a <= b <= v@.len() && split_commas(v@)[col as int]
            == v@.subrange(a as int, b as int),
{
    let n = v.len();
    let mut idx: usize = 0;
    let mut start: usize = 0;
    let mut found: Option<(usize, usize)> = None;
    let mut i: usize = 0;
    proof {
        assert(v@.subrange(0, 0) =~= Seq::<char>::empty());
        assert(v@.subrange(0, 0) =~= v@.subrange(0, 0));
    }
    while i < n
        invariant
            n == v@.len(),
            start <= i <= n,
            idx <= i,
            split_commas(v@.subrange(0, i as int)).len() == idx + 1,
            split_commas(v@.subrange(0, i as int)).last() == v@.subrange(start as int, i as int),
            found is None ==> col >= idx,
            found matches Some((a, b)) ==> col < idx && a <= b <= i && split_commas(
                v@.subrange(0, i as int),
            )[col as int] == v@.subrange(a as int, b as int),
        decreases n - i,
    {
        let ghost pre = split_commas(v@.subrange(0, i as int));
        assert(v@.subrange(0, i + 1).drop_last() =~= v@.subrange(0, i as int));
        if v[i] == ',' {
            if idx == col {
                found = Some((start, i));
            }
            proof {
                assert(pre.last() == pre[pre.len() - 1]);
            }
            idx = idx + 1;
            start = i + 1;
            assert(split_commas(v@.subrange(0, i + 1)).last() =~= v@.subrange(
                start as int,
                i + 1,
            ));
        } else {
            proof {
                assert(v@.subrange(start as int, i + 1) =~= v@.subrange(start as int, i as int).push(
                    v@[i as int],
                ));
            }
        }
        i = i + 1;
    }
    assert(v@.subrange(0, n as int) =~= v@);
    if found.is_none() && idx == col {
        proof {
            let cells = split_commas(v@);
            assert(cells.last() == cells[cells.len() - 1]);
        }
        found = Some((start, n));
    }
    found
}

/// Reads the temperature in column `col` of the row `line`.
fn column_reading(line: &str, v: &Vec<char>, col: usize) -> (r: Result<i16, TelemetryError>)
    requires
        v@ == line@,
    ensures
        r == column_temperature(line@, col as int),
{
    match cell_bounds(v, col) {
        None => Err(TelemetryError::MalformedField),
        Some((a, b)) => read_temperature(line.substring_char(a, b)),
    }
}

/// A row as read from the log, without the line feed (and a carriage return
/// before it) that ends it.
pub open spec fn without_line_end(s: Seq<char>) -> Seq<char> {
    let a = if s.len() > 0 && s.last() == '\n' {
        s.drop_last()
    } else {
        s
    };
    if a.len() > 0 && a.last() == '\r' {
        a.drop_last()
    } else {
        a
    }
}

/// The row `line` without its line end.
pub fn strip_line_end(line: &str) -> (r: &str)
    ensures
        r@ == without_line_end(line@),
{
    let mut e = line.unicode_len();
    if e > 0 && line.get_char(e - 1) == '\n' {
        e = e - 1;
    }
    let ghost a = line@.subrange(0, e as int);
    assert(a =~= if line@.len() > 0 && line@.last() == '\n' {
        line@.drop_last()
    } else {
        line@
    });
    if e > 0 && line.get_char(e - 1) == '\r' {
        e = e - 1;
    }
    let r = line.substring_char(0, e);
    assert(r@ =~= without_line_end(line@));
    r
}

/// The state of one attempt at following a log.
pub struct LogTail {
    pub cpu_col: usize,
    pub gpu_col: usize,
    pub cpu: RollingSeries,
    pub gpu: RollingSeries,
    pub cursor: TailCursor,
}

impl LogTail {
    pub open spec fn wf(&self) -> bool {
        self.cpu.wf() && self.gpu.wf()
    }

    /// Starts following a log that held `file_len` bytes, whose header row
    /// `header`, as read with its line end, took `header_bytes` bytes. The
    /// columns are found in the header without its line end.
    pub fn prime(file_len: u64, header: &str, header_bytes: u64) -> (r: LogTail)
        ensures
            r.wf(),
            r.cpu_col == column_of(without_line_end(header@), cpu_label()),
            r.gpu_col == column_of(without_line_end(header@), gpu_label()),
            r.cpu@ == Seq::<i16>::empty(),
            r.gpu@ == Seq::<i16>::empty(),
            r.cursor == started(file_len, header_bytes),
    {
        let (cpu_col, gpu_col) = get_cpu_and_gpu_temp_pos_by_colname(strip_line_end(header));
        LogTail {
            cpu_col,
            gpu_col,
            cpu: RollingSeries::new(),
            gpu: RollingSeries::new(),
            cursor: TailCursor::start(file_len, header_bytes),
        }
    }

    /// Takes in the row `line`, `bytes` bytes long as read from the log; a read
    /// of no bytes means the end of the log was reached and changes nothing.
    /// A row whose two temperatures read is pushed into the histories, and the
    /// histories are handed out once reading has gone past the backlog. A row
    /// that does not read changes nothing and gives its failure.
    pub fn accept_line(&mut self, line: &str, bytes: u64) -> (r: Result<
        Option<HwTemps>,
        TelemetryError,
    >)
        requires
            old(self).wf(),
        ensures
            final(self).wf(),
            final(self).cpu_col == old(self).cpu_col,
            final(self).gpu_col == old(self).gpu_col,
            bytes == 0 ==> (r matches Ok(None)) && final(self).cpu@ == old(self).cpu@
                && final(self).gpu@ == old(self).gpu@ && final(self).cursor == old(self).cursor,
            bytes > 0 ==> match row_temperatures(
                line@,
                old(self).cpu_col as int,
                old(self).gpu_col as int,
            ) {
                Err(e) => r == Err::<Option<HwTemps>, TelemetryError>(e) && final(self).cpu@
                    == old(self).cpu@ && final(self).gpu@ == old(self).gpu@ && final(self).cursor
                    == old(self).cursor,
                Ok((c, g)) => {
                    &&& final(self).cpu@ == pushed(old(self).cpu@, c)
                    &&& final(self).gpu@ == pushed(old(self).gpu@, g)
                    &&& final(self).cursor == advanced(old(self).cursor, bytes)
                    &&& r matches Ok(o)
                    &&& (o is Some <==> final(self).cursor.live)
                    &&& o matches Some(t) ==> (t.cpu_temps@ == final(self).cpu@ && t.gpu_temps@
                        == final(self).gpu@)
                },
            },
    {
        if bytes == 0 {
            return Ok(None);
        }
        let v = chars_of(line);
        let c = match column_reading(line, &v, self.cpu_col) {
            Ok(c) => c,
            Err(e) => {
                return Err(e);
            },
        };
        let g = match column_reading(line, &v, self.gpu_col) {
            Ok(g) => g,
            Err(e) => {
                return Err(e);
            },
        };
        self.cpu.push(c);
        self.gpu.push(g);
        self.cursor.advance(bytes);
        if self.cursor.live {
            Ok(Some(HwTemps { cpu_temps: self.cpu.to_deque(), gpu_temps: self.gpu.to_deque() }))
        } else {
            Ok(None)
        }
    }
}

} // verus!
