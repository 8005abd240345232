//! Turning the names that the platform reports for the processor and the
//! graphics card into the names shown on the display.

use vstd::prelude::*;
use crate::snapshot::SysInfo;
use crate::text::{chars_of, slice_chars, trim_bounds, trim_spaces};

verus! {

/// Whether `char::is_numeric` holds of `c` (Unicode categories Nd, Nl and No).
pub uninterp spec fn numeric_char(c: char) -> bool;

/// Relies on `char::is_numeric`, which depends on the character alone.
#[verifier::external_body]
fn is_numeric(c: char) -> (r: bool)
    ensures
        r == numeric_char(c),
{
    c.is_numeric()
}

pub open spec fn ascii_lower(c: char) -> char {
    if 65 <= (c as u32) && (c as u32) <= 90 {
        ((c as u32) + 32) as char
    } else {
        c
    }
}

/// The ending that processor names of the form "AMD Ryzen 9 5900X 12-Core
/// Processor" carry.
pub open spec fn core_suffix() -> Seq<char> {
    seq!['-', 'c', 'o', 'r', 'e', ' ', 'p', 'r', 'o', 'c', 'e', 's', 's', 'o', 'r']
}

/// `s` ends with `suffix`, ignoring the case of ASCII letters in `s`.
pub open spec fn ends_with_ascii_ci(s: Seq<char>, suffix: Seq<char>) -> bool {
    &&& s.len() >= suffix.len()
    &&& forall|i: int|
        0 <= i < suffix.len() ==> ascii_lower(#[trigger] s[s.len() - suffix.len() + i])
            == suffix[i]
}

/// The end of `stem[..e]` once the trailing characters flagged in `flags`
/// are removed.
pub open spec fn numeric_tail_start(flags: Seq<bool>, e: int) -> int
    decreases e,
{
    if e > 0 && flags[e - 1] {
        numeric_tail_start(flags, e - 1)
    } else {
        e
    }
}

/// For each character of `s`, whether it is numeric.
pub open spec fn numeric_flags(s: Seq<char>) -> Seq<bool> {
    s.map_values(|c: char| numeric_char(c))
}

/// `stem` without its trailing characters flagged in `flags`, trimmed.
pub open spec fn finished_name(stem: Seq<char>, flags: Seq<bool>) -> Seq<char> {
    trim_spaces(stem.subrange(0, numeric_tail_start(flags, stem.len() as int)))
}

/// What comes before the "-Core Processor" ending of `t`.
pub open spec fn core_stem(t: Seq<char>) -> Seq<char> {
    t.subrange(0, t.len() - core_suffix().len())
}

/// The processor name to show for the reported `s`: trimmed, and where it ends
/// with a core count and "-Core Processor", without those and trimmed again.
pub open spec fn cleaned_cpu_name(s: Seq<char>) -> Seq<char> {
    let t = trim_spaces(s);
    if ends_with_ascii_ci(t, core_suffix()) {
        finished_name(core_stem(t), numeric_flags(core_stem(t)))
    } else {
        t
    }
}

fn lower_char(c: char) -> (r: char)
    ensures
        r == ascii_lower(c),
{
    let u = c as u32;
    if 65 <= u && u <= 90 {
        proof {
            assert(((u + 32) as u32) as char == ((c as u32) + 32) as char);
        }
        ((u + 32) as u8) as char
    } else {
        c
    }
}

fn has_core_suffix(v: &Vec<char>, a: usize, b: usize) -> (r: bool)
    requires
        a <= b <= v@.len(),
    ensures
        r == ends_with_ascii_ci(v@.subrange(a as int, b as int), core_suffix()),
{
    let ghost t = v@.subrange(a as int, b as int);
    if b - a < 15 {
        return false;
    }
    let e = b - 15;
    let want: [char; 15] = [
        '-',
        'c',
        'o',
        'r',
        'e',
        ' ',
        'p',
        'r',
        'o',
        'c',
        'e',
        's',
        's',
        'o',
        'r',
    ];
    assert(want@ =~= core_suffix());
    let mut i: usize = 0;
    while i < 15
        invariant
            i <= 15,
            e + 15 == b,
            a <= e,
            b <= v@.len(),
            t == v@.subrange(a as int, b as int),
            want@ == core_suffix(),
            forall|k: int| 0 <= k < i ==> ascii_lower(#[trigger] t[t.len() - 15 + k]) == core_suffix()[k],
        decreases 15 - i,
    {
        assert(t[t.len() - 15 + i] == v@[e + i]);
        if lower_char(v[e + i]) != want[i] {
            return false;
        }
        i = i + 1;
    }
    true
}

/// The name `stem` without the trailing characters that `numeric` flags
/// (one flag per character), trimmed.
pub fn finish_cpu_name(stem: &str, numeric: &Vec<bool>) -> (r: String)
    requires
        numeric@.len() == stem@.len(),
    ensures
        r@ == finished_name(stem@, numeric@),
{
    let v = chars_of(stem);
    let n = v.len();
    let mut e: usize = n;
    while e > 0 && numeric[e - 1]
        invariant
            e <= n,
            n == stem@.len(),
            numeric@.len() == n,
            numeric_tail_start(numeric@, n as int) == numeric_tail_start(numeric@, e as int),
        decreases e,
    {
        e = e - 1;
    }
    let w = slice_chars(&v, 0, e);
    let (c, d) = trim_bounds(&w, false);
    assert(w@.subrange(c as int, d as int) =~= stem@.subrange(c as int, d as int));
    String::from_str(stem.substring_char(c, d))
}

/// The processor name to show for the reported name `raw`.
pub fn cpu_display_name(raw: &str) -> (r: String)
    ensures
        r@ == cleaned_cpu_name(raw@),
{
    let v = chars_of(raw);
    let (a, b) = trim_bounds(&v, false);
    let ghost t = trim_spaces(raw@);
    assert(t == v@.subrange(a as int, b as int));
    if !has_core_suffix(&v, a, b) {
        return String::from_str(raw.substring_char(a, b));
    }
    let stem = raw.substring_char(a, b - 15);
    assert(stem@ =~= core_stem(t));
    let sv = chars_of(stem);
    let mut flags: Vec<bool> = Vec::new();
    let mut i: usize = 0;
    while i < sv.len()
        invariant
            i <= sv@.len(),
            sv@ == stem@,
            flags@.len() == i,
            forall|j: int| 0 <= j < i ==> flags@[j] == numeric_char(#[trigger] sv@[j]),
        decreases sv@.len() - i,
    {
        flags.push(is_numeric(sv[i]));
        i = i + 1;
    }
    assert(flags@ =~= numeric_flags(stem@));
    finish_cpu_name(stem, &flags)
}

/// The graphics card name to show for the reported name `raw`: trimmed.
pub fn gpu_display_name(raw: &str) -> (r: String)
    ensures
        r@ == trim_spaces(raw@),
{
    let v = chars_of(raw);
    let (a, b) = trim_bounds(&v, false);
    String::from_str(raw.substring_char(a, b))
}

/// The names to show, from the names the platform reported, if it reported
/// any: "CPU" and "GPU" stand in for missing ones.
pub fn machine_names(cpu_raw: Option<&str>, gpu_raw: Option<&str>) -> (r: SysInfo)
    ensures
        r.cpu_name@ == (match cpu_raw {
            Some(s) => cleaned_cpu_name(s@),
            None => seq!['C', 'P', 'U'],
        }),
        r.gpu_name@ == (match gpu_raw {
            Some(s) => trim_spaces(s@),
            None => seq!['G', 'P', 'U'],
        }),
{
    proof {
        reveal_strlit("CPU");
        reveal_strlit("GPU");
    }
    let cpu_name = match cpu_raw {
        Some(s) => cpu_display_name(s),
        None => String::from_str("CPU"),
    };
    let gpu_name = match gpu_raw {
        Some(s) => gpu_display_name(s),
        None => String::from_str("GPU"),
    };
    SysInfo { cpu_name, gpu_name }
}

} // verus!
