//! Character-level helpers over the `Seq<char>` view of strings.

use vstd::prelude::*;

verus! {

/// The characters of Unicode's `White_Space` property, the set that
/// `char::is_whitespace` and `str::trim` use.
pub open spec fn is_space_spec(c: char) -> bool {
    ||| ('\u{9}' <= c && c <= '\u{d}')
    ||| c == ' '
    ||| c == '\u{85}'
    ||| c == '\u{a0}'
    ||| c == '\u{1680}'
    ||| ('\u{2000}' <= c && c <= '\u{200a}')
    ||| c == '\u{2028}'
    ||| c == '\u{2029}'
    ||| c == '\u{202f}'
    ||| c == '\u{205f}'
    ||| c == '\u{3000}'
}

pub fn is_space(c: char) -> (r: bool)
    ensures
        r == is_space_spec(c),
{
    ('\u{9}' <= c && c <= '\u{d}') || c == ' ' || c == '\u{85}' || c == '\u{a0}' || c
        == '\u{1680}' || ('\u{2000}' <= c && c <= '\u{200a}') || c == '\u{2028}' || c
        == '\u{2029}' || c == '\u{202f}' || c == '\u{205f}' || c == '\u{3000}'
}

/// `s` with every leading character that satisfies `p` removed.
pub open spec fn trim_start_by(s: Seq<char>, p: spec_fn(char) -> bool) -> Seq<char>
    decreases s.len(),
{
    if s.len() > 0 && p(s[0]) {
        trim_start_by(s.drop_first(), p)
    } else {
        s
    }
}

/// `s` with every trailing character that satisfies `p` removed.
pub open spec fn trim_end_by(s: Seq<char>, p: spec_fn(char) -> bool) -> Seq<char>
    decreases s.len(),
{
    if s.len() > 0 && p(s.last()) {
        trim_end_by(s.drop_last(), p)
    } else {
        s
    }
}

/// `s` with the characters satisfying `p` removed from both ends.
pub open spec fn trim_by(s: Seq<char>, p: spec_fn(char) -> bool) -> Seq<char> {
    trim_end_by(trim_start_by(s, p), p)
}

pub open spec fn space_pred() -> spec_fn(char) -> bool {
    |c: char| is_space_spec(c)
}

pub open spec fn quote_pred() -> spec_fn(char) -> bool {
    |c: char| c == '"'
}

/// What `str::trim` leaves of `s`.
pub open spec fn trim_spaces(s: Seq<char>) -> Seq<char> {
    trim_by(s, space_pred())
}

/// What `str::trim_matches('"')` leaves of `s`.
pub open spec fn trim_quotes(s: Seq<char>) -> Seq<char> {
    trim_by(s, quote_pred())
}

pub open spec fn ends_with(s: Seq<char>, suffix: Seq<char>) -> bool {
    s.len() >= suffix.len() && s.subrange(s.len() - suffix.len(), s.len() as int) == suffix
}

/// The characters of `s`, one element each.
pub fn chars_of(s: &str) -> (r: Vec<char>)
    ensures
        r@ == s@,
{
    let n = s.unicode_len();
    let mut v: Vec<char> = Vec::new();
    let mut i: usize = 0;
    while i < n
        invariant
            n == s@.len(),
            i <= n,
            v@ == s@.subrange(0, i as int),
        decreases n - i,
    {
        v.push(s.get_char(i));
        i = i + 1;
        assert(v@ =~= s@.subrange(0, i as int));
    }
    assert(v@ =~= s@);
    v
}

/// A copy of the characters `v[from..to]`.
pub fn slice_chars(v: &Vec<char>, from: usize, to: usize) -> (r: Vec<char>)
    requires
        from <= to <= v@.len(),
    ensures
        r@ == v@.subrange(from as int, to as int),
{
    let mut r: Vec<char> = Vec::new();
    let mut i: usize = from;
    while i < to
        invariant
            from <= i <= to <= v@.len(),
            r@ == v@.subrange(from as int, i as int),
        decreases to - i,
    {
        r.push(v[i]);
        i = i + 1;
        assert(r@ =~= v@.subrange(from as int, i as int));
    }
    r
}

proof fn lemma_trim_start_step(s: Seq<char>, i: int, p: spec_fn(char) -> bool)
    requires
        0 <= i < s.len(),
        p(s[i]),
    ensures
        trim_start_by(s.subrange(i, s.len() as int), p) == trim_start_by(
            s.subrange(i + 1, s.len() as int),
            p,
        ),
{
    assert(s.subrange(i, s.len() as int).drop_first() =~= s.subrange(i + 1, s.len() as int));
}

proof fn lemma_trim_end_step(s: Seq<char>, lo: int, j: int, p: spec_fn(char) -> bool)
    requires
        0 <= lo < j <= s.len(),
        p(s[j - 1]),
    ensures
        trim_end_by(s.subrange(lo, j), p) == trim_end_by(s.subrange(lo, j - 1), p),
{
    assert(s.subrange(lo, j).drop_last() =~= s.subrange(lo, j - 1));
}

fn trimmed_char(c: char, quotes: bool) -> (r: bool)
    ensures
        r == (if quotes {
            quote_pred()
        } else {
            space_pred()
        })(c),
{
    if quotes {
        c == '"'
    } else {
        is_space(c)
    }
}

/// The bounds `(a, b)` such that `v[a..b]` is `v` trimmed of spaces
/// (`quotes == false`) or of double quotes (`quotes == true`).
pub fn trim_bounds(v: &Vec<char>, quotes: bool) -> (r: (usize, usize))
    ensures
        r.0 <= r.1 <= v@.len(),
        v@.subrange(r.0 as int, r.1 as int) == trim_by(
            v@,
            if quotes {
                quote_pred()
            } else {
                space_pred()
            },
        ),
{
    let ghost p = if quotes {
        quote_pred()
    } else {
        space_pred()
    };
    let n = v.len();
    let mut a: usize = 0;
    proof {
        assert(v@.subrange(0, n as int) =~= v@);
    }
    while a < n && trimmed_char(v[a], quotes)
        invariant
            n == v@.len(),
            a <= n,
            p == (if quotes {
                quote_pred()
            } else {
                space_pred()
            }),
            trim_start_by(v@, p) == trim_start_by(v@.subrange(a as int, n as int), p),
        decreases n - a,
    {
        proof {
            lemma_trim_start_step(v@, a as int, p);
        }
        a = a + 1;
    }
    proof {
        let t = v@.subrange(a as int, n as int);
        if a < n {
            assert(t[0] == v@[a as int]);
        }
        assert(trim_start_by(t, p) == t);
    }
    let mut b: usize = n;
    while b > a && trimmed_char(v[b - 1], quotes)
        invariant
            n == v@.len(),
            a <= b <= n,
            p == (if quotes {
                quote_pred()
            } else {
                space_pred()
            }),
            trim_by(v@, p) == trim_end_by(v@.subrange(a as int, b as int), p),
        decreases b - a,
    {
        proof {
            lemma_trim_end_step(v@, a as int, b as int, p);
        }
        b = b - 1;
    }
    proof {
        let t = v@.subrange(a as int, b as int);
        if a < b {
            assert(t.last() == v@[b - 1]);
        }
        assert(trim_end_by(t, p) == t);
    }
    (a, b)
}

} // verus!
