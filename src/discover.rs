//! Choosing which log file to follow.

use vstd::prelude::*;
use crate::error::TelemetryError;
use crate::text::chars_of;

verus! {

/// `a` comes before `b`, or equals it, in character (code point) order.
pub open spec fn lex_le(a: Seq<char>, b: Seq<char>) -> bool
    decreases a.len(),
{
    if a.len() == 0 {
        true
    } else if b.len() == 0 {
        false
    } else if (a[0] as u32) != (b[0] as u32) {
        (a[0] as u32) < (b[0] as u32)
    } else {
        lex_le(a.drop_first(), b.drop_first())
    }
}

pub proof fn lemma_lex_total(a: Seq<char>, b: Seq<char>)
    ensures
        lex_le(a, b) || lex_le(b, a),
    decreases a.len(),
{
    if a.len() > 0 && b.len() > 0 && (a[0] as u32) == (b[0] as u32) {
        lemma_lex_total(a.drop_first(), b.drop_first());
    }
}

pub proof fn lemma_lex_trans(a: Seq<char>, b: Seq<char>, c: Seq<char>)
    requires
        lex_le(a, b),
        lex_le(b, c),
    ensures
        lex_le(a, c),
    decreases a.len(),
{
    if a.len() > 0 && b.len() > 0 && c.len() > 0 && (a[0] as u32) == (b[0] as u32) && (b[0]
        as u32) == (c[0] as u32) {
        lemma_lex_trans(a.drop_first(), b.drop_first(), c.drop_first());
    }
}

fn lex_le_exec(a: &Vec<char>, b: &Vec<char>) -> (r: bool)
    ensures
        r == lex_le(a@, b@),
{
    let mut i: usize = 0;
    proof {
        assert(a@.subrange(0, a@.len() as int) =~= a@);
        assert(b@.subrange(0, b@.len() as int) =~= b@);
    }
    while i < a.len() && i < b.len() && (a[i] as u32) == (b[i] as u32)
        invariant
            i <= a@.len(),
            i <= b@.len(),
            lex_le(a@, b@) == lex_le(
                a@.subrange(i as int, a@.len() as int),
                b@.subrange(i as int, b@.len() as int),
            ),
        decreases a@.len() - i,
    {
        assert(a@.subrange(i as int, a@.len() as int).drop_first() =~= a@.subrange(
            i + 1,
            a@.len() as int,
        ));
        assert(b@.subrange(i as int, b@.len() as int).drop_first() =~= b@.subrange(
            i + 1,
            b@.len() as int,
        ));
        i = i + 1;
    }
    if i == a.len() {
        true
    } else if i == b.len() {
        false
    } else {
        (a[i] as u32) < (b[i] as u32)
    }
}

/// The position of the log to follow among the file names `names`: the
/// greatest in character order, the vendor naming its logs so that the newest
/// sorts last. An empty directory has no log to follow.
pub fn newest_log(names: &Vec<String>) -> (r: Result<usize, TelemetryError>)
    ensures
        r is Err <==> names@.len() == 0,
        r matches Err(e) ==> e == TelemetryError::NoLogFile,
        r matches Ok(i) ==> i < names@.len() && forall|j: int|
            0 <= j < names@.len() ==> lex_le(#[trigger] names@[j]@, names@[i as int]@),
{
    if names.len() == 0 {
        return Err(TelemetryError::NoLogFile);
    }
    let mut best: usize = 0;
    let mut best_chars = chars_of(names[0].as_str());
    let mut i: usize = 1;
    proof {
        lemma_lex_total(names@[0]@, names@[0]@);
    }
    while i < names.len()
        invariant
            1 <= i <= names@.len(),
            best < i,
            best_chars@ == names@[best as int]@,
            forall|j: int| 0 <= j < i ==> lex_le(#[trigger] names@[j]@, names@[best as int]@),
        decreases names@.len() - i,
    {
        let c = chars_of(names[i].as_str());
        if !lex_le_exec(&c, &best_chars) {
            proof {
                lemma_lex_total(c@, best_chars@);
                assert forall|j: int| 0 <= j < i + 1 implies lex_le(
                    #[trigger] names@[j]@,
                    names@[i as int]@,
                ) by {
                    if j < i {
                        lemma_lex_trans(names@[j]@, best_chars@, c@);
                    } else {
                        lemma_lex_total(c@, c@);
                    }
                }
            }
            best = i;
            best_chars = c;
        } else {
            assert(lex_le(names@[i as int]@, names@[best as int]@));
        }
        i = i + 1;
    }
    Ok(best)
}

} // verus!
