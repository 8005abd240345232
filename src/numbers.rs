//! Decimal numerals: their syntax, their values, and reading them.

use vstd::prelude::*;

verus! {

pub open spec fn digit_char(d: int) -> char {
    ((d + 48) as u32) as char
}

/// The one-character text of the digit `d`.
pub fn digit_str(d: u32) -> (r: &'static str)
    requires
        d < 10,
    ensures
        r@ == seq![digit_char(d as int)],
{
    proof {
        reveal_strlit("0");
        reveal_strlit("1");
        reveal_strlit("2");
        reveal_strlit("3");
        reveal_strlit("4");
        reveal_strlit("5");
        reveal_strlit("6");
        reveal_strlit("7");
        reveal_strlit("8");
        reveal_strlit("9");
    }
    let r = match d {
        0 => "0",
        1 => "1",
        2 => "2",
        3 => "3",
        4 => "4",
        5 => "5",
        6 => "6",
        7 => "7",
        8 => "8",
        _ => "9",
    };
    assert(r@ =~= seq![digit_char(d as int)]);
    r
}

/// The decimal digits of `n`, without leading zeros.
pub open spec fn decimal_text(n: nat) -> Seq<char>
    decreases n,
{
    if n < 10 {
        seq![digit_char(n as int)]
    } else {
        decimal_text(n / 10).push(digit_char((n % 10) as int))
    }
}

pub proof fn lemma_digit_char(d: int)
    requires
        0 <= d < 10,
    ensures
        is_digit(digit_char(d)),
        digit_value(digit_char(d)) == d,
{
}

pub proof fn lemma_decimal_text(n: nat)
    ensures
        decimal_text(n).len() >= 1,
        all_digits(decimal_text(n)),
        digits_value(decimal_text(n)) == n,
    decreases n,
{
    if n < 10 {
        lemma_digit_char(n as int);
        reveal_with_fuel(digits_value, 2);
    } else {
        lemma_decimal_text(n / 10);
        lemma_digit_char((n % 10) as int);
        let s = decimal_text(n);
        assert(s.drop_last() =~= decimal_text(n / 10));
        assert forall|i: int| 0 <= i < s.len() implies is_digit(#[trigger] s[i]) by {
            if i < s.len() - 1 {
                assert(s[i] == decimal_text(n / 10)[i]);
            }
        }
    }
}

/// Appends the decimal digits of `n` to `s`.
pub fn push_decimal(s: &mut String, n: u32)
    ensures
        final(s)@ == old(s)@ + decimal_text(n as nat),
    decreases n,
{
    if n < 10 {
        s.append(digit_str(n));
    } else {
        push_decimal(s, n / 10);
        s.append(digit_str(n % 10));
        assert(final(s)@ =~= old(s)@ + decimal_text(n as nat));
    }
}

pub open spec fn is_digit(c: char) -> bool {
    48 <= (c as u32) && (c as u32) <= 57
}

pub open spec fn digit_value(c: char) -> int {
    (c as u32) as int - 48
}

pub open spec fn all_digits(s: Seq<char>) -> bool {
    forall|i: int| 0 <= i < s.len() ==> is_digit(#[trigger] s[i])
}

/// The value of the digit string `s`, most significant digit first.
pub open spec fn digits_value(s: Seq<char>) -> int
    decreases s.len(),
{
    if s.len() == 0 {
        0
    } else {
        digits_value(s.drop_last()) * 10 + digit_value(s.last())
    }
}

pub open spec fn pow10(k: nat) -> int
    decreases k,
{
    if k == 0 {
        1
    } else {
        10 * pow10((k - 1) as nat)
    }
}

/// The first `k` digits of `f` read as a number, missing digits counting as 0.
pub open spec fn lead_digits(f: Seq<char>, k: nat) -> int
    decreases k,
{
    if k == 0 {
        0
    } else {
        lead_digits(f, (k - 1) as nat) * 10 + if k - 1 < f.len() {
            digit_value(f[k - 1])
        } else {
            0
        }
    }
}

pub open spec fn sign_len(s: Seq<char>) -> int {
    if s.len() > 0 && (s[0] == '+' || s[0] == '-') {
        1
    } else {
        0
    }
}

pub open spec fn is_negative(s: Seq<char>) -> bool {
    s.len() > 0 && s[0] == '-'
}

pub open spec fn unsigned_part(s: Seq<char>) -> Seq<char> {
    s.subrange(sign_len(s), s.len() as int)
}

/// The position of the first '.' in `b` at or after `i`, or the length of `b`.
pub open spec fn first_dot(b: Seq<char>, i: int) -> int
    decreases b.len() - i,
{
    if i >= b.len() {
        b.len() as int
    } else if b[i] == '.' {
        i
    } else {
        first_dot(b, i + 1)
    }
}

/// The digits of a decimal numeral before its point.
pub open spec fn int_digits(s: Seq<char>) -> Seq<char> {
    let b = unsigned_part(s);
    b.subrange(0, first_dot(b, 0))
}

/// The digits of a decimal numeral after its point.
pub open spec fn frac_digits(s: Seq<char>) -> Seq<char> {
    let b = unsigned_part(s);
    let d = first_dot(b, 0);
    if d < b.len() {
        b.subrange(d + 1, b.len() as int)
    } else {
        Seq::empty()
    }
}

/// An optional sign, digits, and optionally a point followed by digits, with at
/// least one digit in all.
pub open spec fn is_decimal(s: Seq<char>) -> bool {
    &&& all_digits(int_digits(s))
    &&& all_digits(frac_digits(s))
    &&& int_digits(s).len() + frac_digits(s).len() > 0
}

/// The magnitude of the numeral `s` times `10^k`, rounded half away from zero.
pub open spec fn scaled_magnitude(s: Seq<char>, k: nat) -> int {
    let f = frac_digits(s);
    digits_value(int_digits(s)) * pow10(k) + lead_digits(f, k) + if k < f.len() && digit_value(
        f[k as int],
    ) >= 5 {
        1int
    } else {
        0int
    }
}

/// The value of the numeral `s` times `10^k`, rounded half away from zero.
pub open spec fn scaled_value(s: Seq<char>, k: nat) -> int {
    if is_negative(s) {
        -scaled_magnitude(s, k)
    } else {
        scaled_magnitude(s, k)
    }
}

pub open spec fn plus_len(s: Seq<char>) -> int {
    if s.len() > 0 && s[0] == '+' {
        1
    } else {
        0
    }
}

/// The digits of an unsigned numeral: an optional '+', then digits.
pub open spec fn unsigned_digits(s: Seq<char>) -> Seq<char> {
    s.subrange(plus_len(s), s.len() as int)
}

pub open spec fn is_unsigned(s: Seq<char>) -> bool {
    unsigned_digits(s).len() > 0 && all_digits(unsigned_digits(s))
}

pub proof fn lemma_digits_value_nonneg(s: Seq<char>)
    requires
        all_digits(s),
    ensures
        digits_value(s) >= 0,
    decreases s.len(),
{
    if s.len() > 0 {
        assert(all_digits(s.drop_last())) by {
            assert forall|i: int| 0 <= i < s.drop_last().len() implies is_digit(
                #[trigger] s.drop_last()[i],
            ) by {
                assert(s.drop_last()[i] == s[i]);
            }
        }
        lemma_digits_value_nonneg(s.drop_last());
        assert(is_digit(s[s.len() - 1]));
    }
}

proof fn lemma_digits_value_push(s: Seq<char>, a: int, i: int)
    requires
        0 <= a <= i < s.len(),
    ensures
        digits_value(s.subrange(a, i + 1)) == digits_value(s.subrange(a, i)) * 10 + digit_value(
            s[i],
        ),
{
    assert(s.subrange(a, i + 1).drop_last() =~= s.subrange(a, i));
}

/// A prefix of a digit string has at most the value of the whole.
pub proof fn lemma_digits_prefix_le(s: Seq<char>, j: int)
    requires
        all_digits(s),
        0 <= j <= s.len(),
    ensures
        digits_value(s.subrange(0, j)) <= digits_value(s),
    decreases s.len() - j,
{
    if j < s.len() {
        lemma_digits_prefix_le(s, j + 1);
        lemma_digits_value_push(s, 0, j);
        assert(all_digits(s.subrange(0, j))) by {
            assert forall|i: int| 0 <= i < j implies is_digit(#[trigger] s.subrange(0, j)[i]) by {
                assert(s.subrange(0, j)[i] == s[i]);
            }
        }
        lemma_digits_value_nonneg(s.subrange(0, j));
        assert(is_digit(s[j]));
    } else {
        assert(s.subrange(0, j) =~= s);
    }
}

pub proof fn lemma_pow10_bounds(k: nat)
    ensures
        pow10(k) >= 1,
        k <= 2 ==> pow10(k) <= 100,
    decreases k,
{
    if k > 0 {
        lemma_pow10_bounds((k - 1) as nat);
    }
    reveal_with_fuel(pow10, 3);
}

pub proof fn lemma_lead_digits_bound(f: Seq<char>, k: nat)
    requires
        all_digits(f),
    ensures
        0 <= lead_digits(f, k) < pow10(k),
    decreases k,
{
    if k > 0 {
        lemma_lead_digits_bound(f, (k - 1) as nat);
        if k - 1 < f.len() {
            assert(is_digit(f[k - 1]));
        }
    }
}

pub proof fn lemma_scaled_magnitude_nonneg(s: Seq<char>, k: nat)
    requires
        is_decimal(s),
    ensures
        scaled_magnitude(s, k) >= 0,
{
    lemma_digits_value_nonneg(int_digits(s));
    lemma_pow10_bounds(k);
    lemma_lead_digits_bound(frac_digits(s), k);
    let a = digits_value(int_digits(s));
    let b = pow10(k);
    assert(a * b >= 0) by (nonlinear_arith)
        requires
            a >= 0,
            b >= 1,
    ;
}

fn digit_of(c: char) -> (r: Option<u64>)
    ensures
        r is Some <==> is_digit(c),
        r matches Some(d) ==> d == digit_value(c) && d <= 9,
{
    let u = c as u32;
    if 48 <= u && u <= 57 {
        Some((u - 48) as u64)
    } else {
        None
    }
}

/// Reads the digits `v[from..to]`, provided they are all digits and their value
/// does not exceed `cap`.
fn read_digits(v: &Vec<char>, from: usize, to: usize, cap: u64) -> (r: Option<u64>)
    requires
        from <= to <= v@.len(),
        cap <= 1_000_000_000,
    ensures
        r is Some <==> all_digits(v@.subrange(from as int, to as int)) && digits_value(
            v@.subrange(from as int, to as int),
        ) <= cap,
        r matches Some(x) ==> x == digits_value(v@.subrange(from as int, to as int)),
{
    let ghost s = v@.subrange(from as int, to as int);
    let mut acc: u64 = 0;
    let mut i: usize = from;
    proof {
        assert(v@.subrange(from as int, from as int) =~= Seq::<char>::empty());
    }
    while i < to
        invariant
            from <= i <= to <= v@.len(),
            cap <= 1_000_000_000,
            s == v@.subrange(from as int, to as int),
            acc == digits_value(v@.subrange(from as int, i as int)),
            all_digits(v@.subrange(from as int, i as int)),
            acc <= cap,
        decreases to - i,
    {
        let d = digit_of(v[i]);
        match d {
            None => {
                proof {
                    assert(s[i - from] == v@[i as int]);
                }
                return None;
            },
            Some(d) => {
                proof {
                    lemma_digits_value_push(v@, from as int, i as int);
                    assert(all_digits(v@.subrange(from as int, i + 1))) by {
                        assert forall|j: int| 0 <= j < i + 1 - from implies is_digit(
                            #[trigger] v@.subrange(from as int, i + 1)[j],
                        ) by {
                            if j < i - from {
                                assert(v@.subrange(from as int, i as int)[j] == v@[from + j]);
                            }
                        }
                    }
                }
                acc = acc * 10 + d;
                if acc > cap {
                    proof {
                        if all_digits(s) {
                            assert(s.subrange(0, i + 1 - from) =~= v@.subrange(
                                from as int,
                                i + 1,
                            ));
                            lemma_digits_prefix_le(s, i + 1 - from);
                        }
                    }
                    return None;
                }
                i = i + 1;
            },
        }
    }
    Some(acc)
}

/// The value of the decimal numeral `v` times `10^k`, rounded half away from
/// zero, provided its magnitude does not exceed `cap`.
pub fn read_scaled(v: &Vec<char>, k: usize, cap: u64) -> (r: Option<i64>)
    requires
        k <= 2,
        cap <= 1_000_000_000,
    ensures
        r is Some <==> is_decimal(v@) && scaled_magnitude(v@, k as nat) <= cap,
        r matches Some(x) ==> x == scaled_value(v@, k as nat),
{
    let n = v.len();
    let p: usize = if n > 0 && (v[0] == '+' || v[0] == '-') {
        1
    } else {
        0
    };
    let neg = n > 0 && v[0] == '-';
    let ghost b = v@.subrange(p as int, n as int);
    assert(b == unsigned_part(v@));
    let mut d: usize = p;
    while d < n && v[d] != '.'
        invariant
            p <= d <= n,
            n == v@.len(),
            b == v@.subrange(p as int, n as int),
            first_dot(b, 0) == first_dot(b, d - p),
        decreases n - d,
    {
        assert(b[d - p] == v@[d as int]);
        d = d + 1;
    }
    if d < n {
        assert(b[d - p] == v@[d as int]);
    }
    assert(first_dot(b, 0) == d - p);
    let fs: usize = if d < n {
        d + 1
    } else {
        n
    };
    let ghost ip = int_digits(v@);
    let ghost f = frac_digits(v@);
    assert(ip =~= v@.subrange(p as int, d as int));
    assert(f =~= v@.subrange(fs as int, n as int));
    if (d - p) + (n - fs) == 0 {
        assert(ip.len() + f.len() == 0);
        return None;
    }
    let mut j: usize = fs;
    while j < n
        invariant
            fs <= j <= n,
            n == v@.len(),
            f == v@.subrange(fs as int, n as int),
            f == frac_digits(v@),
            all_digits(v@.subrange(fs as int, j as int)),
        decreases n - j,
    {
        let dj = digit_of(v[j]);
        if let None = dj {
            assert(f[j - fs] == v@[j as int]);
            assert(!is_digit(f[j - fs]));
            return None;
        }
        assert forall|t: int| 0 <= t < j + 1 - fs implies is_digit(
            #[trigger] v@.subrange(fs as int, j + 1)[t],
        ) by {
            if t < j - fs {
                assert(v@.subrange(fs as int, j as int)[t] == v@[fs + t]);
            }
        }
        j = j + 1;
    }
    assert(all_digits(f));
    let acc = match read_digits(v, p, d, cap) {
        None => {
            proof {
                if is_decimal(v@) {
                    lemma_pow10_bounds(k as nat);
                    lemma_lead_digits_bound(f, k as nat);
                    lemma_digits_value_nonneg(ip);
                    assert(digits_value(ip) * pow10(k as nat) >= digits_value(ip)) by (nonlinear_arith)
                        requires
                            pow10(k as nat) >= 1,
                            digits_value(ip) >= 0,
                    ;
                }
            }
            return None;
        },
        Some(a) => a,
    };
    proof {
        lemma_pow10_bounds(k as nat);
    }
    let mut m: u64 = acc;
    let mut q: usize = 0;
    while q < k
        invariant
            q <= k <= 2,
            n == v@.len(),
            fs <= n,
            f == v@.subrange(fs as int, n as int),
            f == frac_digits(v@),
            ip == int_digits(v@),
            neg == is_negative(v@),
            all_digits(f),
            acc <= cap <= 1_000_000_000,
            acc == digits_value(ip),
            m == digits_value(ip) * pow10(q as nat) + lead_digits(f, q as nat),
            m < (cap + 1) * pow10(q as nat),
            pow10(q as nat) <= 100,
        decreases k - q,
    {
        let dv: u64 = if q < n - fs {
            assert(f[q as int] == v@[fs + q]);
            assert(is_digit(f[q as int]));
            match digit_of(v[fs + q]) {
                Some(x) => x,
                None => 0,
            }
        } else {
            0
        };
        proof {
            lemma_pow10_bounds((q + 1) as nat);
            let c1 = cap + 1;
            let pq = pow10(q as nat);
            assert(m * 10 + dv < c1 * (10 * pq)) by (nonlinear_arith)
                requires
                    m < c1 * pq,
                    dv <= 9,
            ;
            assert(c1 * (10 * pq) <= 1_000_000_001 * 100) by (nonlinear_arith)
                requires
                    c1 <= 1_000_000_001,
                    10 * pq <= 100,
                    pq >= 0,
            ;
            assert(digits_value(ip) * (10 * pq) == (digits_value(ip) * pq) * 10) by (nonlinear_arith);
        }
        m = m * 10 + dv;
        q = q + 1;
    }
    proof {
        let c1 = cap + 1;
        let pk = pow10(k as nat);
        assert(c1 * pk <= 1_000_000_001 * 100) by (nonlinear_arith)
            requires
                c1 <= 1_000_000_001,
                pk <= 100,
                pk >= 0,
        ;
    }
    if k < n - fs {
        assert(f[k as int] == v@[fs + k]);
        match digit_of(v[fs + k]) {
            Some(x) => {
                if x >= 5 {
                    m = m + 1;
                }
            },
            None => {},
        }
    }
    if m > cap {
        return None;
    }
    let mi = m as i64;
    if neg {
        Some(-mi)
    } else {
        Some(mi)
    }
}

/// The value of the unsigned numeral `v`, provided it does not exceed `cap`.
pub fn read_unsigned(v: &Vec<char>, cap: u64) -> (r: Option<u64>)
    requires
        cap <= 1_000_000_000,
    ensures
        r is Some <==> is_unsigned(v@) && digits_value(unsigned_digits(v@)) <= cap,
        r matches Some(x) ==> x == digits_value(unsigned_digits(v@)),
{
    let n = v.len();
    let p: usize = if n > 0 && v[0] == '+' {
        1
    } else {
        0
    };
    if p == n {
        return None;
    }
    read_digits(v, p, n, cap)
}

} // verus!
