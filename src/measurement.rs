//! One field of a sensor log row, classified by its unit suffix.

use vstd::prelude::*;
use crate::error::TelemetryError;
use crate::numbers::{
    all_digits, decimal_text, digit_char, digit_str, digits_value, first_dot, frac_digits,
    int_digits, is_decimal, is_digit, is_negative, is_unsigned, lead_digits, lemma_decimal_text,
    lemma_digit_char, lemma_scaled_magnitude_nonneg, push_decimal, read_scaled, read_unsigned,
    scaled_magnitude, scaled_value, sign_len, unsigned_digits, unsigned_part,
};
use crate::text::{
    chars_of, ends_with, is_space_spec, slice_chars, space_pred, trim_bounds, trim_end_by,
    trim_spaces, trim_start_by,
};

verus! {

/// A sensor reading.
#[derive(Debug, PartialEq, Eq)]
pub enum Measurement {
    /// A fan or pump speed in revolutions per minute.
    Rpm(u16),
    /// A temperature in tenths of a degree Celsius.
    Temperature(i16),
    /// A load or level as a fraction of one, in ten-thousandths (`0.87` is 8700).
    Percentage(i32),
    /// A field with no recognised unit, trimmed.
    Other(String),
}

pub open spec fn rpm_suffix() -> Seq<char> {
    seq!['R', 'P', 'M']
}

pub open spec fn celsius_suffix() -> Seq<char> {
    seq!['\u{b0}', 'C']
}

pub open spec fn percent_suffix() -> Seq<char> {
    seq!['%']
}

pub open spec fn without_suffix(s: Seq<char>, n: int) -> Seq<char> {
    s.subrange(0, s.len() - n)
}

/// Whether `r` is what parsing the field `field` gives: the field is trimmed;
/// a `RPM` ending makes a speed, a `°C` ending a temperature rounded to the
/// tenth of a degree, a `%` ending a fraction rounded to the ten-thousandth; a
/// number that does not read, or does not fit, is a malformed field. Any other
/// field is kept as text.
pub open spec fn parses_to(field: Seq<char>, r: Result<Measurement, TelemetryError>) -> bool {
    let t = trim_spaces(field);
    if ends_with(t, rpm_suffix()) {
        let x = without_suffix(t, 3);
        if is_unsigned(x) && digits_value(unsigned_digits(x)) <= 65535 {
            r == Ok::<Measurement, TelemetryError>(
                Measurement::Rpm(digits_value(unsigned_digits(x)) as u16),
            )
        } else {
            r == Err::<Measurement, TelemetryError>(TelemetryError::MalformedField)
        }
    } else if ends_with(t, celsius_suffix()) {
        let x = without_suffix(t, 2);
        if is_decimal(x) && -32768 <= scaled_value(x, 1) <= 32767 {
            r == Ok::<Measurement, TelemetryError>(
                Measurement::Temperature(scaled_value(x, 1) as i16),
            )
        } else {
            r == Err::<Measurement, TelemetryError>(TelemetryError::MalformedField)
        }
    } else if ends_with(t, percent_suffix()) {
        let x = without_suffix(t, 1);
        if is_decimal(x) && -1_000_000_000 <= scaled_value(x, 2) <= 1_000_000_000 {
            r == Ok::<Measurement, TelemetryError>(
                Measurement::Percentage(scaled_value(x, 2) as i32),
            )
        } else {
            r == Err::<Measurement, TelemetryError>(TelemetryError::MalformedField)
        }
    } else {
        match r {
            Ok(Measurement::Other(s)) => s@ == t,
            _ => false,
        }
    }
}

impl Measurement {
    /// Parses one field of a log row.
    pub fn parse_field(field: &str) -> (r: Result<Measurement, TelemetryError>)
        ensures
            parses_to(field@, r),
    {
        let v = chars_of(field);
        let (a, b) = trim_bounds(&v, false);
        let t = slice_chars(&v, a, b);
        let n = t.len();
        assert(t@ == trim_spaces(field@));
        if n >= 3 && t[n - 3] == 'R' && t[n - 2] == 'P' && t[n - 1] == 'M' {
            assert(t@.subrange(n - 3, n as int) =~= rpm_suffix());
            let x = slice_chars(&t, 0, n - 3);
            let r = match read_unsigned(&x, 65535) {
                Some(val) => Ok(Measurement::Rpm(val as u16)),
                None => Err(TelemetryError::MalformedField),
            };
            assert(parses_to(field@, r));
            r
        } else if n >= 2 && t[n - 2] == '\u{b0}' && t[n - 1] == 'C' {
            proof {
                let tail = t@.subrange(n - 3, n as int);
                if n >= 3 && tail == rpm_suffix() {
                    assert(tail[1] == t@[n - 2]);
                }
            }
            assert(t@.subrange(n - 2, n as int) =~= celsius_suffix());
            let x = slice_chars(&t, 0, n - 2);
            proof {
                if is_decimal(x@) {
                    lemma_scaled_magnitude_nonneg(x@, 1);
                }
            }
            let r = match read_scaled(&x, 1, 32768) {
                Some(val) => {
                    if val <= 32767 {
                        Ok(Measurement::Temperature(val as i16))
                    } else {
                        Err(TelemetryError::MalformedField)
                    }
                },
                None => Err(TelemetryError::MalformedField),
            };
            assert(parses_to(field@, r));
            r
        } else if n >= 1 && t[n - 1] == '%' {
            proof {
                if n >= 3 && t@.subrange(n - 3, n as int) == rpm_suffix() {
                    assert(t@.subrange(n - 3, n as int)[2] == t@[n - 1]);
                }
                if n >= 2 && t@.subrange(n - 2, n as int) == celsius_suffix() {
                    assert(t@.subrange(n - 2, n as int)[1] == t@[n - 1]);
                }
            }
            assert(t@.subrange(n - 1, n as int) =~= percent_suffix());
            let x = slice_chars(&t, 0, n - 1);
            proof {
                if is_decimal(x@) {
                    lemma_scaled_magnitude_nonneg(x@, 2);
                }
            }
            let r = match read_scaled(&x, 2, 1_000_000_000) {
                Some(val) => Ok(Measurement::Percentage(val as i32)),
                None => Err(TelemetryError::MalformedField),
            };
            assert(parses_to(field@, r));
            r
        } else {
            proof {
                if n >= 3 && t@.subrange(n - 3, n as int) == rpm_suffix() {
                    let tail = t@.subrange(n - 3, n as int);
                    assert(tail[0] == t@[n - 3]);
                    assert(tail[1] == t@[n - 2]);
                    assert(tail[2] == t@[n - 1]);
                }
                if n >= 2 && t@.subrange(n - 2, n as int) == celsius_suffix() {
                    let tail = t@.subrange(n - 2, n as int);
                    assert(tail[0] == t@[n - 2]);
                    assert(tail[1] == t@[n - 1]);
                }
                if n >= 1 && t@.subrange(n - 1, n as int) == percent_suffix() {
                    assert(t@.subrange(n - 1, n as int)[0] == t@[n - 1]);
                }
            }
            let s = field.substring_char(a, b);
            let o = String::from_str(s);
            assert(o@ == t@);
            let r = Ok(Measurement::Other(o));
            assert(parses_to(field@, r));
            r
        }
    }

    /// The temperature in tenths of a degree; a reading of another kind is a
    /// type mismatch.
    pub fn as_i16(&self) -> (r: Result<i16, TelemetryError>)
        ensures
            r == (match self {
                Measurement::Temperature(t) => Ok::<i16, TelemetryError>(*t),
                _ => Err::<i16, TelemetryError>(TelemetryError::TypeMismatch),
            }),
    {
        match self {
            Measurement::Temperature(t) => Ok(*t),
            _ => Err(TelemetryError::TypeMismatch),
        }
    }
}

impl std::str::FromStr for Measurement {
    type Err = TelemetryError;

    fn from_str(s: &str) -> (r: Result<Measurement, TelemetryError>)
        ensures
            parses_to(s@, r),
    {
        Measurement::parse_field(s)
    }
}


/// The temperature, in tenths of a degree, that the field `field` holds: a
/// field that reads as another kind of measurement is a type mismatch, one
/// whose number does not read is malformed.
pub open spec fn field_temperature(field: Seq<char>) -> Result<i16, TelemetryError> {
    let t = trim_spaces(field);
    if ends_with(t, rpm_suffix()) {
        let x = without_suffix(t, 3);
        if is_unsigned(x) && digits_value(unsigned_digits(x)) <= 65535 {
            Err(TelemetryError::TypeMismatch)
        } else {
            Err(TelemetryError::MalformedField)
        }
    } else if ends_with(t, celsius_suffix()) {
        let x = without_suffix(t, 2);
        if is_decimal(x) && -32768 <= scaled_value(x, 1) <= 32767 {
            Ok(scaled_value(x, 1) as i16)
        } else {
            Err(TelemetryError::MalformedField)
        }
    } else if ends_with(t, percent_suffix()) {
        let x = without_suffix(t, 1);
        if is_decimal(x) && -1_000_000_000 <= scaled_value(x, 2) <= 1_000_000_000 {
            Err(TelemetryError::TypeMismatch)
        } else {
            Err(TelemetryError::MalformedField)
        }
    } else {
        Err(TelemetryError::TypeMismatch)
    }
}

/// How a temperature of `t` tenths of a degree is written in a log field:
/// sign, whole degrees, point, tenths, unit.
pub open spec fn temperature_text(t: int) -> Seq<char> {
    let m = if t < 0 {
        -t
    } else {
        t
    };
    (if t < 0 {
        seq!['-']
    } else {
        Seq::<char>::empty()
    }) + decimal_text((m / 10) as nat) + seq!['.', digit_char(m % 10)] + celsius_suffix()
}

/// Writes a temperature of `tenths` tenths of a degree as a log field.
pub fn temperature_field(tenths: i16) -> (r: String)
    ensures
        r@ == temperature_text(tenths as int),
{
    let m: u32 = if tenths < 0 {
        (-(tenths as i32)) as u32
    } else {
        tenths as u32
    };
    proof {
        reveal_strlit("-");
        reveal_strlit(".");
        reveal_strlit("\u{b0}C");
    }
    let mut s = if tenths < 0 {
        String::from_str("-")
    } else {
        String::new()
    };
    push_decimal(&mut s, m / 10);
    s.append(".");
    s.append(digit_str(m % 10));
    s.append("\u{b0}C");
    assert(s@ =~= temperature_text(tenths as int));
    s
}

proof fn lemma_first_dot_at(b: Seq<char>, i: int, k: int)
    requires
        0 <= i <= k < b.len(),
        b[k] == '.',
        forall|j: int| i <= j < k ==> is_digit(#[trigger] b[j]),
    ensures
        first_dot(b, i) == k,
    decreases k - i,
{
    if i < k {
        assert(is_digit(b[i]));
        lemma_first_dot_at(b, i + 1, k);
    }
}

/// Writing a temperature as a field and parsing that field gives the same
/// temperature back, to the tenth of a degree.
pub proof fn lemma_temperature_round_trip(t: i16)
    ensures
        parses_to(temperature_text(t as int), Ok(Measurement::Temperature(t))),
        field_temperature(temperature_text(t as int)) == Ok::<i16, TelemetryError>(t),
{
    let ti = t as int;
    let m = if ti < 0 {
        -ti
    } else {
        ti
    };
    let dt = decimal_text((m / 10) as nat);
    lemma_decimal_text((m / 10) as nat);
    lemma_digit_char(m % 10);
    let sign = if ti < 0 {
        seq!['-']
    } else {
        Seq::<char>::empty()
    };
    let s = temperature_text(ti);
    let x = sign + dt + seq!['.', digit_char(m % 10)];
    assert(s =~= x + celsius_suffix());
    assert(is_digit(dt[0]));
    // no space at either end
    assert(!is_space_spec(s[0]));
    assert(s.last() == 'C');
    assert(trim_start_by(s, space_pred()) == s);
    assert(trim_end_by(s, space_pred()) == s);
    assert(trim_spaces(s) == s);
    // the unit
    assert(s.subrange(s.len() - 3, s.len() as int)[2] == s.last());
    assert(!ends_with(s, rpm_suffix()));
    assert(s.subrange(s.len() - 2, s.len() as int) =~= celsius_suffix());
    assert(without_suffix(s, 2) =~= x);
    // the numeral
    assert(sign_len(x) == sign.len());
    assert(is_negative(x) == (ti < 0));
    let b = unsigned_part(x);
    assert(b =~= dt + seq!['.', digit_char(m % 10)]);
    assert forall|j: int| 0 <= j < dt.len() implies is_digit(#[trigger] b[j]) by {
        assert(b[j] == dt[j]);
    }
    lemma_first_dot_at(b, 0, dt.len() as int);
    assert(int_digits(x) =~= dt);
    assert(frac_digits(x) =~= seq![digit_char(m % 10)]);
    assert(all_digits(frac_digits(x)));
    assert(lead_digits(frac_digits(x), 1) == m % 10) by {
        reveal_with_fuel(lead_digits, 2);
    }
    assert(crate::numbers::pow10(1) == 10) by {
        reveal_with_fuel(crate::numbers::pow10, 2);
    }
    assert(digits_value(int_digits(x)) == m / 10);
    assert((m / 10) * 10 + m % 10 == m) by (nonlinear_arith)
        requires
            m >= 0,
    ;
    assert(scaled_magnitude(x, 1) == m);
    assert(scaled_value(x, 1) == ti);
}

/// Parses `field` and takes the temperature out of it.
pub fn read_temperature(field: &str) -> (r: Result<i16, TelemetryError>)
    ensures
        r == field_temperature(field@),
{
    match Measurement::parse_field(field) {
        Ok(m) => m.as_i16(),
        Err(e) => Err(e),
    }
}

} // verus!
