//! The compact duration-string parser: `"1h20m4d"` and the like become a
//! total number of seconds, saturating at `u64::MAX`.

use vstd::prelude::*;
use vstd::string::StrSliceExecFns;
use vstd::string::StringExecFns;
use crate::arith::{clamp64, sat_add, sat_mul, lemma_sat_add_comm, lemma_sat_add_assoc,
    lemma_sat_add_zero, lemma_sat_mul_distributes};
use crate::digits::{is_digit, char_digit, all_digits, digits_value};

verus! {

/// Why a duration string failed to parse.
#[derive(Debug, Copy, Clone, PartialEq, Eq, Structural)]
pub enum ParseDurationError {
    /// A character that is neither an ASCII digit nor a recognized unit suffix.
    Unexpected(char),
    /// A unit suffix with no digits since the last suffix (or start of input).
    Valueless(char),
}

/// Whether `c` is one of the four recognized unit suffixes.
pub open spec fn is_unit(c: char) -> bool {
    c == 'd' || c == 'h' || c == 'm' || c == 's'
}

/// The scale factor of a unit suffix, in seconds.
pub open spec fn unit_seconds(c: char) -> u64 {
    if c == 'd' {
        86400
    } else if c == 'h' {
        3600
    } else if c == 'm' {
        60
    } else {
        1
    }
}

/// One step short of the whole parse: scans `s` with a pending digit run
/// `run` and an accumulated total `acc`, and returns either the error the
/// scan stops on, or the final total together with the trailing digit run
/// that no unit suffix ever closed.
pub open spec fn scan(s: Seq<char>, run: Seq<char>, acc: u64) -> Result<
    (u64, Seq<char>),
    ParseDurationError,
>
    decreases s.len(),
{
    if s.len() == 0 {
        Ok((acc, run))
    } else if is_digit(s[0]) {
        scan(s.drop_first(), run.push(s[0]), acc)
    } else if is_unit(s[0]) {
        if run.len() == 0 {
            Err(ParseDurationError::Valueless(s[0]))
        } else {
            scan(
                s.drop_first(),
                Seq::empty(),
                sat_add(acc, sat_mul(clamp64(digits_value(run)), unit_seconds(s[0]))),
            )
        }
    } else {
        Err(ParseDurationError::Unexpected(s[0]))
    }
}

/// What `parse_duration` returns: the total second count of `s`, with each
/// digit run clamped to `u64::MAX` and every multiplication and addition
/// saturating there; trailing digits with no unit suffix are ignored.
pub open spec fn parse_spec(s: Seq<char>) -> Result<u64, ParseDurationError> {
    match scan(s, Seq::empty(), 0) {
        Ok(p) => Ok(p.0),
        Err(e) => Err(e),
    }
}

/// Whether `s` is a clean concatenation of complete tokens: it parses
/// without error and ends with no trailing digits pending.
pub open spec fn parses_to_tokens(s: Seq<char>) -> bool {
    match scan(s, Seq::empty(), 0) {
        Ok(p) => p.1 == Seq::<char>::empty(),
        Err(_) => false,
    }
}

/// Parses a compact duration string (`Digits UnitChar` tokens, units
/// `d`/`h`/`m`/`s`, concatenated with no separators) into a total number
/// of seconds, saturating at `u64::MAX`. Trailing digits with no unit are
/// ignored; the empty string yields zero. Fails with `Unexpected` on any
/// other character and with `Valueless` on a suffix with no digits.
pub fn parse_duration(input: &str) -> (r: Result<u64, ParseDurationError>)
    ensures
        r == parse_spec(input@),
{
    let n = input.unicode_len();
    let mut acc: u64 = 0;
    let mut cur: u64 = 0;
    let mut has_digits = false;
    let ghost mut run: Seq<char> = Seq::empty();
    let mut i: usize = 0;
    proof {
        assert(input@.skip(0) =~= input@);
    }
    while i < n
        invariant
            n == input@.len(),
            i <= n,
            has_digits <==> run.len() != 0,
            all_digits(run),
            cur == clamp64(digits_value(run)),
            scan(input@.skip(i as int), run, acc) == scan(input@, Seq::empty(), 0),
        decreases n - i,
    {
        let c = input.get_char(i);
        proof {
            assert(input@.skip(i as int)[0] == c);
            assert(input@.skip(i as int).drop_first() =~= input@.skip(i as int + 1));
        }
        if c == 'd' || c == 'h' || c == 'm' || c == 's' {
            if has_digits {
                let scale: u64 = if c == 'd' {
                    86400
                } else if c == 'h' {
                    3600
                } else if c == 'm' {
                    60
                } else {
                    1
                };
                let scaled = match cur.checked_mul(scale) {
                    Some(v) => v,
                    None => u64::MAX,
                };
                acc = acc.saturating_add(scaled);
                cur = 0;
                has_digits = false;
                proof {
                    assert(scale == unit_seconds(c));
                    assert(scaled == sat_mul(clamp64(digits_value(run)), unit_seconds(c)));
                    run = Seq::empty();
                }
            } else {
                return Err(ParseDurationError::Valueless(c));
            }
        } else {
            let u = c as u32;
            if 48 <= u && u <= 57 {
                let d = (u - 48) as u64;
                let ten = match cur.checked_mul(10) {
                    Some(v) => v,
                    None => u64::MAX,
                };
                cur = ten.saturating_add(d);
                has_digits = true;
                proof {
                    assert(is_digit(c));
                    assert(char_digit(c) == d);
                    let prev = run;
                    run = run.push(c);
                    assert(run.drop_last() =~= prev);
                    assert(run.last() == c);
                    assert(digits_value(run) == 10 * digits_value(prev) + d);
                }
            } else {
                return Err(ParseDurationError::Unexpected(c));
            }
        }
        i = i + 1;
    }
    proof {
        assert(input@.skip(n as int) =~= Seq::<char>::empty());
    }
    Ok(acc)
}

/// Scanning a run of digits just moves them into the pending run.
pub proof fn lemma_scan_digits(ds: Seq<char>, t: Seq<char>, run: Seq<char>, acc: u64)
    requires
        all_digits(ds),
    ensures
        scan(ds + t, run, acc) == scan(t, run + ds, acc),
    decreases ds.len(),
{
    if ds.len() == 0 {
        assert(ds + t =~= t);
        assert(run + ds =~= run);
    } else {
        let c = ds[0];
        assert((ds + t)[0] == c);
        assert((ds + t).drop_first() =~= ds.drop_first() + t);
        lemma_scan_digits(ds.drop_first(), t, run.push(c), acc);
        assert(run.push(c) + ds.drop_first() =~= run + ds);
    }
}

/// Scanning one complete token (`Digits UnitChar`) from an empty pending
/// run folds its saturated value into the total and moves on.
pub proof fn lemma_scan_token(ds: Seq<char>, c: char, rest: Seq<char>, acc: u64)
    requires
        all_digits(ds),
        ds.len() > 0,
        is_unit(c),
    ensures
        scan(ds + seq![c] + rest, Seq::empty(), acc) == scan(
            rest,
            Seq::empty(),
            sat_add(acc, sat_mul(clamp64(digits_value(ds)), unit_seconds(c))),
        ),
{
    assert(ds + seq![c] + rest =~= ds + (seq![c] + rest));
    lemma_scan_digits(ds, seq![c] + rest, Seq::empty(), acc);
    assert(Seq::empty() + ds =~= ds);
    assert((seq![c] + rest)[0] == c);
    assert(!is_digit(c));
    assert((seq![c] + rest).drop_first() =~= rest);
}

/// Starting the scan with a larger total only shifts every outcome by
/// that much, saturating: the error, if any, is unchanged.
pub proof fn lemma_scan_acc_shift(s: Seq<char>, run: Seq<char>, a: u64, b: u64)
    ensures
        scan(s, run, sat_add(a, b)) == (match scan(s, run, b) {
            Ok(p) => Ok::<(u64, Seq<char>), ParseDurationError>((sat_add(a, p.0), p.1)),
            Err(e) => Err(e),
        }),
    decreases s.len(),
{
    if s.len() == 0 {
    } else if is_digit(s[0]) {
        lemma_scan_acc_shift(s.drop_first(), run.push(s[0]), a, b);
    } else if is_unit(s[0]) {
        if run.len() != 0 {
            let tok = sat_mul(clamp64(digits_value(run)), unit_seconds(s[0]));
            lemma_sat_add_assoc(a, b, tok);
            lemma_scan_acc_shift(s.drop_first(), Seq::empty(), a, sat_add(b, tok));
        }
    }
}

/// Scanning a concatenation is scanning the first part, then carrying its
/// total and pending run into the second.
pub proof fn lemma_scan_append(a: Seq<char>, t: Seq<char>, run: Seq<char>, acc: u64)
    ensures
        scan(a + t, run, acc) == (match scan(a, run, acc) {
            Ok(p) => scan(t, p.1, p.0),
            Err(e) => Err(e),
        }),
    decreases a.len(),
{
    if a.len() == 0 {
        assert(a + t =~= t);
    } else {
        let c = a[0];
        assert((a + t)[0] == c);
        assert((a + t).drop_first() =~= a.drop_first() + t);
        if is_digit(c) {
            lemma_scan_append(a.drop_first(), t, run.push(c), acc);
        } else if is_unit(c) {
            if run.len() != 0 {
                lemma_scan_append(
                    a.drop_first(),
                    t,
                    Seq::empty(),
                    sat_add(acc, sat_mul(clamp64(digits_value(run)), unit_seconds(c))),
                );
            }
        }
    }
}

/// Token order does not affect the total: two complete token strings
/// parse to the same duration in either order.
pub proof fn lemma_order_independence(a: Seq<char>, b: Seq<char>)
    requires
        parses_to_tokens(a),
        parses_to_tokens(b),
    ensures
        parse_spec(a + b) == parse_spec(b + a),
{
    let x = scan(a, Seq::empty(), 0)->Ok_0.0;
    let y = scan(b, Seq::empty(), 0)->Ok_0.0;
    lemma_scan_append(a, b, Seq::empty(), 0);
    lemma_sat_add_zero(x);
    lemma_scan_acc_shift(b, Seq::empty(), x, 0);
    assert(parse_spec(a + b) == Ok::<u64, ParseDurationError>(sat_add(x, y)));
    lemma_scan_append(b, a, Seq::empty(), 0);
    lemma_sat_add_zero(y);
    lemma_scan_acc_shift(a, Seq::empty(), y, 0);
    assert(parse_spec(b + a) == Ok::<u64, ParseDurationError>(sat_add(y, x)));
    lemma_sat_add_comm(x, y);
}

/// Repeated units accumulate: two tokens with the same unit parse exactly
/// as the single token whose value is their saturated sum.
pub proof fn lemma_repeated_units(d1: Seq<char>, d2: Seq<char>, d3: Seq<char>, c: char)
    requires
        all_digits(d1),
        d1.len() > 0,
        all_digits(d2),
        d2.len() > 0,
        all_digits(d3),
        d3.len() > 0,
        is_unit(c),
        clamp64(digits_value(d3)) == sat_add(clamp64(digits_value(d1)), clamp64(digits_value(d2))),
    ensures
        parse_spec(d1 + seq![c] + d2 + seq![c]) == parse_spec(d3 + seq![c]),
{
    let k = unit_seconds(c);
    let v1 = clamp64(digits_value(d1));
    let v2 = clamp64(digits_value(d2));
    let v3 = clamp64(digits_value(d3));
    assert(d1 + seq![c] + d2 + seq![c] =~= d1 + seq![c] + (d2 + seq![c]));
    lemma_scan_token(d1, c, d2 + seq![c], 0);
    lemma_sat_add_zero(sat_mul(v1, k));
    assert(d2 + seq![c] + Seq::<char>::empty() =~= d2 + seq![c]);
    lemma_scan_token(d2, c, Seq::empty(), sat_mul(v1, k));
    assert(d3 + seq![c] + Seq::<char>::empty() =~= d3 + seq![c]);
    lemma_scan_token(d3, c, Seq::empty(), 0);
    lemma_sat_add_zero(sat_mul(v3, k));
    lemma_sat_mul_distributes(v1, v2, k);
}

impl ParseDurationError {
    /// The user-visible message for this error, with the offending
    /// character rendered in its quoted debug form.
    pub fn message(&self) -> (r: String)
        ensures
            r@ == message_spec(*self),
    {
        match *self {
            ParseDurationError::Unexpected(c) => {
                let mut out = String::from_str("unexpected character ");
                out.append(char_debug(c).as_str());
                out
            },
            ParseDurationError::Valueless(c) => {
                let mut out = String::from_str("missing value before ");
                out.append(char_debug(c).as_str());
                out
            },
        }
    }
}

/// The message text of a parse error.
pub open spec fn message_spec(e: ParseDurationError) -> Seq<char> {
    match e {
        ParseDurationError::Unexpected(c) => "unexpected character "@ + char_debug_of(c),
        ParseDurationError::Valueless(c) => "missing value before "@ + char_debug_of(c),
    }
}

pub uninterp spec fn char_debug_of(c: char) -> Seq<char>;

/// Relies on core::fmt's `Debug` for `char`: renders the character quoted
/// and escaped, as a function of the character alone.
#[verifier::external_body]
fn char_debug(c: char) -> (r: String)
    ensures
        r@ == char_debug_of(c),
{
    format!("{c:?}")
}

} // verus!
