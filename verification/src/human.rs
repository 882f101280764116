//! The day/hour/minute/second breakdown of a second count and its
//! canonical compact rendering, plus the round-trip law tying the
//! rendering back to the parser.

use vstd::prelude::*;
use vstd::string::StringExecFns;
use crate::arith::{clamp64, sat_add, sat_mul};
use crate::digits::{dec_digits, digits_value, lemma_dec_digits_value, push_decimal};
use crate::parse::{is_unit, lemma_scan_token, parse_spec, scan, unit_seconds, ParseDurationError};

verus! {

/// A display-only decomposition of a whole-second duration.
#[derive(Debug, Copy, Clone, PartialEq, Eq, Structural)]
pub struct HumanDuration {
    pub days: u64,
    pub hours: u8,
    pub minutes: u8,
    pub seconds: u8,
}

impl HumanDuration {
    /// The sub-day fields are in range.
    pub open spec fn wf(self) -> bool {
        self.hours < 24 && self.minutes < 60 && self.seconds < 60
    }

    /// The total second count the four fields denote.
    pub open spec fn total_seconds(self) -> int {
        self.days * 86400 + self.hours * 3600 + self.minutes * 60 + self.seconds
    }

    /// All four fields are zero.
    pub open spec fn is_zero(self) -> bool {
        self.days == 0 && self.hours == 0 && self.minutes == 0 && self.seconds == 0
    }

    /// The breakdown of `secs`: whole days first, then the remainder split
    /// into hours, minutes and seconds by plain base conversion.
    pub open spec fn from_secs_spec(secs: u64) -> HumanDuration {
        HumanDuration {
            days: (secs / 86400) as u64,
            hours: ((secs % 86400) / 3600) as u8,
            minutes: (((secs % 86400) % 3600) / 60) as u8,
            seconds: (((secs % 86400) % 3600) % 60) as u8,
        }
    }

    /// Decomposes a second count into days, hours, minutes and seconds.
    /// The fields always reconstruct the input exactly:
    /// `days*86400 + hours*3600 + minutes*60 + seconds == secs`.
    pub fn from_secs(secs: u64) -> (r: HumanDuration)
        ensures
            r == Self::from_secs_spec(secs),
            r.wf(),
            r.total_seconds() == secs,
    {
        let days = secs / 86400;
        let rem_day = secs % 86400;
        let hours = rem_day / 3600;
        let rem_hour = rem_day % 3600;
        let minutes = rem_hour / 60;
        let seconds = rem_hour % 60;
        proof {
            lemma_from_secs_total(secs);
        }
        HumanDuration {
            days,
            hours: hours as u8,
            minutes: minutes as u8,
            seconds: seconds as u8,
        }
    }

    /// Renders the breakdown in canonical compact form: each nonzero field
    /// as `<value><unit-letter>` in days/hours/minutes/seconds order with
    /// no separators, or `"0s"` when every field is zero.
    pub fn format(&self) -> (r: String)
        ensures
            r@ == format_spec(*self),
    {
        if self.days == 0 && self.hours == 0 && self.minutes == 0 && self.seconds == 0 {
            let r = String::from_str("0s");
            proof {
                reveal_strlit("0s");
                assert(r@ =~= seq!['0', 's']);
            }
            r
        } else {
            let mut out = String::new();
            if self.days != 0 {
                push_decimal(&mut out, self.days);
                out.append("d");
                proof {
                    reveal_strlit("d");
                    assert("d"@ =~= seq!['d']);
                }
            }
            if self.hours != 0 {
                push_decimal(&mut out, self.hours as u64);
                out.append("h");
                proof {
                    reveal_strlit("h");
                    assert("h"@ =~= seq!['h']);
                }
            }
            if self.minutes != 0 {
                push_decimal(&mut out, self.minutes as u64);
                out.append("m");
                proof {
                    reveal_strlit("m");
                    assert("m"@ =~= seq!['m']);
                }
            }
            if self.seconds != 0 {
                push_decimal(&mut out, self.seconds as u64);
                out.append("s");
                proof {
                    reveal_strlit("s");
                    assert("s"@ =~= seq!['s']);
                }
            }
            proof {
                assert(out@ =~= format_spec(*self));
            }
            out
        }
    }
}

/// The rendering of one field: nothing when the value is zero, else the
/// decimal value followed by the unit letter.
pub open spec fn opt_token(v: u64, c: char) -> Seq<char> {
    if v == 0 {
        Seq::empty()
    } else {
        dec_digits(v as nat) + seq![c]
    }
}

/// The canonical compact rendering of a breakdown.
pub open spec fn format_spec(h: HumanDuration) -> Seq<char> {
    if h.is_zero() {
        seq!['0', 's']
    } else {
        opt_token(h.days, 'd') + opt_token(h.hours as u64, 'h') + opt_token(h.minutes as u64, 'm')
            + opt_token(h.seconds as u64, 's')
    }
}

/// The successive divisions and remainders of the breakdown always
/// recombine to the original second count.
pub proof fn lemma_from_secs_total(secs: u64)
    ensures
        HumanDuration::from_secs_spec(secs).wf(),
        HumanDuration::from_secs_spec(secs).total_seconds() == secs,
{
    vstd::arithmetic::div_mod::lemma_fundamental_div_mod(secs as int, 86400);
    vstd::arithmetic::div_mod::lemma_fundamental_div_mod((secs % 86400) as int, 3600);
    vstd::arithmetic::div_mod::lemma_fundamental_div_mod(((secs % 86400) % 3600) as int, 60);
}

/// Scanning one field's rendering adds exactly that field's contribution
/// to the running total, provided the true sum stays representable.
proof fn lemma_scan_opt_token(v: u64, c: char, rest: Seq<char>, acc: u64)
    requires
        is_unit(c),
        acc + v * unit_seconds(c) <= u64::MAX,
    ensures
        scan(opt_token(v, c) + rest, Seq::empty(), acc) == scan(
            rest,
            Seq::empty(),
            (acc + v * unit_seconds(c)) as u64,
        ),
{
    let k = unit_seconds(c);
    if v == 0 {
        assert(v * k == 0);
        assert(opt_token(v, c) + rest =~= rest);
    } else {
        assert(opt_token(v, c) + rest =~= dec_digits(v as nat) + seq![c] + rest);
        lemma_dec_digits_value(v as nat);
        lemma_scan_token(dec_digits(v as nat), c, rest, acc);
        assert(clamp64(digits_value(dec_digits(v as nat))) == v);
        assert(sat_mul(v, k) == v * k);
        assert(sat_add(acc, (v * k) as u64) == (acc + v * k) as u64);
    }
}

/// Round trip: rendering the breakdown of any second count and parsing
/// the result reproduces that count exactly, for every `u64` value.
pub proof fn lemma_format_round_trip(secs: u64)
    ensures
        parse_spec(format_spec(HumanDuration::from_secs_spec(secs))) == Ok::<
            u64,
            ParseDurationError,
        >(secs),
{
    lemma_from_secs_total(secs);
    let h = HumanDuration::from_secs_spec(secs);
    if h.is_zero() {
        assert(secs == 0);
        let s0 = seq!['0', 's'];
        assert(format_spec(h) == s0);
        assert(s0.drop_first() =~= seq!['s']);
        assert(scan(s0, Seq::empty(), 0) == scan(seq!['s'], seq!['0'], 0));
        let run = seq!['0'];
        assert(run.drop_last() =~= Seq::<char>::empty());
        assert(digits_value(run) == 0);
        assert(seq!['s'].drop_first() =~= Seq::<char>::empty());
        assert(scan(seq!['s'], run, 0) == scan(
            Seq::<char>::empty(),
            Seq::<char>::empty(),
            sat_add(0, sat_mul(clamp64(0), 1)),
        ));
        assert(sat_add(0, sat_mul(clamp64(0), 1)) == 0);
    } else {
        let td = opt_token(h.days, 'd');
        let th = opt_token(h.hours as u64, 'h');
        let tm = opt_token(h.minutes as u64, 'm');
        let ts = opt_token(h.seconds as u64, 's');
        let a1 = (h.days * 86400) as u64;
        let a2 = (a1 + (h.hours as u64) * 3600) as u64;
        let a3 = (a2 + (h.minutes as u64) * 60) as u64;
        assert(format_spec(h) =~= td + (th + (tm + ts)));
        lemma_scan_opt_token(h.days, 'd', th + (tm + ts), 0);
        lemma_scan_opt_token(h.hours as u64, 'h', tm + ts, a1);
        lemma_scan_opt_token(h.minutes as u64, 'm', ts, a2);
        assert(ts + Seq::<char>::empty() =~= ts);
        lemma_scan_opt_token(h.seconds as u64, 's', Seq::empty(), a3);
        assert((a3 + (h.seconds as u64) * 1) as u64 == secs);
    }
}

/// The spinner glyph for a given elapsed second, cycling through the four
/// glyphs `|`, `/`, `-`, `\` once per second.
pub open spec fn spinner_spec(step: u64) -> char {
    if step % 4 == 0 {
        '|'
    } else if step % 4 == 1 {
        '/'
    } else if step % 4 == 2 {
        '-'
    } else {
        '\\'
    }
}

/// Picks the spinner glyph for an elapsed-second count.
pub fn spinner_char(step: u64) -> (c: char)
    ensures
        c == spinner_spec(step),
{
    let r = step % 4;
    if r == 0 {
        '|'
    } else if r == 1 {
        '/'
    } else if r == 2 {
        '-'
    } else {
        '\\'
    }
}

} // verus!
