//! Compact duration strings: parsing `<digits><unit>` groups and rendering
//! seconds as `1d 2h 3m` style text.

use vstd::prelude::*;
use crate::model::TimeValue;
use crate::text::{
    chars_vec, dec_str, digit_val, is_digit, is_digit_char, parse_u64_text, push_dec_u64,
    string_from_chars, u64_text_val,
};

verus! {

// ---------------------------------------------------------------------------
// Parsing duration strings
// ---------------------------------------------------------------------------

/// Seconds per unit letter, case-insensitive: week, day, hour, minute, second.
pub open spec fn unit_mult(c: char) -> Option<nat> {
    if c == 'w' || c == 'W' {
        Some(604800nat)
    } else if c == 'd' || c == 'D' {
        Some(86400nat)
    } else if c == 'h' || c == 'H' {
        Some(3600nat)
    } else if c == 'm' || c == 'M' {
        Some(60nat)
    } else if c == 's' || c == 'S' {
        Some(1nat)
    } else {
        None
    }
}

/// Accumulator of the left-to-right scan: seconds gathered so far, the
/// pending run of digits, and whether any unit letter has been consumed.
pub struct DurAcc {
    pub total: nat,
    pub num: Option<nat>,
    pub has_unit: bool,
}

pub open spec fn dur_step(a: DurAcc, c: char) -> DurAcc {
    if is_digit_char(c) {
        let n = match a.num {
            Some(n) => n,
            None => 0nat,
        };
        DurAcc { total: a.total, num: Some(n * 10 + digit_val(c)), has_unit: a.has_unit }
    } else {
        match a.num {
            None => a,
            Some(n) => match unit_mult(c) {
                Some(m) => DurAcc { total: a.total + n * m, num: None, has_unit: true },
                None => DurAcc { total: a.total, num: None, has_unit: a.has_unit },
            },
        }
    }
}

pub open spec fn dur_fold(s: Seq<char>) -> DurAcc
    decreases s.len(),
{
    if s.len() == 0 {
        DurAcc { total: 0, num: None, has_unit: false }
    } else {
        dur_step(dur_fold(s.drop_last()), s.last())
    }
}

/// The seconds the whole text denotes: gathered units plus a trailing bare
/// run of digits.
pub open spec fn dur_total(s: Seq<char>) -> nat {
    let a = dur_fold(s);
    a.total + (match a.num {
        Some(n) => n,
        None => 0nat,
    })
}

/// What duration parsing returns: the summed seconds when the text had a
/// unit letter or trailed bare digits and the sum fits `u64`; else nothing.
pub open spec fn parse_duration_spec(s: Seq<char>) -> Option<int> {
    let a = dur_fold(s);
    if (a.has_unit || a.num is Some) && dur_total(s) <= u64::MAX {
        Some(dur_total(s) as int)
    } else {
        None
    }
}

/// Parses consecutive `<digits><unit>` groups, units in weeks, days, hours,
/// minutes, seconds, summing to seconds; a trailing run of digits with no
/// unit counts as bare seconds.  Nothing when the text had no recognizable
/// duration shape, or the sum exceeds `u64::MAX`.
pub fn parse_duration_string(input: &str) -> (r: Option<u64>)
    ensures
        r == match parse_duration_spec(input@) {
            Some(n) => Some(n as u64),
            None => None::<u64>,
        },
{
    let v = chars_vec(input);
    let n: usize = v.len();
    let mut total: u128 = 0;
    let mut total_ovf: bool = false;
    let mut num: u128 = 0;
    let mut num_present: bool = false;
    let mut num_ovf: bool = false;
    let mut has_unit: bool = false;
    let mut i: usize = 0;
    proof {
        assert(v@.subrange(0, 0) =~= Seq::<char>::empty());
    }
    while i < n
        invariant
            0 <= i <= n,
            n == v@.len(),
            v@ == input@,
            has_unit == dur_fold(v@.subrange(0, i as int)).has_unit,
            num_present == (dur_fold(v@.subrange(0, i as int)).num is Some),
            num_present && !num_ovf ==> num == dur_fold(v@.subrange(0, i as int)).num->0
                && num <= u64::MAX,
            !num_present ==> num == 0 && !num_ovf,
            num_ovf ==> dur_fold(v@.subrange(0, i as int)).num->0 > u64::MAX,
            !total_ovf ==> total == dur_fold(v@.subrange(0, i as int)).total,
            total_ovf ==> dur_fold(v@.subrange(0, i as int)).total > u64::MAX,
            total <= u64::MAX,
            num <= u64::MAX,
        decreases n - i,
    {
        let ghost pre = dur_fold(v@.subrange(0, i as int));
        let c = v[i];
        proof {
            let t = v@.subrange(0, i + 1);
            assert(t.drop_last() =~= v@.subrange(0, i as int));
            assert(t.last() == v@[i as int]);
        }
        if is_digit(c) {
            let d: u128 = (c as u32 - '0' as u32) as u128;
            assert(d == digit_val(v@[i as int]));
            if num_ovf {
                proof {
                    let old_n = pre.num->0;
                    assert(old_n * 10 + digit_val(v@[i as int]) > u64::MAX) by (nonlinear_arith)
                        requires
                            old_n > u64::MAX,
                            digit_val(v@[i as int]) >= 0,
                    ;
                }
            } else {
                let next: u128 = num * 10 + d;
                if next > u64::MAX as u128 {
                    num_ovf = true;
                } else {
                    num = next;
                }
            }
            num_present = true;
        } else {
            if num_present {
                let m: u128 = if c == 'w' || c == 'W' {
                    604800
                } else if c == 'd' || c == 'D' {
                    86400
                } else if c == 'h' || c == 'H' {
                    3600
                } else if c == 'm' || c == 'M' {
                    60
                } else if c == 's' || c == 'S' {
                    1
                } else {
                    0
                };
                if m > 0 {
                    assert(unit_mult(v@[i as int]) == Some(m as nat));
                    if num_ovf {
                        total_ovf = true;
                        proof {
                            let old_n = pre.num->0;
                            let mm = m as nat;
                            assert(pre.total + old_n * mm > u64::MAX) by (nonlinear_arith)
                                requires
                                    old_n > u64::MAX,
                                    mm >= 1,
                                    pre.total >= 0,
                            ;
                        }
                    } else {
                        let prod: u128 = num * m;
                        proof {
                            assert(num * m <= 0xFFFF_FFFF_FFFF_FFFF * 604800) by (nonlinear_arith)
                                requires
                                    num <= 0xFFFF_FFFF_FFFF_FFFF,
                                    m <= 604800,
                                    num >= 0,
                                    m >= 0,
                            ;
                        }
                        if !total_ovf {
                            let next_total: u128 = total + prod;
                            if next_total > u64::MAX as u128 {
                                total_ovf = true;
                            } else {
                                total = next_total;
                            }
                        }
                    }
                    has_unit = true;
                }
                num = 0;
                num_present = false;
                num_ovf = false;
            }
        }
        i = i + 1;
    }
    proof {
        assert(v@.subrange(0, n as int) =~= v@);
    }
    let a_total_ovf = total_ovf;
    if !has_unit && !num_present {
        return None;
    }
    if a_total_ovf || num_ovf {
        return None;
    }
    let tot: u128 = total + num;
    if tot > u64::MAX as u128 {
        return None;
    }
    Some(tot as u64)
}

// ---------------------------------------------------------------------------
// Rendering durations
// ---------------------------------------------------------------------------

/// Two pieces joined by `sep` when both are non-empty.
pub open spec fn join2(a: Seq<char>, sep: Seq<char>, b: Seq<char>) -> Seq<char> {
    if a.len() == 0 {
        b
    } else if b.len() == 0 {
        a
    } else {
        a + sep + b
    }
}

/// The rendering of a duration: one token per nonzero unit among days,
/// hours, minutes, joined by `sep`, in that order; a seconds token appears
/// only when days, hours and minutes are all zero (so `0` gives `0s`).
pub open spec fn fmt_duration_spec(secs: nat, sep: Seq<char>) -> Seq<char> {
    if secs < 60 {
        dec_str(secs) + seq!['s']
    } else {
        let d = secs / 86400;
        let h = (secs % 86400) / 3600;
        let m = (secs % 3600) / 60;
        let dd: Seq<char> = if d > 0 {
            dec_str(d) + seq!['d']
        } else {
            Seq::empty()
        };
        let hh: Seq<char> = if h > 0 {
            dec_str(h) + seq!['h']
        } else {
            Seq::empty()
        };
        let mm: Seq<char> = if m > 0 {
            dec_str(m) + seq!['m']
        } else {
            Seq::empty()
        };
        join2(join2(dd, sep, hh), sep, mm)
    }
}

fn push_duration(seconds: u64, spaced: bool, out: &mut Vec<char>)
    requires
        old(out)@.len() == 0,
    ensures
        final(out)@ == fmt_duration_spec(
            seconds as nat,
            if spaced {
                seq![' ']
            } else {
                Seq::<char>::empty()
            },
        ),
{
    let ghost sep: Seq<char> = if spaced { seq![' '] } else { Seq::<char>::empty() };
    if seconds < 60 {
        push_dec_u64(seconds, out);
        out.push('s');
        proof {
            assert(out@ =~= dec_str(seconds as nat) + seq!['s']);
        }
        return;
    }
    let d: u64 = seconds / 86400;
    let h: u64 = (seconds % 86400) / 3600;
    let m: u64 = (seconds % 3600) / 60;
    let ghost dd: Seq<char> = if d > 0 {
        dec_str(d as nat) + seq!['d']
    } else {
        Seq::<char>::empty()
    };
    let ghost hh: Seq<char> = if h > 0 {
        dec_str(h as nat) + seq!['h']
    } else {
        Seq::<char>::empty()
    };
    let ghost mm: Seq<char> = if m > 0 {
        dec_str(m as nat) + seq!['m']
    } else {
        Seq::<char>::empty()
    };
    if d > 0 {
        push_dec_u64(d, out);
        out.push('d');
        proof {
            assert(out@ =~= dd);
        }
    }
    if h > 0 {
        if spaced && out.len() > 0 {
            out.push(' ');
        }
        push_dec_u64(h, out);
        out.push('h');
    }
    proof {
        assert(out@ =~= join2(dd, sep, hh));
    }
    if m > 0 {
        if spaced && out.len() > 0 {
            out.push(' ');
        }
        push_dec_u64(m, out);
        out.push('m');
    }
    proof {
        assert(out@ =~= join2(join2(dd, sep, hh), sep, mm));
        assert(dec_str((seconds as nat) / 86400) == dec_str(d as nat));
    }
}

/// The rendered duration as characters.
pub fn duration_chars(seconds: u64, spaced: bool) -> (r: Vec<char>)
    ensures
        r@ == fmt_duration_spec(
            seconds as nat,
            if spaced {
                seq![' ']
            } else {
                Seq::<char>::empty()
            },
        ),
{
    let mut out: Vec<char> = Vec::new();
    push_duration(seconds, spaced, &mut out);
    out
}

/// Renders seconds with one blank between unit tokens (`1d 2h 3m`).
pub fn format_duration(seconds: u64) -> (r: String)
    ensures
        r@ == fmt_duration_spec(seconds as nat, seq![' ']),
{
    let out = duration_chars(seconds, true);
    string_from_chars(&out)
}

/// Renders seconds with unit tokens run together (`1d2h3m`).
pub fn format_duration_compact(seconds: u64) -> (r: String)
    ensures
        r@ == fmt_duration_spec(seconds as nat, Seq::<char>::empty()),
{
    let out = duration_chars(seconds, false);
    string_from_chars(&out)
}

// ---------------------------------------------------------------------------
// Rendering settings
// ---------------------------------------------------------------------------

/// A resolved setting: the raw text (with an `s` appended when the text was
/// itself a plain number of seconds) followed by the rendered duration in
/// parentheses.
pub open spec fn fmt_tv_resolved(raw: Seq<char>, secs: nat) -> Seq<char> {
    if u64_text_val(raw) is Some {
        raw + seq!['s', ' ', '('] + fmt_duration_spec(secs, seq![' ']) + seq![')']
    } else {
        raw + seq![' ', '('] + fmt_duration_spec(secs, seq![' ']) + seq![')']
    }
}

/// The display text of a setting: the raw text alone when no seconds value
/// is known.
pub open spec fn fmt_time_value_spec(raw: Seq<char>, seconds: Option<u64>) -> Seq<char> {
    match seconds {
        Some(s) => fmt_tv_resolved(raw, s as nat),
        None => raw,
    }
}

/// Renders a jail setting for the details panel.
pub fn format_time_value(value: &TimeValue) -> (r: String)
    ensures
        r@ == fmt_time_value_spec(value.raw@, value.seconds),
{
    match value.seconds {
        Some(s) => {
            let mut out = chars_vec(value.raw.as_str());
            let numeric = parse_u64_text(&out).is_some();
            if numeric {
                out.push('s');
            }
            out.push(' ');
            out.push('(');
            let mut dur = duration_chars(s, true);
            out.append(&mut dur);
            out.push(')');
            proof {
                assert(out@ =~= fmt_tv_resolved(value.raw@, s as nat));
            }
            string_from_chars(&out)
        },
        None => value.raw.clone(),
    }
}

} // verus!
