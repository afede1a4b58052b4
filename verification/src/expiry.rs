//! Resolving ban-time tokens to absolute expiry instants, and rendering
//! the time remaining on a ban.

use vstd::prelude::*;
use crate::clock::{datetime_tz_epoch, datetime_utc_epoch, parse_datetime_tz, parse_datetime_utc};
use crate::durations::{duration_chars, fmt_duration_spec, parse_duration_spec, parse_duration_string};
use crate::text::{
    all_digits, chars_vec, copy_range, dec_str, dec_val, is_digit, is_digit_char,
    is_space_char, parse_u64_digits, split_ws, split_ws_vec, string_from_chars, trim_chars,
    trim_spec,
};

verus! {

// ---------------------------------------------------------------------------
// Shapes of date, time and offset fields
// ---------------------------------------------------------------------------

/// `YYYY-MM-DD`: ten characters, dashes at four and seven, digits elsewhere.
pub open spec fn looks_date(s: Seq<char>) -> bool {
    &&& s.len() == 10
    &&& s[4] == '-'
    &&& s[7] == '-'
    &&& forall|i: int| 0 <= i < 10 && i != 4 && i != 7 ==> is_digit_char(#[trigger] s[i])
}

/// `HH:MM:SS`: eight characters, colons at two and five, digits elsewhere.
pub open spec fn looks_time(s: Seq<char>) -> bool {
    &&& s.len() == 8
    &&& s[2] == ':'
    &&& s[5] == ':'
    &&& forall|i: int| 0 <= i < 8 && i != 2 && i != 5 ==> is_digit_char(#[trigger] s[i])
}

/// A signed UTC offset: at least five characters, a sign first, then digits
/// with colons allowed.
pub open spec fn looks_tz(s: Seq<char>) -> bool {
    &&& s.len() >= 5
    &&& (s[0] == '+' || s[0] == '-')
    &&& forall|i: int| 1 <= i < s.len() ==> is_digit_char(#[trigger] s[i]) || s[i] == ':'
}

/// Whether the field has the shape of a `YYYY-MM-DD` date.
pub fn looks_like_date(input: &str) -> (r: bool)
    ensures
        r == looks_date(input@),
{
    let v = chars_vec(input);
    looks_like_date_chars(&v)
}

fn looks_like_date_chars(v: &Vec<char>) -> (r: bool)
    ensures
        r == looks_date(v@),
{
    if v.len() != 10 {
        return false;
    }
    if v[4] != '-' || v[7] != '-' {
        return false;
    }
    let mut i: usize = 0;
    while i < 10
        invariant
            0 <= i <= 10,
            v@.len() == 10,
            forall|k: int| 0 <= k < i && k != 4 && k != 7 ==> is_digit_char(#[trigger] v@[k]),
        decreases 10 - i,
    {
        if i != 4 && i != 7 && !is_digit(v[i]) {
            return false;
        }
        i = i + 1;
    }
    true
}

/// Whether the field has the shape of an `HH:MM:SS` time.
pub fn looks_like_time(input: &str) -> (r: bool)
    ensures
        r == looks_time(input@),
{
    let v = chars_vec(input);
    looks_like_time_chars(&v)
}

fn looks_like_time_chars(v: &Vec<char>) -> (r: bool)
    ensures
        r == looks_time(v@),
{
    if v.len() != 8 {
        return false;
    }
    if v[2] != ':' || v[5] != ':' {
        return false;
    }
    let mut i: usize = 0;
    while i < 8
        invariant
            0 <= i <= 8,
            v@.len() == 8,
            forall|k: int| 0 <= k < i && k != 2 && k != 5 ==> is_digit_char(#[trigger] v@[k]),
        decreases 8 - i,
    {
        if i != 2 && i != 5 && !is_digit(v[i]) {
            return false;
        }
        i = i + 1;
    }
    true
}

/// Whether the field has the shape of a signed UTC offset.
pub fn looks_like_tz(input: &str) -> (r: bool)
    ensures
        r == looks_tz(input@),
{
    let v = chars_vec(input);
    looks_like_tz_chars(&v)
}

fn looks_like_tz_chars(v: &Vec<char>) -> (r: bool)
    ensures
        r == looks_tz(v@),
{
    if v.len() < 5 {
        return false;
    }
    if v[0] != '+' && v[0] != '-' {
        return false;
    }
    let mut i: usize = 1;
    while i < v.len()
        invariant
            1 <= i <= v@.len(),
            forall|k: int| 1 <= k < i ==> is_digit_char(#[trigger] v@[k]) || v@[k] == ':',
        decreases v@.len() - i,
    {
        if !is_digit(v[i]) && v[i] != ':' {
            return false;
        }
        i = i + 1;
    }
    true
}

// ---------------------------------------------------------------------------
// Extracting the last date-time window
// ---------------------------------------------------------------------------

/// Tokens `j` and `j + 1` form a date field followed by a time field.
pub open spec fn dt_window_at(parts: Seq<Seq<char>>, j: int) -> bool {
    &&& 0 <= j
    &&& j + 1 < parts.len()
    &&& looks_date(parts[j])
    &&& looks_time(parts[j + 1])
}

/// The last window start below `i`, scanning right to left.
pub open spec fn last_dt_index_upto(parts: Seq<Seq<char>>, i: int) -> Option<int>
    decreases
        (if i >= 0 {
            i
        } else {
            0
        }) as nat,
{
    if i <= 0 {
        None
    } else if dt_window_at(parts, i - 1) {
        Some(i - 1)
    } else {
        last_dt_index_upto(parts, i - 1)
    }
}

/// The offset field after the window, when one follows.
pub open spec fn window_tz(parts: Seq<Seq<char>>, j: int) -> Option<Seq<char>> {
    if j + 2 < parts.len() && looks_tz(parts[j + 2]) {
        Some(parts[j + 2])
    } else {
        None
    }
}

pub open spec fn window_fields(parts: Seq<Seq<char>>, j: int) -> (
    Seq<char>,
    Seq<char>,
    Option<Seq<char>>,
)
    recommends
        dt_window_at(parts, j),
{
    (parts[j], parts[j + 1], window_tz(parts, j))
}

/// The last `date time [offset]` window among the whitespace-separated
/// fields, if any.
pub open spec fn extract_dt_spec(s: Seq<char>) -> Option<(Seq<char>, Seq<char>, Option<Seq<char>>)> {
    let parts = split_ws(s);
    match last_dt_index_upto(parts, parts.len() as int) {
        Some(j) => Some(window_fields(parts, j)),
        None => None,
    }
}

/// Scans the whitespace-separated fields of `input` for the last date field
/// followed by a time field, with an optional trailing offset field.
pub fn extract_last_datetime(input: &str) -> (r: Option<(String, String, Option<String>)>)
    ensures
        (r is Some) == (extract_dt_spec(input@) is Some),
        r is Some ==> {
            let (d, t, z) = extract_dt_spec(input@)->0;
            &&& (r->0).0@ == d
            &&& (r->0).1@ == t
            &&& ((r->0).2 is Some) == (z is Some)
            &&& (z is Some ==> ((r->0).2)->0@ == z->0)
        },
{
    let v = chars_vec(input);
    let parts = split_ws_vec(&v);
    let ghost ps = split_ws(input@);
    proof {
        assert(parts.deep_view() == ps);
    }
    let n = parts.len();
    let bound: usize = if n == 0 {
        0
    } else {
        n - 1
    };
    let mut best: Option<usize> = None;
    let mut j: usize = 0;
    while j < bound
        invariant
            0 <= j <= bound,
            bound + 1 <= n || (bound == 0 && n == 0),
            n == parts@.len(),
            ps.len() == n,
            parts.deep_view() == ps,
            match best {
                Some(b) => Some(b as int) == last_dt_index_upto(ps, j as int) && b + 1 < n,
                None => last_dt_index_upto(ps, j as int) is None,
            },
        decreases bound - j,
    {
        proof {
            assert(parts@[j as int].deep_view() =~= parts@[j as int]@);
            assert(parts@[j as int + 1].deep_view() =~= parts@[j as int + 1]@);
            assert(ps[j as int] == parts@[j as int]@);
            assert(ps[j as int + 1] == parts@[j as int + 1]@);
        }
        if looks_like_date_chars(&parts[j]) && looks_like_time_chars(&parts[j + 1]) {
            best = Some(j);
            proof {
                assert(dt_window_at(ps, j as int));
            }
        } else {
            proof {
                assert(!dt_window_at(ps, j as int));
            }
        }
        j = j + 1;
    }
    proof {
        if n >= 1 {
            assert(last_dt_index_upto(ps, n as int) == last_dt_index_upto(ps, n as int - 1))
                by {
                assert(!dt_window_at(ps, n as int - 1));
            }
            assert(j == n - 1);
        } else {
            assert(last_dt_index_upto(ps, n as int) is None);
        }
    }
    match best {
        Some(b) => {
            proof {
                assert(last_dt_index_upto(ps, ps.len() as int) == Some(b as int));
                assert(parts@[b as int].deep_view() =~= parts@[b as int]@);
                assert(parts@[b as int + 1].deep_view() =~= parts@[b as int + 1]@);
            }
            let date = string_from_chars(&parts[b]);
            let time = string_from_chars(&parts[b + 1]);
            let tz: Option<String> = if b + 2 < n {
                proof {
                    assert(parts@[b as int + 2].deep_view() =~= parts@[b as int + 2]@);
                    assert(ps[b as int + 2] == parts@[b as int + 2]@);
                }
                if looks_like_tz_chars(&parts[b + 2]) {
                    Some(string_from_chars(&parts[b + 2]))
                } else {
                    None
                }
            } else {
                None
            };
            Some((date, time, tz))
        },
        None => None,
    }
}

// ---------------------------------------------------------------------------
// Resolving an instant to the ban's end
// ---------------------------------------------------------------------------

/// `epoch + b`, clipped to the largest representable instant.
pub open spec fn sat_add_epoch(epoch: int, b: nat) -> int {
    if epoch + b > i64::MAX {
        i64::MAX as int
    } else {
        epoch + b
    }
}

pub open spec fn resolve_late(epoch: int, bantime: Option<u64>) -> int {
    match bantime {
        Some(b) => sat_add_epoch(epoch, b as nat),
        None => epoch,
    }
}

/// An instant at or after `now` already denotes the ban's end; an earlier
/// one denotes its start, so the configured ban duration is added when it
/// is known.
pub open spec fn resolve_end_spec(epoch: int, bantime: Option<u64>, now: int) -> int {
    if epoch >= now {
        epoch
    } else {
        resolve_late(epoch, bantime)
    }
}

/// Resolves a parsed instant to the ban's end against the given clock.
pub fn resolve_end_epoch(epoch: i64, bantime_secs: Option<u64>, now: i64) -> (r: i64)
    ensures
        r as int == resolve_end_spec(epoch as int, bantime_secs, now as int),
{
    if epoch >= now {
        return epoch;
    }
    match bantime_secs {
        Some(b) => {
            let sum: i128 = epoch as i128 + b as i128;
            if sum > i64::MAX as i128 {
                i64::MAX
            } else {
                sum as i64
            }
        },
        None => epoch,
    }
}

// ---------------------------------------------------------------------------
// Resolving a raw ban-time token
// ---------------------------------------------------------------------------

/// A separator left over from list punctuation.
pub open spec fn is_punct_char(c: char) -> bool {
    c == ',' || c == ';'
}

pub open spec fn trim_punct_start(s: Seq<char>) -> Seq<char>
    decreases s.len(),
{
    if s.len() > 0 && is_punct_char(s[0]) {
        trim_punct_start(s.drop_first())
    } else {
        s
    }
}

pub open spec fn trim_punct_end(s: Seq<char>) -> Seq<char>
    decreases s.len(),
{
    if s.len() > 0 && is_punct_char(s.last()) {
        trim_punct_end(s.drop_last())
    } else {
        s
    }
}

/// Both ends stripped of commas and semicolons.
pub open spec fn trim_punct(s: Seq<char>) -> Seq<char> {
    trim_punct_end(trim_punct_start(s))
}

fn is_punct(c: char) -> (r: bool)
    ensures
        r == is_punct_char(c),
{
    c == ',' || c == ';'
}

fn trim_punct_chars(v: &Vec<char>) -> (r: Vec<char>)
    ensures
        r@ == trim_punct(v@),
{
    let mut r: Vec<char> = copy_range(v, 0, v.len());
    proof {
        assert(r@ =~= v@);
    }
    while r.len() > 0 && is_punct(r[0])
        invariant
            trim_punct_start(v@) == trim_punct_start(r@),
        decreases r.len(),
    {
        let ghost pre = r@;
        r.remove(0);
        proof {
            assert(pre.remove(0) =~= pre.drop_first());
        }
    }
    assert(trim_punct_start(r@) == r@);
    while r.len() > 0 && is_punct(r[r.len() - 1])
        invariant
            trim_punct_end(trim_punct_start(v@)) == trim_punct_end(r@),
        decreases r.len(),
    {
        let ghost pre = r@;
        r.pop();
        proof {
            assert(pre.subrange(0, pre.len() - 1) =~= pre.drop_last());
        }
    }
    assert(trim_punct_end(r@) == r@);
    r
}

pub open spec fn numeric_expiry(c: Seq<char>, bantime: Option<u64>, now: int) -> Option<int> {
    if dec_val(c) <= i64::MAX {
        Some(resolve_end_spec(dec_val(c) as int, bantime, now))
    } else {
        None
    }
}

pub open spec fn epoch_expiry(e: Option<i64>, bantime: Option<u64>, now: int) -> Option<int> {
    match e {
        Some(ep) => Some(resolve_end_spec(ep as int, bantime, now)),
        None => None,
    }
}

/// The instant an extracted window denotes: with an offset field the stamp
/// is read as `date time offset`; without one the wall-clock time is read
/// as UTC.
pub open spec fn window_expiry(
    dt: (Seq<char>, Seq<char>, Option<Seq<char>>),
    bantime: Option<u64>,
    now: int,
) -> Option<int> {
    match dt.2 {
        Some(z) => epoch_expiry(
            datetime_tz_epoch(dt.0 + seq![' '] + dt.1 + seq![' '] + z),
            bantime,
            now,
        ),
        None => epoch_expiry(datetime_utc_epoch(dt.0 + seq![' '] + dt.1), bantime, now),
    }
}

pub open spec fn dt_expiry(c: Seq<char>, bantime: Option<u64>, now: int) -> Option<int> {
    match extract_dt_spec(c) {
        Some(dt) => window_expiry(dt, bantime, now),
        None => None,
    }
}

/// What resolving a ban-time token returns: after stripping whitespace and
/// list punctuation, a run of digits is an epoch instant; otherwise the
/// last `date time [offset]` window is read; each is resolved to the ban's
/// end against `now`.  Nothing when no pattern is recognized.
pub open spec fn resolve_expiry_spec(s: Seq<char>, bantime: Option<u64>, now: int) -> Option<
    int,
> {
    let c = trim_punct(trim_spec(s));
    if c.len() == 0 {
        None
    } else if all_digits(c) {
        numeric_expiry(c, bantime, now)
    } else {
        dt_expiry(c, bantime, now)
    }
}

/// Resolves one entry's ban-time text to an absolute expiry instant.
pub fn parse_time_to_epoch(time_str: &str, bantime_secs: Option<u64>, now: i64) -> (r: Option<
    i64,
>)
    ensures
        r is Some <==> resolve_expiry_spec(time_str@, bantime_secs, now as int) is Some,
        r is Some ==> r->0 as int == resolve_expiry_spec(time_str@, bantime_secs, now as int)->0,
{
    let v = chars_vec(time_str);
    let t = trim_chars(&v);
    let cleaned = trim_punct_chars(&t);
    if cleaned.len() == 0 {
        return None;
    }
    let mut all_dig = true;
    let mut i: usize = 0;
    while i < cleaned.len()
        invariant
            0 <= i <= cleaned@.len(),
            all_dig == (forall|k: int| 0 <= k < i ==> is_digit_char(#[trigger] cleaned@[k])),
        decreases cleaned@.len() - i,
    {
        if !is_digit(cleaned[i]) {
            all_dig = false;
        }
        i = i + 1;
    }
    if all_dig {
        match parse_u64_digits(&cleaned) {
            Some(n) => {
                if n <= i64::MAX as u64 {
                    Some(resolve_end_epoch(n as i64, bantime_secs, now))
                } else {
                    None
                }
            },
            None => {
                proof {
                    crate::text::lemma_dec_val_prefix_le(cleaned@, cleaned@.len() as int);
                }
                None
            },
        }
    } else {
        let cs = string_from_chars(&cleaned);
        match extract_last_datetime(cs.as_str()) {
            Some((date, time, tz)) => {
                let ghost dt = extract_dt_spec(cleaned@)->0;
                match tz {
                    Some(z) => {
                        let mut stamp = chars_vec(date.as_str());
                        stamp.push(' ');
                        let mut tc = chars_vec(time.as_str());
                        stamp.append(&mut tc);
                        stamp.push(' ');
                        let mut zc = chars_vec(z.as_str());
                        stamp.append(&mut zc);
                        proof {
                            assert(stamp@ =~= dt.0 + seq![' '] + dt.1 + seq![' '] + dt.2->0);
                        }
                        let ss = string_from_chars(&stamp);
                        match parse_datetime_tz(ss.as_str()) {
                            Some(e) => Some(resolve_end_epoch(e, bantime_secs, now)),
                            None => None,
                        }
                    },
                    None => {
                        let mut stamp = chars_vec(date.as_str());
                        stamp.push(' ');
                        let mut tc = chars_vec(time.as_str());
                        stamp.append(&mut tc);
                        proof {
                            assert(stamp@ =~= dt.0 + seq![' '] + dt.1);
                        }
                        let ss = string_from_chars(&stamp);
                        match parse_datetime_utc(ss.as_str()) {
                            Some(e) => Some(resolve_end_epoch(e, bantime_secs, now)),
                            None => None,
                        }
                    },
                }
            },
            None => None,
        }
    }
}

// ---------------------------------------------------------------------------
// Remaining time
// ---------------------------------------------------------------------------

/// Seconds from `now` to `end`, zero when the instant has passed.
pub open spec fn remaining_spec(end: int, now: int) -> nat {
    if end <= now {
        0nat
    } else {
        (end - now) as nat
    }
}

/// Seconds left on a ban, when its end is known.
pub fn remaining_seconds(end_epoch: Option<i64>, now: i64) -> (r: Option<u64>)
    ensures
        r == match end_epoch {
            Some(e) => Some(remaining_spec(e as int, now as int) as u64),
            None => None::<u64>,
        },
{
    match end_epoch {
        Some(e) => {
            if e <= now {
                Some(0)
            } else {
                let diff: i128 = e as i128 - now as i128;
                Some(diff as u64)
            }
        },
        None => None,
    }
}

pub open spec fn paren_compact(secs: nat) -> Seq<char> {
    seq!['('] + fmt_duration_spec(secs, Seq::<char>::empty()) + seq![')']
}

pub open spec fn fmt_remaining_known_raw(t: Seq<char>) -> Seq<char> {
    if t.len() == 0 {
        seq!['-', '-']
    } else {
        fmt_remaining_nonempty_raw(t)
    }
}

pub open spec fn fmt_remaining_nonempty_raw(t: Seq<char>) -> Seq<char> {
    match parse_duration_spec(t) {
        Some(n) => paren_compact(n as nat),
        None => t,
    }
}

pub open spec fn fmt_remaining_raw(raw: Option<Seq<char>>) -> Seq<char> {
    match raw {
        Some(r) => fmt_remaining_known_raw(trim_spec(r)),
        None => seq!['-', '-'],
    }
}

/// The remaining-time annotation of one row: the compact remaining
/// duration in parentheses when the expiry is known; else the raw text
/// itself, read as a duration when it parses as one; else `--`.
pub open spec fn fmt_remaining_spec(end: Option<i64>, raw: Option<Seq<char>>, now: int) -> Seq<
    char,
> {
    match end {
        Some(e) => paren_compact(remaining_spec(e as int, now)),
        None => fmt_remaining_raw(raw),
    }
}

/// Renders the remaining-time annotation of one row.
pub fn format_remaining(end_epoch: Option<i64>, raw: Option<&str>, now: i64) -> (r: String)
    ensures
        r@ == fmt_remaining_spec(
            end_epoch,
            match raw {
                Some(s) => Some(s@),
                None => None,
            },
            now as int,
        ),
{
    match end_epoch {
        Some(e) => {
            let rem = if e <= now {
                0u64
            } else {
                let diff: i128 = e as i128 - now as i128;
                diff as u64
            };
            let mut out: Vec<char> = Vec::new();
            out.push('(');
            let mut dur = duration_chars(rem, false);
            out.append(&mut dur);
            out.push(')');
            proof {
                assert(out@ =~= paren_compact(remaining_spec(e as int, now as int)));
            }
            string_from_chars(&out)
        },
        None => {
            match raw {
                Some(rs) => {
                    let v = chars_vec(rs);
                    let t = trim_chars(&v);
                    if t.len() == 0 {
                        let mut out: Vec<char> = Vec::new();
                        out.push('-');
                        out.push('-');
                        proof {
                            assert(out@ =~= seq!['-', '-']);
                        }
                        string_from_chars(&out)
                    } else {
                        let ts = string_from_chars(&t);
                        match parse_duration_string(ts.as_str()) {
                            Some(n) => {
                                let mut out: Vec<char> = Vec::new();
                                out.push('(');
                                let mut dur = duration_chars(n, false);
                                out.append(&mut dur);
                                out.push(')');
                                proof {
                                    assert(out@ =~= paren_compact(n as nat));
                                }
                                string_from_chars(&out)
                            },
                            None => ts,
                        }
                    }
                },
                None => {
                    let mut out: Vec<char> = Vec::new();
                    out.push('-');
                    out.push('-');
                    proof {
                        assert(out@ =~= seq!['-', '-']);
                    }
                    string_from_chars(&out)
                },
            }
        },
    }
}

// ---------------------------------------------------------------------------
// The numeric round trip
// ---------------------------------------------------------------------------

proof fn lemma_digits_untrimmed(s: Seq<char>)
    requires
        all_digits(s),
    ensures
        trim_spec(s) == s,
        trim_punct(trim_spec(s)) == s,
{
    if s.len() > 0 {
        assert(is_digit_char(s[0]));
        assert(is_digit_char(s[s.len() - 1]));
        assert(!is_space_char(s[0]));
        assert(!is_space_char(s.last()));
        assert(!is_punct_char(s[0]));
        assert(!is_punct_char(s.last()));
    }
}

/// Law: a purely numeric token names an epoch instant.  One at or after
/// `now` already denotes the ban's end and resolves to itself, whatever the
/// configured duration; one before `now` denotes the ban's start and
/// resolves to start plus the known duration (stated where the sum stays
/// representable).
pub proof fn lemma_resolve_expiry_round_trip(epoch: i64, bantime: Option<u64>, now: i64)
    requires
        epoch >= 0,
    ensures
        epoch >= now ==> resolve_expiry_spec(dec_str(epoch as nat), bantime, now as int)
            == Some(epoch as int),
        epoch < now && bantime is Some && epoch + bantime->0 <= i64::MAX
            ==> resolve_expiry_spec(dec_str(epoch as nat), bantime, now as int) == Some(
            epoch as int + bantime->0,
        ),
{
    crate::text::lemma_dec_str_val(epoch as nat);
    let s = dec_str(epoch as nat);
    lemma_digits_untrimmed(s);
    assert(dec_val(s) == epoch);
    assert(s.len() > 0);
}

} // verus!
