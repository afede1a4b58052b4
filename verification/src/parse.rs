//! Turning the control tool's raw text into structured records.
//!
//! Parsing is lenient by design: a field that fails to parse degrades to
//! `None` or a default, never failing a whole snapshot.

use vstd::prelude::*;
use crate::addr::{is_valid_ip_chars, is_valid_ip_spec};
use crate::expiry::{parse_time_to_epoch, resolve_expiry_spec};
use crate::model::{IpEntry, TimeValue};
use crate::text::{
    chars_vec, commas_to_spaces, copy_range, eq_chars, find_sub, find_sub_exec, join_sp,
    join_sp_vec, parse_u32_text, parse_u64_text, replace_commas, split_at_char, split_char_vec,
    split_ws, split_ws_vec, string_from_chars, trim_chars, trim_spec, u32_text_val,
    u64_text_val,
};

verus! {

// ---------------------------------------------------------------------------
// Jail list
// ---------------------------------------------------------------------------

/// One comma segment, trimmed; an empty segment yields no name.
pub open spec fn nonempty_one(t: Seq<char>) -> Seq<Seq<char>> {
    if t.len() == 0 {
        Seq::empty()
    } else {
        seq![t]
    }
}

/// The segments trimmed, with empty ones dropped, in order.
pub open spec fn clean_names(segs: Seq<Seq<char>>) -> Seq<Seq<char>>
    decreases segs.len(),
{
    if segs.len() == 0 {
        Seq::empty()
    } else {
        clean_names(segs.drop_last()) + nonempty_one(trim_spec(segs.last()))
    }
}

/// What follows the first occurrence of `marker` on the first line that
/// holds one.
pub open spec fn first_marker_tail(lines: Seq<Seq<char>>, marker: Seq<char>) -> Option<Seq<char>>
    decreases lines.len(),
{
    if lines.len() == 0 {
        None
    } else {
        match find_sub(lines[0], marker) {
            Some(i) => Some(lines[0].subrange(i + marker.len(), lines[0].len() as int)),
            None => first_marker_tail(lines.drop_first(), marker),
        }
    }
}

/// The names after the jail-list marker: comma-separated, trimmed, empty
/// segments dropped, in the tool's order.
pub open spec fn jail_names_spec(s: Seq<char>) -> Seq<Seq<char>> {
    match first_marker_tail(split_at_char(s, '\n'), "Jail list:"@) {
        Some(tail) => clean_names(split_at_char(tail, ',')),
        None => Seq::empty(),
    }
}

/// Extracts the jail names from the tool's top-level status output.
pub fn parse_jail_list(output: &str) -> (r: Vec<String>)
    ensures
        r.deep_view() == jail_names_spec(output@),
{
    let marker = chars_vec("Jail list:");
    let v = chars_vec(output);
    let lines = split_char_vec(&v, '\n');
    let ghost lns = split_at_char(output@, '\n');
    let mut li: usize = 0;
    proof {
        assert(lns.skip(0) =~= lns);
    }
    while li < lines.len()
        invariant
            0 <= li <= lines@.len(),
            lines.deep_view() == lns,
            lns == split_at_char(output@, '\n'),
            marker@ == "Jail list:"@,
            first_marker_tail(lns, marker@) == first_marker_tail(
                lns.skip(li as int),
                marker@,
            ),
        decreases lines@.len() - li,
    {
        proof {
            assert(lines@[li as int].deep_view() =~= lines@[li as int]@);
            assert(lns[li as int] == lines@[li as int]@);
            assert(lns.skip(li as int)[0] == lns[li as int]);
            assert(lns.skip(li as int).drop_first() =~= lns.skip(li as int + 1));
        }
        let line = &lines[li];
        let ll: usize = line.len();
        match find_sub_exec(line, &marker) {
            Some(pos) => {
                proof {
                    crate::text::lemma_find_sub(line@, marker@);
                    assert(pos + marker@.len() <= line@.len());
                    assert(line@.len() == ll);
                }
                let tail = copy_range(line, pos + marker.len(), ll);
                let segs = split_char_vec(&tail, ',');
                let ghost sg = split_at_char(tail@, ',');
                let mut out: Vec<String> = Vec::new();
                let mut k: usize = 0;
                proof {
                    assert(sg.subrange(0, 0) =~= Seq::<Seq<char>>::empty());
                    assert(out.deep_view() =~~= clean_names(sg.subrange(0, 0)));
                }
                while k < segs.len()
                    invariant
                        0 <= k <= segs@.len(),
                        segs.deep_view() == sg,
                        sg == split_at_char(tail@, ','),
                        out.deep_view() == clean_names(sg.subrange(0, k as int)),
                    decreases segs@.len() - k,
                {
                    proof {
                        assert(segs@[k as int].deep_view() =~= segs@[k as int]@);
                        assert(sg[k as int] == segs@[k as int]@);
                        let t = sg.subrange(0, k as int + 1);
                        assert(t.drop_last() =~= sg.subrange(0, k as int));
                        assert(t.last() == sg[k as int]);
                    }
                    let trimmed = trim_chars(&segs[k]);
                    if trimmed.len() > 0 {
                        let ghost pre = out.deep_view();
                        out.push(string_from_chars(&trimmed));
                        proof {
                            assert(out.deep_view() =~~= pre + seq![trim_spec(sg[k as int])]);
                        }
                    }
                    k = k + 1;
                }
                proof {
                    assert(sg.subrange(0, sg.len() as int) =~= sg);
                    assert(lns.skip(li as int)[0] == lns[li as int]);
                    assert(first_marker_tail(lns.skip(li as int), marker@) == Some(
                        line@.subrange(pos + marker@.len(), line@.len() as int),
                    ));
                    assert(tail@ == line@.subrange(pos + marker@.len(), line@.len() as int));
                }
                return out;
            },
            None => {},
        }
        li = li + 1;
    }
    proof {
        assert(lns.skip(lns.len() as int) =~= Seq::<Seq<char>>::empty());
    }
    Vec::new()
}

// ---------------------------------------------------------------------------
// Per-jail counters
// ---------------------------------------------------------------------------

/// The counter set by the last line holding `marker` (skipping lines where
/// `shadow` occurs, which an earlier branch claims): the trimmed text after
/// the marker read as an unsigned number, when it parses.
pub open spec fn last_count_spec(
    lines: Seq<Seq<char>>,
    marker: Seq<char>,
    shadow: Option<Seq<char>>,
) -> Option<nat>
    decreases lines.len(),
{
    if lines.len() == 0 {
        None
    } else if line_claims(lines.last(), marker, shadow) {
        count_of_line(lines.last(), marker)
    } else {
        last_count_spec(lines.drop_last(), marker, shadow)
    }
}

/// The line holds `marker` and no `shadow` marker stands on it.
pub open spec fn line_claims(line: Seq<char>, marker: Seq<char>, shadow: Option<Seq<char>>) -> bool {
    find_sub(line, marker) is Some && (match shadow {
        Some(sh) => find_sub(line, sh) is None,
        None => true,
    })
}

pub open spec fn count_of_line(line: Seq<char>, marker: Seq<char>) -> Option<nat>
    recommends
        find_sub(line, marker) is Some,
{
    u32_text_val(trim_spec(line.subrange(
        find_sub(line, marker)->0 + marker.len(),
        line.len() as int,
    )))
}

/// The currently-banned counter of a jail status text.
pub open spec fn current_count_spec(s: Seq<char>) -> Option<nat> {
    last_count_spec(split_at_char(s, '\n'), "Currently banned:"@, None)
}

/// The total-banned counter; a line claimed by the currently-banned marker
/// never sets it.
pub open spec fn total_count_spec(s: Seq<char>) -> Option<nat> {
    last_count_spec(split_at_char(s, '\n'), "Total banned:"@, Some("Currently banned:"@))
}

fn count_from_line(line: &Vec<char>, pos: usize, mlen: usize) -> (r: Option<u32>)
    requires
        pos + mlen <= line@.len(),
    ensures
        r == match u32_text_val(trim_spec(line@.subrange(pos + mlen, line@.len() as int))) {
            Some(n) => Some(n as u32),
            None => None::<u32>,
        },
{
    let ll: usize = line.len();
    assert(line@.len() == ll);
    let tail = copy_range(line, pos + mlen, ll);
    let t = trim_chars(&tail);
    parse_u32_text(&t)
}

/// Scans a jail status text for its currently-banned and total-banned
/// counters.
pub fn parse_status_counts(output: &str) -> (r: (Option<u32>, Option<u32>))
    ensures
        r.0 == match current_count_spec(output@) {
            Some(n) => Some(n as u32),
            None => None::<u32>,
        },
        r.1 == match total_count_spec(output@) {
            Some(n) => Some(n as u32),
            None => None::<u32>,
        },
{
    let m1 = chars_vec("Currently banned:");
    let m2 = chars_vec("Total banned:");
    let v = chars_vec(output);
    let lines = split_char_vec(&v, '\n');
    let ghost lns = split_at_char(output@, '\n');
    let mut current: Option<u32> = None;
    let mut total: Option<u32> = None;
    let mut li: usize = 0;
    proof {
        assert(lns.subrange(0, 0) =~= Seq::<Seq<char>>::empty());
    }
    while li < lines.len()
        invariant
            0 <= li <= lines@.len(),
            lines.deep_view() == lns,
            lns == split_at_char(output@, '\n'),
            m1@ == "Currently banned:"@,
            m2@ == "Total banned:"@,
            current == match last_count_spec(lns.subrange(0, li as int), m1@, None) {
                Some(n) => Some(n as u32),
                None => None::<u32>,
            },
            total == match last_count_spec(lns.subrange(0, li as int), m2@, Some(m1@)) {
                Some(n) => Some(n as u32),
                None => None::<u32>,
            },
        decreases lines@.len() - li,
    {
        proof {
            assert(lines@[li as int].deep_view() =~= lines@[li as int]@);
            assert(lns[li as int] == lines@[li as int]@);
            let t = lns.subrange(0, li as int + 1);
            assert(t.drop_last() =~= lns.subrange(0, li as int));
            assert(t.last() == lns[li as int]);
        }
        let line = &lines[li];
        match find_sub_exec(line, &m1) {
            Some(pos) => {
                proof {
                    crate::text::lemma_find_sub(line@, m1@);
                }
                current = count_from_line(line, pos, m1.len());
            },
            None => {
                match find_sub_exec(line, &m2) {
                    Some(pos) => {
                        proof {
                            crate::text::lemma_find_sub(line@, m2@);
                        }
                        total = count_from_line(line, pos, m2.len());
                    },
                    None => {},
                }
            },
        }
        li = li + 1;
    }
    proof {
        assert(lns.subrange(0, lns.len() as int) =~= lns);
    }
    (current, total)
}

// ---------------------------------------------------------------------------
// Settings
// ---------------------------------------------------------------------------

/// The raw text a setting keeps: the trimmed output, or `n/a` when that is
/// empty.
pub open spec fn time_value_raw_spec(s: Seq<char>) -> Seq<char> {
    if trim_spec(s).len() == 0 {
        "n/a"@
    } else {
        trim_spec(s)
    }
}

/// The seconds of a setting: the trimmed output read as an unsigned
/// number, when it is one (an empty output has none).
pub open spec fn time_value_secs_spec(s: Seq<char>) -> Option<nat> {
    if trim_spec(s).len() == 0 {
        None
    } else {
        u64_text_val(trim_spec(s))
    }
}

/// Reads a setting's raw text and, when the text is a plain number, its
/// value in seconds.
pub fn parse_time_value(output: &str) -> (r: TimeValue)
    ensures
        r.raw@ == time_value_raw_spec(output@),
        r.seconds == match time_value_secs_spec(output@) {
            Some(n) => Some(n as u64),
            None => None::<u64>,
        },
{
    let v = chars_vec(output);
    let t = trim_chars(&v);
    if t.len() == 0 {
        TimeValue { raw: "n/a".to_owned(), seconds: None }
    } else {
        let seconds = parse_u64_text(&t);
        TimeValue { raw: string_from_chars(&t), seconds }
    }
}

/// Reads the max-retry setting: the trimmed output as an unsigned number.
pub fn parse_maxretry(output: &str) -> (r: Option<u32>)
    ensures
        r == match u32_text_val(trim_spec(output@)) {
            Some(n) => Some(n as u32),
            None => None::<u32>,
        },
{
    let v = chars_vec(output);
    let t = trim_chars(&v);
    parse_u32_text(&t)
}

// ---------------------------------------------------------------------------
// Address extraction
// ---------------------------------------------------------------------------

/// Keeps the token when it is a valid address not yet seen.
pub open spec fn keep_one(prev: Seq<Seq<char>>, t: Seq<char>) -> Seq<Seq<char>> {
    if is_valid_ip_spec(t) && !prev.contains(t) {
        prev + seq![t]
    } else {
        prev
    }
}

/// Each distinct valid address among the tokens, once, in first-seen order.
pub open spec fn dedup_ips(toks: Seq<Seq<char>>) -> Seq<Seq<char>>
    decreases toks.len(),
{
    if toks.len() == 0 {
        Seq::empty()
    } else {
        keep_one(dedup_ips(toks.drop_last()), toks.last())
    }
}

/// The addresses of a text tokenized on whitespace with commas treated as
/// whitespace: each distinct valid address once, in first-seen order.
pub open spec fn extract_ips_spec(s: Seq<char>) -> Seq<Seq<char>> {
    dedup_ips(split_ws(commas_to_spaces(s)))
}

fn contains_chars_list(list: &Vec<Vec<char>>, t: &Vec<char>) -> (r: bool)
    ensures
        r == list.deep_view().contains(t@),
{
    let mut i: usize = 0;
    while i < list.len()
        invariant
            0 <= i <= list@.len(),
            forall|j: int| 0 <= j < i ==> list.deep_view()[j] != t@,
        decreases list@.len() - i,
    {
        proof {
            assert(list@[i as int].deep_view() =~= list@[i as int]@);
        }
        if eq_chars(&list[i], t) {
            proof {
                assert(list.deep_view()[i as int] == t@);
            }
            return true;
        }
        i = i + 1;
    }
    proof {
        assert(!list.deep_view().contains(t@)) by {
            if list.deep_view().contains(t@) {
                let j = choose|j: int|
                    0 <= j < list.deep_view().len() && list.deep_view()[j] == t@;
                assert(list.deep_view()[j] != t@);
            }
        }
    }
    false
}

fn extract_ips_chars(v: &Vec<char>) -> (r: Vec<String>)
    ensures
        r.deep_view() == extract_ips_spec(v@),
{
    let rc = replace_commas(v);
    let toks = split_ws_vec(&rc);
    let ghost tks = split_ws(commas_to_spaces(v@));
    let mut kept: Vec<Vec<char>> = Vec::new();
    let mut out: Vec<String> = Vec::new();
    let mut k: usize = 0;
    proof {
        assert(tks.subrange(0, 0) =~= Seq::<Seq<char>>::empty());
        assert(kept.deep_view() =~~= dedup_ips(tks.subrange(0, 0)));
        assert(out.deep_view() =~~= kept.deep_view());
    }
    while k < toks.len()
        invariant
            0 <= k <= toks@.len(),
            toks.deep_view() == tks,
            kept.deep_view() == dedup_ips(tks.subrange(0, k as int)),
            out.deep_view() == kept.deep_view(),
        decreases toks@.len() - k,
    {
        proof {
            assert(toks@[k as int].deep_view() =~= toks@[k as int]@);
            assert(tks[k as int] == toks@[k as int]@);
            let t = tks.subrange(0, k as int + 1);
            assert(t.drop_last() =~= tks.subrange(0, k as int));
            assert(t.last() == tks[k as int]);
        }
        let tok = &toks[k];
        if is_valid_ip_chars(tok) {
            if !contains_chars_list(&kept, tok) {
                let ghost pk = kept.deep_view();
                let ghost po = out.deep_view();
                let copy = copy_range(tok, 0, tok.len());
                proof {
                    assert(copy@ =~= tok@);
                }
                kept.push(copy);
                out.push(string_from_chars(tok));
                proof {
                    assert(kept.deep_view() =~~= pk + seq![tok@]);
                    assert(out.deep_view() =~~= po + seq![tok@]);
                }
            }
        }
        k = k + 1;
    }
    proof {
        assert(tks.subrange(0, tks.len() as int) =~= tks);
    }
    out
}

/// Extracts each distinct valid address of the text, in first-seen order;
/// commas count as whitespace.
pub fn extract_ips(text: &str) -> (r: Vec<String>)
    ensures
        r.deep_view() == extract_ips_spec(text@),
{
    let v = chars_vec(text);
    extract_ips_chars(&v)
}

/// The addresses after the banned-list marker, when the text holds one.
pub open spec fn banned_ips_spec(s: Seq<char>) -> Seq<Seq<char>> {
    match find_sub(s, "Banned IP list:"@) {
        Some(i) => extract_ips_spec(s.subrange(i + "Banned IP list:"@.len(), s.len() as int)),
        None => Seq::empty(),
    }
}

/// Extracts the fallback address list after the banned-list marker of a
/// jail status text.
pub fn parse_banned_ips(output: &str) -> (r: Vec<String>)
    ensures
        r.deep_view() == banned_ips_spec(output@),
{
    let marker = chars_vec("Banned IP list:");
    let v = chars_vec(output);
    let n: usize = v.len();
    match find_sub_exec(&v, &marker) {
        Some(pos) => {
            proof {
                crate::text::lemma_find_sub(v@, marker@);
                assert(pos + marker@.len() <= v@.len());
            }
            let tail = copy_range(&v, pos + marker.len(), n);
            extract_ips_chars(&tail)
        },
        None => {
            let empty: Vec<String> = Vec::new();
            proof {
                assert(empty.deep_view() =~~= Seq::<Seq<char>>::empty());
            }
            empty
        },
    }
}

// ---------------------------------------------------------------------------
// Addresses with ban-time annotations
// ---------------------------------------------------------------------------

/// One address with the raw fields gathered after it.
pub struct BanPend {
    pub ip: Seq<char>,
    pub tts: Seq<Seq<char>>,
}

/// The scan state: finished pairs, and the pair still gathering fields.
pub struct BanAcc {
    pub done: Seq<BanPend>,
    pub pend: Option<BanPend>,
}

pub open spec fn pend_list(p: Option<BanPend>) -> Seq<BanPend> {
    match p {
        Some(q) => seq![q],
        None => Seq::empty(),
    }
}

/// An address token closes the pending pair and starts a new one; any other
/// token joins the pending pair's time text, and is dropped when no address
/// has been seen yet.
pub open spec fn ban_step(a: BanAcc, tok: Seq<char>) -> BanAcc {
    if is_valid_ip_spec(tok) {
        BanAcc { done: a.done + pend_list(a.pend), pend: Some(BanPend { ip: tok, tts: Seq::empty() }) }
    } else {
        match a.pend {
            Some(p) => BanAcc { done: a.done, pend: Some(BanPend { ip: p.ip, tts: p.tts.push(tok) }) },
            None => a,
        }
    }
}

pub open spec fn ban_fold(toks: Seq<Seq<char>>) -> BanAcc
    decreases toks.len(),
{
    if toks.len() == 0 {
        BanAcc { done: Seq::empty(), pend: None }
    } else {
        ban_step(ban_fold(toks.drop_last()), toks.last())
    }
}

/// Every pair the scan of the tokens yields, the still-open one included.
pub open spec fn ban_pairs(toks: Seq<Seq<char>>) -> Seq<BanPend> {
    ban_fold(toks).done + pend_list(ban_fold(toks).pend)
}

/// The entry one pair yields: the address, the expiry the joined time text
/// resolves to, and the joined text itself when there was any.
pub open spec fn entry_from_pend(e: IpEntry, p: BanPend, bantime: Option<u64>, now: int) -> bool {
    &&& e.ip@ == p.ip
    &&& (e.end_epoch is Some <==> resolve_expiry_spec(join_sp(p.tts), bantime, now) is Some)
    &&& (e.end_epoch is Some ==> e.end_epoch->0 as int == resolve_expiry_spec(
        join_sp(p.tts),
        bantime,
        now,
    )->0)
    &&& (e.time_raw is Some <==> join_sp(p.tts).len() > 0)
    &&& (e.time_raw is Some ==> e.time_raw->0@ == join_sp(p.tts))
}

pub open spec fn entries_match_pairs(
    es: Seq<IpEntry>,
    ps: Seq<BanPend>,
    bantime: Option<u64>,
    now: int,
) -> bool {
    es.len() == ps.len() && forall|k: int|
        0 <= k < es.len() ==> entry_from_pend(#[trigger] es[k], ps[k], bantime, now)
}

fn make_entry(ip: String, tts: &Vec<Vec<char>>, bantime_secs: Option<u64>, now: i64) -> (e:
    IpEntry)
    ensures
        entry_from_pend(
            e,
            BanPend { ip: ip@, tts: tts.deep_view() },
            bantime_secs,
            now as int,
        ),
{
    let time_chars = join_sp_vec(tts);
    let ts = string_from_chars(&time_chars);
    let end_epoch = parse_time_to_epoch(ts.as_str(), bantime_secs, now);
    let time_raw: Option<String> = if time_chars.len() > 0 {
        Some(ts)
    } else {
        None
    };
    IpEntry { ip, end_epoch, time_raw }
}

/// Scans the annotated ban list: an address token starts an entry, and the
/// fields after it up to the next address form its raw ban-time text,
/// resolved to an expiry instant against `now`.
pub fn parse_banip_with_time(output: &str, bantime_secs: Option<u64>, now: i64) -> (r: Vec<
    IpEntry,
>)
    ensures
        entries_match_pairs(r@, ban_pairs(split_ws(output@)), bantime_secs, now as int),
{
    let v = chars_vec(output);
    let toks = split_ws_vec(&v);
    let ghost tks = split_ws(output@);
    let mut entries: Vec<IpEntry> = Vec::new();
    let mut cur_ip: Option<String> = None;
    let mut tts: Vec<Vec<char>> = Vec::new();
    let mut k: usize = 0;
    proof {
        assert(tks.subrange(0, 0) =~= Seq::<Seq<char>>::empty());
        assert(tts.deep_view() =~~= Seq::<Seq<char>>::empty());
    }
    while k < toks.len()
        invariant
            0 <= k <= toks@.len(),
            toks.deep_view() == tks,
            entries_match_pairs(
                entries@,
                ban_fold(tks.subrange(0, k as int)).done,
                bantime_secs,
                now as int,
            ),
            cur_ip is Some <==> ban_fold(tks.subrange(0, k as int)).pend is Some,
            cur_ip is Some ==> cur_ip->0@ == ban_fold(tks.subrange(0, k as int)).pend->0.ip
                && tts.deep_view() == ban_fold(tks.subrange(0, k as int)).pend->0.tts,
            cur_ip is None ==> tts.deep_view() == Seq::<Seq<char>>::empty(),
        decreases toks@.len() - k,
    {
        let ghost pre = ban_fold(tks.subrange(0, k as int));
        proof {
            assert(toks@[k as int].deep_view() =~= toks@[k as int]@);
            assert(tks[k as int] == toks@[k as int]@);
            let t = tks.subrange(0, k as int + 1);
            assert(t.drop_last() =~= tks.subrange(0, k as int));
            assert(t.last() == tks[k as int]);
        }
        let tok = &toks[k];
        if is_valid_ip_chars(tok) {
            let prev = cur_ip;
            cur_ip = Some(string_from_chars(tok));
            match prev {
                Some(ip) => {
                    let ghost pe = entries@;
                    let e = make_entry(ip, &tts, bantime_secs, now);
                    entries.push(e);
                    tts = Vec::new();
                    proof {
                        assert(tts.deep_view() =~~= Seq::<Seq<char>>::empty());
                        assert(ban_fold(tks.subrange(0, k as int + 1)).done =~= pre.done
                            + pend_list(pre.pend));
                        assert(entries@ =~= pe.push(e));
                    }
                },
                None => {
                    proof {
                        assert(ban_fold(tks.subrange(0, k as int + 1)).done =~= pre.done);
                    }
                },
            }
        } else {
            if cur_ip.is_some() {
                let ghost pt = tts.deep_view();
                let copy = copy_range(tok, 0, tok.len());
                proof {
                    assert(copy@ =~= tok@);
                }
                tts.push(copy);
                proof {
                    assert(tts.deep_view() =~~= pt.push(tok@));
                }
            }
        }
        k = k + 1;
    }
    proof {
        assert(tks.subrange(0, tks.len() as int) =~= tks);
    }
    match cur_ip {
        Some(ip) => {
            let ghost pe = entries@;
            let ghost a = ban_fold(tks);
            let e = make_entry(ip, &tts, bantime_secs, now);
            entries.push(e);
            proof {
                assert(entries@ =~= pe.push(e));
                assert(ban_pairs(tks) =~= a.done.push(a.pend->0));
            }
            entries
        },
        None => {
            proof {
                assert(ban_pairs(tks) =~= ban_fold(tks).done);
            }
            entries
        },
    }
}

/// The entries match the plain address list: no expiry, no raw time text.
pub open spec fn plain_entries_match(es: Seq<IpEntry>, ips: Seq<Seq<char>>) -> bool {
    es.len() == ips.len() && forall|k: int|
        0 <= k < es.len() ==> (#[trigger] es[k]).ip@ == ips[k] && es[k].end_epoch is None
            && es[k].time_raw is None
}

/// Builds bare entries from the fallback address list of a jail status
/// text: addresses only, no expiry information.
pub fn ips_from_status(output: &str) -> (r: Vec<IpEntry>)
    ensures
        plain_entries_match(r@, banned_ips_spec(output@)),
{
    let names = parse_banned_ips(output);
    let ghost ips = banned_ips_spec(output@);
    let mut r: Vec<IpEntry> = Vec::new();
    let mut k: usize = 0;
    while k < names.len()
        invariant
            0 <= k <= names@.len(),
            names.deep_view() == ips,
            r@.len() == k,
            forall|j: int|
                0 <= j < k ==> (#[trigger] r@[j]).ip@ == ips[j] && r@[j].end_epoch is None
                    && r@[j].time_raw is None,
        decreases names@.len() - k,
    {
        proof {
            assert(names@[k as int].deep_view() == names@[k as int]@);
            assert(ips[k as int] == names@[k as int]@);
        }
        let ip = names[k].clone();
        r.push(IpEntry { ip, end_epoch: None, time_raw: None });
        k = k + 1;
    }
    r
}

// ---------------------------------------------------------------------------
// The extraction law
// ---------------------------------------------------------------------------

/// Position of the first occurrence of `t` among the tokens.
pub open spec fn first_occ(toks: Seq<Seq<char>>, t: Seq<char>) -> int
    decreases toks.len(),
{
    if toks.len() == 0 {
        0
    } else if toks[0] == t {
        0
    } else {
        1 + first_occ(toks.drop_first(), t)
    }
}

proof fn lemma_first_occ_exact(toks: Seq<Seq<char>>, t: Seq<char>, j: int)
    requires
        0 <= j < toks.len(),
        toks[j] == t,
        forall|j2: int| 0 <= j2 < j ==> toks[j2] != t,
    ensures
        first_occ(toks, t) == j,
    decreases j,
{
    if j > 0 {
        assert(toks[0] != t);
        lemma_first_occ_exact(toks.drop_first(), t, j - 1);
        assert forall|j2: int| 0 <= j2 < j - 1 implies toks.drop_first()[j2] != t by {
            assert(toks.drop_first()[j2] == toks[j2 + 1]);
        }
    }
}

proof fn lemma_dedup_upto(toks: Seq<Seq<char>>, i: int)
    requires
        0 <= i <= toks.len(),
    ensures
        ({
            let d = dedup_ips(toks.subrange(0, i));
            &&& forall|k: int| 0 <= k < d.len() ==> is_valid_ip_spec(#[trigger] d[k])
            &&& forall|k: int|
                0 <= k < d.len() ==> 0 <= first_occ(toks, #[trigger] d[k]) < i && toks[first_occ(
                    toks,
                    d[k],
                )] == d[k]
            &&& forall|k1: int, k2: int|
                #![trigger d[k1], d[k2]]
                0 <= k1 < k2 < d.len() ==> d[k1] != d[k2]
            &&& forall|j: int|
                0 <= j < i && is_valid_ip_spec(#[trigger] toks[j]) ==> d.contains(toks[j])
            &&& forall|k1: int, k2: int|
                #![trigger d[k1], d[k2]]
                0 <= k1 < k2 < d.len() ==> first_occ(toks, d[k1]) < first_occ(toks, d[k2])
        }),
    decreases i,
{
    if i == 0 {
        assert(toks.subrange(0, 0) =~= Seq::<Seq<char>>::empty());
    } else {
        lemma_dedup_upto(toks, i - 1);
        let prev = dedup_ips(toks.subrange(0, i - 1));
        let cur = toks.subrange(0, i);
        let d = dedup_ips(cur);
        let t = toks[i - 1];
        assert(cur.drop_last() =~= toks.subrange(0, i - 1));
        assert(cur.last() == t);
        assert(d == keep_one(prev, t));
        if is_valid_ip_spec(t) && !prev.contains(t) {
            assert(d == prev + seq![t]);
            assert(d.len() == prev.len() + 1);
            assert(forall|k: int| 0 <= k < prev.len() ==> d[k] == prev[k]);
            assert(d[prev.len() as int] == t);
            // No earlier occurrence of `t`: one would already be listed.
            assert forall|j2: int| 0 <= j2 < i - 1 implies toks[j2] != t by {
                if toks[j2] == t {
                    assert(prev.contains(toks[j2]));
                }
            }
            lemma_first_occ_exact(toks, t, i - 1);
            assert forall|j: int|
                0 <= j < i && is_valid_ip_spec(#[trigger] toks[j]) implies d.contains(
                toks[j],
            ) by {
                if j < i - 1 {
                    assert(prev.contains(toks[j]));
                    let k = choose|k: int| 0 <= k < prev.len() && prev[k] == toks[j];
                    assert(d[k] == toks[j]);
                } else {
                    assert(d[prev.len() as int] == toks[j]);
                }
            }
        } else {
            assert(d == prev);
            assert forall|j: int|
                0 <= j < i && is_valid_ip_spec(#[trigger] toks[j]) implies d.contains(
                toks[j],
            ) by {
                if j == i - 1 {
                    assert(prev.contains(t));
                }
            }
        }
    }
}

/// Law: the extracted addresses are exactly the distinct valid address
/// tokens of the text (commas read as blanks): each is a valid address that
/// occurs among the tokens, no address is listed twice, every valid token
/// is listed, and the listing follows first occurrence.
pub proof fn lemma_extract_addresses_exact(s: Seq<char>)
    ensures
        ({
            let toks = split_ws(commas_to_spaces(s));
            let d = extract_ips_spec(s);
            &&& forall|k: int| 0 <= k < d.len() ==> is_valid_ip_spec(#[trigger] d[k])
            &&& forall|k: int|
                0 <= k < d.len() ==> 0 <= first_occ(toks, #[trigger] d[k]) < toks.len()
                    && toks[first_occ(toks, d[k])] == d[k]
            &&& forall|k1: int, k2: int|
                #![trigger d[k1], d[k2]]
                0 <= k1 < k2 < d.len() ==> d[k1] != d[k2]
            &&& forall|j: int|
                0 <= j < toks.len() && is_valid_ip_spec(#[trigger] toks[j]) ==> d.contains(
                    toks[j],
                )
            &&& forall|k1: int, k2: int|
                #![trigger d[k1], d[k2]]
                0 <= k1 < k2 < d.len() ==> first_occ(toks, d[k1]) < first_occ(toks, d[k2])
        }),
{
    let toks = split_ws(commas_to_spaces(s));
    lemma_dedup_upto(toks, toks.len() as int);
    assert(toks.subrange(0, toks.len() as int) =~= toks);
}

} // verus!
