//! Assembling one snapshot from the per-jail command outputs, and ordering
//! the jails for display.
//!
//! The caller runs the control tool: the top-level status call, then per
//! jail the status, setting and annotated-list calls, handing their outputs
//! over as one `JailQuery` per jail.  A failed optional call is handed over
//! as `None`; parsing and assembly here are total.

use vstd::prelude::*;
use crate::model::{clone_entry, clone_time_value, IpEntry, JailStatus, TimeValue};
use crate::parse::{
    ban_pairs, banned_ips_spec, current_count_spec, entries_match_pairs, parse_banip_with_time,
    parse_maxretry, parse_status_counts, parse_time_value, plain_entries_match,
    time_value_raw_spec, time_value_secs_spec, total_count_spec, ips_from_status,
};
use crate::text::{lex_le, lemma_lex_total, lemma_lex_trans, split_ws, trim_spec, u32_text_val};

verus! {

/// The raw outputs gathered for one jail: the per-jail status text, and
/// each optional query's output where the call succeeded.
#[derive(Debug)]
pub struct JailQuery {
    pub name: String,
    pub status_text: String,
    pub bantime_text: Option<String>,
    pub findtime_text: Option<String>,
    pub maxretry_text: Option<String>,
    pub banip_text: Option<String>,
}

pub open spec fn opt_u64_matches(a: Option<u64>, b: Option<nat>) -> bool {
    match b {
        Some(n) => a == Some(n as u64),
        None => a is None,
    }
}

pub open spec fn opt_u32_matches(a: Option<u32>, b: Option<nat>) -> bool {
    match b {
        Some(n) => a == Some(n as u32),
        None => a is None,
    }
}

/// A setting parsed from its query output; a failed call leaves the
/// explicit not-available value.
pub open spec fn setting_matches(tv: TimeValue, text: Option<String>) -> bool {
    match text {
        Some(t) => tv.raw@ == time_value_raw_spec(t@) && opt_u64_matches(
            tv.seconds,
            time_value_secs_spec(t@),
        ),
        None => tv.raw@ == "n/a"@ && tv.seconds is None,
    }
}

pub open spec fn maxretry_matches(m: Option<u32>, text: Option<String>) -> bool {
    match text {
        Some(t) => opt_u32_matches(m, u32_text_val(trim_spec(t@))),
        None => m is None,
    }
}

/// The entries parsed from the annotated list when that call succeeded,
/// else the bare fallback list of the status text.
pub open spec fn ips_match(
    ips: Seq<IpEntry>,
    q: JailQuery,
    bantime_seconds: Option<u64>,
    now: int,
) -> bool {
    match q.banip_text {
        Some(t) => entries_match_pairs(ips, ban_pairs(split_ws(t@)), bantime_seconds, now),
        None => plain_entries_match(ips, banned_ips_spec(q.status_text@)),
    }
}

/// One assembled jail against the raw outputs it came from.
pub open spec fn jail_matches_query(j: JailStatus, q: JailQuery, now: int) -> bool {
    &&& j.name@ == q.name@
    &&& setting_matches(j.bantime, q.bantime_text)
    &&& setting_matches(j.findtime, q.findtime_text)
    &&& maxretry_matches(j.maxretry, q.maxretry_text)
    &&& opt_u32_matches(j.currently_banned, current_count_spec(q.status_text@))
    &&& opt_u32_matches(j.total_banned, total_count_spec(q.status_text@))
    &&& ips_match(j.ips@, q, j.bantime.seconds, now)
}

/// Assembles one jail's state from its raw outputs, against the clock
/// instant `now`.
pub fn build_jail(q: &JailQuery, now: i64) -> (j: JailStatus)
    ensures
        jail_matches_query(j, *q, now as int),
{
    let (currently_banned, total_banned) = parse_status_counts(q.status_text.as_str());
    let bantime = match &q.bantime_text {
        Some(t) => parse_time_value(t.as_str()),
        None => TimeValue { raw: "n/a".to_owned(), seconds: None },
    };
    let findtime = match &q.findtime_text {
        Some(t) => parse_time_value(t.as_str()),
        None => TimeValue { raw: "n/a".to_owned(), seconds: None },
    };
    let maxretry = match &q.maxretry_text {
        Some(t) => parse_maxretry(t.as_str()),
        None => None,
    };
    let ips = match &q.banip_text {
        Some(t) => parse_banip_with_time(t.as_str(), bantime.seconds, now),
        None => ips_from_status(q.status_text.as_str()),
    };
    JailStatus {
        name: q.name.clone(),
        ips,
        bantime,
        findtime,
        maxretry,
        currently_banned,
        total_banned,
    }
}

// ---------------------------------------------------------------------------
// Ordering the snapshot
// ---------------------------------------------------------------------------

/// Busiest jail first: more banned addresses come earlier; equal counts
/// order by name.
pub open spec fn jail_le(a: JailStatus, b: JailStatus) -> bool {
    a.ips@.len() > b.ips@.len() || (a.ips@.len() == b.ips@.len() && lex_le(a.name@, b.name@))
}

pub open spec fn jail_tie(a: JailStatus, b: JailStatus) -> bool {
    jail_le(a, b) && jail_le(b, a)
}

pub proof fn lemma_jail_le_total(a: JailStatus, b: JailStatus)
    ensures
        jail_le(a, b) || jail_le(b, a),
{
    lemma_lex_total(a.name@, b.name@);
}

pub proof fn lemma_jail_le_trans(a: JailStatus, b: JailStatus, c: JailStatus)
    requires
        jail_le(a, b),
        jail_le(b, c),
    ensures
        jail_le(a, c),
{
    if a.ips@.len() == b.ips@.len() && b.ips@.len() == c.ips@.len() {
        lemma_lex_trans(a.name@, b.name@, c.name@);
    }
}

fn jail_le_exec(a: &JailStatus, b: &JailStatus) -> (r: bool)
    ensures
        r == jail_le(*a, *b),
{
    if a.ips.len() > b.ips.len() {
        true
    } else if a.ips.len() == b.ips.len() {
        let av = crate::text::chars_vec(a.name.as_str());
        let bv = crate::text::chars_vec(b.name.as_str());
        crate::text::lex_le_chars(&av, &bv)
    } else {
        false
    }
}

/// `p` maps display positions to query positions, one-to-one.
pub open spec fn is_perm(p: Seq<int>, n: int) -> bool {
    &&& p.len() == n
    &&& forall|k: int| 0 <= k < p.len() ==> 0 <= #[trigger] p[k] < n
    &&& forall|k1: int, k2: int|
        #![trigger p[k1], p[k2]]
        0 <= k1 < k2 < p.len() ==> p[k1] != p[k2]
}

/// The snapshot holds one jail per query, assembled from it, ordered
/// busiest-first with names breaking ties, and queries with fully tied
/// jails keep their discovery order.
pub open spec fn snapshot_of_queries(
    r: Seq<JailStatus>,
    qs: Seq<JailQuery>,
    p: Seq<int>,
    now: int,
) -> bool {
    &&& is_perm(p, qs.len() as int)
    &&& r.len() == qs.len()
    &&& forall|k: int| 0 <= k < r.len() ==> jail_matches_query(#[trigger] r[k], qs[p[k]], now)
    &&& forall|k1: int, k2: int|
        #![trigger r[k1], r[k2]]
        0 <= k1 < k2 < r.len() ==> jail_le(r[k1], r[k2])
    &&& forall|k1: int, k2: int|
        #![trigger r[k1], r[k2]]
        0 <= k1 < k2 < r.len() && jail_tie(r[k1], r[k2]) ==> p[k1] < p[k2]
}

/// Stable insertion sort of jail positions by the display order.
#[verifier::rlimit(100)]
fn sort_jail_idx(builds: &Vec<JailStatus>) -> (r: Vec<usize>)
    ensures
        r@.len() == builds@.len(),
        forall|k: int| 0 <= k < r@.len() ==> (#[trigger] r@[k]) < builds@.len(),
        forall|k1: int, k2: int|
            #![trigger r@[k1], r@[k2]]
            0 <= k1 < k2 < r@.len() ==> r@[k1] != r@[k2],
        forall|k1: int, k2: int|
            #![trigger r@[k1], r@[k2]]
            0 <= k1 < k2 < r@.len() ==> jail_le(builds@[r@[k1] as int], builds@[r@[k2] as int]),
        forall|k1: int, k2: int|
            #![trigger r@[k1], r@[k2]]
            0 <= k1 < k2 < r@.len() && jail_tie(builds@[r@[k1] as int], builds@[r@[k2] as int])
                ==> r@[k1] < r@[k2],
{
    let ghost bs = builds@;
    let n = builds.len();
    let mut out: Vec<usize> = Vec::new();
    let mut m: usize = 0;
    while m < n
        invariant
            0 <= m <= n,
            n == bs.len(),
            bs == builds@,
            out@.len() == m,
            forall|k: int| 0 <= k < out@.len() ==> (#[trigger] out@[k]) < m,
            forall|k1: int, k2: int|
                #![trigger out@[k1], out@[k2]]
                0 <= k1 < k2 < out@.len() ==> out@[k1] != out@[k2],
            forall|k1: int, k2: int|
                #![trigger out@[k1], out@[k2]]
                0 <= k1 < k2 < out@.len() ==> jail_le(bs[out@[k1] as int], bs[out@[k2] as int]),
            forall|k1: int, k2: int|
                #![trigger out@[k1], out@[k2]]
                0 <= k1 < k2 < out@.len() && jail_tie(bs[out@[k1] as int], bs[out@[k2] as int])
                    ==> out@[k1] < out@[k2],
        decreases n - m,
    {
        let x: usize = m;
        let mut pos: usize = 0;
        while pos < out.len() && jail_le_exec(&builds[out[pos]], &builds[x])
            invariant
                0 <= pos <= out@.len(),
                bs == builds@,
                x < bs.len(),
                forall|k: int| 0 <= k < out@.len() ==> (#[trigger] out@[k]) < bs.len(),
                forall|k: int|
                    0 <= k < pos ==> jail_le(bs[#[trigger] out@[k] as int], bs[x as int]),
            decreases out@.len() - pos,
        {
            pos = pos + 1;
        }
        let ghost old_out = out@;
        proof {
            assert(pos == old_out.len() || !jail_le(
                bs[old_out[pos as int] as int],
                bs[x as int],
            ));
            old_out.insert_ensures(pos as int, x);
        }
        out.insert(pos, x);
        proof {
            let new_out = out@;
            assert(new_out == old_out.insert(pos as int, x));
            assert(forall|k: int| 0 <= k < pos ==> new_out[k] == old_out[k]);
            assert(new_out[pos as int] == x);
            assert(forall|k: int| pos < k < new_out.len() ==> new_out[k] == old_out[k - 1]);
            assert forall|k1: int, k2: int|
                #![trigger new_out[k1], new_out[k2]]
                0 <= k1 < k2 < new_out.len() implies new_out[k1] != new_out[k2] by {
                if k1 == pos {
                    assert(new_out[k2] == old_out[k2 - 1] && old_out[k2 - 1] < m);
                } else if k2 == pos {
                    assert(new_out[k1] == old_out[k1] && old_out[k1] < m);
                }
            }
            assert forall|k1: int, k2: int|
                #![trigger new_out[k1], new_out[k2]]
                0 <= k1 < k2 < new_out.len() implies jail_le(
                bs[new_out[k1] as int],
                bs[new_out[k2] as int],
            ) by {
                if k1 == pos {
                    let b = old_out[k2 - 1];
                    if pos < old_out.len() {
                        lemma_jail_le_total(bs[x as int], bs[old_out[pos as int] as int]);
                        if k2 - 1 > pos {
                            lemma_jail_le_trans(
                                bs[x as int],
                                bs[old_out[pos as int] as int],
                                bs[b as int],
                            );
                        }
                    }
                } else if k2 == pos {
                    assert(jail_le(bs[new_out[k1] as int], bs[x as int]));
                }
            }
            assert forall|k1: int, k2: int|
                #![trigger new_out[k1], new_out[k2]]
                0 <= k1 < k2 < new_out.len() && jail_tie(
                bs[new_out[k1] as int],
                bs[new_out[k2] as int],
            ) implies new_out[k1] < new_out[k2] by {
                if k1 == pos {
                    let b = old_out[k2 - 1];
                    assert(pos < old_out.len());
                    if k2 - 1 > pos {
                        assert(jail_le(bs[old_out[pos as int] as int], bs[b as int]));
                        lemma_jail_le_trans(
                            bs[old_out[pos as int] as int],
                            bs[b as int],
                            bs[x as int],
                        );
                    }
                    assert(false);
                } else if k2 == pos {
                    assert(new_out[k1] == old_out[k1] && old_out[k1] < x);
                }
            }
        }
        m = m + 1;
    }
    out
}

/// Field-wise sameness: every field equal, the entry list as a sequence.
pub open spec fn jail_eq_view(a: JailStatus, b: JailStatus) -> bool {
    &&& a.name == b.name
    &&& a.ips@ == b.ips@
    &&& a.bantime == b.bantime
    &&& a.findtime == b.findtime
    &&& a.maxretry == b.maxretry
    &&& a.currently_banned == b.currently_banned
    &&& a.total_banned == b.total_banned
}

/// A copy of a jail's state, field for field.
pub fn clone_jail(j: &JailStatus) -> (r: JailStatus)
    ensures
        jail_eq_view(r, *j),
{
    let mut ips: Vec<IpEntry> = Vec::new();
    let mut k: usize = 0;
    while k < j.ips.len()
        invariant
            0 <= k <= j.ips@.len(),
            ips@.len() == k,
            forall|t: int| 0 <= t < k ==> ips@[t] == j.ips@[t],
        decreases j.ips@.len() - k,
    {
        let e = clone_entry(&j.ips[k]);
        ips.push(e);
        k = k + 1;
    }
    proof {
        assert(ips@ =~= j.ips@);
    }
    JailStatus {
        name: j.name.clone(),
        ips,
        bantime: clone_time_value(&j.bantime),
        findtime: clone_time_value(&j.findtime),
        maxretry: j.maxretry,
        currently_banned: j.currently_banned,
        total_banned: j.total_banned,
    }
}

/// Assembles the snapshot: one jail per query, sorted busiest-first with
/// names breaking ties, the tool's discovery order kept among full ties.
pub fn fetch_status(queries: &Vec<JailQuery>, now: i64) -> (r: Vec<JailStatus>)
    ensures
        r@.len() == queries@.len(),
        exists|p: Seq<int>| snapshot_of_queries(r@, queries@, p, now as int),
{
    let n = queries.len();
    let mut builds: Vec<JailStatus> = Vec::new();
    let mut i: usize = 0;
    while i < n
        invariant
            0 <= i <= n,
            n == queries@.len(),
            builds@.len() == i,
            forall|k: int|
                0 <= k < i ==> jail_matches_query(#[trigger] builds@[k], queries@[k], now as int),
        decreases n - i,
    {
        let j = build_jail(&queries[i], now);
        builds.push(j);
        i = i + 1;
    }
    let order = sort_jail_idx(&builds);
    let mut out: Vec<JailStatus> = Vec::new();
    let mut k: usize = 0;
    while k < order.len()
        invariant
            0 <= k <= order@.len(),
            order@.len() == builds@.len(),
            builds@.len() == queries@.len(),
            forall|t: int|
                0 <= t < builds@.len() ==> jail_matches_query(
                    #[trigger] builds@[t],
                    queries@[t],
                    now as int,
                ),
            forall|t: int| 0 <= t < order@.len() ==> (#[trigger] order@[t]) < builds@.len(),
            forall|k1: int, k2: int|
                #![trigger order@[k1], order@[k2]]
                0 <= k1 < k2 < order@.len() ==> order@[k1] != order@[k2],
            forall|k1: int, k2: int|
                #![trigger order@[k1], order@[k2]]
                0 <= k1 < k2 < order@.len() ==> jail_le(
                    builds@[order@[k1] as int],
                    builds@[order@[k2] as int],
                ),
            forall|k1: int, k2: int|
                #![trigger order@[k1], order@[k2]]
                0 <= k1 < k2 < order@.len() && jail_tie(
                    builds@[order@[k1] as int],
                    builds@[order@[k2] as int],
                ) ==> order@[k1] < order@[k2],
            out@.len() == k,
            forall|t: int|
                0 <= t < k ==> jail_eq_view(#[trigger] out@[t], builds@[order@[t] as int]),
        decreases order@.len() - k,
    {
        let j = clone_jail(&builds[order[k]]);
        out.push(j);
        k = k + 1;
    }
    proof {
        let p = Seq::new(order@.len(), |t: int| order@[t] as int);
        assert(snapshot_of_queries(out@, queries@, p, now as int)) by {
            assert(is_perm(p, queries@.len() as int)) by {
                assert(forall|t: int| 0 <= t < p.len() ==> 0 <= #[trigger] p[t] < queries@.len());
                assert forall|k1: int, k2: int|
                    #![trigger p[k1], p[k2]]
                    0 <= k1 < k2 < p.len() implies p[k1] != p[k2] by {
                    assert(order@[k1] != order@[k2]);
                }
            }
            assert forall|t: int| 0 <= t < out@.len() implies jail_matches_query(
                #[trigger] out@[t],
                queries@[p[t]],
                now as int,
            ) by {
                assert(jail_eq_view(out@[t], builds@[order@[t] as int]));
                assert(jail_matches_query(
                    builds@[order@[t] as int],
                    queries@[order@[t] as int],
                    now as int,
                ));
            }
            assert forall|k1: int, k2: int|
                #![trigger out@[k1], out@[k2]]
                0 <= k1 < k2 < out@.len() implies jail_le(out@[k1], out@[k2]) by {
                assert(jail_eq_view(out@[k1], builds@[order@[k1] as int]));
                assert(jail_eq_view(out@[k2], builds@[order@[k2] as int]));
                assert(jail_le(builds@[order@[k1] as int], builds@[order@[k2] as int]));
            }
            assert forall|k1: int, k2: int|
                #![trigger out@[k1], out@[k2]]
                0 <= k1 < k2 < out@.len() && jail_tie(out@[k1], out@[k2]) implies p[k1] < p[k2] by {
                assert(jail_eq_view(out@[k1], builds@[order@[k1] as int]));
                assert(jail_eq_view(out@[k2], builds@[order@[k2] as int]));
                assert(jail_tie(builds@[order@[k1] as int], builds@[order@[k2] as int]));
                assert(order@[k1] < order@[k2]);
            }
        }
    }
    out
}

} // verus!
