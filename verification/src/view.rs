//! The derived view of one jail's entries: filtered by the search query and
//! sorted by the chosen mode, as positions into the jail's own list; and
//! the row/mouse geometry helpers of the two panels.

use vstd::prelude::*;
use crate::expiry::remaining_spec;
use crate::model::{IpEntry, JailStatus, PanelRect, SortMode};
use crate::text::{
    chars_vec, contains_chars, contains_sub, copy_range, lex_le, lex_le_chars,
    lemma_lex_total, lemma_lex_trans, lower_seq, lower_vec, string_from_chars, trim_chars,
    trim_spec,
};

verus! {

// ---------------------------------------------------------------------------
// Matching the search query
// ---------------------------------------------------------------------------

/// The query as matching reads it: trimmed and case-folded.
pub open spec fn query_norm(q: Seq<char>) -> Seq<char> {
    lower_seq(trim_spec(q))
}

/// An entry matches when the folded query is empty or occurs in the folded
/// address.
pub open spec fn entry_matches(e: IpEntry, q: Seq<char>) -> bool {
    query_norm(q).len() == 0 || contains_sub(lower_seq(e.ip@), query_norm(q))
}

/// The normalized query, ready for repeated matching.
pub fn normalize_query(query: &str) -> (r: Vec<char>)
    ensures
        r@ == query_norm(query@),
{
    let v = chars_vec(query);
    let t = trim_chars(&v);
    lower_vec(&t)
}

fn entry_matches_exec(e: &IpEntry, qn: &Vec<char>, ghost_q: Ghost<Seq<char>>) -> (r: bool)
    requires
        qn@ == query_norm(ghost_q@),
    ensures
        r == entry_matches(*e, ghost_q@),
{
    if qn.len() == 0 {
        return true;
    }
    let ip = chars_vec(e.ip.as_str());
    let folded = lower_vec(&ip);
    contains_chars(&folded, qn)
}

// ---------------------------------------------------------------------------
// Sort keys
// ---------------------------------------------------------------------------

/// The remaining seconds of an entry, when its expiry is known.
pub open spec fn rem_key(e: IpEntry, now: int) -> Option<nat> {
    match e.end_epoch {
        Some(end) => Some(remaining_spec(end as int, now)),
        None => None,
    }
}

pub open spec fn time_le_known(x: nat, b: Option<nat>) -> bool {
    match b {
        Some(y) => x <= y,
        None => true,
    }
}

/// Known remaining times order by value; entries with unknown remaining
/// time come after every known one.
pub open spec fn time_le(a: Option<nat>, b: Option<nat>) -> bool {
    match a {
        Some(x) => time_le_known(x, b),
        None => b is None,
    }
}

/// The projection's order: by address text, or by remaining time with
/// unknown-remaining entries last.
pub open spec fn proj_le(mode: SortMode, now: int, a: IpEntry, b: IpEntry) -> bool {
    match mode {
        SortMode::Ip => lex_le(a.ip@, b.ip@),
        SortMode::TimeLeft => time_le(rem_key(a, now), rem_key(b, now)),
    }
}

/// Both orders hold: the two entries tie.
pub open spec fn proj_tie(mode: SortMode, now: int, a: IpEntry, b: IpEntry) -> bool {
    proj_le(mode, now, a, b) && proj_le(mode, now, b, a)
}

pub proof fn lemma_proj_le_total(mode: SortMode, now: int, a: IpEntry, b: IpEntry)
    ensures
        proj_le(mode, now, a, b) || proj_le(mode, now, b, a),
{
    match mode {
        SortMode::Ip => lemma_lex_total(a.ip@, b.ip@),
        SortMode::TimeLeft => {},
    }
}

pub proof fn lemma_proj_le_trans(mode: SortMode, now: int, a: IpEntry, b: IpEntry, c: IpEntry)
    requires
        proj_le(mode, now, a, b),
        proj_le(mode, now, b, c),
    ensures
        proj_le(mode, now, a, c),
{
    match mode {
        SortMode::Ip => lemma_lex_trans(a.ip@, b.ip@, c.ip@),
        SortMode::TimeLeft => {},
    }
}

fn proj_le_exec(a: &IpEntry, b: &IpEntry, mode: SortMode, now: i64) -> (r: bool)
    ensures
        r == proj_le(mode, now as int, *a, *b),
{
    match mode {
        SortMode::Ip => {
            let av = chars_vec(a.ip.as_str());
            let bv = chars_vec(b.ip.as_str());
            lex_le_chars(&av, &bv)
        },
        SortMode::TimeLeft => {
            let ka = crate::expiry::remaining_seconds(a.end_epoch, now);
            let kb = crate::expiry::remaining_seconds(b.end_epoch, now);
            match ka {
                Some(x) => match kb {
                    Some(y) => x <= y,
                    None => true,
                },
                None => kb.is_none(),
            }
        },
    }
}

// ---------------------------------------------------------------------------
// The projection
// ---------------------------------------------------------------------------

/// `p` is the projection of the jail's entries under the query and sort
/// mode: every position matches the query and lies in bounds; every
/// matching entry appears exactly once; positions are ordered by the sort
/// key; and ties keep the underlying order, which pins `p` uniquely.
pub open spec fn is_projection(
    jail: JailStatus,
    query: Seq<char>,
    mode: SortMode,
    now: int,
    p: Seq<usize>,
) -> bool {
    &&& forall|k: int|
        0 <= k < p.len() ==> (#[trigger] p[k]) < jail.ips@.len() && entry_matches(
            jail.ips@[p[k] as int],
            query,
        )
    &&& forall|i: usize|
        i < jail.ips@.len() && entry_matches(#[trigger] jail.ips@[i as int], query)
            ==> p.contains(i)
    &&& forall|k1: int, k2: int|
        #![trigger p[k1], p[k2]]
        0 <= k1 < k2 < p.len() ==> p[k1] != p[k2]
    &&& forall|k1: int, k2: int|
        #![trigger p[k1], p[k2]]
        0 <= k1 < k2 < p.len() ==> proj_le(mode, now, jail.ips@[p[k1] as int], jail.ips@[p[k2] as int])
    &&& forall|k1: int, k2: int|
        #![trigger p[k1], p[k2]]
        0 <= k1 < k2 < p.len() && proj_tie(mode, now, jail.ips@[p[k1] as int], jail.ips@[p[k2] as int])
            ==> p[k1] < p[k2]
}

/// Stable insertion sort of positions by the projection order.
#[verifier::rlimit(100)]
fn sort_proj(jail: &JailStatus, base: Vec<usize>, mode: SortMode, now: i64) -> (r: Vec<usize>)
    requires
        forall|k: int| 0 <= k < base@.len() ==> (#[trigger] base@[k]) < jail.ips@.len(),
        forall|k1: int, k2: int|
            #![trigger base@[k1], base@[k2]]
            0 <= k1 < k2 < base@.len() ==> base@[k1] < base@[k2],
    ensures
        r@.len() == base@.len(),
        forall|k: int| 0 <= k < r@.len() ==> base@.contains(#[trigger] r@[k]),
        forall|x: usize| #[trigger] r@.contains(x) == base@.contains(x),
        forall|k1: int, k2: int|
            #![trigger r@[k1], r@[k2]]
            0 <= k1 < k2 < r@.len() ==> r@[k1] != r@[k2],
        forall|k1: int, k2: int|
            #![trigger r@[k1], r@[k2]]
            0 <= k1 < k2 < r@.len() ==> proj_le(
                mode,
                now as int,
                jail.ips@[r@[k1] as int],
                jail.ips@[r@[k2] as int],
            ),
        forall|k1: int, k2: int|
            #![trigger r@[k1], r@[k2]]
            0 <= k1 < k2 < r@.len() && proj_tie(
                mode,
                now as int,
                jail.ips@[r@[k1] as int],
                jail.ips@[r@[k2] as int],
            ) ==> r@[k1] < r@[k2],
{
    let ghost ips = jail.ips@;
    let mut out: Vec<usize> = Vec::new();
    let mut m: usize = 0;
    while m < base.len()
        invariant
            0 <= m <= base@.len(),
            forall|k: int| 0 <= k < base@.len() ==> (#[trigger] base@[k]) < ips.len(),
            forall|k1: int, k2: int|
                #![trigger base@[k1], base@[k2]]
                0 <= k1 < k2 < base@.len() ==> base@[k1] < base@[k2],
            ips == jail.ips@,
            out@.len() == m,
            forall|k: int|
                0 <= k < out@.len() ==> exists|j: int|
                    0 <= j < m && base@[j] == #[trigger] out@[k],
            forall|x: usize| #[trigger] out@.contains(x) ==> base@.subrange(0, m as int).contains(
                x,
            ),
            forall|x: usize| #[trigger] base@.subrange(0, m as int).contains(x)
                ==> out@.contains(x),
            forall|k1: int, k2: int|
                #![trigger out@[k1], out@[k2]]
                0 <= k1 < k2 < out@.len() ==> out@[k1] != out@[k2],
            forall|k1: int, k2: int|
                #![trigger out@[k1], out@[k2]]
                0 <= k1 < k2 < out@.len() ==> proj_le(
                    mode,
                    now as int,
                    ips[out@[k1] as int],
                    ips[out@[k2] as int],
                ),
            forall|k1: int, k2: int|
                #![trigger out@[k1], out@[k2]]
                0 <= k1 < k2 < out@.len() && proj_tie(
                    mode,
                    now as int,
                    ips[out@[k1] as int],
                    ips[out@[k2] as int],
                ) ==> out@[k1] < out@[k2],
        decreases base@.len() - m,
    {
        let x: usize = base[m];
        proof {
            assert forall|k: int| 0 <= k < out@.len() implies #[trigger] out@[k] < x by {
                let j = choose|j: int| 0 <= j < m && base@[j] == out@[k];
                assert(base@[j] < base@[m as int]);
            }
        }
        let mut pos: usize = 0;
        while pos < out.len() && proj_le_exec(&jail.ips[out[pos]], &jail.ips[x], mode, now)
            invariant
                0 <= pos <= out@.len(),
                ips == jail.ips@,
                x < ips.len(),
                forall|k: int| 0 <= k < out@.len() ==> (#[trigger] out@[k]) < ips.len(),
                forall|k: int|
                    0 <= k < pos ==> proj_le(mode, now as int, ips[#[trigger] out@[k] as int], ips[x as int]),
            decreases out@.len() - pos,
        {
            pos = pos + 1;
        }
        let ghost old_out = out@;
        proof {
            assert(pos == old_out.len() || !proj_le(
                mode,
                now as int,
                ips[old_out[pos as int] as int],
                ips[x as int],
            ));
            old_out.insert_ensures(pos as int, x);
        }
        out.insert(pos, x);
        proof {
            let new_out = out@;
            assert(new_out == old_out.insert(pos as int, x));
            assert(new_out.len() == old_out.len() + 1);
            assert(forall|k: int| 0 <= k < pos ==> new_out[k] == old_out[k]);
            assert(new_out[pos as int] == x);
            assert(forall|k: int| pos < k < new_out.len() ==> new_out[k] == old_out[k - 1]);
            // Everything not at `pos` keeps its origin in the prefix.
            assert forall|k: int| 0 <= k < new_out.len() implies exists|j: int|
                0 <= j < m + 1 && base@[j] == #[trigger] new_out[k] by {
                if k == pos {
                    assert(base@[m as int] == new_out[k]);
                } else if k < pos {
                    let j = choose|j: int| 0 <= j < m && base@[j] == old_out[k];
                    assert(base@[j] == new_out[k]);
                } else {
                    let j = choose|j: int| 0 <= j < m && base@[j] == old_out[k - 1];
                    assert(base@[j] == new_out[k]);
                }
            }
            // Membership both ways.
            assert(base@.subrange(0, m + 1).drop_last() =~= base@.subrange(0, m as int));
            assert(base@.subrange(0, m + 1).last() == base@[m as int]);
            assert forall|y: usize| #[trigger] new_out.contains(y) implies base@.subrange(
                0,
                m + 1,
            ).contains(y) by {
                let k = choose|k: int| 0 <= k < new_out.len() && new_out[k] == y;
                if k == pos {
                    assert(base@.subrange(0, m + 1)[m as int] == y);
                } else if k < pos {
                    assert(old_out.contains(y)) by {
                        assert(old_out[k] == y);
                    }
                    let j = choose|j: int|
                        0 <= j < old_out.len() && base@.subrange(0, m as int)[j] == y;
                    assert(base@.subrange(0, m + 1)[j] == y);
                } else {
                    assert(old_out.contains(y)) by {
                        assert(old_out[k - 1] == y);
                    }
                    let j = choose|j: int|
                        0 <= j < m && base@.subrange(0, m as int)[j] == y;
                    assert(base@.subrange(0, m + 1)[j] == y);
                }
            }
            assert forall|y: usize| #[trigger] base@.subrange(0, m + 1).contains(y)
                implies new_out.contains(y) by {
                let j = choose|j: int|
                    0 <= j < m + 1 && #[trigger] base@.subrange(0, m + 1)[j] == y;
                if j == m {
                    assert(new_out[pos as int] == y);
                } else {
                    assert(base@.subrange(0, m as int)[j] == y);
                    assert(base@.subrange(0, m as int).contains(y));
                    assert(old_out.contains(y));
                    let k = choose|k: int| 0 <= k < old_out.len() && old_out[k] == y;
                    if k < pos {
                        assert(new_out[k] == y);
                    } else {
                        assert(new_out[k + 1] == y);
                    }
                }
            }
            // Distinctness: x exceeds every element already present.
            assert forall|k1: int, k2: int|
                #![trigger new_out[k1], new_out[k2]]
                0 <= k1 < k2 < new_out.len() implies new_out[k1] != new_out[k2] by {
                if k1 == pos {
                    assert(new_out[k2] == old_out[k2 - 1] && old_out[k2 - 1] < x);
                } else if k2 == pos {
                    assert(new_out[k1] == old_out[k1] && old_out[k1] < x);
                }
            }
            // Order, with transitivity across the insertion point.
            assert forall|k1: int, k2: int|
                #![trigger new_out[k1], new_out[k2]]
                0 <= k1 < k2 < new_out.len() implies proj_le(
                mode,
                now as int,
                ips[new_out[k1] as int],
                ips[new_out[k2] as int],
            ) by {
                if k1 == pos {
                    // x against a later element.
                    let b = old_out[k2 - 1];
                    if pos < old_out.len() {
                        lemma_proj_le_total(mode, now as int, ips[x as int], ips[old_out[pos as int] as int]);
                        if k2 - 1 > pos {
                            lemma_proj_le_trans(
                                mode,
                                now as int,
                                ips[x as int],
                                ips[old_out[pos as int] as int],
                                ips[b as int],
                            );
                        }
                    }
                } else if k2 == pos {
                    assert(proj_le(mode, now as int, ips[new_out[k1] as int], ips[x as int]));
                }
            }
            // Stability: ties keep the underlying order.
            assert forall|k1: int, k2: int|
                #![trigger new_out[k1], new_out[k2]]
                0 <= k1 < k2 < new_out.len() && proj_tie(
                mode,
                now as int,
                ips[new_out[k1] as int],
                ips[new_out[k2] as int],
            ) implies new_out[k1] < new_out[k2] by {
                if k1 == pos {
                    // A tie with x after the insertion point cannot happen.
                    let b = old_out[k2 - 1];
                    assert(pos < old_out.len());
                    if k2 - 1 > pos {
                        assert(proj_le(
                            mode,
                            now as int,
                            ips[old_out[pos as int] as int],
                            ips[b as int],
                        ));
                        lemma_proj_le_trans(
                            mode,
                            now as int,
                            ips[old_out[pos as int] as int],
                            ips[b as int],
                            ips[x as int],
                        );
                    }
                    assert(false);
                } else if k2 == pos {
                    assert(new_out[k1] == old_out[k1] && old_out[k1] < x);
                }
            }
        }
        m = m + 1;
    }
    proof {
        assert(base@.subrange(0, base@.len() as int) =~= base@);
    }
    out
}

/// The filtered, sorted projection of one jail's entries under the query
/// and sort mode, as positions into `jail.ips`, computed against the clock
/// instant `now`.
pub fn current_ip_view(jail: &JailStatus, query: &str, mode: SortMode, now: i64) -> (r: Vec<
    usize,
>)
    ensures
        is_projection(*jail, query@, mode, now as int, r@),
{
    let qn = normalize_query(query);
    let mut base: Vec<usize> = Vec::new();
    let mut i: usize = 0;
    let n = jail.ips.len();
    while i < n
        invariant
            0 <= i <= n,
            n == jail.ips@.len(),
            qn@ == query_norm(query@),
            forall|k: int|
                0 <= k < base@.len() ==> (#[trigger] base@[k]) < i && entry_matches(
                    jail.ips@[base@[k] as int],
                    query@,
                ),
            forall|k1: int, k2: int|
                #![trigger base@[k1], base@[k2]]
                0 <= k1 < k2 < base@.len() ==> base@[k1] < base@[k2],
            forall|j: usize|
                j < i && entry_matches(#[trigger] jail.ips@[j as int], query@)
                    ==> base@.contains(j),
        decreases n - i,
    {
        if entry_matches_exec(&jail.ips[i], &qn, Ghost(query@)) {
            let ghost pre = base@;
            base.push(i);
            proof {
                assert forall|j: usize|
                    j < i + 1 && entry_matches(#[trigger] jail.ips@[j as int], query@)
                    implies base@.contains(j) by {
                    if j < i {
                        assert(pre.contains(j));
                        let k = choose|k: int| 0 <= k < pre.len() && pre[k] == j;
                        assert(base@[k] == j);
                    } else {
                        assert(base@[base@.len() - 1] == j);
                    }
                }
            }
        }
        i = i + 1;
    }
    let r = sort_proj(jail, base, mode, now);
    proof {
        assert forall|k: int|
            0 <= k < r@.len() implies (#[trigger] r@[k]) < jail.ips@.len() && entry_matches(
            jail.ips@[r@[k] as int],
            query@,
        ) by {
            assert(base@.contains(r@[k]));
            let j = choose|j: int| 0 <= j < base@.len() && base@[j] == r@[k];
        }
    }
    r
}

// ---------------------------------------------------------------------------
// Header count
// ---------------------------------------------------------------------------

/// The number of banned addresses across all jails.
pub open spec fn total_banned_spec(jails: Seq<JailStatus>) -> nat
    decreases jails.len(),
{
    if jails.len() == 0 {
        0
    } else {
        total_banned_spec(jails.drop_last()) + jails.last().ips@.len()
    }
}

/// Sums the ban counts of all jails, clipped at `u64::MAX`.
pub fn total_banned(jails: &Vec<JailStatus>) -> (r: u64)
    ensures
        total_banned_spec(jails@) <= u64::MAX ==> r == total_banned_spec(jails@),
        total_banned_spec(jails@) > u64::MAX ==> r == u64::MAX,
{
    let mut acc: u64 = 0;
    let mut i: usize = 0;
    proof {
        assert(jails@.subrange(0, 0) =~= Seq::<JailStatus>::empty());
    }
    while i < jails.len()
        invariant
            0 <= i <= jails@.len(),
            total_banned_spec(jails@.subrange(0, i as int)) <= u64::MAX ==> acc
                == total_banned_spec(jails@.subrange(0, i as int)),
            total_banned_spec(jails@.subrange(0, i as int)) > u64::MAX ==> acc == u64::MAX,
        decreases jails@.len() - i,
    {
        proof {
            let t = jails@.subrange(0, i as int + 1);
            assert(t.drop_last() =~= jails@.subrange(0, i as int));
            assert(t.last() == jails@[i as int]);
        }
        let len: u64 = jails[i].ips.len() as u64;
        if len > u64::MAX - acc {
            acc = u64::MAX;
        } else {
            acc = acc + len;
        }
        i = i + 1;
    }
    proof {
        assert(jails@.subrange(0, jails@.len() as int) =~= jails@);
    }
    acc
}

// ---------------------------------------------------------------------------
// Row text
// ---------------------------------------------------------------------------

/// `n` blanks.
pub open spec fn blanks(n: int) -> Seq<char> {
    if n <= 0 {
        Seq::empty()
    } else {
        Seq::new(n as nat, |i: int| ' ')
    }
}

/// The address fitted into `avail` columns: unchanged when it fits, cut
/// with a trailing ellipsis when at least one character of it would show,
/// empty otherwise.
pub open spec fn fitted_ip(ip: Seq<char>, avail: int) -> Seq<char> {
    if ip.len() <= avail {
        ip
    } else if avail <= 3 {
        Seq::empty()
    } else {
        ip.subrange(0, avail - 3) + seq!['.', '.', '.']
    }
}

/// One list row: the remaining-time text right-aligned after the address,
/// the whole cut to `width` columns.
pub open spec fn ip_line_spec(ip: Seq<char>, rem: Seq<char>, width: int) -> Seq<char> {
    if width <= 0 {
        Seq::empty()
    } else if rem.len() >= width {
        rem.subrange(0, width)
    } else {
        fitted_ip(ip, width - rem.len()) + blanks(
            width - rem.len() - fitted_ip(ip, width - rem.len()).len(),
        ) + rem
    }
}

/// Lays one address and its remaining-time annotation into a row of the
/// given width.
pub fn format_ip_line(ip: &str, remaining: &str, width: usize) -> (r: String)
    ensures
        r@ == ip_line_spec(ip@, remaining@, width as int),
{
    let ipv = chars_vec(ip);
    let rv = chars_vec(remaining);
    if width == 0 {
        let empty: Vec<char> = Vec::new();
        return string_from_chars(&empty);
    }
    if rv.len() >= width {
        let cut = copy_range(&rv, 0, width);
        return string_from_chars(&cut);
    }
    let avail: usize = width - rv.len();
    let mut out: Vec<char>;
    if ipv.len() <= avail {
        out = copy_range(&ipv, 0, ipv.len());
        proof {
            assert(out@ =~= fitted_ip(ip@, avail as int));
        }
    } else if avail <= 3 {
        out = Vec::new();
        proof {
            assert(out@ =~= fitted_ip(ip@, avail as int));
        }
    } else {
        out = copy_range(&ipv, 0, avail - 3);
        out.push('.');
        out.push('.');
        out.push('.');
        proof {
            assert(out@ =~= fitted_ip(ip@, avail as int));
        }
    }
    let pad: usize = avail - out.len();
    let ghost before = out@;
    let mut p: usize = 0;
    while p < pad
        invariant
            0 <= p <= pad,
            out@ == before + blanks(p as int),
        decreases pad - p,
    {
        let ghost pre = out@;
        out.push(' ');
        proof {
            assert(pre.push(' ') =~= before + blanks(p as int + 1));
        }
        p = p + 1;
    }
    let mut rc = copy_range(&rv, 0, rv.len());
    proof {
        assert(rc@ =~= remaining@);
    }
    out.append(&mut rc);
    proof {
        assert(out@ =~= ip_line_spec(ip@, remaining@, width as int));
    }
    string_from_chars(&out)
}

// ---------------------------------------------------------------------------
// Mouse geometry
// ---------------------------------------------------------------------------

/// Addition as the terminal's cell coordinates perform it: clipped at the
/// largest cell index.
pub open spec fn sat_add_u16(a: int, b: int) -> int {
    if a + b > 0xFFFF {
        0xFFFF
    } else {
        a + b
    }
}

/// The point lies inside the rectangle.
pub open spec fn point_in_rect_spec(x: int, y: int, r: PanelRect) -> bool {
    &&& r.x <= x < sat_add_u16(r.x as int, r.width as int)
    &&& r.y <= y < sat_add_u16(r.y as int, r.height as int)
}

/// Whether the point lies inside the rectangle.
pub fn point_in_rect(x: u16, y: u16, rect: PanelRect) -> (r: bool)
    ensures
        r == point_in_rect_spec(x as int, y as int, rect),
{
    let xend: u32 = {
        let e: u32 = rect.x as u32 + rect.width as u32;
        if e > 0xFFFF {
            0xFFFF
        } else {
            e
        }
    };
    let yend: u32 = {
        let e: u32 = rect.y as u32 + rect.height as u32;
        if e > 0xFFFF {
            0xFFFF
        } else {
            e
        }
    };
    x >= rect.x && (x as u32) < xend && y >= rect.y && (y as u32) < yend
}

/// The inner content area of a bordered panel: one cell in from each edge.
pub open spec fn inner_rect_spec(area: PanelRect) -> PanelRect {
    PanelRect {
        x: (sat_add_u16(area.x as int, 1)) as u16,
        y: (sat_add_u16(area.y as int, 1)) as u16,
        width: if area.width >= 2 {
            (area.width - 2) as u16
        } else {
            0u16
        },
        height: if area.height >= 2 {
            (area.height - 2) as u16
        } else {
            0u16
        },
    }
}

/// The row a press inside a panel's inner content area selects: the row
/// offset from the top inner edge, when the list has a row there.
pub open spec fn mouse_index_spec(x: int, y: int, area: PanelRect, len: int) -> Option<int> {
    let inner = inner_rect_spec(area);
    if len == 0 {
        None
    } else if !point_in_rect_spec(x, y, inner) {
        None
    } else if y - inner.y >= len {
        None
    } else {
        Some(y - inner.y)
    }
}

/// Maps a mouse press to a list row.
pub fn list_index_from_mouse(x: u16, y: u16, area: PanelRect, len: usize) -> (r: Option<usize>)
    ensures
        r is Some <==> mouse_index_spec(x as int, y as int, area, len as int) is Some,
        r is Some ==> r->0 as int == mouse_index_spec(x as int, y as int, area, len as int)->0,
{
    if len == 0 {
        return None;
    }
    let ix: u16 = if area.x < 0xFFFF {
        area.x + 1
    } else {
        0xFFFF
    };
    let iy: u16 = if area.y < 0xFFFF {
        area.y + 1
    } else {
        0xFFFF
    };
    let iw: u16 = if area.width >= 2 {
        area.width - 2
    } else {
        0
    };
    let ih: u16 = if area.height >= 2 {
        area.height - 2
    } else {
        0
    };
    let inner = PanelRect { x: ix, y: iy, width: iw, height: ih };
    proof {
        assert(inner == inner_rect_spec(area));
    }
    if !point_in_rect(x, y, inner) {
        return None;
    }
    let row: usize = (y - iy) as usize;
    if row >= len {
        return None;
    }
    Some(row)
}

/// Law: under the time-left order, every entry with unknown remaining time
/// stands strictly after every entry with a known one: once an unknown
/// appears in the projection, all later rows are unknown too.
pub proof fn lemma_projection_unknown_last(
    jail: JailStatus,
    query: Seq<char>,
    now: int,
    p: Seq<usize>,
    k1: int,
    k2: int,
)
    requires
        is_projection(jail, query, SortMode::TimeLeft, now, p),
        0 <= k1 < k2 < p.len(),
        rem_key(jail.ips@[p[k1] as int], now) is None,
    ensures
        rem_key(jail.ips@[p[k2] as int], now) is None,
{
    assert(proj_le(
        SortMode::TimeLeft,
        now,
        jail.ips@[p[k1] as int],
        jail.ips@[p[k2] as int],
    ));
}

} // verus!
