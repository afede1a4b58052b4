//! Verified validation of IP address literals.
//!
//! An IPv4 literal is four dot-separated decimal octets, each at most 255,
//! with no leading zero.  An IPv6 literal is colon-separated groups of one
//! to four hex digits, eight in all, where at most one `::` stands for one
//! or more zero groups and the final group may be an embedded IPv4 literal
//! counting as two groups.

use vstd::prelude::*;
use crate::text::{
    all_digits, chars_vec, copy_range, dec_val, find_sub, find_sub_exec, is_digit,
    is_digit_char, lemma_find_sub, lemma_seg_len_exact, parse_u64_digits, split_at_char,
    split_char_vec,
};

verus! {

// ---------------------------------------------------------------------------
// IPv4
// ---------------------------------------------------------------------------

/// One decimal octet: one to three digits, value at most 255, no leading
/// zero.
pub open spec fn is_octet(s: Seq<char>) -> bool {
    &&& 1 <= s.len() <= 3
    &&& all_digits(s)
    &&& dec_val(s) <= 255
    &&& (s.len() > 1 ==> s[0] != '0')
}

/// Four dot-separated octets.
pub open spec fn is_ipv4(s: Seq<char>) -> bool {
    let parts = split_at_char(s, '.');
    parts.len() == 4 && (forall|i: int| 0 <= i < 4 ==> is_octet(#[trigger] parts[i]))
}

proof fn lemma_dec_val_short(s: Seq<char>)
    requires
        all_digits(s),
    ensures
        s.len() <= 1 ==> dec_val(s) <= 9,
        s.len() <= 2 ==> dec_val(s) <= 99,
        s.len() <= 3 ==> dec_val(s) <= 999,
    decreases s.len(),
{
    if s.len() > 0 {
        assert(all_digits(s.drop_last())) by {
            assert(forall|i: int|
                0 <= i < s.len() - 1 ==> s.drop_last()[i] == #[trigger] s[i]);
        }
        lemma_dec_val_short(s.drop_last());
        assert(is_digit_char(s[s.len() - 1]));
        assert(digit_val_le9(s.last()));
    }
}

spec fn digit_val_le9(c: char) -> bool {
    crate::text::digit_val(c) <= 9
}

fn is_octet_exec(v: &Vec<char>) -> (r: bool)
    ensures
        r == is_octet(v@),
{
    if v.len() < 1 || v.len() > 3 {
        return false;
    }
    if v.len() > 1 && v[0] == '0' {
        return false;
    }
    match parse_u64_digits(v) {
        Some(n) => n <= 255,
        None => {
            proof {
                if all_digits(v@) {
                    lemma_dec_val_short(v@);
                }
            }
            false
        },
    }
}

/// Whether the characters form an IPv4 literal.
pub fn is_ipv4_vec(v: &Vec<char>) -> (r: bool)
    ensures
        r == is_ipv4(v@),
{
    let parts = split_char_vec(v, '.');
    if parts.len() != 4 {
        return false;
    }
    let mut i: usize = 0;
    while i < 4
        invariant
            0 <= i <= 4,
            parts@.len() == 4,
            parts.deep_view() == split_at_char(v@, '.'),
            forall|k: int| 0 <= k < i ==> is_octet(#[trigger] split_at_char(v@, '.')[k]),
        decreases 4 - i,
    {
        proof {
            assert(parts@[i as int].deep_view() =~= parts@[i as int]@);
            assert(split_at_char(v@, '.')[i as int] == parts@[i as int]@);
        }
        if !is_octet_exec(&parts[i]) {
            return false;
        }
        i = i + 1;
    }
    true
}

// ---------------------------------------------------------------------------
// IPv6
// ---------------------------------------------------------------------------

pub open spec fn is_hex_digit_char(c: char) -> bool {
    is_digit_char(c) || ('a' <= c && c <= 'f') || ('A' <= c && c <= 'F')
}

/// One group of one to four hex digits.
pub open spec fn is_h16(s: Seq<char>) -> bool {
    1 <= s.len() <= 4 && (forall|i: int| 0 <= i < s.len() ==> is_hex_digit_char(#[trigger] s[i]))
}

/// Colon-split groups on the low side: every group a hex group, except that
/// the last may be an embedded IPv4 literal.
pub open spec fn groups_ok(parts: Seq<Seq<char>>) -> bool {
    parts.len() == 0 || {
        &&& forall|k: int| 0 <= k < parts.len() - 1 ==> is_h16(#[trigger] parts[k])
        &&& (is_h16(parts.last()) || is_ipv4(parts.last()))
    }
}

/// How many of the eight 16-bit groups the parts stand for: an embedded
/// IPv4 literal counts as two.
pub open spec fn group_count(parts: Seq<Seq<char>>) -> int {
    if parts.len() == 0 {
        0
    } else if is_ipv4(parts.last()) {
        parts.len() as int + 1
    } else {
        parts.len() as int
    }
}

/// The colon-split groups of one side of a `::` gap; an empty side holds
/// no group.
pub open spec fn side_groups(side: Seq<char>) -> Seq<Seq<char>> {
    if side.len() == 0 {
        Seq::empty()
    } else {
        split_at_char(side, ':')
    }
}

/// The two sides of a `::` gap form an IPv6 literal: hex groups on the high
/// side, hex groups with an optional final embedded IPv4 literal on the low
/// side, and at most seven groups in all (the gap stands for the rest).
pub open spec fn ipv6_with_gap(head: Seq<char>, tail: Seq<char>) -> bool {
    let hp = side_groups(head);
    let tp = side_groups(tail);
    &&& forall|k: int| 0 <= k < hp.len() ==> is_h16(#[trigger] hp[k])
    &&& groups_ok(tp)
    &&& hp.len() + group_count(tp) <= 7
}

/// An IPv6 literal: split at the first `::` if any; without one, exactly
/// eight colon-separated groups.
pub open spec fn is_ipv6(s: Seq<char>) -> bool {
    match find_sub(s, seq![':', ':']) {
        Some(i) => ipv6_with_gap(s.subrange(0, i), s.subrange(i + 2, s.len() as int)),
        None => groups_ok(split_at_char(s, ':')) && group_count(split_at_char(s, ':')) == 8,
    }
}

fn is_h16_exec(v: &Vec<char>) -> (r: bool)
    ensures
        r == is_h16(v@),
{
    if v.len() < 1 || v.len() > 4 {
        return false;
    }
    let mut i: usize = 0;
    while i < v.len()
        invariant
            0 <= i <= v@.len(),
            forall|k: int| 0 <= k < i ==> is_hex_digit_char(#[trigger] v@[k]),
        decreases v@.len() - i,
    {
        let c = v[i];
        let ok = is_digit(c) || ('a' <= c && c <= 'f') || ('A' <= c && c <= 'F');
        if !ok {
            return false;
        }
        i = i + 1;
    }
    true
}

/// A hex group holds no dot, so it cannot be an IPv4 literal.
proof fn lemma_h16_not_ipv4(s: Seq<char>)
    requires
        is_h16(s),
    ensures
        !is_ipv4(s),
{
    assert(forall|j: int| 0 <= j < s.len() ==> #[trigger] s[j] != '.');
    lemma_seg_len_exact(s, '.', s.len() as int);
    assert(split_at_char(s, '.') == seq![s]);
}

/// Checks the groups on the low side of a literal and counts them.
fn groups_ok_exec(parts: &Vec<Vec<char>>) -> (r: (bool, usize))
    requires
        parts@.len() <= 8,
    ensures
        r.0 == groups_ok(parts.deep_view()),
        r.0 ==> r.1 == group_count(parts.deep_view()),
{
    let n = parts.len();
    if n == 0 {
        return (true, 0);
    }
    let mut i: usize = 0;
    while i < n - 1
        invariant
            0 <= i <= n - 1,
            n == parts@.len(),
            n >= 1,
            forall|k: int| 0 <= k < i ==> is_h16(#[trigger] parts.deep_view()[k]),
        decreases n - 1 - i,
    {
        proof {
            assert(parts@[i as int].deep_view() =~= parts@[i as int]@);
        }
        if !is_h16_exec(&parts[i]) {
            proof {
                assert(parts.deep_view()[i as int] == parts@[i as int].deep_view());
                assert(!is_h16(parts.deep_view()[i as int]));
                assert(parts.deep_view().len() == n);
                assert(!groups_ok(parts.deep_view()));
            }
            return (false, 0);
        }
        i = i + 1;
    }
    proof {
        assert(parts@[n - 1].deep_view() =~= parts@[n - 1]@);
        assert(parts.deep_view().last() == parts@[n - 1]@);
    }
    let last = &parts[n - 1];
    if is_h16_exec(last) {
        proof {
            lemma_h16_not_ipv4(parts@[n - 1]@);
        }
        (true, n)
    } else if is_ipv4_vec(last) {
        (true, n + 1)
    } else {
        (false, 0)
    }
}

/// Whether the characters form an IPv6 literal.
pub fn is_ipv6_vec(v: &Vec<char>) -> (r: bool)
    ensures
        r == is_ipv6(v@),
{
    let mut pat: Vec<char> = Vec::new();
    pat.push(':');
    pat.push(':');
    proof {
        assert(pat@ =~= seq![':', ':']);
        lemma_find_sub(v@, pat@);
    }
    match find_sub_exec(v, &pat) {
        Some(i) => {
            let n: usize = v.len();
            proof {
                assert(crate::text::match_at(v@, pat@, i as int));
                assert(i as int + 2 <= v@.len());
                assert(n == v@.len());
            }
            let head = copy_range(v, 0, i);
            let tail = copy_range(v, i + 2, n);
            let ghost hp: Seq<Seq<char>> = side_groups(head@);
            let ghost tp: Seq<Seq<char>> = side_groups(tail@);
            let mut head_count: usize = 0;
            let mut heads_ok: bool = true;
            if head.len() > 0 {
                let hparts = split_char_vec(&head, ':');
                let mut k: usize = 0;
                while k < hparts.len()
                    invariant
                        0 <= k <= hparts@.len(),
                        hparts.deep_view() == split_at_char(head@, ':'),
                        head@.len() > 0,
                        hp == split_at_char(head@, ':'),
                        heads_ok == (forall|t: int| 0 <= t < k ==> is_h16(#[trigger] hp[t])),
                    decreases hparts@.len() - k,
                {
                    proof {
                        assert(hparts@[k as int].deep_view() =~= hparts@[k as int]@);
                        assert(hp[k as int] == hparts@[k as int]@);
                    }
                    if !is_h16_exec(&hparts[k]) {
                        heads_ok = false;
                    }
                    k = k + 1;
                }
                head_count = hparts.len();
            }
            proof {
                assert(head_count == hp.len());
                assert(group_count(tp) >= 0);
            }
            if !heads_ok {
                return false;
            }
            if head_count > 7 {
                return false;
            }
            assert(forall|t: int| 0 <= t < hp.len() ==> is_h16(#[trigger] hp[t]));
            let mut tail_ok: bool = true;
            let mut tail_count: usize = 0;
            if tail.len() > 0 {
                let tparts = split_char_vec(&tail, ':');
                if tparts.len() > 8 {
                    proof {
                        assert(group_count(tp) >= tp.len());
                    }
                    return false;
                }
                let res = groups_ok_exec(&tparts);
                tail_ok = res.0;
                tail_count = res.1;
            }
            if !tail_ok {
                return false;
            }
            if tail_count > 7 {
                return false;
            }
            head_count + tail_count <= 7
        },
        None => {
            let parts = split_char_vec(v, ':');
            if parts.len() > 8 {
                proof {
                    assert(group_count(split_at_char(v@, ':')) >= split_at_char(v@, ':').len());
                }
                return false;
            }
            let res = groups_ok_exec(&parts);
            res.0 && res.1 == 8
        },
    }
}

/// Whether the text is a valid IPv4 or IPv6 address literal.
pub open spec fn is_valid_ip_spec(s: Seq<char>) -> bool {
    is_ipv4(s) || is_ipv6(s)
}

/// Whether the characters form a valid IPv4 or IPv6 address literal.
pub fn is_valid_ip_chars(v: &Vec<char>) -> (r: bool)
    ensures
        r == is_valid_ip_spec(v@),
{
    if is_ipv4_vec(v) {
        true
    } else {
        is_ipv6_vec(v)
    }
}

/// Whether the text is a valid IPv4 or IPv6 address literal.
pub fn is_valid_ip(s: &str) -> (r: bool)
    ensures
        r == is_valid_ip_spec(s@),
{
    let v = chars_vec(s);
    is_valid_ip_chars(&v)
}

} // verus!
