//! Verified text utilities: character classes, trimming, splitting,
//! substring search, decimal numbers, and case folding.
//!
//! All specifications are stated over `Seq<char>`, the view of `&str` and
//! `String`.  Executable code works on `Vec<char>`; the boundary functions
//! `chars_vec` and `string_from_chars` move between the two shapes.

use vstd::prelude::*;
use vstd::string::StrSliceExecFns;

verus! {

// ---------------------------------------------------------------------------
// Character classes
// ---------------------------------------------------------------------------

/// Whitespace as the control tool's output uses it: blank, tab, newline,
/// carriage return.
pub open spec fn is_space_char(c: char) -> bool {
    c == ' ' || c == '\t' || c == '\n' || c == '\r'
}

pub open spec fn is_digit_char(c: char) -> bool {
    '0' <= c && c <= '9'
}

/// Numeric value of a decimal digit.
pub open spec fn digit_val(c: char) -> nat
    recommends
        is_digit_char(c),
{
    (c as nat - '0' as nat) as nat
}

pub fn is_space(c: char) -> (r: bool)
    ensures
        r == is_space_char(c),
{
    c == ' ' || c == '\t' || c == '\n' || c == '\r'
}

pub fn is_digit(c: char) -> (r: bool)
    ensures
        r == is_digit_char(c),
{
    '0' <= c && c <= '9'
}

// ---------------------------------------------------------------------------
// Between `str`/`String` and `Vec<char>`
// ---------------------------------------------------------------------------

/// The characters of a string slice, in order.
pub fn chars_vec(s: &str) -> (r: Vec<char>)
    ensures
        r@ == s@,
{
    let n: usize = s.unicode_len();
    let mut r: Vec<char> = Vec::new();
    let mut i: usize = 0;
    while i < n
        invariant
            i <= n,
            n == s@.len(),
            r@ == s@.subrange(0, i as int),
        decreases n - i,
    {
        r.push(s.get_char(i));
        i = i + 1;
    }
    proof {
        assert(r@ =~= s@);
    }
    r
}

/// Relies on `String: FromIterator<char>` of std: collecting characters
/// yields the string with exactly those characters in order.
#[verifier::external_body]
pub fn string_from_chars(v: &Vec<char>) -> (r: String)
    ensures
        r@ == v@,
{
    v.iter().collect()
}

/// A fresh copy of `v[from..to]`.
pub fn copy_range(v: &Vec<char>, from: usize, to: usize) -> (r: Vec<char>)
    requires
        from <= to <= v@.len(),
    ensures
        r@ == v@.subrange(from as int, to as int),
{
    let mut r: Vec<char> = Vec::new();
    let mut i: usize = from;
    while i < to
        invariant
            from <= i <= to <= v@.len(),
            r@ == v@.subrange(from as int, i as int),
        decreases to - i,
    {
        let ghost pre = r@;
        r.push(v[i]);
        proof {
            assert(pre.push(v@[i as int]) =~= v@.subrange(from as int, i + 1 as int));
        }
        i = i + 1;
    }
    r
}

// ---------------------------------------------------------------------------
// Trimming
// ---------------------------------------------------------------------------

pub open spec fn trim_start_spec(s: Seq<char>) -> Seq<char>
    decreases s.len(),
{
    if s.len() > 0 && is_space_char(s[0]) {
        trim_start_spec(s.drop_first())
    } else {
        s
    }
}

pub open spec fn trim_end_spec(s: Seq<char>) -> Seq<char>
    decreases s.len(),
{
    if s.len() > 0 && is_space_char(s.last()) {
        trim_end_spec(s.drop_last())
    } else {
        s
    }
}

/// Both ends stripped of whitespace.
pub open spec fn trim_spec(s: Seq<char>) -> Seq<char> {
    trim_end_spec(trim_start_spec(s))
}

pub fn trim_chars(v: &Vec<char>) -> (r: Vec<char>)
    ensures
        r@ == trim_spec(v@),
{
    let mut r: Vec<char> = copy_range(v, 0, v.len());
    proof {
        assert(r@ =~= v@);
    }
    while r.len() > 0 && is_space(r[0])
        invariant
            trim_start_spec(v@) == trim_start_spec(r@),
        decreases r.len(),
    {
        let ghost pre = r@;
        r.remove(0);
        proof {
            assert(pre.remove(0) =~= pre.drop_first());
        }
    }
    assert(trim_start_spec(r@) == r@);
    while r.len() > 0 && is_space(r[r.len() - 1])
        invariant
            trim_end_spec(trim_start_spec(v@)) == trim_end_spec(r@),
        decreases r.len(),
    {
        let ghost pre = r@;
        r.pop();
        proof {
            assert(pre.subrange(0, pre.len() - 1) =~= pre.drop_last());
        }
    }
    assert(trim_end_spec(r@) == r@);
    r
}

// ---------------------------------------------------------------------------
// Decimal numbers
// ---------------------------------------------------------------------------

pub open spec fn all_digits(s: Seq<char>) -> bool {
    forall|i: int| 0 <= i < s.len() ==> is_digit_char(#[trigger] s[i])
}

/// The value of a string of decimal digits.
pub open spec fn dec_val(s: Seq<char>) -> nat
    decreases s.len(),
{
    if s.len() == 0 {
        0
    } else {
        dec_val(s.drop_last()) * 10 + digit_val(s.last())
    }
}

proof fn lemma_dec_val_step(s: Seq<char>, i: int)
    requires
        0 <= i < s.len(),
    ensures
        dec_val(s.subrange(0, i + 1)) == dec_val(s.subrange(0, i)) * 10 + digit_val(s[i]),
{
    let t = s.subrange(0, i + 1);
    assert(t.drop_last() =~= s.subrange(0, i));
    assert(t.last() == s[i]);
}

pub proof fn lemma_dec_val_prefix_le(s: Seq<char>, i: int)
    requires
        0 <= i <= s.len(),
    ensures
        dec_val(s.subrange(0, i)) <= dec_val(s),
    decreases s.len() - i,
{
    if i == s.len() {
        assert(s.subrange(0, i) =~= s);
    } else {
        lemma_dec_val_step(s, i);
        lemma_dec_val_prefix_le(s, i + 1);
    }
}

/// Parses a run of decimal digits; `None` when the text is empty, holds a
/// non-digit, or exceeds `u64::MAX`.
pub fn parse_u64_digits(v: &Vec<char>) -> (r: Option<u64>)
    ensures
        r == if v@.len() > 0 && all_digits(v@) && dec_val(v@) <= u64::MAX {
            Some(dec_val(v@) as u64)
        } else {
            None::<u64>
        },
{
    if v.len() == 0 {
        return None;
    }
    let mut acc: u64 = 0;
    let mut i: usize = 0;
    while i < v.len()
        invariant
            0 <= i <= v@.len(),
            all_digits(v@.subrange(0, i as int)),
            acc == dec_val(v@.subrange(0, i as int)),
        decreases v@.len() - i,
    {
        let c = v[i];
        if !is_digit(c) {
            return None;
        }
        let d: u64 = (c as u32 - '0' as u32) as u64;
        assert(d == digit_val(v@[i as int]));
        proof {
            lemma_dec_val_step(v@, i as int);
        }
        if acc > u64::MAX / 10 || (acc == u64::MAX / 10 && d > u64::MAX % 10) {
            proof {
                lemma_dec_val_prefix_le(v@, i + 1);
            }
            return None;
        }
        acc = acc * 10 + d;
        assert(v@.subrange(0, i + 1 as int) =~= v@.subrange(0, i as int).push(v@[i as int]));
        i = i + 1;
    }
    proof {
        assert(v@.subrange(0, v@.len() as int) =~= v@);
    }
    Some(acc)
}

/// The digit character for one decimal value.
pub open spec fn digit_char(n: nat) -> char {
    if n == 0 {
        '0'
    } else if n == 1 {
        '1'
    } else if n == 2 {
        '2'
    } else if n == 3 {
        '3'
    } else if n == 4 {
        '4'
    } else if n == 5 {
        '5'
    } else if n == 6 {
        '6'
    } else if n == 7 {
        '7'
    } else if n == 8 {
        '8'
    } else {
        '9'
    }
}

/// The decimal rendering of a number, without sign or leading zeros
/// (`dec_str(0)` is `"0"`).
pub open spec fn dec_str(n: nat) -> Seq<char>
    decreases n,
{
    if n < 10 {
        seq![digit_char(n)]
    } else {
        dec_str(n / 10).push(digit_char(n % 10))
    }
}

pub proof fn lemma_dec_str_val(n: nat)
    ensures
        dec_str(n).len() >= 1,
        all_digits(dec_str(n)),
        dec_val(dec_str(n)) == n,
    decreases n,
{
    if n < 10 {
        let s = seq![digit_char(n)];
        assert(s.drop_last() =~= Seq::<char>::empty());
        assert(dec_val(s.drop_last()) == 0);
        assert(s.last() == digit_char(n));
        assert(dec_val(s) == 0 * 10 + digit_val(digit_char(n)));
        assert(digit_val(digit_char(n)) == n);
    } else {
        lemma_dec_str_val(n / 10);
        let s = dec_str(n / 10).push(digit_char(n % 10));
        assert(s.drop_last() =~= dec_str(n / 10));
        assert(dec_val(s) == dec_val(dec_str(n / 10)) * 10 + digit_val(digit_char(n % 10)));
        assert(forall|i: int|
            0 <= i < s.len() ==> is_digit_char(#[trigger] s[i]) || i == s.len() - 1);
    }
}

fn digit_char_exec(d: u64) -> (c: char)
    requires
        d < 10,
    ensures
        c == digit_char(d as nat),
{
    if d == 0 {
        '0'
    } else if d == 1 {
        '1'
    } else if d == 2 {
        '2'
    } else if d == 3 {
        '3'
    } else if d == 4 {
        '4'
    } else if d == 5 {
        '5'
    } else if d == 6 {
        '6'
    } else if d == 7 {
        '7'
    } else if d == 8 {
        '8'
    } else {
        '9'
    }
}

/// Appends the decimal rendering of `n`.
pub fn push_dec_u64(n: u64, out: &mut Vec<char>)
    ensures
        final(out)@ == old(out)@ + dec_str(n as nat),
    decreases n,
{
    if n < 10 {
        out.push(digit_char_exec(n));
        proof {
            assert(old(out)@.push(digit_char(n as nat)) =~= old(out)@ + dec_str(n as nat));
        }
    } else {
        push_dec_u64(n / 10, out);
        out.push(digit_char_exec(n % 10));
        proof {
            assert((old(out)@ + dec_str((n / 10) as nat)).push(digit_char((n % 10) as nat))
                =~= old(out)@ + dec_str(n as nat));
        }
    }
}

// ---------------------------------------------------------------------------
// Case folding (ASCII)
// ---------------------------------------------------------------------------

/// ASCII lowercase; other characters unchanged.
pub open spec fn lower_char(c: char) -> char {
    if 'A' <= c && c <= 'Z' {
        if c == 'A' { 'a' } else if c == 'B' { 'b' } else if c == 'C' { 'c' }
        else if c == 'D' { 'd' } else if c == 'E' { 'e' } else if c == 'F' { 'f' }
        else if c == 'G' { 'g' } else if c == 'H' { 'h' } else if c == 'I' { 'i' }
        else if c == 'J' { 'j' } else if c == 'K' { 'k' } else if c == 'L' { 'l' }
        else if c == 'M' { 'm' } else if c == 'N' { 'n' } else if c == 'O' { 'o' }
        else if c == 'P' { 'p' } else if c == 'Q' { 'q' } else if c == 'R' { 'r' }
        else if c == 'S' { 's' } else if c == 'T' { 't' } else if c == 'U' { 'u' }
        else if c == 'V' { 'v' } else if c == 'W' { 'w' } else if c == 'X' { 'x' }
        else if c == 'Y' { 'y' } else { 'z' }
    } else {
        c
    }
}

pub open spec fn lower_seq(s: Seq<char>) -> Seq<char> {
    s.map_values(|c: char| lower_char(c))
}

pub fn lower_char_exec(c: char) -> (r: char)
    ensures
        r == lower_char(c),
{
    if 'A' <= c && c <= 'Z' {
        if c == 'A' { 'a' } else if c == 'B' { 'b' } else if c == 'C' { 'c' }
        else if c == 'D' { 'd' } else if c == 'E' { 'e' } else if c == 'F' { 'f' }
        else if c == 'G' { 'g' } else if c == 'H' { 'h' } else if c == 'I' { 'i' }
        else if c == 'J' { 'j' } else if c == 'K' { 'k' } else if c == 'L' { 'l' }
        else if c == 'M' { 'm' } else if c == 'N' { 'n' } else if c == 'O' { 'o' }
        else if c == 'P' { 'p' } else if c == 'Q' { 'q' } else if c == 'R' { 'r' }
        else if c == 'S' { 's' } else if c == 'T' { 't' } else if c == 'U' { 'u' }
        else if c == 'V' { 'v' } else if c == 'W' { 'w' } else if c == 'X' { 'x' }
        else if c == 'Y' { 'y' } else { 'z' }
    } else {
        c
    }
}

pub fn lower_vec(v: &Vec<char>) -> (r: Vec<char>)
    ensures
        r@ == lower_seq(v@),
{
    let mut r: Vec<char> = Vec::new();
    let mut i: usize = 0;
    while i < v.len()
        invariant
            0 <= i <= v@.len(),
            r@ == lower_seq(v@.subrange(0, i as int)),
        decreases v@.len() - i,
    {
        let ghost pre = r@;
        r.push(lower_char_exec(v[i]));
        proof {
            assert(pre.push(lower_char(v@[i as int]))
                =~= lower_seq(v@.subrange(0, i + 1 as int)));
        }
        i = i + 1;
    }
    proof {
        assert(v@.subrange(0, v@.len() as int) =~= v@);
    }
    r
}

// ---------------------------------------------------------------------------
// Substring search
// ---------------------------------------------------------------------------

/// `q` occurs in `s` starting at position `i`.
pub open spec fn match_at(s: Seq<char>, q: Seq<char>, i: int) -> bool {
    0 <= i && i + q.len() <= s.len() && s.subrange(i, i + q.len()) == q
}

/// `q` occurs somewhere in `s` (an empty `q` occurs everywhere).
pub open spec fn contains_sub(s: Seq<char>, q: Seq<char>) -> bool {
    exists|i: int| match_at(s, q, i)
}

fn match_at_exec(s: &Vec<char>, q: &Vec<char>, i: usize) -> (r: bool)
    requires
        i + q@.len() <= s@.len(),
    ensures
        r == match_at(s@, q@, i as int),
{
    let slen: usize = s.len();
    assert(s@.len() == slen);
    let mut k: usize = 0;
    while k < q.len()
        invariant
            0 <= k <= q@.len(),
            i + q@.len() <= s@.len(),
            s@.len() <= usize::MAX,
            forall|j: int| 0 <= j < k ==> s@[i + j] == q@[j],
        decreases q@.len() - k,
    {
        if s[i + k] != q[k] {
            proof {
                assert(s@.subrange(i as int, i + q@.len())[k as int] != q@[k as int]);
            }
            return false;
        }
        k = k + 1;
    }
    proof {
        assert(s@.subrange(i as int, i + q@.len()) =~= q@);
    }
    true
}

/// Whether `q` occurs in `s` as a contiguous run.
pub fn contains_chars(s: &Vec<char>, q: &Vec<char>) -> (r: bool)
    ensures
        r == contains_sub(s@, q@),
{
    if q.len() > s.len() {
        proof {
            assert(forall|i: int| !match_at(s@, q@, i));
        }
        return false;
    }
    let bound: usize = s.len() - q.len();
    let mut i: usize = 0;
    loop
        invariant
            0 <= i <= bound,
            bound == s@.len() - q@.len(),
            forall|j: int| 0 <= j < i ==> !match_at(s@, q@, j),
        decreases bound - i,
    {
        if match_at_exec(s, q, i) {
            return true;
        }
        if i == bound {
            proof {
                assert(forall|j: int| match_at(s@, q@, j) ==> 0 <= j <= bound);
            }
            return false;
        }
        i = i + 1;
    }
}

/// Character-wise equality of two vectors.
pub fn eq_chars(a: &Vec<char>, b: &Vec<char>) -> (r: bool)
    ensures
        r == (a@ == b@),
{
    if a.len() != b.len() {
        return false;
    }
    let mut i: usize = 0;
    while i < a.len()
        invariant
            0 <= i <= a@.len(),
            a@.len() == b@.len(),
            forall|j: int| 0 <= j < i ==> a@[j] == b@[j],
        decreases a@.len() - i,
    {
        if a[i] != b[i] {
            return false;
        }
        i = i + 1;
    }
    proof {
        assert(a@ =~= b@);
    }
    true
}

/// The first position of `pat` in `s`, if any.
pub open spec fn find_sub(s: Seq<char>, pat: Seq<char>) -> Option<int>
    decreases s.len(),
{
    if match_at(s, pat, 0) {
        Some(0int)
    } else if s.len() == 0 {
        None
    } else {
        match find_sub(s.drop_first(), pat) {
            Some(i) => Some(i + 1),
            None => None,
        }
    }
}

proof fn lemma_match_shift(s: Seq<char>, pat: Seq<char>, j: int)
    requires
        s.len() > 0,
        j >= 0,
    ensures
        match_at(s, pat, j + 1) == match_at(s.drop_first(), pat, j),
{
    if j + 1 + pat.len() <= s.len() {
        assert(s.subrange(j + 1, j + 1 + pat.len()) =~= s.drop_first().subrange(
            j,
            j + pat.len(),
        ));
    }
}

pub proof fn lemma_find_sub(s: Seq<char>, pat: Seq<char>)
    ensures
        match find_sub(s, pat) {
            Some(i) => match_at(s, pat, i) && forall|j: int| 0 <= j < i ==> !match_at(s, pat, j),
            None => forall|j: int| !match_at(s, pat, j),
        },
    decreases s.len(),
{
    if match_at(s, pat, 0) {
    } else if s.len() == 0 {
        assert(forall|j: int| match_at(s, pat, j) ==> j == 0);
    } else {
        lemma_find_sub(s.drop_first(), pat);
        assert forall|j: int| j >= 0 implies match_at(s, pat, j + 1) == match_at(
            s.drop_first(),
            pat,
            j,
        ) by {
            lemma_match_shift(s, pat, j);
        }
        match find_sub(s.drop_first(), pat) {
            Some(i) => {
                assert(match_at(s, pat, i + 1));
                assert forall|j: int| 0 <= j < i + 1 implies !match_at(s, pat, j) by {
                    if j > 0 {
                        lemma_match_shift(s, pat, j - 1);
                    }
                }
            },
            None => {
                assert forall|j: int| !match_at(s, pat, j) by {
                    if j > 0 {
                        lemma_match_shift(s, pat, j - 1);
                    }
                }
            },
        }
    }
}

/// The position of the first occurrence of `pat` in `s`.
pub fn find_sub_exec(s: &Vec<char>, pat: &Vec<char>) -> (r: Option<usize>)
    ensures
        match r {
            Some(i) => find_sub(s@, pat@) == Some(i as int),
            None => find_sub(s@, pat@) is None,
        },
{
    proof {
        lemma_find_sub(s@, pat@);
    }
    if pat.len() > s.len() {
        return None;
    }
    let bound: usize = s.len() - pat.len();
    let mut i: usize = 0;
    loop
        invariant
            0 <= i <= bound,
            pat@.len() <= s@.len(),
            bound == s@.len() - pat@.len(),
            forall|j: int| 0 <= j < i ==> !match_at(s@, pat@, j),
            match find_sub(s@, pat@) {
                Some(k) => match_at(s@, pat@, k) && forall|j: int|
                    0 <= j < k ==> !match_at(s@, pat@, j),
                None => forall|j: int| !match_at(s@, pat@, j),
            },
        decreases bound - i,
    {
        if match_at_exec(s, pat, i) {
            proof {
                match find_sub(s@, pat@) {
                    Some(k) => {
                        assert(k <= i) by {
                            if k > i {
                                assert(!match_at(s@, pat@, i as int));
                            }
                        }
                        assert(k >= i);
                    },
                    None => {
                        assert(!match_at(s@, pat@, i as int));
                    },
                }
            }
            return Some(i);
        }
        if i == bound {
            proof {
                assert(forall|j: int| match_at(s@, pat@, j) ==> 0 <= j <= bound);
            }
            return None;
        }
        i = i + 1;
    }
}

// ---------------------------------------------------------------------------
// Lexicographic order on character sequences
// ---------------------------------------------------------------------------

/// Code-point lexicographic order, the order `str` comparison gives.
pub open spec fn lex_le(a: Seq<char>, b: Seq<char>) -> bool
    decreases a.len(),
{
    if a.len() == 0 {
        true
    } else if b.len() == 0 {
        false
    } else if a[0] != b[0] {
        a[0] < b[0]
    } else {
        lex_le(a.drop_first(), b.drop_first())
    }
}

pub proof fn lemma_lex_total(a: Seq<char>, b: Seq<char>)
    ensures
        lex_le(a, b) || lex_le(b, a),
    decreases a.len(),
{
    if a.len() > 0 && b.len() > 0 && a[0] == b[0] {
        lemma_lex_total(a.drop_first(), b.drop_first());
    }
}

pub proof fn lemma_lex_trans(a: Seq<char>, b: Seq<char>, c: Seq<char>)
    requires
        lex_le(a, b),
        lex_le(b, c),
    ensures
        lex_le(a, c),
    decreases a.len(),
{
    if a.len() > 0 {
        if a[0] == b[0] && b[0] == c[0] {
            lemma_lex_trans(a.drop_first(), b.drop_first(), c.drop_first());
        }
    }
}

proof fn lemma_lex_skip(a: Seq<char>, b: Seq<char>, i: int)
    requires
        0 <= i <= a.len(),
        i <= b.len(),
        forall|j: int| 0 <= j < i ==> a[j] == b[j],
    ensures
        lex_le(a, b) == lex_le(a.skip(i), b.skip(i)),
    decreases i,
{
    if i > 0 {
        assert(a[0] == b[0]);
        lemma_lex_skip(a.drop_first(), b.drop_first(), i - 1);
        assert(a.drop_first().skip(i - 1) =~= a.skip(i));
        assert(b.drop_first().skip(i - 1) =~= b.skip(i));
    } else {
        assert(a.skip(0) =~= a);
        assert(b.skip(0) =~= b);
    }
}

/// Whether `a` precedes `b` (or equals it) in lexicographic order.
pub fn lex_le_chars(a: &Vec<char>, b: &Vec<char>) -> (r: bool)
    ensures
        r == lex_le(a@, b@),
{
    let mut i: usize = 0;
    loop
        invariant
            0 <= i <= a@.len(),
            i <= b@.len(),
            forall|j: int| 0 <= j < i ==> a@[j] == b@[j],
        decreases a@.len() - i,
    {
        proof {
            lemma_lex_skip(a@, b@, i as int);
        }
        if i == a.len() {
            return true;
        }
        if i == b.len() {
            return false;
        }
        if a[i] != b[i] {
            assert(a@.skip(i as int)[0] == a@[i as int]);
            assert(b@.skip(i as int)[0] == b@[i as int]);
            return a[i] < b[i];
        }
        i = i + 1;
    }
}

// ---------------------------------------------------------------------------
// Splitting on a separator character
// ---------------------------------------------------------------------------

/// Length of the prefix of `s` before the first `sep`.
pub open spec fn seg_len(s: Seq<char>, sep: char) -> nat
    decreases s.len(),
{
    if s.len() == 0 || s[0] == sep {
        0
    } else {
        1 + seg_len(s.drop_first(), sep)
    }
}

pub proof fn lemma_seg_len_le(s: Seq<char>, sep: char)
    ensures
        seg_len(s, sep) <= s.len(),
        seg_len(s, sep) < s.len() ==> s[seg_len(s, sep) as int] == sep,
        forall|j: int| 0 <= j < seg_len(s, sep) ==> s[j] != sep,
    decreases s.len(),
{
    if s.len() > 0 && s[0] != sep {
        lemma_seg_len_le(s.drop_first(), sep);
        assert forall|j: int| 0 <= j < seg_len(s, sep) implies s[j] != sep by {
            if j > 0 {
                assert(s[j] == s.drop_first()[j - 1]);
            }
        }
    }
}

/// `s` split at every `sep`; empty segments are kept, so the result holds
/// one segment more than `s` holds separators.
pub open spec fn split_at_char(s: Seq<char>, sep: char) -> Seq<Seq<char>>
    decreases s.len(),
    via split_at_char_dec
{
    let k = seg_len(s, sep) as int;
    if k == s.len() {
        seq![s]
    } else {
        seq![s.subrange(0, k)] + split_at_char(s.subrange(k + 1, s.len() as int), sep)
    }
}

#[via_fn]
proof fn split_at_char_dec(s: Seq<char>, sep: char) {
    lemma_seg_len_le(s, sep);
}

pub proof fn lemma_seg_len_exact(s: Seq<char>, sep: char, k: int)
    requires
        0 <= k <= s.len(),
        forall|j: int| 0 <= j < k ==> s[j] != sep,
        k < s.len() ==> s[k] == sep,
    ensures
        seg_len(s, sep) == k,
    decreases k,
{
    if k > 0 {
        lemma_seg_len_exact(s.drop_first(), sep, k - 1);
    }
}

/// `v` split at every `sep`.
pub fn split_char_vec(v: &Vec<char>, sep: char) -> (r: Vec<Vec<char>>)
    ensures
        r.deep_view() == split_at_char(v@, sep),
{
    let n: usize = v.len();
    let mut r: Vec<Vec<char>> = Vec::new();
    let mut start: usize = 0;
    let mut i: usize = 0;
    proof {
        assert(v@.subrange(0, n as int) =~= v@);
        assert(r.deep_view() =~~= Seq::<Seq<char>>::empty());
        assert(Seq::<Seq<char>>::empty() + split_at_char(v@, sep) =~= split_at_char(v@, sep));
    }
    while i < n
        invariant
            0 <= start <= i <= n,
            n == v@.len(),
            forall|j: int| start <= j < i ==> v@[j] != sep,
            split_at_char(v@, sep) == r.deep_view() + split_at_char(
                v@.subrange(start as int, n as int),
                sep,
            ),
        decreases n - i,
    {
        if v[i] == sep {
            let seg = copy_range(v, start, i);
            let ghost pre = r.deep_view();
            let ghost tail = v@.subrange(start as int, n as int);
            proof {
                assert(forall|j: int|
                    0 <= j < i - start ==> tail[j] == v@[start + j] && tail[j] != sep);
                assert(tail[i - start] == sep);
                lemma_seg_len_exact(tail, sep, i - start);
                assert(tail.subrange(0, i - start) =~= v@.subrange(start as int, i as int));
                assert(tail.subrange(i - start + 1, tail.len() as int) =~= v@.subrange(
                    i + 1 as int,
                    n as int,
                ));
            }
            r.push(seg);
            proof {
                assert(r.deep_view() =~~= pre + seq![v@.subrange(start as int, i as int)]);
                assert(split_at_char(v@, sep) == r.deep_view() + split_at_char(
                    v@.subrange(i + 1 as int, n as int),
                    sep,
                ));
            }
            start = i + 1;
        }
        i = i + 1;
    }
    let seg = copy_range(v, start, n);
    let ghost pre = r.deep_view();
    let ghost tail = v@.subrange(start as int, n as int);
    proof {
        assert(forall|j: int| 0 <= j < n - start ==> tail[j] == v@[start + j] && tail[j] != sep);
        lemma_seg_len_exact(tail, sep, n - start);
        assert(split_at_char(tail, sep) == seq![tail]);
    }
    r.push(seg);
    proof {
        assert(seg@ == tail);
        assert(r.deep_view() =~~= pre + seq![tail]);
    }
    r
}

// ---------------------------------------------------------------------------
// Splitting on whitespace
// ---------------------------------------------------------------------------

/// Length of the leading run of non-whitespace characters.
pub open spec fn tok_len(s: Seq<char>) -> nat
    decreases s.len(),
{
    if s.len() == 0 || is_space_char(s[0]) {
        0
    } else {
        1 + tok_len(s.drop_first())
    }
}

pub proof fn lemma_tok_len_le(s: Seq<char>)
    ensures
        tok_len(s) <= s.len(),
        tok_len(s) < s.len() ==> is_space_char(s[tok_len(s) as int]),
        forall|j: int| 0 <= j < tok_len(s) ==> !is_space_char(s[j]),
    decreases s.len(),
{
    if s.len() > 0 && !is_space_char(s[0]) {
        lemma_tok_len_le(s.drop_first());
        assert forall|j: int| 0 <= j < tok_len(s) implies !is_space_char(s[j]) by {
            if j > 0 {
                assert(s[j] == s.drop_first()[j - 1]);
            }
        }
    }
}

proof fn lemma_tok_len_exact(s: Seq<char>, k: int)
    requires
        0 <= k <= s.len(),
        forall|j: int| 0 <= j < k ==> !is_space_char(s[j]),
        k < s.len() ==> is_space_char(s[k]),
    ensures
        tok_len(s) == k,
    decreases k,
{
    if k > 0 {
        lemma_tok_len_exact(s.drop_first(), k - 1);
    }
}

/// The whitespace-separated tokens of `s`, in order; tokens are never empty.
pub open spec fn split_ws(s: Seq<char>) -> Seq<Seq<char>>
    decreases s.len(),
    via split_ws_dec
{
    if s.len() == 0 {
        Seq::empty()
    } else if is_space_char(s[0]) {
        split_ws(s.drop_first())
    } else {
        let k = tok_len(s) as int;
        seq![s.subrange(0, k)] + split_ws(s.subrange(k, s.len() as int))
    }
}

#[via_fn]
proof fn split_ws_dec(s: Seq<char>) {
    lemma_tok_len_le(s);
}

/// The whitespace-separated tokens of `v`.
pub fn split_ws_vec(v: &Vec<char>) -> (r: Vec<Vec<char>>)
    ensures
        r.deep_view() == split_ws(v@),
{
    let n: usize = v.len();
    let mut r: Vec<Vec<char>> = Vec::new();
    let mut i: usize = 0;
    proof {
        assert(v@.subrange(0, n as int) =~= v@);
        assert(r.deep_view() =~~= Seq::<Seq<char>>::empty());
        assert(Seq::<Seq<char>>::empty() + split_ws(v@) =~= split_ws(v@));
    }
    while i < n
        invariant
            0 <= i <= n,
            n == v@.len(),
            split_ws(v@) == r.deep_view() + split_ws(v@.subrange(i as int, n as int)),
        decreases n - i,
    {
        let ghost tail = v@.subrange(i as int, n as int);
        if is_space(v[i]) {
            proof {
                assert(tail[0] == v@[i as int]);
                assert(tail.drop_first() =~= v@.subrange(i + 1 as int, n as int));
            }
            i = i + 1;
        } else {
            let start = i;
            let mut j: usize = i + 1;
            while j < n && !is_space(v[j])
                invariant
                    start < j <= n,
                    n == v@.len(),
                    forall|t: int| start <= t < j ==> !is_space_char(v@[t]),
                decreases n - j,
            {
                j = j + 1;
            }
            let tokv = copy_range(v, start, j);
            let ghost pre = r.deep_view();
            proof {
                assert(forall|t: int|
                    0 <= t < j - start ==> tail[t] == v@[start + t] && !is_space_char(tail[t]));
                assert(j < n ==> is_space_char(tail[j - start]));
                lemma_tok_len_exact(tail, j - start);
                assert(tail.subrange(0, j - start) =~= v@.subrange(start as int, j as int));
                assert(tail.subrange(j - start, tail.len() as int) =~= v@.subrange(
                    j as int,
                    n as int,
                ));
            }
            r.push(tokv);
            proof {
                assert(r.deep_view() =~~= pre + seq![v@.subrange(start as int, j as int)]);
            }
            i = j;
        }
    }
    proof {
        assert(v@.subrange(n as int, n as int) =~= Seq::<char>::empty());
        assert(r.deep_view() =~= r.deep_view() + split_ws(Seq::<char>::empty()));
    }
    r
}

// ---------------------------------------------------------------------------
// Joining with a single space
// ---------------------------------------------------------------------------

/// The pieces joined with one blank between consecutive pieces.
pub open spec fn join_sp(ts: Seq<Seq<char>>) -> Seq<char>
    decreases ts.len(),
{
    if ts.len() == 0 {
        Seq::empty()
    } else if ts.len() == 1 {
        ts[0]
    } else {
        join_sp(ts.drop_last()) + seq![' '] + ts.last()
    }
}

/// Joins the pieces with one blank between consecutive pieces.
pub fn join_sp_vec(ts: &Vec<Vec<char>>) -> (r: Vec<char>)
    ensures
        r@ == join_sp(ts.deep_view()),
{
    let mut r: Vec<char> = Vec::new();
    let mut i: usize = 0;
    while i < ts.len()
        invariant
            0 <= i <= ts@.len(),
            ts.deep_view().len() == ts@.len(),
            r@ == join_sp(ts.deep_view().subrange(0, i as int)),
        decreases ts@.len() - i,
    {
        let ghost pre = r@;
        if i > 0 {
            r.push(' ');
        }
        let piece = &ts[i];
        let mut k: usize = 0;
        let ghost mid = r@;
        while k < piece.len()
            invariant
                0 <= k <= piece@.len(),
                r@ == mid + piece@.subrange(0, k as int),
            decreases piece@.len() - k,
        {
            let ghost pre2 = r@;
            r.push(piece[k]);
            proof {
                assert(pre2.push(piece@[k as int]) =~= mid + piece@.subrange(0, k + 1 as int));
            }
            k = k + 1;
        }
        proof {
            assert(piece@.subrange(0, piece@.len() as int) =~= piece@);
            assert(ts.deep_view()[i as int] =~= piece@);
            let sub1 = ts.deep_view().subrange(0, i + 1 as int);
            assert(sub1.drop_last() =~= ts.deep_view().subrange(0, i as int));
            assert(sub1.last() == piece@);
            if i == 0 {
                assert(r@ =~= join_sp(sub1));
            } else {
                assert(r@ =~= join_sp(sub1.drop_last()) + seq![' '] + sub1.last());
                assert(sub1.len() >= 2);
            }
        }
        i = i + 1;
    }
    proof {
        assert(ts.deep_view().subrange(0, ts.deep_view().len() as int) =~= ts.deep_view());
    }
    r
}

/// Commas replaced by blanks, as the address extractor tokenizes.
pub open spec fn commas_to_spaces(s: Seq<char>) -> Seq<char> {
    s.map_values(|c: char| if c == ',' { ' ' } else { c })
}

pub fn replace_commas(v: &Vec<char>) -> (r: Vec<char>)
    ensures
        r@ == commas_to_spaces(v@),
{
    let mut r: Vec<char> = Vec::new();
    let mut i: usize = 0;
    while i < v.len()
        invariant
            0 <= i <= v@.len(),
            r@ == commas_to_spaces(v@.subrange(0, i as int)),
        decreases v@.len() - i,
    {
        let ghost pre = r@;
        let c = v[i];
        if c == ',' {
            r.push(' ');
        } else {
            r.push(c);
        }
        proof {
            assert(r@ =~= commas_to_spaces(v@.subrange(0, i + 1 as int)));
        }
        i = i + 1;
    }
    proof {
        assert(v@.subrange(0, v@.len() as int) =~= v@);
    }
    r
}

/// One leading `'+'` removed, as std's unsigned parsing accepts.
pub open spec fn strip_plus(s: Seq<char>) -> Seq<char> {
    if s.len() > 0 && s[0] == '+' {
        s.drop_first()
    } else {
        s
    }
}

/// The value of decimal text with an optional leading `'+'`, when it fits.
pub open spec fn u64_text_val(s: Seq<char>) -> Option<nat> {
    let t = strip_plus(s);
    if t.len() > 0 && all_digits(t) && dec_val(t) <= u64::MAX {
        Some(dec_val(t))
    } else {
        None
    }
}

/// The same, bounded by `u32::MAX`.
pub open spec fn u32_text_val(s: Seq<char>) -> Option<nat> {
    let t = strip_plus(s);
    if t.len() > 0 && all_digits(t) && dec_val(t) <= u32::MAX {
        Some(dec_val(t))
    } else {
        None
    }
}

/// Parses unsigned decimal text with an optional leading `'+'`.
pub fn parse_u64_text(v: &Vec<char>) -> (r: Option<u64>)
    ensures
        r == match u64_text_val(v@) {
            Some(n) => Some(n as u64),
            None => None::<u64>,
        },
{
    let t = if v.len() > 0 && v[0] == '+' {
        let w = copy_range(v, 1, v.len());
        proof {
            assert(w@ =~= v@.drop_first());
        }
        w
    } else {
        copy_range(v, 0, v.len())
    };
    proof {
        assert(t@ =~= strip_plus(v@));
    }
    parse_u64_digits(&t)
}

/// Parses unsigned decimal text bounded by `u32::MAX`.
pub fn parse_u32_text(v: &Vec<char>) -> (r: Option<u32>)
    ensures
        r == match u32_text_val(v@) {
            Some(n) => Some(n as u32),
            None => None::<u32>,
        },
{
    match parse_u64_text(v) {
        Some(n) => if n <= u32::MAX as u64 {
            Some(n as u32)
        } else {
            None
        },
        None => None,
    }
}

} // verus!

