use vstd::prelude::*;

verus! {

/// ASCII lowercasing of one byte.
pub open spec fn lower(b: u8) -> u8 {
    if 0x41 <= b && b <= 0x5a { (b + 32) as u8 } else { b }
}

pub open spec fn lower_seq(s: Seq<u8>) -> Seq<u8> {
    s.map_values(|b: u8| lower(b))
}

/// Equal up to ASCII case.
pub open spec fn eq_ci(s: Seq<u8>, lit: Seq<u8>) -> bool {
    s.len() == lit.len() && forall|i: int| 0 <= i < s.len() ==> lower(#[trigger] s[i]) == lower(lit[i])
}

/// Starts with `lit` up to ASCII case.
pub open spec fn starts_ci(s: Seq<u8>, lit: Seq<u8>) -> bool {
    s.len() >= lit.len() && forall|i: int| 0 <= i < lit.len() ==> lower(#[trigger] s[i]) == lower(lit[i])
}

/// Word separators: ASCII space, tab, line feed, form feed, carriage return.
pub open spec fn is_sep(b: u8) -> bool {
    b == 0x20 || b == 0x09 || b == 0x0a || b == 0x0c || b == 0x0d
}

/// End of `s[..j]` once trailing separators are dropped.
pub open spec fn end_of_words(s: Seq<u8>, j: int) -> int
    decreases j,
{
    if j <= 0 || j > s.len() {
        if j > s.len() { s.len() as int } else { 0 }
    } else if is_sep(s[j - 1]) {
        end_of_words(s, j - 1)
    } else {
        j
    }
}

/// Start of the word that ends at `j`.
pub open spec fn word_start(s: Seq<u8>, j: int) -> int
    decreases j,
{
    if j <= 0 || j > s.len() {
        0
    } else if is_sep(s[j - 1]) {
        j
    } else {
        word_start(s, j - 1)
    }
}

/// The last word of `s`; empty when there is none.
pub open spec fn last_word(s: Seq<u8>) -> Seq<u8> {
    let e = end_of_words(s, s.len() as int);
    s.subrange(word_start(s, e), e)
}

/// Index of the first non-separator at or after `i`.
pub open spec fn skip_seps(s: Seq<u8>, i: int) -> int
    decreases s.len() - i,
{
    if i < 0 || i >= s.len() {
        s.len() as int
    } else if is_sep(s[i]) {
        skip_seps(s, i + 1)
    } else {
        i
    }
}

/// Index of the first separator at or after `i`.
pub open spec fn skip_word(s: Seq<u8>, i: int) -> int
    decreases s.len() - i,
{
    if i < 0 || i >= s.len() {
        s.len() as int
    } else if is_sep(s[i]) {
        i
    } else {
        skip_word(s, i + 1)
    }
}

/// `s` without its separators: the words run together.
pub open spec fn no_seps(s: Seq<u8>) -> Seq<u8>
    decreases s.len(),
{
    if s.len() == 0 {
        s
    } else {
        let r = no_seps(s.drop_last());
        if is_sep(s.last()) { r } else { r.push(s.last()) }
    }
}

/// Every word after the first, run together.
pub open spec fn rest_words(s: Seq<u8>) -> Seq<u8> {
    let first_end = skip_word(s, skip_seps(s, 0));
    no_seps(s.subrange(first_end, s.len() as int))
}

/// Whether `n` occurs in `h` at position `i`.
pub open spec fn occurs_at(h: Seq<u8>, n: Seq<u8>, i: int) -> bool {
    0 <= i && i + n.len() <= h.len() && h.subrange(i, i + n.len()) == n
}

pub open spec fn contains_sub(h: Seq<u8>, n: Seq<u8>) -> bool {
    exists|i: int| occurs_at(h, n, i)
}

fn lower_byte(b: u8) -> (r: u8)
    ensures
        r == lower(b),
{
    if 0x41 <= b && b <= 0x5a { b + 32 } else { b }
}

fn sep_byte(b: u8) -> (r: bool)
    ensures
        r == is_sep(b),
{
    b == 0x20 || b == 0x09 || b == 0x0a || b == 0x0c || b == 0x0d
}

/// Equality up to ASCII case.
pub fn eq_ignore_case(s: &[u8], lit: &[u8]) -> (r: bool)
    ensures
        r == eq_ci(s@, lit@),
{
    if s.len() != lit.len() {
        return false;
    }
    let mut i: usize = 0;
    while i < s.len()
        invariant
            s@.len() == lit@.len(),
            i <= s@.len(),
            forall|k: int| 0 <= k < i ==> lower(#[trigger] s@[k]) == lower(lit@[k]),
        decreases s@.len() - i,
    {
        if lower_byte(s[i]) != lower_byte(lit[i]) {
            return false;
        }
        i = i + 1;
    }
    true
}

/// Prefix test up to ASCII case.
pub fn starts_with_ignore_case(s: &[u8], lit: &[u8]) -> (r: bool)
    ensures
        r == starts_ci(s@, lit@),
{
    if s.len() < lit.len() {
        return false;
    }
    let mut i: usize = 0;
    while i < lit.len()
        invariant
            s@.len() >= lit@.len(),
            i <= lit@.len(),
            forall|k: int| 0 <= k < i ==> lower(#[trigger] s@[k]) == lower(lit@[k]),
        decreases lit@.len() - i,
    {
        if lower_byte(s[i]) != lower_byte(lit[i]) {
            return false;
        }
        i = i + 1;
    }
    true
}

/// ASCII-lowercased copy.
pub fn to_lower(s: &[u8]) -> (r: Vec<u8>)
    ensures
        r@ == lower_seq(s@),
{
    let mut r: Vec<u8> = Vec::new();
    let mut i: usize = 0;
    while i < s.len()
        invariant
            i <= s@.len(),
            r@ == lower_seq(s@.take(i as int)),
        decreases s@.len() - i,
    {
        r.push(lower_byte(s[i]));
        i = i + 1;
        assert(r@ =~= lower_seq(s@.take(i as int)));
    }
    assert(s@.take(i as int) =~= s@);
    r
}

/// The last whitespace-separated word.
pub fn get_last_word(s: &Vec<u8>) -> (r: Vec<u8>)
    ensures
        r@ == last_word(s@),
{
    let mut e: usize = s.len();
    while e > 0 && sep_byte(s[e - 1])
        invariant
            e <= s@.len(),
            end_of_words(s@, e as int) == end_of_words(s@, s@.len() as int),
        decreases e,
    {
        e = e - 1;
    }
    let mut b: usize = e;
    while b > 0 && !sep_byte(s[b - 1])
        invariant
            b <= e <= s@.len(),
            e == end_of_words(s@, s@.len() as int),
            word_start(s@, b as int) == word_start(s@, e as int),
        decreases b,
    {
        b = b - 1;
    }
    let mut r: Vec<u8> = Vec::new();
    let mut k: usize = b;
    while k < e
        invariant
            b <= k <= e <= s@.len(),
            r@ == s@.subrange(b as int, k as int),
        decreases e - k,
    {
        r.push(s[k]);
        k = k + 1;
        assert(r@ =~= s@.subrange(b as int, k as int));
    }
    r
}

/// Every word after the first, run together.
pub fn get_rest_words(s: &Vec<u8>) -> (r: Vec<u8>)
    ensures
        r@ == rest_words(s@),
{
    let n = s.len();
    let mut i: usize = 0;
    while i < n && sep_byte(s[i])
        invariant
            i <= n == s@.len(),
            skip_seps(s@, i as int) == skip_seps(s@, 0),
        decreases n - i,
    {
        i = i + 1;
    }
    assert(skip_seps(s@, i as int) == i as int);
    while i < n && !sep_byte(s[i])
        invariant
            i <= n == s@.len(),
            skip_word(s@, i as int) == skip_word(s@, skip_seps(s@, 0)),
        decreases n - i,
    {
        i = i + 1;
    }
    assert(skip_word(s@, i as int) == i as int);
    let ghost start = i as int;
    let mut r: Vec<u8> = Vec::new();
    while i < n
        invariant
            0 <= start <= i <= n == s@.len(),
            start == skip_word(s@, skip_seps(s@, 0)),
            r@ == no_seps(s@.subrange(start, i as int)),
        decreases n - i,
    {
        assert(s@.subrange(start, i + 1).drop_last() =~= s@.subrange(start, i as int));
        if !sep_byte(s[i]) {
            r.push(s[i]);
        }
        i = i + 1;
    }
    r
}

/// Whether `n` occurs in `h`.
pub fn find_sub(h: &[u8], n: &[u8]) -> (r: bool)
    ensures
        r == contains_sub(h@, n@),
{
    let hl = h.len();
    let nl = n.len();
    if nl > hl {
        return false;
    }
    if nl == 0 {
        assert(h@.subrange(0, 0) =~= n@);
        assert(occurs_at(h@, n@, 0));
        return true;
    }
    let m = hl - nl;
    let mut i: usize = 0;
    while i <= m
        invariant
            hl == h@.len(),
            nl == n@.len(),
            m + nl == hl,
            m < hl,
            i <= m + 1,
            forall|k: int| 0 <= k < i ==> !occurs_at(h@, n@, k),
        decreases m + 1 - i,
    {
        let mut j: usize = 0;
        while j < nl && h[i + j] == n[j]
            invariant
                hl == h@.len(),
                nl == n@.len(),
                m + nl == hl,
                i <= m,
                j <= nl,
                forall|k: int| 0 <= k < j ==> h@[i + k] == n@[k],
            decreases nl - j,
        {
            j = j + 1;
        }
        if j == nl {
            assert(h@.subrange(i as int, i + n@.len()) =~= n@);
            assert(occurs_at(h@, n@, i as int));
            return true;
        }
        assert(h@.subrange(i as int, i + n@.len())[j as int] != n@[j as int]);
        i = i + 1;
    }
    assert forall|k: int| !occurs_at(h@, n@, k) by {
        if 0 <= k && k + n@.len() <= h@.len() {
            assert(k <= m);
        }
    }
    false
}

} // verus!
