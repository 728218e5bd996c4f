//! Character-level text utilities with exact specifications.
//!
//! Text is modelled as `Seq<char>` (the view of `str` and `String`).
//! Byte offsets, where an operation works in bytes, are related to
//! character offsets through `utf8_len`.

use vstd::prelude::*;
use vstd::utf8::{char_is_scalar, encode_scalar, encode_utf8};

verus! {

// ── UTF-8 widths ─────────────────────────────────────────────────────────────

/// Number of bytes in the UTF-8 encoding of `c`.
pub open spec fn char_width(c: char) -> nat {
    if (c as u32) <= 0x7F {
        1
    } else if (c as u32) <= 0x7FF {
        2
    } else if (c as u32) <= 0xFFFF {
        3
    } else {
        4
    }
}

/// Number of bytes in the UTF-8 encoding of `s`.
pub open spec fn utf8_len(s: Seq<char>) -> nat
    decreases s.len(),
{
    if s.len() == 0 {
        0
    } else {
        utf8_len(s.drop_last()) + char_width(s.last())
    }
}

pub proof fn lemma_utf8_len_concat(a: Seq<char>, b: Seq<char>)
    ensures
        utf8_len(a + b) == utf8_len(a) + utf8_len(b),
    decreases b.len(),
{
    if b.len() == 0 {
        assert(a + b =~= a);
    } else {
        lemma_utf8_len_concat(a, b.drop_last());
        assert((a + b).drop_last() =~= a + b.drop_last());
        assert((a + b).last() == b.last());
    }
}

pub proof fn lemma_utf8_len_take_succ(s: Seq<char>, k: int)
    requires
        0 <= k < s.len(),
    ensures
        utf8_len(s.take(k + 1)) == utf8_len(s.take(k)) + char_width(s[k]),
{
    assert(s.take(k + 1).drop_last() =~= s.take(k));
}

pub proof fn lemma_utf8_len_take_mono(s: Seq<char>, i: int, j: int)
    requires
        0 <= i <= j <= s.len(),
    ensures
        utf8_len(s.take(i)) <= utf8_len(s.take(j)),
        i < j ==> utf8_len(s.take(i)) < utf8_len(s.take(j)),
    decreases j - i,
{
    if i < j {
        lemma_utf8_len_take_mono(s, i, j - 1);
        lemma_utf8_len_take_succ(s, j - 1);
    }
}

/// The byte offsets of `s` that fall between characters (including 0 and the end).
pub open spec fn is_boundary(s: Seq<char>, b: int) -> bool {
    exists|k: int| 0 <= k <= s.len() && utf8_len(s.take(k)) == b
}

/// Encoding width of a character, computed from its scalar value.
pub fn char_len_utf8(c: char) -> (n: usize)
    ensures
        n == char_width(c),
        1 <= n <= 4,
{
    let u = c as u32;
    if u <= 0x7F {
        1
    } else if u <= 0x7FF {
        2
    } else if u <= 0xFFFF {
        3
    } else {
        4
    }
}

/// The number of leading characters of `s` whose encoding fits in `b` bytes.
pub open spec fn fit_chars(s: Seq<char>, b: int) -> nat
    decreases s.len(),
{
    if utf8_len(s) <= b {
        s.len()
    } else if s.len() == 0 {
        0
    } else {
        fit_chars(s.drop_last(), b)
    }
}

/// `fit_chars` is the largest prefix length whose encoding fits.
pub proof fn lemma_fit_chars(s: Seq<char>, b: int, k: int)
    requires
        0 <= k <= s.len(),
        utf8_len(s.take(k)) <= b,
        k == s.len() || utf8_len(s.take(k + 1)) > b,
    ensures
        fit_chars(s, b) == k,
    decreases s.len(),
{
    assert(s.take(s.len() as int) =~= s);
    if utf8_len(s) <= b {
        if k < s.len() {
            lemma_utf8_len_take_mono(s, k + 1, s.len() as int);
        }
    } else {
        let d = s.drop_last();
        assert(d.take(k) =~= s.take(k));
        if k + 1 <= d.len() {
            assert(d.take(k + 1) =~= s.take(k + 1));
        }
        assert(d.take(d.len() as int) =~= d);
        lemma_fit_chars(d, b, k);
    }
}

/// The prefix of `s` of at most `b` bytes that ends between characters.
pub open spec fn byte_prefix(s: Seq<char>, b: int) -> Seq<char> {
    s.take(fit_chars(s, b) as int)
}

/// How many leading characters of `s` fit in `b` bytes.
pub fn fit_prefix_len(s: &[char], b: usize) -> (k: usize)
    ensures
        k == fit_chars(s@, b as int),
        k <= s@.len(),
        utf8_len(s@.take(k as int)) <= b,
{
    let mut k: usize = 0;
    let mut acc: usize = 0;
    assert(s@.take(0) =~= Seq::<char>::empty());
    while k < s.len()
        invariant
            k <= s@.len(),
            acc == utf8_len(s@.take(k as int)),
            acc <= b,
        decreases s@.len() - k,
    {
        let w = char_len_utf8(s[k]);
        proof {
            lemma_utf8_len_take_succ(s@, k as int);
        }
        if w > b - acc {
            proof {
                lemma_fit_chars(s@, b as int, k as int);
            }
            return k;
        }
        acc = acc + w;
        k = k + 1;
    }
    proof {
        lemma_fit_chars(s@, b as int, k as int);
    }
    k
}

/// The UTF-8 length of `s`.
pub fn utf8_len_of(s: &[char]) -> (n: usize)
    requires
        utf8_len(s@) <= usize::MAX,
    ensures
        n == utf8_len(s@),
{
    let mut k: usize = 0;
    let mut acc: usize = 0;
    assert(s@.take(0) =~= Seq::<char>::empty());
    while k < s.len()
        invariant
            k <= s@.len(),
            acc == utf8_len(s@.take(k as int)),
            utf8_len(s@) <= usize::MAX,
        decreases s@.len() - k,
    {
        proof {
            lemma_utf8_len_take_succ(s@, k as int);
            lemma_utf8_len_take_mono(s@, k + 1, s@.len() as int);
            assert(s@.take(s@.len() as int) =~= s@);
        }
        acc = acc + char_len_utf8(s[k]);
        k = k + 1;
    }
    assert(s@.take(s@.len() as int) =~= s@);
    acc
}

/// Whether `s` is at most `n` bytes long or has a character boundary at byte
/// `n`: where a cut of its bytes at `n` lands between two characters.
pub fn cut_fits(s: &str, n: usize) -> (b: bool)
    ensures
        b == (utf8_len(s@) > n ==> utf8_len(byte_prefix(s@, n as int)) == n),
{
    if byte_len(s) <= n {
        true
    } else {
        let cs = chars_of(s);
        let k = fit_prefix_len(cs.as_slice(), n);
        let head = slice_sub(cs.as_slice(), 0, k);
        assert(head@ =~= byte_prefix(s@, n as int));
        utf8_len_of(head.as_slice()) == n
    }
}

/// `utf8_len` is the length of the UTF-8 encoding that `str` uses.
pub proof fn lemma_encode_utf8_len(s: Seq<char>)
    ensures
        encode_utf8(s).len() == utf8_len(s),
    decreases s.len(),
{
    if s.len() > 0 {
        let c = s[0];
        lemma_encode_utf8_len(s.drop_first());
        lemma_utf8_len_concat(seq![c], s.drop_first());
        assert(seq![c] + s.drop_first() =~= s);
        assert(seq![c].drop_last() =~= Seq::<char>::empty());
        assert(utf8_len(Seq::<char>::empty()) == 0);
        assert(seq![c].last() == c);
        assert(utf8_len(seq![c]) == char_width(c));
        char_is_scalar(c);
        assert(encode_scalar(c as u32).len() == char_width(c));
        assert(encode_utf8(s) == encode_scalar(c as u32) + encode_utf8(s.drop_first()));
    }
}

/// The byte length of `s`, the length of its UTF-8 encoding.
pub fn byte_len(s: &str) -> (n: usize)
    ensures
        n == utf8_len(s@),
        (n == 0) == (s@.len() == 0),
{
    proof {
        lemma_encode_utf8_len(s@);
    }
    s.as_bytes().len()
}

// ── Conversions ──────────────────────────────────────────────────────────────

/// Whether two texts have the same characters.
pub(crate) fn str_eq(a: &str, b: &str) -> (r: bool)
    ensures
        r == (a@ == b@),
{
    let x = chars_of(a);
    let y = chars_of(b);
    if x.len() != y.len() {
        return false;
    }
    let mut i: usize = 0;
    while i < x.len()
        invariant
            x@ == a@,
            y@ == b@,
            x@.len() == y@.len(),
            i <= x@.len(),
            forall|j: int| 0 <= j < i ==> x@[j] == y@[j],
        decreases x@.len() - i,
    {
        if x[i] != y[i] {
            assert(x@[i as int] != y@[i as int]);
            return false;
        }
        i = i + 1;
    }
    assert(x@ =~= y@);
    true
}

/// The characters of `s`, in order.
pub fn chars_of(s: &str) -> (v: Vec<char>)
    ensures
        v@ == s@,
{
    let mut v: Vec<char> = Vec::new();
    for c in it: s.chars()
        invariant
            it.seq() == s@,
            v@ == it.seq().take(it.index() as int),
    {
        v.push(c);
    }
    v
}

/// `String::push`: claimed to leave the old text with `c` appended.
#[verifier::external_body]
pub(crate) fn push_char(s: &mut String, c: char)
    ensures
        final(s)@ == old(s)@.push(c),
{
    s.push(c);
}

/// The string made of the characters of `v`.
pub fn string_of(v: &[char]) -> (s: String)
    ensures
        s@ == v@,
{
    let mut s = String::new();
    for i in 0..v.len()
        invariant
            s@ == v@.take(i as int),
    {
        push_char(&mut s, v[i]);
        assert(v@.take(i + 1) =~= v@.take(i as int).push(v@[i as int]));
    }
    assert(v@.take(v@.len() as int) =~= v@);
    s
}


// ── Searching ────────────────────────────────────────────────────────────────

/// `p` occurs in `h` starting at position `i`.
pub open spec fn occurs_at(h: Seq<char>, i: int, p: Seq<char>) -> bool {
    0 <= i && i + p.len() <= h.len() && h.subrange(i, i + p.len()) == p
}

/// The first position at or after `from` where `p` occurs in `h`.
pub open spec fn find_from(h: Seq<char>, p: Seq<char>, from: int) -> Option<int>
    decreases h.len() + 1 - from,
{
    if from < 0 || from + p.len() > h.len() {
        None
    } else if occurs_at(h, from, p) {
        Some(from)
    } else {
        find_from(h, p, from + 1)
    }
}

/// The first position where `p` occurs in `h` (`str::find`).
pub open spec fn find_first(h: Seq<char>, p: Seq<char>) -> Option<int> {
    find_from(h, p, 0)
}

/// `find_from` returns the first occurrence at or after `from`.
pub proof fn lemma_find_from(h: Seq<char>, p: Seq<char>, from: int)
    requires
        0 <= from,
    ensures
        match find_from(h, p, from) {
            Some(i) => from <= i && occurs_at(h, i, p) && forall|j: int|
                from <= j < i ==> !occurs_at(h, j, p),
            None => forall|j: int| from <= j ==> !occurs_at(h, j, p),
        },
    decreases h.len() + 1 - from,
{
    if from + p.len() > h.len() {
    } else if occurs_at(h, from, p) {
    } else {
        lemma_find_from(h, p, from + 1);
    }
}

/// A position that is the first occurrence at or after `from` is what `find_from` gives.
pub proof fn lemma_find_from_unique(h: Seq<char>, p: Seq<char>, from: int, i: int)
    requires
        0 <= from <= i,
        occurs_at(h, i, p),
        forall|j: int| from <= j < i ==> !occurs_at(h, j, p),
    ensures
        find_from(h, p, from) == Some(i),
    decreases i - from,
{
    if from < i {
        lemma_find_from_unique(h, p, from + 1, i);
    }
}

/// `p` occurs nowhere at or after `from`.
pub proof fn lemma_find_from_none(h: Seq<char>, p: Seq<char>, from: int)
    requires
        0 <= from,
        forall|j: int| from <= j ==> !occurs_at(h, j, p),
    ensures
        find_from(h, p, from) is None,
    decreases h.len() + 1 - from,
{
    if from + p.len() <= h.len() {
        lemma_find_from_none(h, p, from + 1);
    }
}

/// Whether `p` occurs in `h` at position `i`.
pub fn matches_at(h: &[char], i: usize, p: &[char]) -> (b: bool)
    ensures
        b == occurs_at(h@, i as int, p@),
{
    if i > h.len() || p.len() > h.len() - i {
        return false;
    }
    let mut k: usize = 0;
    while k < p.len()
        invariant
            i + p@.len() <= h@.len(),
            k <= p@.len(),
            forall|m: int| 0 <= m < k ==> h@[i + m] == p@[m],
        decreases p@.len() - k,
    {
        assert(i + k < h.len());
        if h[i + k] != p[k] {
            assert(h@.subrange(i as int, i + p@.len())[k as int] != p@[k as int]);
            return false;
        }
        k = k + 1;
    }
    assert(h@.subrange(i as int, i + p@.len()) =~= p@);
    true
}

/// The first position at or after `from` where `p` occurs in `h`.
pub fn find_in(h: &[char], p: &[char], from: usize) -> (r: Option<usize>)
    ensures
        match r {
            Some(i) => find_from(h@, p@, from as int) == Some(i as int),
            None => find_from(h@, p@, from as int) is None,
        },
{
    if from > h.len() {
        proof {
            lemma_find_from_none(h@, p@, from as int);
        }
        return None;
    }
    let mut i = from;
    loop
        invariant
            from <= i <= h@.len(),
            forall|j: int| from <= j < i ==> !occurs_at(h@, j, p@),
        decreases h@.len() - i,
    {
        if matches_at(h, i, p) {
            proof {
                lemma_find_from_unique(h@, p@, from as int, i as int);
            }
            return Some(i);
        }
        if i == h.len() {
            proof {
                assert forall|j: int| from <= j implies !occurs_at(h@, j, p@) by {
                    if j > i {
                        assert(j + p@.len() > h@.len());
                    }
                }
                lemma_find_from_none(h@, p@, from as int);
            }
            return None;
        }
        i = i + 1;
    }
}

/// The last position of character `c` in `h` (`str::rfind` with a `char`).
pub open spec fn rfind_char(h: Seq<char>, c: char) -> Option<int>
    decreases h.len(),
{
    if h.len() == 0 {
        None
    } else if h.last() == c {
        Some(h.len() - 1)
    } else {
        rfind_char(h.drop_last(), c)
    }
}

pub proof fn lemma_rfind_char(h: Seq<char>, c: char)
    ensures
        match rfind_char(h, c) {
            Some(i) => 0 <= i < h.len() && h[i] == c && forall|j: int| i < j < h.len() ==> h[j] != c,
            None => forall|j: int| 0 <= j < h.len() ==> h[j] != c,
        },
    decreases h.len(),
{
    if h.len() > 0 && h.last() != c {
        lemma_rfind_char(h.drop_last(), c);
        assert forall|j: int| 0 <= j < h.len() - 1 implies h[j] == h.drop_last()[j] by {}
    }
}

/// The last position of character `c` in `h`.
pub fn rfind_in(h: &[char], c: char) -> (r: Option<usize>)
    ensures
        match r {
            Some(i) => rfind_char(h@, c) == Some(i as int),
            None => rfind_char(h@, c) is None,
        },
{
    let mut n = h.len();
    assert(h@.take(n as int) =~= h@);
    while n > 0
        invariant
            n <= h@.len(),
            rfind_char(h@, c) == rfind_char(h@.take(n as int), c),
        decreases n,
    {
        assert(h@.take(n as int).drop_last() =~= h@.take(n - 1));
        if h[n - 1] == c {
            return Some(n - 1);
        }
        n = n - 1;
    }
    None
}

// ── Whitespace and trimming ─────────────────────────────────────────────────

/// Unicode `White_Space` (`char::is_whitespace`).
pub open spec fn is_ws(c: char) -> bool {
    let u = c as u32;
    ||| 0x09 <= u <= 0x0D
    ||| u == 0x20
    ||| u == 0x85
    ||| u == 0xA0
    ||| u == 0x1680
    ||| 0x2000 <= u <= 0x200A
    ||| u == 0x2028
    ||| u == 0x2029
    ||| u == 0x202F
    ||| u == 0x205F
    ||| u == 0x3000
}

/// Whether `c` is Unicode whitespace.
pub fn is_whitespace(c: char) -> (b: bool)
    ensures
        b == is_ws(c),
{
    let u = c as u32;
    (0x09 <= u && u <= 0x0D) || u == 0x20 || u == 0x85 || u == 0xA0 || u == 0x1680 || (0x2000
        <= u && u <= 0x200A) || u == 0x2028 || u == 0x2029 || u == 0x202F || u == 0x205F || u
        == 0x3000
}

/// `s` without leading whitespace.
pub open spec fn trim_start(s: Seq<char>) -> Seq<char>
    decreases s.len(),
{
    if s.len() > 0 && is_ws(s[0]) {
        trim_start(s.drop_first())
    } else {
        s
    }
}

/// `s` without trailing whitespace.
pub open spec fn trim_end(s: Seq<char>) -> Seq<char>
    decreases s.len(),
{
    if s.len() > 0 && is_ws(s.last()) {
        trim_end(s.drop_last())
    } else {
        s
    }
}

/// `s` without leading and trailing whitespace (`str::trim`).
pub open spec fn trim(s: Seq<char>) -> Seq<char> {
    trim_end(trim_start(s))
}

proof fn lemma_trim_start_skip(s: Seq<char>, a: int)
    requires
        0 <= a <= s.len(),
        forall|j: int| 0 <= j < a ==> is_ws(s[j]),
    ensures
        trim_start(s) == trim_start(s.skip(a)),
    decreases a,
{
    if a > 0 {
        assert(s.drop_first().skip(a - 1) =~= s.skip(a));
        lemma_trim_start_skip(s.drop_first(), a - 1);
    } else {
        assert(s.skip(0) =~= s);
    }
}

proof fn lemma_trim_end_take(s: Seq<char>, b: int)
    requires
        0 <= b <= s.len(),
        forall|j: int| b <= j < s.len() ==> is_ws(s[j]),
    ensures
        trim_end(s) == trim_end(s.take(b)),
    decreases s.len() - b,
{
    if b < s.len() {
        assert(s.drop_last().take(b) =~= s.take(b));
        lemma_trim_end_take(s.drop_last(), b);
    } else {
        assert(s.take(b) =~= s);
    }
}

/// The bounds `(a, b)` such that `trim(s) == s[a..b]`.
pub fn trim_bounds(s: &[char]) -> (r: (usize, usize))
    ensures
        r.0 <= r.1 <= s@.len(),
        trim(s@) == s@.subrange(r.0 as int, r.1 as int),
        trim_start(s@) == s@.skip(r.0 as int),
{
    let mut a: usize = 0;
    while a < s.len() && is_whitespace(s[a])
        invariant
            a <= s@.len(),
            forall|j: int| 0 <= j < a ==> is_ws(s@[j]),
        decreases s@.len() - a,
    {
        a = a + 1;
    }
    proof {
        lemma_trim_start_skip(s@, a as int);
        if a < s@.len() {
            assert(!is_ws(s@.skip(a as int)[0]));
        }
    }
    let ghost t = s@.skip(a as int);
    let mut b: usize = s.len();
    while b > a && is_whitespace(s[b - 1])
        invariant
            a <= b <= s@.len(),
            forall|j: int| b <= j < s@.len() ==> is_ws(s@[j]),
        decreases b,
    {
        b = b - 1;
    }
    proof {
        let bt = b - a;
        assert forall|j: int| bt <= j < t.len() implies is_ws(t[j]) by {
            assert(t[j] == s@[a + j]);
        }
        lemma_trim_end_take(t, bt);
        assert(t.take(bt) =~= s@.subrange(a as int, b as int));
        if bt > 0 {
            assert(!is_ws(t.take(bt).last()));
        }
    }
    (a, b)
}

/// `s` with leading and trailing whitespace removed.
pub fn trimmed(s: &str) -> (r: String)
    ensures
        r@ == trim(s@),
{
    let v = chars_of(s);
    let (a, b) = trim_bounds(v.as_slice());
    string_of(slice_sub(v.as_slice(), a, b).as_slice())
}

/// The characters `s[a..b]` as a new vector.
pub fn slice_sub(s: &[char], a: usize, b: usize) -> (r: Vec<char>)
    requires
        a <= b <= s@.len(),
    ensures
        r@ == s@.subrange(a as int, b as int),
{
    let mut r: Vec<char> = Vec::new();
    let mut i = a;
    while i < b
        invariant
            a <= i <= b <= s@.len(),
            r@ == s@.subrange(a as int, i as int),
        decreases b - i,
    {
        r.push(s[i]);
        assert(s@.subrange(a as int, i + 1) =~= s@.subrange(a as int, i as int).push(s@[i as int]));
        i = i + 1;
    }
    r
}


// ── Lines and joining ────────────────────────────────────────────────────────

/// `l` without one trailing carriage return.
pub open spec fn strip_cr(l: Seq<char>) -> Seq<char> {
    if l.len() > 0 && l.last() == '\r' {
        l.drop_last()
    } else {
        l
    }
}

/// The lines of `s` (`str::lines`): split at `\n`, a `\r` before the `\n`
/// dropped, and no empty line after a final `\n`.
pub open spec fn lines(s: Seq<char>) -> Seq<Seq<char>>
    decreases s.len(),
{
    if s.len() == 0 {
        seq![]
    } else {
        match find_first(s, seq!['\n']) {
            None => seq![s],
            Some(i) => {
                proof {
                    lemma_find_from(s, seq!['\n'], 0);
                }
                seq![strip_cr(s.take(i))] + lines(s.skip(i + 1))
            },
        }
    }
}

/// `parts` joined with `sep` between consecutive parts (`[&str]::join`).
pub open spec fn join(parts: Seq<Seq<char>>, sep: Seq<char>) -> Seq<char>
    decreases parts.len(),
{
    if parts.len() == 0 {
        seq![]
    } else if parts.len() == 1 {
        parts[0]
    } else {
        join(parts.drop_last(), sep) + sep + parts.last()
    }
}

/// The views of a sequence of character vectors.
pub open spec fn views(v: Seq<Vec<char>>) -> Seq<Seq<char>> {
    v.map_values(|x: Vec<char>| x@)
}

/// An occurrence in a suffix is an occurrence in the whole, shifted.
pub proof fn lemma_occurs_skip(h: Seq<char>, a: int, j: int, p: Seq<char>)
    requires
        0 <= a <= h.len(),
        0 <= j,
    ensures
        occurs_at(h.skip(a), j, p) == occurs_at(h, a + j, p),
{
    if j + p.len() <= h.len() - a {
        assert(h.skip(a).subrange(j, j + p.len()) =~= h.subrange(a + j, a + j + p.len()));
    }
}

/// Searching a suffix is searching the whole from the suffix start.
pub proof fn lemma_find_skip(h: Seq<char>, p: Seq<char>, a: int)
    requires
        0 <= a <= h.len(),
    ensures
        find_first(h.skip(a), p) == (match find_from(h, p, a) {
            Some(i) => Some(i - a),
            None => None,
        }),
{
    lemma_find_from(h, p, a);
    match find_from(h, p, a) {
        Some(i) => {
            lemma_occurs_skip(h, a, i - a, p);
            assert forall|j: int| 0 <= j < i - a implies !occurs_at(h.skip(a), j, p) by {
                lemma_occurs_skip(h, a, j, p);
            }
            lemma_find_from_unique(h.skip(a), p, 0, i - a);
        },
        None => {
            assert forall|j: int| 0 <= j implies !occurs_at(h.skip(a), j, p) by {
                lemma_occurs_skip(h, a, j, p);
            }
            lemma_find_from_none(h.skip(a), p, 0);
        },
    }
}

/// The lines of `s`.
pub fn lines_of(s: &[char]) -> (r: Vec<Vec<char>>)
    ensures
        views(r@) == lines(s@),
{
    let mut r: Vec<Vec<char>> = Vec::new();
    let mut pos: usize = 0;
    let nl: [char; 1] = ['\n'];
    assert(nl@ =~= seq!['\n']);
    assert(s@.skip(0) =~= s@);
    while pos < s.len()
        invariant
            pos <= s@.len(),
            nl@ == seq!['\n'],
            lines(s@) == views(r@) + lines(s@.skip(pos as int)),
        decreases s@.len() - pos,
    {
        let ghost rest = s@.skip(pos as int);
        proof {
            lemma_find_skip(s@, seq!['\n'], pos as int);
        }
        let ghost old_r = views(r@);
        match find_in(s, nl.as_slice(), pos) {
            None => {
                let line = slice_sub(s, pos, s.len());
                assert(line@ =~= rest);
                r.push(line);
                assert(views(r@) =~= old_r.push(rest));
                assert(s@.skip(s@.len() as int) =~= Seq::<char>::empty());
                assert(lines(rest) =~= seq![rest]);
                assert(old_r + seq![rest] =~= old_r.push(rest) + lines(Seq::<char>::empty()));
                pos = s.len();
            },
            Some(i) => {
                proof {
                    lemma_find_from(s@, seq!['\n'], pos as int);
                }
                let mut end = i;
                if end > pos && s[end - 1] == '\r' {
                    end = end - 1;
                }
                let line = slice_sub(s, pos, end);
                let ghost k = i - pos;
                assert(line@ =~= strip_cr(rest.take(k)));
                assert(rest.skip(k + 1) =~= s@.skip(i + 1));
                r.push(line);
                assert(views(r@) =~= old_r.push(strip_cr(rest.take(k))));
                assert(old_r.push(strip_cr(rest.take(k))) + lines(s@.skip(i + 1)) =~= old_r + (
                seq![strip_cr(rest.take(k))] + lines(rest.skip(k + 1))));
                pos = i + 1;
            },
        }
    }
    assert(s@.skip(pos as int) =~= Seq::<char>::empty());
    assert(views(r@) + Seq::<Seq<char>>::empty() =~= views(r@));
    r
}

/// Appends the characters of `t` to `v`.
pub fn push_all(v: &mut Vec<char>, t: &[char])
    ensures
        final(v)@ == old(v)@ + t@,
{
    let ghost v0 = v@;
    for i in 0..t.len()
        invariant
            v@ == v0 + t@.take(i as int),
    {
        v.push(t[i]);
        assert(t@.take(i + 1) =~= t@.take(i as int).push(t@[i as int]));
        assert(v0 + t@.take(i + 1) =~= (v0 + t@.take(i as int)).push(t@[i as int]));
    }
    assert(t@.take(t@.len() as int) =~= t@);
}

/// Appends the characters of `t` to `v`.
pub fn push_str(v: &mut Vec<char>, t: &str)
    ensures
        final(v)@ == old(v)@ + t@,
{
    let tc = chars_of(t);
    push_all(v, tc.as_slice());
}

/// `parts` joined with `sep`.
pub fn join_chars(parts: &Vec<Vec<char>>, sep: &[char]) -> (r: Vec<char>)
    ensures
        r@ == join(views(parts@), sep@),
{
    let mut r: Vec<char> = Vec::new();
    let ghost dv = views(parts@);
    let mut i: usize = 0;
    while i < parts.len()
        invariant
            i <= parts@.len(),
            dv == views(parts@),
            dv.len() == parts@.len(),
            r@ == join(dv.take(i as int), sep@),
        decreases parts@.len() - i,
    {
        let ghost before = r@;
        if i > 0 {
            push_all(&mut r, sep);
        }
        push_all(&mut r, parts[i].as_slice());
        proof {
            assert(dv[i as int] == parts@[i as int]@);
            assert(dv.take(i + 1).drop_last() =~= dv.take(i as int));
            if i == 0 {
                assert(join(dv.take(1), sep@) == dv.take(1)[0]);
                assert(r@ =~= dv[0]);
            } else {
                assert(r@ =~= before + sep@ + dv[i as int]);
            }
        }
        i = i + 1;
    }
    assert(dv.take(parts@.len() as int) =~= dv);
    r
}

/// Whether `s` begins with `p`.
pub fn starts_with(s: &[char], p: &[char]) -> (b: bool)
    ensures
        b == (p@.len() <= s@.len() && s@.take(p@.len() as int) == p@),
{
    let b = matches_at(s, 0, p);
    proof {
        if p@.len() <= s@.len() {
            assert(s@.subrange(0, p@.len() as int) =~= s@.take(p@.len() as int));
        }
    }
    b
}


// ── Numbers ─────────────────────────────────────────────────────────────────

/// The digit for a value below 16, upper case.
pub open spec fn digit_char(d: nat) -> char {
    if d < 10 {
        (('0' as u32) + d) as char
    } else {
        (('A' as u32) + d - 10) as char
    }
}

/// `n` written in base `b` (2 to 16), most significant digit first.
pub open spec fn digits(n: nat, b: nat) -> Seq<char>
    decreases n,
{
    if b < 2 || n < b {
        seq![digit_char(n)]
    } else {
        proof {
            assert(n / b < n) by (nonlinear_arith)
                requires
                    b >= 2,
                    n >= b,
            ;
        }
        digits(n / b, b).push(digit_char(n % b))
    }
}

/// `n` in decimal.
pub open spec fn decimal(n: nat) -> Seq<char> {
    digits(n, 10)
}

fn digit_exec(d: u32) -> (c: char)
    requires
        d < 16,
    ensures
        c == digit_char(d as nat),
{
    if d < 10 {
        ((('0' as u32) + d) as u8) as char
    } else {
        ((('A' as u32) + d - 10) as u8) as char
    }
}

/// `n` written in base `b`.
pub fn digits_of(n: u64, b: u64) -> (r: Vec<char>)
    requires
        2 <= b <= 16,
    ensures
        r@ == digits(n as nat, b as nat),
    decreases n,
{
    if n < b {
        let mut r: Vec<char> = Vec::new();
        r.push(digit_exec(n as u32));
        assert(r@ =~= seq![digit_char(n as nat)]);
        r
    } else {
        assert(n / b < n) by (nonlinear_arith)
            requires
                b >= 2,
                n >= b,
        ;
        let mut r = digits_of(n / b, b);
        r.push(digit_exec((n % b) as u32));
        r
    }
}

/// `n` in decimal.
pub fn decimal_string(n: u64) -> (r: String)
    ensures
        r@ == decimal(n as nat),
{
    string_of(digits_of(n, 10).as_slice())
}

} // verus!
