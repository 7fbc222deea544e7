//! Text primitives over character sequences: comparing, searching, splitting and
//! trimming.
use vstd::prelude::*;
use vstd::string::*;
use vstd::utf8::*;

verus! {

/// The text of an optional string.
pub open spec fn opt_text(o: Option<String>) -> Option<Seq<char>> {
    match o {
        Some(s) => Some(s@),
        None => None,
    }
}

/// The texts of a sequence of strings.
pub open spec fn texts(v: Seq<String>) -> Seq<Seq<char>> {
    v.map_values(|s: String| s@)
}

/// The texts of a sequence of string slices.
pub open spec fn slice_texts(v: Seq<&str>) -> Seq<Seq<char>> {
    v.map_values(|s: &str| s@)
}

/// Whether two string slices hold the same characters.
pub fn same_text(a: &str, b: &str) -> (r: bool)
    ensures
        r == (a@ == b@),
{
    let x = a.as_bytes();
    let y = b.as_bytes();
    proof {
        encode_utf8_decode_utf8(a@);
        encode_utf8_decode_utf8(b@);
    }
    if x.len() != y.len() {
        return false;
    }
    let n: usize = x.len();
    let mut i: usize = 0;
    while i < n
        invariant
            n == x@.len(),
            n == y@.len(),
            x@ == encode_utf8(a@),
            y@ == encode_utf8(b@),
            i <= n,
            forall|j: int| 0 <= j < i ==> x@[j] == y@[j],
        decreases n - i,
    {
        if x[i] != y[i] {
            return false;
        }
        i = i + 1;
    }
    assert(x@ =~= y@);
    true
}

/// Whether an optional string holds exactly `b`.
pub fn opt_is(a: &Option<String>, b: &str) -> (r: bool)
    ensures
        r == (opt_text(*a) == Some(b@)),
{
    match a {
        Some(s) => same_text(s.as_str(), b),
        None => false,
    }
}

/// The position of the first `c` in `s`, or the length of `s` where there is none.
pub open spec fn first_index(s: Seq<char>, c: char) -> int
    decreases s.len(),
{
    if s.len() == 0 || s[0] == c {
        0
    } else {
        1 + first_index(s.skip(1), c)
    }
}

pub proof fn lemma_first_index(s: Seq<char>, c: char)
    ensures
        0 <= first_index(s, c) <= s.len(),
        forall|j: int| 0 <= j < first_index(s, c) ==> s[j] != c,
        first_index(s, c) < s.len() ==> s[first_index(s, c)] == c,
    decreases s.len(),
{
    if s.len() == 0 || s[0] == c {
    } else {
        lemma_first_index(s.skip(1), c);
        assert forall|j: int| 0 <= j < first_index(s, c) implies s[j] != c by {
            if j > 0 {
                assert(s.skip(1)[j - 1] == s[j]);
            }
        }
    }
}

/// `first_index` is the only position with these properties.
pub proof fn lemma_first_index_unique(s: Seq<char>, c: char, k: int)
    requires
        0 <= k <= s.len(),
        forall|j: int| 0 <= j < k ==> s[j] != c,
        k < s.len() ==> s[k] == c,
    ensures
        first_index(s, c) == k,
{
    lemma_first_index(s, c);
}

/// The position of the first `c`, counted in characters.
pub fn find_char(s: &str, c: char) -> (k: Option<usize>)
    ensures
        match k {
            Some(i) => i < s@.len() && i == first_index(s@, c),
            None => first_index(s@, c) == s@.len(),
        },
        k is Some <==> s@.contains(c),
{
    let n: usize = s.unicode_len();
    let mut k: usize = 0;
    for x in it: s.chars()
        invariant
            k == it.index(),
            it.seq() == s@,
            n == s@.len(),
            forall|j: int| 0 <= j < k ==> s@[j] != c,
    {
        if x == c {
            proof {
                lemma_first_index_unique(s@, c, k as int);
            }
            return Some(k);
        }
        k = k + 1;
    }
    proof {
        lemma_first_index_unique(s@, c, k as int);
    }
    None
}

/// The pieces of `s` between occurrences of `sep`; never empty.
pub open spec fn split(s: Seq<char>, sep: char) -> Seq<Seq<char>>
    decreases s.len(),
    via split_decreases
{
    let k = first_index(s, sep);
    if 0 <= k < s.len() {
        seq![s.take(k)] + split(s.skip(k + 1), sep)
    } else {
        seq![s]
    }
}

#[via_fn]
proof fn split_decreases(s: Seq<char>, sep: char) {
    lemma_first_index(s, sep);
}

pub proof fn lemma_split_nonempty(s: Seq<char>, sep: char)
    ensures
        split(s, sep).len() >= 1,
        split(s, sep)[0] == s.take(first_index(s, sep)),
{
    lemma_first_index(s, sep);
    if first_index(s, sep) == s.len() {
        assert(s.take(first_index(s, sep)) =~= s);
    }
}

/// The pieces of `s` between occurrences of `sep`, in order.
pub fn split_on<'a>(s: &'a str, sep: char) -> (r: Vec<&'a str>)
    ensures
        slice_texts(r@) == split(s@, sep),
        r@.len() >= 1,
{
    let n: usize = s.unicode_len();
    let mut out: Vec<&'a str> = Vec::new();
    let mut start: usize = 0;
    let mut k: usize = 0;
    assert(s@.skip(0) =~= s@);
    assert(slice_texts(out@) + split(s@, sep) =~= split(s@, sep));
    for x in it: s.chars()
        invariant
            k == it.index(),
            it.seq() == s@,
            n == s@.len(),
            start <= k <= n,
            forall|j: int| start <= j < k ==> s@[j] != sep,
            slice_texts(out@) + split(s@.skip(start as int), sep) == split(s@, sep),
    {
        if x == sep {
            let piece = s.substring_char(start, k);
            proof {
                let rest = s@.skip(start as int);
                assert forall|j: int| 0 <= j < k - start implies rest[j] != sep by {
                    assert(rest[j] == s@[start + j]);
                }
                assert(rest[k - start] == s@[k as int]);
                lemma_first_index_unique(rest, sep, k - start);
                assert(rest.take(k - start) =~= piece@);
                assert(rest.skip(k - start + 1) =~= s@.skip(k + 1));
                assert(slice_texts(out@.push(piece)) =~= slice_texts(out@).push(piece@));
                assert(slice_texts(out@).push(piece@) + split(s@.skip(k + 1), sep)
                    =~= slice_texts(out@) + (seq![piece@] + split(s@.skip(k + 1), sep)));
            }
            out.push(piece);
            start = k + 1;
        }
        k = k + 1;
    }
    let piece = s.substring_char(start, n);
    proof {
        let rest = s@.skip(start as int);
        assert forall|j: int| 0 <= j < rest.len() implies rest[j] != sep by {
            assert(rest[j] == s@[start + j]);
        }
        lemma_first_index_unique(rest, sep, rest.len() as int);
        assert(rest =~= piece@);
        assert(slice_texts(out@.push(piece)) =~= slice_texts(out@) + seq![piece@]);
    }
    out.push(piece);
    out
}

/// Unicode white space.
pub open spec fn is_whitespace(c: char) -> bool {
    ||| '\u{9}' <= c <= '\u{d}'
    ||| c == ' '
    ||| c == '\u{85}'
    ||| c == '\u{a0}'
    ||| c == '\u{1680}'
    ||| '\u{2000}' <= c <= '\u{200a}'
    ||| c == '\u{2028}'
    ||| c == '\u{2029}'
    ||| c == '\u{202f}'
    ||| c == '\u{205f}'
    ||| c == '\u{3000}'
}

/// Whether `c` is Unicode white space.
pub fn whitespace(c: char) -> (r: bool)
    ensures
        r == is_whitespace(c),
{
    ('\u{9}' <= c && c <= '\u{d}') || c == ' ' || c == '\u{85}' || c == '\u{a0}' || c == '\u{1680}'
        || ('\u{2000}' <= c && c <= '\u{200a}') || c == '\u{2028}' || c == '\u{2029}'
        || c == '\u{202f}' || c == '\u{205f}' || c == '\u{3000}'
}

/// The set of white-space characters.
pub open spec fn blank() -> spec_fn(char) -> bool {
    |c: char| is_whitespace(c)
}

/// The set that holds `x` alone.
pub open spec fn only(x: char) -> spec_fn(char) -> bool {
    |c: char| c == x
}

/// `s` without its longest prefix of characters in `p`.
pub open spec fn trim_start_by(s: Seq<char>, p: spec_fn(char) -> bool) -> Seq<char>
    decreases s.len(),
{
    if s.len() > 0 && p(s[0]) {
        trim_start_by(s.skip(1), p)
    } else {
        s
    }
}

/// `s` without its longest suffix of characters in `p`.
pub open spec fn trim_end_by(s: Seq<char>, p: spec_fn(char) -> bool) -> Seq<char>
    decreases s.len(),
{
    if s.len() > 0 && p(s.last()) {
        trim_end_by(s.drop_last(), p)
    } else {
        s
    }
}

/// `s` without white space at either end.
pub open spec fn trim(s: Seq<char>) -> Seq<char> {
    trim_end_by(trim_start_by(s, blank()), blank())
}

proof fn lemma_trim_start(s: Seq<char>, p: spec_fn(char) -> bool, a: int)
    requires
        0 <= a <= s.len(),
        forall|j: int| 0 <= j < a ==> p(s[j]),
        a < s.len() ==> !p(s[a]),
    ensures
        trim_start_by(s, p) == s.skip(a),
    decreases a,
{
    if a == 0 {
        assert(s.skip(0) =~= s);
    } else {
        let t = s.skip(1);
        assert forall|j: int| 0 <= j < a - 1 implies p(t[j]) by {
            assert(t[j] == s[j + 1]);
        }
        lemma_trim_start(t, p, a - 1);
        assert(t.skip(a - 1) =~= s.skip(a));
        assert(p(s[0]));
    }
}

proof fn lemma_trim_end(s: Seq<char>, p: spec_fn(char) -> bool, b: int)
    requires
        0 <= b <= s.len(),
        forall|j: int| b <= j < s.len() ==> p(s[j]),
        b > 0 ==> !p(s[b - 1]),
    ensures
        trim_end_by(s, p) == s.take(b),
    decreases s.len() - b,
{
    if b == s.len() {
        assert(s.take(b) =~= s);
    } else {
        let t = s.drop_last();
        lemma_trim_end(t, p, b);
        assert(t.take(b) =~= s.take(b));
        assert(p(s.last()));
    }
}

/// `s` without white space at either end.
pub fn trimmed<'a>(s: &'a str) -> (r: &'a str)
    ensures
        r@ == trim(s@),
{
    let n: usize = s.unicode_len();
    let mut a: usize = 0;
    let mut b: usize = 0;
    let mut k: usize = 0;
    for x in it: s.chars()
        invariant
            k == it.index(),
            it.seq() == s@,
            n == s@.len(),
            a <= k,
            b <= k,
            b == 0 ==> a == k,
            b > 0 ==> a < b && !is_whitespace(s@[a as int]) && !is_whitespace(s@[b - 1]),
            forall|j: int| 0 <= j < a ==> is_whitespace(s@[j]),
            forall|j: int| b <= j < k ==> is_whitespace(s@[j]),
    {
        if whitespace(x) {
            if b == 0 {
                a = k + 1;
            }
        } else {
            b = k + 1;
        }
        k = k + 1;
    }
    proof {
        lemma_trim_start(s@, blank(), a as int);
        let t = s@.skip(a as int);
        let e: int = if b == 0 { 0 } else { b - a };
        assert forall|j: int| e <= j < t.len() implies is_whitespace(t[j]) by {
            assert(t[j] == s@[a + j]);
        }
        if e > 0 {
            assert(t[e - 1] == s@[b - 1]);
        }
        lemma_trim_end(t, blank(), e);
        assert(t.take(e) =~= s@.subrange(a as int, a + e));
    }
    if b == 0 {
        s.substring_char(a, a)
    } else {
        s.substring_char(a, b)
    }
}

/// `s` without the white space it starts with.
pub fn trimmed_start<'a>(s: &'a str) -> (r: &'a str)
    ensures
        r@ == trim_start_by(s@, blank()),
{
    let n: usize = s.unicode_len();
    let mut k: usize = 0;
    for x in it: s.chars()
        invariant
            k == it.index(),
            it.seq() == s@,
            n == s@.len(),
            forall|j: int| 0 <= j < k ==> is_whitespace(s@[j]),
    {
        if !whitespace(x) {
            proof {
                lemma_trim_start(s@, blank(), k as int);
                assert(s@.skip(k as int) =~= s@.subrange(k as int, n as int));
            }
            return s.substring_char(k, n);
        }
        k = k + 1;
    }
    proof {
        lemma_trim_start(s@, blank(), n as int);
        assert(s@.skip(n as int) =~= s@.subrange(n as int, n as int));
    }
    s.substring_char(n, n)
}

/// `s` without the run of `c` it ends with.
pub fn trim_end_char<'a>(s: &'a str, c: char) -> (r: &'a str)
    ensures
        r@ == trim_end_by(s@, only(c)),
{
    let n: usize = s.unicode_len();
    let mut b: usize = 0;
    let mut k: usize = 0;
    for x in it: s.chars()
        invariant
            k == it.index(),
            it.seq() == s@,
            n == s@.len(),
            b <= k,
            b > 0 ==> s@[b - 1] != c,
            forall|j: int| b <= j < k ==> s@[j] == c,
    {
        if x != c {
            b = k + 1;
        }
        k = k + 1;
    }
    proof {
        lemma_trim_end(s@, only(c), b as int);
        assert(s@.take(b as int) =~= s@.subrange(0, b as int));
    }
    s.substring_char(0, b)
}

/// The position of the first white-space character, or the length of `s`.
pub open spec fn first_blank(s: Seq<char>) -> int
    decreases s.len(),
{
    if s.len() == 0 || is_whitespace(s[0]) {
        0
    } else {
        1 + first_blank(s.skip(1))
    }
}

pub proof fn lemma_first_blank(s: Seq<char>, k: int)
    requires
        0 <= k <= s.len(),
        forall|j: int| 0 <= j < k ==> !is_whitespace(s[j]),
        k < s.len() ==> is_whitespace(s[k]),
    ensures
        first_blank(s) == k,
    decreases k,
{
    if k > 0 {
        let t = s.skip(1);
        assert forall|j: int| 0 <= j < k - 1 implies !is_whitespace(t[j]) by {
            assert(t[j] == s[j + 1]);
        }
        lemma_first_blank(t, k - 1);
    }
}

/// The length of the word that `s` starts with.
fn word_len(s: &str) -> (k: usize)
    ensures
        k == first_blank(s@),
        k <= s@.len(),
{
    let n: usize = s.unicode_len();
    let mut k: usize = 0;
    for x in it: s.chars()
        invariant
            k == it.index(),
            it.seq() == s@,
            n == s@.len(),
            forall|j: int| 0 <= j < k ==> !is_whitespace(s@[j]),
    {
        if whitespace(x) {
            proof {
                lemma_first_blank(s@, k as int);
            }
            return k;
        }
        k = k + 1;
    }
    proof {
        lemma_first_blank(s@, n as int);
    }
    n
}

/// The second of the words that white space separates in `s`.
pub open spec fn second_word(s: Seq<char>) -> Option<Seq<char>> {
    let a = trim_start_by(s, blank());
    let b = trim_start_by(a.skip(first_blank(a)), blank());
    if b.len() == 0 {
        None
    } else {
        Some(b.take(first_blank(b)))
    }
}

/// The second of the words that white space separates in `s`.
pub fn word_two<'a>(s: &'a str) -> (r: Option<&'a str>)
    ensures
        match r {
            Some(w) => second_word(s@) == Some(w@),
            None => second_word(s@) is None,
        },
{
    let a = trimmed_start(s);
    let k: usize = word_len(a);
    let n: usize = a.unicode_len();
    let tail = a.substring_char(k, n);
    assert(tail@ =~= a@.skip(k as int));
    let b = trimmed_start(tail);
    if b.is_empty() {
        return None;
    }
    let m: usize = word_len(b);
    let w = b.substring_char(0, m);
    assert(w@ =~= b@.take(m as int));
    Some(w)
}

/// Whether `s` starts with `p`.
pub open spec fn starts(s: Seq<char>, p: Seq<char>) -> bool {
    p.len() <= s.len() && s.take(p.len() as int) == p
}

/// Whether `s` ends with `p`.
pub open spec fn ends(s: Seq<char>, p: Seq<char>) -> bool {
    p.len() <= s.len() && s.skip(s.len() - p.len()) == p
}

/// Whether `s` starts with `p`.
pub fn starts_with(s: &str, p: &str) -> (r: bool)
    ensures
        r == starts(s@, p@),
{
    let n: usize = s.unicode_len();
    let m: usize = p.unicode_len();
    if m > n {
        return false;
    }
    let head = s.substring_char(0, m);
    assert(head@ =~= s@.take(m as int));
    same_text(head, p)
}

/// Whether `s` ends with `p`.
pub fn ends_with(s: &str, p: &str) -> (r: bool)
    ensures
        r == ends(s@, p@),
{
    let n: usize = s.unicode_len();
    let m: usize = p.unicode_len();
    if m > n {
        return false;
    }
    let tail = s.substring_char(n - m, n);
    assert(tail@ =~= s@.skip(n - m));
    same_text(tail, p)
}

/// What follows the prefix `p` of `s`.
pub fn strip_start<'a>(s: &'a str, p: &str) -> (r: Option<&'a str>)
    ensures
        match r {
            Some(t) => starts(s@, p@) && t@ == s@.skip(p@.len() as int),
            None => !starts(s@, p@),
        },
{
    if !starts_with(s, p) {
        return None;
    }
    let n: usize = s.unicode_len();
    let m: usize = p.unicode_len();
    let t = s.substring_char(m, n);
    assert(t@ =~= s@.skip(m as int));
    Some(t)
}

/// The two parts of `s` around the first `c`.
pub open spec fn split_at_char(s: Seq<char>, c: char) -> Option<(Seq<char>, Seq<char>)> {
    let k = first_index(s, c);
    if k < s.len() {
        Some((s.take(k), s.skip(k + 1)))
    } else {
        None
    }
}

/// The two parts of `s` around the first `c`.
pub fn split_once_char<'a>(s: &'a str, c: char) -> (r: Option<(&'a str, &'a str)>)
    ensures
        match r {
            Some((a, b)) => split_at_char(s@, c) == Some((a@, b@)),
            None => split_at_char(s@, c) is None,
        },
{
    match find_char(s, c) {
        Some(k) => {
            let n: usize = s.unicode_len();
            let a = s.substring_char(0, k);
            let b = s.substring_char(k + 1, n);
            proof {
                assert(a@ =~= s@.take(k as int));
                assert(b@ =~= s@.skip(k + 1));
            }
            Some((a, b))
        },
        None => None,
    }
}

/// Whether two adjacent spaces stand at position `j` of `s`.
pub open spec fn gap_at(s: Seq<char>, j: int) -> bool {
    s[j] == ' ' && s[j + 1] == ' '
}

/// The position of the first pair of adjacent spaces, or a position past the last pair.
pub open spec fn first_gap(s: Seq<char>) -> int
    decreases s.len(),
{
    if s.len() < 2 || gap_at(s, 0) {
        0
    } else {
        1 + first_gap(s.skip(1))
    }
}

/// The two parts of `s` around the first pair of adjacent spaces.
pub open spec fn split_at_gap(s: Seq<char>) -> Option<(Seq<char>, Seq<char>)> {
    let k = first_gap(s);
    if k + 2 <= s.len() {
        Some((s.take(k), s.skip(k + 2)))
    } else {
        None
    }
}

proof fn lemma_first_gap(s: Seq<char>, k: int)
    requires
        0 <= k,
        forall|j: int| 0 <= j < k && j + 1 < s.len() ==> !gap_at(s, j),
        k + 2 <= s.len() ==> gap_at(s, k),
        k + 2 > s.len() ==> k == (if s.len() < 2 { 0 } else { s.len() - 1 }),
    ensures
        first_gap(s) == k,
    decreases k,
{
    if k > 0 {
        let t = s.skip(1);
        assert forall|j: int| 0 <= j < k - 1 && j + 1 < t.len() implies !gap_at(t, j) by {
            assert(!gap_at(s, j + 1));
        }
        lemma_first_gap(t, k - 1);
    }
}

pub proof fn lemma_first_gap_bounds(s: Seq<char>)
    ensures
        0 <= first_gap(s) <= s.len(),
    decreases s.len(),
{
    if !(s.len() < 2 || gap_at(s, 0)) {
        lemma_first_gap_bounds(s.skip(1));
    }
}

/// The two parts of `s` around the first pair of adjacent spaces.
pub fn split_once_gap<'a>(s: &'a str) -> (r: Option<(&'a str, &'a str)>)
    ensures
        match r {
            Some((a, b)) => split_at_gap(s@) == Some((a@, b@)),
            None => split_at_gap(s@) is None,
        },
{
    let n: usize = s.unicode_len();
    let mut k: usize = 0;
    let mut after_space: bool = false;
    for x in it: s.chars()
        invariant
            k == it.index(),
            it.seq() == s@,
            n == s@.len(),
            after_space == (k > 0 && s@[k - 1] == ' '),
            forall|j: int| 0 <= j && j + 1 < k ==> !gap_at(s@, j),
    {
        if x == ' ' && after_space {
            let a = s.substring_char(0, (k - 1) as usize);
            let b = s.substring_char(k + 1, n);
            proof {
                lemma_first_gap(s@, k - 1);
                assert(a@ =~= s@.take(k - 1));
                assert(b@ =~= s@.skip(k + 1));
            }
            return Some((a, b));
        }
        after_space = x == ' ';
        k = k + 1;
    }
    proof {
        lemma_first_gap(s@, if s@.len() < 2 { 0 } else { s@.len() - 1 });
    }
    None
}

/// Whether `p` occurs in `s`.
pub open spec fn occurs(s: Seq<char>, p: Seq<char>) -> bool {
    exists|i: int| 0 <= i <= s.len() - p.len() && #[trigger] s.subrange(i, i + p.len()) == p
}

/// Whether `p` occurs in `s`.
pub fn contains_text(s: &str, p: &str) -> (r: bool)
    ensures
        r == occurs(s@, p@),
{
    let mut hay: Vec<char> = Vec::new();
    let mut needle: Vec<char> = Vec::new();
    for x in it: s.chars()
        invariant
            it.seq() == s@,
            hay@ =~= s@.take(it.index() as int),
    {
        hay.push(x);
    }
    for x in it: p.chars()
        invariant
            it.seq() == p@,
            needle@ =~= p@.take(it.index() as int),
    {
        needle.push(x);
    }
    assert(hay@ =~= s@);
    assert(needle@ =~= p@);
    let n: usize = hay.len();
    let m: usize = needle.len();
    if m > n {
        return false;
    }
    let mut i: usize = 0;
    while i <= n - m
        invariant
            hay@ == s@,
            needle@ == p@,
            n == hay@.len(),
            m == needle@.len(),
            m <= n,
            i <= n - m + 1,
            forall|k: int| 0 <= k < i ==> #[trigger] s@.subrange(k, k + p@.len()) != p@,
        decreases n - m + 1 - i,
    {
        let mut j: usize = 0;
        while j < m && hay[i + j] == needle[j]
            invariant
                hay@ == s@,
                needle@ == p@,
                n == hay@.len(),
                m == needle@.len(),
                m <= n,
                i <= n - m,
                j <= m,
                forall|k: int| 0 <= k < j ==> s@[i + k] == p@[k],
            decreases m - j,
        {
            j = j + 1;
        }
        if j == m {
            assert(s@.subrange(i as int, i + p@.len()) =~= p@);
            return true;
        }
        assert(s@.subrange(i as int, i + p@.len())[j as int] == s@[i + j]);
        if i == n - m {
            return false;
        }
        i = i + 1;
    }
    false
}

} // verus!
