//! Texts and numbers: what the functions that all others are built on give of a text.
use vstd::prelude::*;
use vstd::string::*;

use crate::number::{
    digits_value, i64_text, is_digit, is_digits, parse_i32, parse_i64, parse_u32, signed_value,
    u64_text,
};
use crate::text::{
    blank, contains_text, ends_with, find_char, first_blank, first_gap, first_index, is_whitespace,
    lemma_first_index, only, opt_is, same_text, slice_texts, split, split_on, split_once_char,
    split_once_gap, starts_with, strip_start, trim, trim_end_by, trim_end_char, trim_start_by,
    trimmed, trimmed_start, whitespace, word_two,
};

verus! {

/// Two texts are the same exactly if they have the same characters.
pub proof fn texts_are_compared(a: &str, b: &str, r: bool, o: Option<String>, s: bool)
    requires
        call_ensures(same_text, (a, b), r),
        call_ensures(opt_is, (&o, b), s),
    ensures
        r <==> a@ == b@,
        s <==> o is Some && o->0@ == b@,
{
}

/// The white space of Unicode.
pub open spec fn is_blank(c: char) -> bool {
    let n = c as int;
    9 <= n <= 13 || n == 32 || n == 0x85 || n == 0xa0 || n == 0x1680 || 0x2000 <= n <= 0x200a || n
        == 0x2028 || n == 0x2029 || n == 0x202f || n == 0x205f || n == 0x3000
}

/// White space is what Unicode says.
pub proof fn blanks_are_known(c: char, r: bool)
    requires
        call_ensures(whitespace, (c,), r),
    ensures
        r <==> is_blank(c),
{
}

/// Whether `t` is `s` without the white space around it.
pub open spec fn trims_to(s: Seq<char>, t: Seq<char>) -> bool {
    exists|a: int, b: int|
        0 <= a <= b <= s.len() && t == #[trigger] s.subrange(a, b) && (forall|j: int|
            0 <= j < a ==> is_blank(#[trigger] s[j])) && (forall|j: int|
            b <= j < s.len() ==> is_blank(#[trigger] s[j])) && (t.len() > 0 ==> !is_blank(t[0])
            && !is_blank(t.last()))
}

proof fn lemma_start(s: Seq<char>, p: spec_fn(char) -> bool) -> (a: int)
    ensures
        0 <= a <= s.len(),
        trim_start_by(s, p) == s.skip(a),
        forall|j: int| 0 <= j < a ==> p(#[trigger] s[j]),
        a < s.len() ==> !p(s[a]),
    decreases s.len(),
{
    if s.len() > 0 && p(s[0]) {
        let t = s.skip(1);
        let a = lemma_start(t, p);
        assert(t.skip(a) =~= s.skip(a + 1));
        assert forall|j: int| 0 <= j < a + 1 implies p(#[trigger] s[j]) by {
            if j > 0 {
                assert(t[j - 1] == s[j]);
            }
        }
        a + 1
    } else {
        assert(s.skip(0) =~= s);
        0
    }
}

proof fn lemma_end(s: Seq<char>, p: spec_fn(char) -> bool) -> (b: int)
    ensures
        0 <= b <= s.len(),
        trim_end_by(s, p) == s.take(b),
        forall|j: int| b <= j < s.len() ==> p(#[trigger] s[j]),
        b > 0 ==> !p(s[b - 1]),
    decreases s.len(),
{
    if s.len() > 0 && p(s.last()) {
        let t = s.drop_last();
        let b = lemma_end(t, p);
        assert(t.take(b) =~= s.take(b));
        assert forall|j: int| b <= j < s.len() implies p(#[trigger] s[j]) by {
            if j < t.len() {
                assert(t[j] == s[j]);
            }
        }
        b
    } else {
        assert(s.take(s.len() as int) =~= s);
        s.len() as int
    }
}

pub(crate) proof fn lemma_trims(s: Seq<char>)
    ensures
        trims_to(s, trim(s)),
{
    let a = lemma_start(s, blank());
    let m = s.skip(a);
    let n = lemma_end(m, blank());
    let t = trim(s);
    assert(t =~= s.subrange(a, a + n));
    assert forall|j: int| a + n <= j < s.len() implies is_blank(#[trigger] s[j]) by {
        assert(m[j - a] == s[j]);
    }
    if n > 0 {
        assert(t[0] == s[a]);
        assert(t.last() == m[n - 1]);
    }
}

/// What is left of a text without the white space around it is settled.
pub(crate) proof fn lemma_trims_unique(s: Seq<char>, t: Seq<char>, u: Seq<char>)
    requires
        trims_to(s, t),
        trims_to(s, u),
    ensures
        t == u,
{
    let (a, b) = choose|a: int, b: int|
        0 <= a <= b <= s.len() && t == #[trigger] s.subrange(a, b) && (forall|j: int|
            0 <= j < a ==> is_blank(#[trigger] s[j])) && (forall|j: int|
            b <= j < s.len() ==> is_blank(#[trigger] s[j])) && (t.len() > 0 ==> !is_blank(t[0])
            && !is_blank(t.last()));
    let (c, d) = choose|a: int, b: int|
        0 <= a <= b <= s.len() && u == #[trigger] s.subrange(a, b) && (forall|j: int|
            0 <= j < a ==> is_blank(#[trigger] s[j])) && (forall|j: int|
            b <= j < s.len() ==> is_blank(#[trigger] s[j])) && (u.len() > 0 ==> !is_blank(u[0])
            && !is_blank(u.last()));
    if t.len() > 0 {
        assert(t[0] == s[a] && t.last() == s[b - 1]);
        assert(c <= a && d >= b);
    }
    if u.len() > 0 {
        assert(u[0] == s[c] && u.last() == s[d - 1]);
        assert(a <= c && b >= d);
    }
    assert(t =~= u);
}

/// A trimmed text is the text without the white space around it.
pub proof fn texts_are_trimmed(s: &str, r: &str)
    requires
        call_ensures(trimmed, (s,), r),
    ensures
        trims_to(s@, r@),
{
    lemma_trims(s@);
}

/// Only the white space at the start, or only the run of a character at the end, is dropped.
pub proof fn texts_are_trimmed_at_one_end(s: &str, r: &str, c: char, e: &str) -> (at: (int, int))
    requires
        call_ensures(trimmed_start, (s,), r),
        call_ensures(trim_end_char, (s, c), e),
    ensures
        0 <= at.0 <= s@.len() && r@ == s@.skip(at.0),
        forall|j: int| 0 <= j < at.0 ==> is_blank(#[trigger] s@[j]),
        r@.len() > 0 ==> !is_blank(r@[0]),
        0 <= at.1 <= s@.len() && e@ == s@.take(at.1),
        forall|j: int| at.1 <= j < s@.len() ==> #[trigger] s@[j] == c,
        e@.len() > 0 ==> e@.last() != c,
{
    let a = lemma_start(s@, blank());
    let b = lemma_end(s@, only(c));
    if a < s@.len() {
        assert(r@[0] == s@[a]);
    }
    if b > 0 {
        assert(e@.last() == s@[b - 1]);
    }
    (a, b)
}

/// The text that pieces make with a separator between them.
pub open spec fn joined(pieces: Seq<Seq<char>>, sep: char) -> Seq<char>
    decreases pieces.len(),
{
    if pieces.len() == 0 {
        Seq::empty()
    } else if pieces.len() == 1 {
        pieces[0]
    } else {
        pieces[0].push(sep) + joined(pieces.skip(1), sep)
    }
}

/// Whether a text does not hold a character.
pub open spec fn lacks(s: Seq<char>, c: char) -> bool {
    forall|j: int| 0 <= j < s.len() ==> #[trigger] s[j] != c
}

pub(crate) proof fn lemma_split(s: Seq<char>, sep: char)
    ensures
        split(s, sep).len() >= 1,
        joined(split(s, sep), sep) == s,
        forall|i: int| 0 <= i < split(s, sep).len() ==> lacks(#[trigger] split(s, sep)[i], sep),
    decreases s.len(),
{
    lemma_first_index(s, sep);
    let k = first_index(s, sep);
    let all = split(s, sep);
    if k < s.len() {
        let rest = split(s.skip(k + 1), sep);
        lemma_split(s.skip(k + 1), sep);
        assert(all == seq![s.take(k)] + rest);
        assert(all.skip(1) =~= rest);
        assert(all[0] == s.take(k));
        assert(joined(all, sep) == s.take(k).push(sep) + s.skip(k + 1));
        assert(s =~= s.take(k).push(sep) + s.skip(k + 1));
        assert forall|i: int| 0 <= i < all.len() implies lacks(#[trigger] all[i], sep) by {
            if i > 0 {
                assert(all[i] == rest[i - 1]);
            } else {
                assert forall|j: int| 0 <= j < k implies #[trigger] s.take(k)[j] != sep by {
                    assert(s.take(k)[j] == s[j]);
                }
            }
        }
    } else {
        assert(all == seq![s]);
        assert(lacks(s, sep));
    }
}

/// The pieces of a text make it up again with the separator between them, and none of them
/// holds it.
pub proof fn texts_are_split(s: &str, sep: char, r: Vec<&str>)
    requires
        call_ensures(split_on, (s, sep), r),
    ensures
        r@.len() >= 1,
        joined(slice_texts(r@), sep) == s@,
        forall|i: int| 0 <= i < r@.len() ==> lacks((#[trigger] r@[i])@, sep),
{
    lemma_split(s@, sep);
    assert(slice_texts(r@).len() == r@.len());
    assert forall|i: int| 0 <= i < r@.len() implies lacks((#[trigger] r@[i])@, sep) by {
        assert(slice_texts(r@)[i] == r@[i]@);
        assert(lacks(split(s@, sep)[i], sep));
    }
}

/// A character is found where it first stands, and a text is split there.
pub proof fn characters_are_found(s: &str, c: char, k: Option<usize>, r: Option<(&str, &str)>)
    requires
        call_ensures(find_char, (s, c), k),
        call_ensures(split_once_char, (s, c), r),
    ensures
        k is None <==> lacks(s@, c),
        k matches Some(i) ==> i < s@.len() && s@[i as int] == c && lacks(s@.take(i as int), c),
        r is None <==> lacks(s@, c),
        r matches Some((a, b)) ==> s@ == a@.push(c) + b@ && lacks(a@, c),
{
    lemma_first_index(s@, c);
    let i = first_index(s@, c);
    if i < s@.len() {
        assert(s@[i] == c);
        assert forall|j: int| 0 <= j < i implies #[trigger] s@.take(i)[j] != c by {
            assert(s@.take(i)[j] == s@[j]);
        }
        assert(s@ =~= s@.take(i).push(c) + s@.skip(i + 1));
    } else {
        assert(lacks(s@, c));
    }
}

/// Whether two spaces stand next to each other at a place of a text.
pub open spec fn gap(s: Seq<char>, j: int) -> bool {
    0 <= j && j + 1 < s.len() && s[j] == ' ' && s[j + 1] == ' '
}

pub(crate) proof fn lemma_gap(s: Seq<char>)
    ensures
        ({
            let k = first_gap(s);
            &&& 0 <= k <= s.len()
            &&& k + 2 <= s.len() ==> gap(s, k)
            &&& forall|j: int| 0 <= j < k ==> !#[trigger] gap(s, j)
            &&& k + 2 > s.len() ==> forall|j: int| 0 <= j ==> !#[trigger] gap(s, j)
        }),
    decreases s.len(),
{
    if s.len() < 2 {
    } else if crate::text::gap_at(s, 0) {
        assert(gap(s, 0));
    } else {
        let t = s.skip(1);
        lemma_gap(t);
        let k = first_gap(s);
        assert forall|j: int| 0 <= j < k implies !#[trigger] gap(s, j) by {
            if j > 0 {
                assert(!gap(t, j - 1));
            }
        }
        if k + 2 <= s.len() {
            assert(gap(t, k - 1));
        } else {
            assert forall|j: int| 0 <= j implies !#[trigger] gap(s, j) by {
                if j > 0 {
                    assert(!gap(t, j - 1));
                }
            }
        }
    }
}

/// A text is split at its first pair of spaces.
pub proof fn texts_are_split_at_a_gap(s: &str, r: Option<(&str, &str)>)
    requires
        call_ensures(split_once_gap, (s,), r),
    ensures
        r is None <==> forall|j: int| !#[trigger] gap(s@, j),
        r matches Some((a, b)) ==> s@ == a@ + seq![' ', ' '] + b@ && gap(s@, a@.len() as int)
            && forall|j: int| j < a@.len() ==> !#[trigger] gap(s@, j),
{
    lemma_gap(s@);
    let k = first_gap(s@);
    if k + 2 <= s@.len() {
        assert(s@ =~= s@.take(k) + seq![' ', ' '] + s@.skip(k + 2));
        assert(gap(s@, k));
    }
}

/// A text starts or ends with another exactly if it is that with something behind or before
/// it, which is what is left of it.
pub proof fn starts_and_ends_are_known(
    s: &str,
    p: &str,
    a: bool,
    z: bool,
    r: Option<&str>,
    x: Seq<char>,
)
    requires
        call_ensures(starts_with, (s, p), a),
        call_ensures(ends_with, (s, p), z),
        call_ensures(strip_start, (s, p), r),
    ensures
        s@ == p@ + x ==> a,
        s@ == x + p@ ==> z,
        a <==> r is Some,
        a ==> s@ == p@ + r->0@,
        z ==> p@.len() <= s@.len() && s@ == s@.take(s@.len() - p@.len()) + p@,
{
    if s@ == p@ + x {
        assert(s@.take(p@.len() as int) =~= p@);
    }
    if s@ == x + p@ {
        assert(s@.skip(s@.len() - p@.len()) =~= p@);
    }
    if a {
        assert(s@ =~= s@.take(p@.len() as int) + s@.skip(p@.len() as int));
    }
    if z {
        let n = s@.len() - p@.len();
        assert(s@ =~= s@.take(n) + s@.skip(n));
    }
}

/// A text holds another exactly if it is that with something around it.
pub proof fn parts_of_texts_are_found(s: &str, p: &str, r: bool, x: Seq<char>, y: Seq<char>)
    requires
        call_ensures(contains_text, (s, p), r),
    ensures
        s@ == x + p@ + y ==> r,
        r ==> exists|i: int| 0 <= i && i + p@.len() <= s@.len() && #[trigger] s@.subrange(i, i + p@.len())
            == p@,
{
    if s@ == x + p@ + y {
        let n = x.len() as int;
        assert(s@.subrange(n, n + p@.len()) =~= p@);
    }
}

/// Whether `w` is the second word of a text: white space may stand before the first, and must
/// stand between the two and behind the second.
pub open spec fn second(s: Seq<char>, w: Seq<char>) -> bool {
    exists|a: int, b: int, c: int, d: int| #[trigger] words_at(s, w, a, b, c, d)
}

/// Whether the first word of a text stands from `a` to `b`, and the second, `w`, from `c` to
/// `d`.
pub open spec fn words_at(s: Seq<char>, w: Seq<char>, a: int, b: int, c: int, d: int) -> bool {
    &&& 0 <= a < b < c < d <= s.len()
    &&& w == s.subrange(c, d)
    &&& forall|j: int| 0 <= j < a || b <= j < c ==> is_blank(#[trigger] s[j])
    &&& forall|j: int| a <= j < b || c <= j < d ==> !is_blank(#[trigger] s[j])
    &&& d < s.len() ==> is_blank(s[d])
}

proof fn lemma_word(s: Seq<char>)
    ensures
        0 <= first_blank(s) <= s.len(),
        forall|j: int| 0 <= j < first_blank(s) ==> !is_blank(#[trigger] s[j]),
        first_blank(s) < s.len() ==> is_blank(s[first_blank(s)]),
    decreases s.len(),
{
    if s.len() > 0 && !is_whitespace(s[0]) {
        let t = s.skip(1);
        lemma_word(t);
        assert forall|j: int| 0 <= j < first_blank(s) implies !is_blank(#[trigger] s[j]) by {
            if j > 0 {
                assert(t[j - 1] == s[j]);
            }
        }
    }
}

proof fn lemma_blank_run(s: Seq<char>, n: int)
    requires
        0 <= n <= s.len(),
        forall|j: int| 0 <= j < n ==> is_blank(#[trigger] s[j]),
        n < s.len() ==> !is_blank(s[n]),
    ensures
        trim_start_by(s, blank()) == s.skip(n),
{
    let a = lemma_start(s, blank());
    if a < n {
        assert(is_blank(s[a]));
    }
    if n < a {
        assert(is_whitespace(s[n]));
    }
}

/// What is the second word of a text is found.
pub(crate) proof fn lemma_second(s: Seq<char>, w: Seq<char>)
    requires
        second(s, w),
    ensures
        crate::text::second_word(s) == Some(w),
{
    let (a, b, c, d) = choose|a: int, b: int, c: int, d: int| #[trigger] words_at(s, w, a, b, c, d);
    assert(!is_blank(s[a]));
    lemma_blank_run(s, a);
    let x = s.skip(a);
    lemma_word(x);
    let n = first_blank(x);
    if n < b - a {
        assert(x[n] == s[a + n]);
    }
    if n > b - a {
        assert(x[b - a] == s[b]);
    }
    let tail = x.skip(n);
    assert(tail =~= s.skip(b));
    assert forall|j: int| 0 <= j < c - b implies is_blank(#[trigger] tail[j]) by {
        assert(tail[j] == s[b + j]);
    }
    assert(tail[c - b] == s[c]);
    lemma_blank_run(tail, c - b);
    let y = tail.skip(c - b);
    assert(y =~= s.skip(c));
    lemma_word(y);
    let m = first_blank(y);
    if m < d - c {
        assert(y[m] == s[c + m]);
    }
    if m > d - c {
        assert(y[d - c] == s[d]);
    }
    assert(y.take(m) =~= w);
}

/// What is found as the second word of a text is it.
pub(crate) proof fn lemma_found_is_second(s: Seq<char>)
    requires
        crate::text::second_word(s) is Some,
    ensures
        second(s, crate::text::second_word(s)->0),
{
    let w = crate::text::second_word(s)->0;
    let a = lemma_start(s, blank());
    let x = s.skip(a);
    lemma_word(x);
    let n = first_blank(x);
    let tail = x.skip(n);
    let g = lemma_start(tail, blank());
    let y = tail.skip(g);
    lemma_word(y);
    let m = first_blank(y);
    let (b, c, d) = (a + n, a + n + g, a + n + g + m);
    assert(w =~= s.subrange(c, d));
    assert forall|j: int| 0 <= j < a || b <= j < c implies is_blank(#[trigger] s[j]) by {
        if b <= j < c {
            assert(tail[j - b] == s[j]);
        }
    }
    assert forall|j: int| a <= j < b || c <= j < d implies !is_blank(#[trigger] s[j]) by {
        if a <= j < b {
            assert(x[j - a] == s[j]);
        } else {
            assert(y[j - c] == s[j]);
        }
    }
    if d < s.len() {
        assert(y[m] == s[d]);
    }
    assert(y.len() > 0);
    assert(y[0] == s[c]);
    assert(y[0] == tail[g]);
    assert(m > 0);
    if n == 0 {
        assert(tail =~= x);
        if x.len() > 0 {
            assert(x[0] == s[a]);
            assert(x[0] == tail[0]);
        }
    }
    if g == 0 {
        assert(tail[0] == x[n]);
    }
    assert(words_at(s, w, a, b, c, d));
}

/// The second word of a text is what stands between the white space behind the first word and
/// the next.
pub proof fn second_words_are_found(s: &str, r: Option<&str>)
    requires
        call_ensures(word_two, (s,), r),
    ensures
        r matches Some(w) ==> second(s@, w@),
        r is None ==> forall|w: Seq<char>| !second(s@, w),
{
    assert forall|w: Seq<char>| second(s@, w) implies r is Some by {
        lemma_second(s@, w);
    }
    if r is Some {
        lemma_found_is_second(s@);
    }
}

/// A number is read exactly where all that stands behind an optional sign is digits, at least
/// one.
pub open spec fn is_number(s: Seq<char>) -> bool {
    let from: int = if s.len() > 0 && (s[0] == '+' || s[0] == '-') {
        1
    } else {
        0
    };
    from < s.len() && forall|j: int| from <= j < s.len() ==> '0' <= #[trigger] s[j] <= '9'
}

proof fn lemma_number(s: Seq<char>)
    ensures
        signed_value(s) is Some <==> is_number(s),
{
    if s.len() > 0 {
        let t = s.skip(1);
        if is_digits(s) {
            assert(is_digit(s[0]));
            assert forall|j: int| 0 <= j < s.len() implies '0' <= #[trigger] s[j] <= '9' by {
                assert(is_digit(s[j]));
            }
        }
        if is_digits(t) {
            assert forall|j: int| 1 <= j < s.len() implies '0' <= #[trigger] s[j] <= '9' by {
                assert(is_digit(t[j - 1]));
            }
        }
        if is_number(s) {
            if s[0] == '+' || s[0] == '-' {
                assert forall|i: int| 0 <= i < t.len() implies is_digit(#[trigger] t[i]) by {
                    assert(t[i] == s[i + 1]);
                }
            } else {
                assert forall|i: int| 0 <= i < s.len() implies is_digit(#[trigger] s[i]) by {}
            }
        }
    }
}

/// What is read is a number, and what is no number is not read; one that does not fit is not
/// read either.
pub proof fn only_numbers_are_read(s: &str, a: Option<i64>, b: Option<i32>, c: Option<u32>)
    requires
        call_ensures(parse_i64, (s,), a),
        call_ensures(parse_i32, (s,), b),
        call_ensures(parse_u32, (s,), c),
    ensures
        a is Some ==> is_number(s@),
        b is Some ==> a == Some(b->0 as i64),
        c is Some ==> a == Some(c->0 as i64),
        a matches Some(v) && -0x8000_0000 <= v <= 0x7fff_ffff ==> b is Some,
        a matches Some(v) && 0 <= v <= 0xffff_ffff && s@[0] != '-' ==> c is Some,
        a is None ==> b is None && c is None,
        s@.len() > 0 && s@[0] == '-' ==> c is None,
{
    lemma_number(s@);
}

/// A digit reads as its value, and one more digit behind a number makes it ten times as much
/// and adds its own; a number that does not fit is not read, and no longer one either.
pub proof fn digits_are_worth_their_place(s: &str, t: &str, d: char, a: Option<i64>, b: Option<i64>)
    requires
        call_ensures(parse_i64, (s,), a),
        call_ensures(parse_i64, (t,), b),
        '0' <= d <= '9',
        t@ == s@.push(d),
    ensures
        s@.len() == 0 ==> b == Some((d as int - '0' as int) as i64),
        s@ == seq!['-'] ==> b == Some(-(d as int - '0' as int) as i64),
        s@ == seq!['+'] ==> b == Some((d as int - '0' as int) as i64),
        a is Some && s@[0] != '-' && a->0 * 10 + (d as int - '0' as int) <= i64::MAX ==> b == Some(
            (a->0 * 10 + (d as int - '0' as int)) as i64,
        ),
        a is Some && s@[0] == '-' && a->0 * 10 - (d as int - '0' as int) >= i64::MIN ==> b == Some(
            (a->0 * 10 - (d as int - '0' as int)) as i64,
        ),
        a is Some && s@[0] != '-' && a->0 * 10 + (d as int - '0' as int) > i64::MAX ==> b is None,
        a is Some && s@[0] == '-' && a->0 * 10 - (d as int - '0' as int) < i64::MIN ==> b is None,
        is_number(s@) && a is None ==> b is None,
{
    let x = s@;
    let y = t@;
    assert(y.drop_last() =~= x);
    assert(y.last() == d);
    assert(is_digit(d));
    lemma_number(x);
    lemma_number(y);
    if x.len() == 0 {
        assert(y =~= seq![d]);
        assert(is_digits(y));
        assert(digits_value(x) == 0);
    } else {
        let u = x.skip(1);
        let w = y.skip(1);
        assert(y[0] == x[0]);
        assert(w =~= u.push(d));
        assert(w.drop_last() =~= u);
        if is_digits(x) {
            assert(is_digit(x[0]));
            assert forall|i: int| 0 <= i < y.len() implies is_digit(#[trigger] y[i]) by {
                if i < x.len() {
                    assert(y[i] == x[i]);
                }
            }
        }
        if u.len() == 0 || is_digits(u) {
            assert forall|i: int| 0 <= i < w.len() implies is_digit(#[trigger] w[i]) by {
                if i < u.len() {
                    assert(w[i] == u[i]);
                }
            }
            assert(is_digits(w));
        }
        if u.len() == 0 {
            assert(digits_value(u) == 0);
        }
        if x[0] == '-' || x[0] == '+' {
            assert(!is_digit(x[0]));
            assert(!is_digit(y[0]));
        }
        lemma_nonnegative(x);
        lemma_nonnegative(u);
        lemma_nonnegative(y);
        lemma_nonnegative(w);
    }
}

proof fn lemma_nonnegative(s: Seq<char>)
    ensures
        is_digits(s) || s.len() == 0 ==> digits_value(s) >= 0,
    decreases s.len(),
{
    if is_digits(s) {
        let t = s.drop_last();
        assert(is_digit(s[s.len() - 1]));
        if t.len() > 0 {
            assert forall|i: int| 0 <= i < t.len() implies is_digit(#[trigger] t[i]) by {
                assert(is_digit(s[i]));
            }
        }
        lemma_nonnegative(t);
    }
}

/// A number is written with the digit of its units at the end, behind the number of its tens
/// if it has any; a negative one has a sign before it. What is written is read back.
pub proof fn numbers_are_written(
    n: u64,
    tens: String,
    all: String,
    m: i64,
    signed: String,
    text: &str,
    back: Option<i64>,
)
    requires
        call_ensures(u64_text, (n,), all),
        call_ensures(u64_text, ((n / 10) as u64,), tens),
        call_ensures(i64_text, (m,), signed),
        text@ == signed@,
        call_ensures(parse_i64, (text,), back),
    ensures
        n < 10 ==> all@ == seq![('0' as int + n) as char],
        n >= 10 ==> all@ == tens@.push(('0' as int + n % 10) as char),
        m < 0 ==> signed@[0] == '-',
        back == Some(m),
{
    crate::number::decimal_reads_back(m as int);
}

} // verus!
