//! Decimal numbers as text.
use vstd::prelude::*;
use vstd::string::*;

verus! {

/// Whether `c` is one of the ten decimal digits.
pub open spec fn is_digit(c: char) -> bool {
    '0' <= c <= '9'
}

/// Whether `s` is a non-empty run of decimal digits.
pub open spec fn is_digits(s: Seq<char>) -> bool {
    s.len() > 0 && forall|i: int| 0 <= i < s.len() ==> is_digit(#[trigger] s[i])
}

/// The number that a run of digits stands for.
pub open spec fn digits_value(s: Seq<char>) -> int
    decreases s.len(),
{
    if s.len() == 0 {
        0
    } else {
        digits_value(s.drop_last()) * 10 + (s.last() as int - '0' as int)
    }
}

/// The number that `s` writes out: a run of digits, after an optional sign.
pub open spec fn signed_value(s: Seq<char>) -> Option<int> {
    if is_digits(s) {
        Some(digits_value(s))
    } else if s.len() > 0 && s[0] == '+' && is_digits(s.skip(1)) {
        Some(digits_value(s.skip(1)))
    } else if s.len() > 0 && s[0] == '-' && is_digits(s.skip(1)) {
        Some(-digits_value(s.skip(1)))
    } else {
        None
    }
}

/// The number that `s` writes out, without a minus sign.
pub open spec fn unsigned_value(s: Seq<char>) -> Option<int> {
    if s.len() > 0 && s[0] == '-' {
        None
    } else {
        signed_value(s)
    }
}

/// `v` where it lies between `lo` and `hi`.
pub open spec fn within(v: Option<int>, lo: int, hi: int) -> Option<int> {
    match v {
        Some(x) => if lo <= x <= hi {
            Some(x)
        } else {
            None
        },
        None => None,
    }
}

/// A bound above every machine number parsed here; larger values are cut to it.
const CUT: u128 = 0x1_0000_0000_0000_0000_0000;

/// `v` cut to the bound.
closed spec fn cut(v: int) -> int {
    if v < CUT {
        v
    } else {
        CUT as int
    }
}

/// The value of the run of digits that starts at `from`, cut to the bound.
fn digits_from(s: &str, from: usize) -> (r: Option<u128>)
    requires
        from <= s@.len(),
    ensures
        match r {
            Some(v) => is_digits(s@.skip(from as int)) && v == cut(
                digits_value(s@.skip(from as int)),
            ),
            None => !is_digits(s@.skip(from as int)),
        },
{
    let n: usize = s.unicode_len();
    let mut k: usize = 0;
    let mut v: u128 = 0;
    let ghost t = s@.skip(from as int);
    assert(t.take(0) =~= Seq::<char>::empty());
    for c in it: s.chars()
        invariant
            k == it.index(),
            it.seq() == s@,
            n == s@.len(),
            from <= n,
            t == s@.skip(from as int),
            k <= from ==> v == 0,
            k >= from ==> v == cut(digits_value(t.take(k - from))),
            k >= from ==> digits_value(t.take(k - from)) >= 0,
            v <= CUT,
            forall|j: int| from <= j < k ==> is_digit(#[trigger] s@[j]),
    {
        if k >= from {
            assert(t[k - from] == s@[k as int]);
            if !('0' <= c && c <= '9') {
                assert(!is_digit(t[k - from]));
                return None;
            }
            let d: u128 = ((c as u32) - ('0' as u32)) as u128;
            let next: u128 = v * 10 + d;
            proof {
                assert(t.take(k - from + 1).drop_last() =~= t.take(k - from));
                assert(t.take(k - from + 1).last() == c);
                assert(digits_value(t.take(k - from + 1)) == digits_value(t.take(k - from)) * 10 + d);
            }
            v = if next < CUT { next } else { CUT };
        } else if k + 1 == from {
            assert(t.take(0) =~= Seq::<char>::empty());
        }
        k = k + 1;
    }
    if n == from {
        return None;
    }
    proof {
        assert(t.take(n - from) =~= t);
        assert forall|i: int| 0 <= i < t.len() implies is_digit(#[trigger] t[i]) by {
            assert(t[i] == s@[from + i]);
        }
    }
    Some(v)
}

/// The number that `s` writes out, where it fits in 64 signed bits.
pub fn parse_i64(s: &str) -> (r: Option<i64>)
    ensures
        match r {
            Some(v) => within(signed_value(s@), i64::MIN as int, i64::MAX as int) == Some(v as int),
            None => within(signed_value(s@), i64::MIN as int, i64::MAX as int) is None,
        },
{
    if s.is_empty() {
        return None;
    }
    let first: char = s.get_char(0);
    assert(s@.skip(0) =~= s@);
    if first == '-' || first == '+' {
        assert(!is_digit(s@[0]));
        match digits_from(s, 1) {
            Some(v) => {
                if first == '-' {
                    if v <= 0x8000_0000_0000_0000 {
                        Some((-(v as i128)) as i64)
                    } else {
                        None
                    }
                } else if v <= 0x7fff_ffff_ffff_ffff {
                    Some(v as i64)
                } else {
                    None
                }
            },
            None => None,
        }
    } else {
        match digits_from(s, 0) {
            Some(v) => if v <= 0x7fff_ffff_ffff_ffff {
                Some(v as i64)
            } else {
                None
            },
            None => None,
        }
    }
}

/// The number that `s` writes out, where it fits in 32 signed bits.
pub fn parse_i32(s: &str) -> (r: Option<i32>)
    ensures
        match r {
            Some(v) => within(signed_value(s@), i32::MIN as int, i32::MAX as int) == Some(v as int),
            None => within(signed_value(s@), i32::MIN as int, i32::MAX as int) is None,
        },
{
    match parse_i64(s) {
        Some(v) => if -0x8000_0000 <= v && v <= 0x7fff_ffff {
            Some(v as i32)
        } else {
            None
        },
        None => None,
    }
}

/// The number that `s` writes out, where it fits in 32 unsigned bits.
pub fn parse_u32(s: &str) -> (r: Option<u32>)
    ensures
        match r {
            Some(v) => within(unsigned_value(s@), 0, u32::MAX as int) == Some(v as int),
            None => within(unsigned_value(s@), 0, u32::MAX as int) is None,
        },
{
    if s.is_empty() {
        return None;
    }
    if s.get_char(0) == '-' {
        return None;
    }
    match parse_i64(s) {
        Some(v) => if 0 <= v && v <= 0xffff_ffff {
            Some(v as u32)
        } else {
            None
        },
        None => None,
    }
}

/// The digit for a number below ten.
pub open spec fn digit(d: int) -> char {
    (('0' as int) + d) as char
}

/// The decimal digits of `n`, without leading zeros.
pub open spec fn digits_of(n: nat) -> Seq<char>
    decreases n,
{
    if n < 10 {
        seq![digit(n as int)]
    } else {
        digits_of(n / 10).push(digit((n % 10) as int))
    }
}

/// The decimal text of `n`.
pub open spec fn decimal(n: int) -> Seq<char> {
    if n < 0 {
        seq!['-'] + digits_of((-n) as nat)
    } else {
        digits_of(n as nat)
    }
}

/// The text of one digit.
fn digit_text(d: u64) -> (r: &'static str)
    requires
        d < 10,
    ensures
        r@ == seq![digit(d as int)],
{
    proof {
        reveal_strlit("0");
        reveal_strlit("1");
        reveal_strlit("2");
        reveal_strlit("3");
        reveal_strlit("4");
        reveal_strlit("5");
        reveal_strlit("6");
        reveal_strlit("7");
        reveal_strlit("8");
        reveal_strlit("9");
    }
    let r: &'static str = if d == 0 {
        "0"
    } else if d == 1 {
        "1"
    } else if d == 2 {
        "2"
    } else if d == 3 {
        "3"
    } else if d == 4 {
        "4"
    } else if d == 5 {
        "5"
    } else if d == 6 {
        "6"
    } else if d == 7 {
        "7"
    } else if d == 8 {
        "8"
    } else {
        "9"
    };
    assert(r@ =~= seq![digit(d as int)]);
    r
}

/// Appends the decimal digits of `n`.
fn push_digits(out: &mut String, n: u64)
    ensures
        final(out)@ == old(out)@ + digits_of(n as nat),
    decreases n,
{
    if n >= 10 {
        push_digits(out, n / 10);
    }
    let ghost before = out@;
    out.append(digit_text(n % 10));
    proof {
        if n >= 10 {
            assert(before + seq![digit((n % 10) as int)] =~= old(out)@ + digits_of(n as nat));
        }
    }
}

/// The decimal text of `n`.
pub fn u64_text(n: u64) -> (r: String)
    ensures
        r@ == decimal(n as int),
{
    let mut out = String::new();
    push_digits(&mut out, n);
    assert(out@ =~= digits_of(n as nat));
    out
}

/// The decimal text of `n`.
pub fn i64_text(n: i64) -> (r: String)
    ensures
        r@ == decimal(n as int),
{
    let mut out = String::new();
    if n < 0 {
        out.append("-");
        let m: u64 = (-(n as i128)) as u64;
        push_digits(&mut out, m);
        proof {
            reveal_strlit("-");
            assert(out@ =~= seq!['-'] + digits_of(m as nat));
        }
    } else {
        push_digits(&mut out, n as u64);
        assert(out@ =~= digits_of(n as nat));
    }
    out
}

proof fn lemma_digits_of(n: nat)
    ensures
        is_digits(digits_of(n)),
        digits_value(digits_of(n)) == n,
    decreases n,
{
    if n < 10 {
        let s = digits_of(n);
        assert(s.drop_last() =~= Seq::<char>::empty());
        assert(digits_value(s.drop_last()) == 0);
        assert(s.last() as int == '0' as int + n);
    } else {
        lemma_digits_of(n / 10);
        let s = digits_of(n);
        let t = digits_of(n / 10);
        assert(s.drop_last() =~= t);
        assert(s.last() as int == '0' as int + n % 10);
        assert forall|i: int| 0 <= i < s.len() implies is_digit(#[trigger] s[i]) by {
            if i < t.len() {
                assert(s[i] == t[i]);
            }
        }
    }
}

/// Reading the decimal text of a number gives the number back.
pub proof fn decimal_reads_back(n: int)
    ensures
        signed_value(decimal(n)) == Some(n),
{
    if n < 0 {
        lemma_digits_of((-n) as nat);
        assert(decimal(n).skip(1) =~= digits_of((-n) as nat));
        assert(!is_digit(decimal(n)[0]));
    } else {
        lemma_digits_of(n as nat);
    }
}

} // verus!
