//! Text as sequences of characters: trimming, searching, and reading decimal numbers.

use vstd::prelude::*;

verus! {

/// `String::push` of std: the character is appended at the end.
pub assume_specification[ String::push ](s: &mut String, c: char)
    ensures
        final(s)@ == old(s)@.push(c),
;

/// Whether `c` is white space: a character with the Unicode property `White_Space`.
pub open spec fn is_space(c: char) -> bool {
    let u = c as u32;
    ||| 0x09 <= u <= 0x0D
    ||| u == 0x20
    ||| u == 0x85
    ||| u == 0xA0
    ||| u == 0x1680
    ||| 0x2000 <= u <= 0x200A
    ||| u == 0x2028
    ||| u == 0x2029
    ||| u == 0x202F
    ||| u == 0x205F
    ||| u == 0x3000
}

/// `s` without the white space it starts with.
pub open spec fn trim_start(s: Seq<char>) -> Seq<char>
    decreases s.len(),
{
    if s.len() > 0 && is_space(s[0]) {
        trim_start(s.skip(1))
    } else {
        s
    }
}

/// `s` without the white space it ends with.
pub open spec fn trim_end(s: Seq<char>) -> Seq<char>
    decreases s.len(),
{
    if s.len() > 0 && is_space(s.last()) {
        trim_end(s.drop_last())
    } else {
        s
    }
}

/// `s` without the white space around it.
pub open spec fn trimmed(s: Seq<char>) -> Seq<char> {
    trim_end(trim_start(s))
}

/// The position of the first `c` in `s`; the length of `s` where there is none.
pub open spec fn position(s: Seq<char>, c: char) -> int
    decreases s.len(),
{
    if s.len() == 0 {
        0
    } else if s[0] == c {
        0
    } else {
        1 + position(s.skip(1), c)
    }
}

/// `position` is in range, passes no `c`, and stands on a `c` unless it is the length.
pub proof fn lemma_position(s: Seq<char>, c: char)
    ensures
        0 <= position(s, c) <= s.len(),
        forall|i: int| 0 <= i < position(s, c) ==> s[i] != c,
        position(s, c) < s.len() ==> s[position(s, c)] == c,
    decreases s.len(),
{
    if s.len() > 0 && s[0] != c {
        let rest = s.skip(1);
        lemma_position(rest, c);
        assert forall|i: int| 0 <= i < position(s, c) implies s[i] != c by {
            if i > 0 {
                assert(s[i] == rest[i - 1]);
            }
        }
        if position(s, c) < s.len() {
            assert(s[position(s, c)] == rest[position(rest, c)]);
        }
    }
}

/// The position that passes no `c` and stands on one, or at the end, is `position`.
pub proof fn lemma_position_is(s: Seq<char>, c: char, k: int)
    requires
        0 <= k <= s.len(),
        forall|i: int| 0 <= i < k ==> s[i] != c,
        k < s.len() ==> s[k] == c,
    ensures
        position(s, c) == k,
{
    lemma_position(s, c);
    let p = position(s, c);
    if p < k {
        assert(s[p] != c);
    }
}

/// Whether `c` is an ASCII digit.
pub open spec fn is_digit(c: char) -> bool {
    0x30 <= c as u32 <= 0x39
}

/// The number that the digits `s` write in base ten.
pub open spec fn digits_value(s: Seq<char>) -> nat
    decreases s.len(),
{
    if s.len() == 0 {
        0
    } else {
        digits_value(s.drop_last()) * 10 + (s.last() as u32 - 0x30) as nat
    }
}

/// Whether `s` is one digit or more, and nothing else.
pub open spec fn all_digits(s: Seq<char>) -> bool {
    s.len() > 0 && forall|i: int| 0 <= i < s.len() ==> is_digit(#[trigger] s[i])
}

/// The integer that `s` writes: an optional sign, then digits and nothing else, for a
/// value that an `i64` can hold. Anything else writes no integer.
pub open spec fn parsed_i64(s: Seq<char>) -> Option<i64> {
    if s.len() == 0 {
        None
    } else {
        let negative = s[0] == '-';
        let digits = if s[0] == '-' || s[0] == '+' {
            s.skip(1)
        } else {
            s
        };
        if !all_digits(digits) {
            None
        } else if negative {
            if digits_value(digits) <= 0x8000_0000_0000_0000 {
                Some((-(digits_value(digits) as int)) as i64)
            } else {
                None
            }
        } else {
            if digits_value(digits) <= 0x7fff_ffff_ffff_ffff {
                Some(digits_value(digits) as i64)
            } else {
                None
            }
        }
    }
}

/// The digits read so far never write more than all of them.
pub proof fn lemma_digits_grow(s: Seq<char>, k: int)
    requires
        0 <= k <= s.len(),
    ensures
        digits_value(s.take(k)) <= digits_value(s),
    decreases s.len() - k,
{
    if k < s.len() {
        lemma_digits_grow(s, k + 1);
        assert(s.take(k + 1).drop_last() =~= s.take(k));
    } else {
        assert(s.take(k) =~= s);
    }
}

/// The digit that writes `d`, a number below ten.
pub open spec fn digit(d: nat) -> char {
    ((0x30 + d) as u8) as char
}

/// The digits that write `n` in base ten, without leading zeros.
pub open spec fn digits_of(n: nat) -> Seq<char>
    decreases n,
{
    if n < 10 {
        seq![digit(n)]
    } else {
        digits_of(n / 10).push(digit(n % 10))
    }
}

/// The text that writes `x` in base ten: a minus sign for a negative number, then its
/// digits.
pub open spec fn decimal(x: int) -> Seq<char> {
    if x < 0 {
        seq!['-'] + digits_of((-x) as nat)
    } else {
        digits_of(x as nat)
    }
}

/// The digits of a number are digits, and write that number.
pub proof fn lemma_digits_of(n: nat)
    ensures
        all_digits(digits_of(n)),
        digits_value(digits_of(n)) == n,
    decreases n,
{
    if n < 10 {
        let s = seq![digit(n)];
        assert(s.drop_last() =~= Seq::<char>::empty());
        assert(digits_value(s.drop_last()) == 0);
        assert(s.last() == digit(n));
    } else {
        lemma_digits_of(n / 10);
        let s = digits_of(n);
        assert(s.drop_last() =~= digits_of(n / 10));
        assert(s.last() == digit(n % 10));
        assert forall|i: int| 0 <= i < s.len() implies is_digit(#[trigger] s[i]) by {
            if i < s.len() - 1 {
                assert(s[i] == digits_of(n / 10)[i]);
            }
        }
    }
}

/// Reading what was written gives the number back: the decimal text of an integer that
/// an `i64` holds writes that integer.
pub proof fn lemma_decimal_round_trip(x: i64)
    ensures
        parsed_i64(decimal(x as int)) == Some(x),
{
    let s = decimal(x as int);
    if x < 0 {
        let n = (-(x as int)) as nat;
        lemma_digits_of(n);
        assert(s.skip(1) =~= digits_of(n));
        assert(s[0] == '-');
    } else {
        let n = x as nat;
        lemma_digits_of(n);
        assert(is_digit(s[0]));
        assert(s[0] != '-' && s[0] != '+');
    }
}

/// Whether `c` is white space.
pub fn is_space_char(c: char) -> (yes: bool)
    ensures
        yes == is_space(c),
{
    let u = c as u32;
    (0x09 <= u && u <= 0x0D) || u == 0x20 || u == 0x85 || u == 0xA0 || u == 0x1680 || (0x2000 <= u
        && u <= 0x200A) || u == 0x2028 || u == 0x2029 || u == 0x202F || u == 0x205F || u == 0x3000
}

/// The characters of `s`.
pub fn chars_of(s: &str) -> (v: Vec<char>)
    ensures
        v@ == s@,
{
    let mut v: Vec<char> = Vec::new();
    for c in it: s.chars()
        invariant
            v@ == s@.take(it.index() as int),
            it.seq() == s@,
    {
        v.push(c);
        assert(s@.take(it.index() + 1) =~= s@.take(it.index() as int).push(c));
    }
    assert(s@.take(s@.len() as int) =~= s@);
    v
}

/// The text made of the characters of `v` from `from` up to `to`.
pub(crate) fn text_of(v: &Vec<char>, from: usize, to: usize) -> (s: String)
    requires
        from <= to <= v.len(),
    ensures
        s@ == v@.subrange(from as int, to as int),
{
    let mut s = String::new();
    let mut i: usize = from;
    while i < to
        invariant
            from <= i <= to <= v.len(),
            s@ == v@.subrange(from as int, i as int),
        decreases to - i,
    {
        s.push(v[i]);
        assert(v@.subrange(from as int, i + 1) =~= v@.subrange(from as int, i as int).push(
            v@[i as int],
        ));
        i = i + 1;
    }
    s
}

/// The position of the first `c` in `v` from `from` up to `to`; `to` where there is none.
pub(crate) fn find(v: &Vec<char>, from: usize, to: usize, c: char) -> (at: usize)
    requires
        from <= to <= v.len(),
    ensures
        from <= at <= to,
        at - from == position(v@.subrange(from as int, to as int), c),
{
    let ghost s = v@.subrange(from as int, to as int);
    let mut i: usize = from;
    while i < to && v[i] != c
        invariant
            from <= i <= to <= v.len(),
            s == v@.subrange(from as int, to as int),
            forall|j: int| 0 <= j < i - from ==> s[j] != c,
        decreases to - i,
    {
        assert(s[i - from] == v@[i as int]);
        i = i + 1;
    }
    proof {
        if i < to {
            assert(s[i - from] == v@[i as int]);
        }
        lemma_position_is(s, c, i - from);
    }
    i
}

/// Where the characters of `v` from `from` up to `to` begin and end once the white space
/// around them is left out.
pub(crate) fn trim_bounds(v: &Vec<char>, from: usize, to: usize) -> (r: (usize, usize))
    requires
        from <= to <= v.len(),
    ensures
        from <= r.0 <= r.1 <= to,
        v@.subrange(r.0 as int, r.1 as int) == trimmed(v@.subrange(from as int, to as int)),
{
    let ghost s = v@.subrange(from as int, to as int);
    let mut a: usize = from;
    assert(v@.subrange(a as int, to as int) =~= s);
    while a < to && is_space_char(v[a])
        invariant
            from <= a <= to <= v.len(),
            trim_start(s) == trim_start(v@.subrange(a as int, to as int)),
        decreases to - a,
    {
        assert(v@.subrange(a as int, to as int).skip(1) =~= v@.subrange(a + 1, to as int));
        a = a + 1;
    }
    let ghost t = v@.subrange(a as int, to as int);
    assert(trim_start(s) == t);
    let mut b: usize = to;
    while b > a && is_space_char(v[b - 1])
        invariant
            a <= b <= to <= v.len(),
            trim_end(t) == trim_end(v@.subrange(a as int, b as int)),
        decreases b - a,
    {
        assert(v@.subrange(a as int, b as int).drop_last() =~= v@.subrange(a as int, b - 1));
        b = b - 1;
    }
    (a, b)
}

/// The integer that the characters of `v` from `from` up to `to` write, if they write one.
#[verifier::loop_isolation(false)]
pub(crate) fn parse_i64(v: &Vec<char>, from: usize, to: usize) -> (r: Option<i64>)
    requires
        from <= to <= v.len(),
    ensures
        r == parsed_i64(v@.subrange(from as int, to as int)),
{
    let ghost s = v@.subrange(from as int, to as int);
    if from == to {
        return None;
    }
    let first = v[from];
    assert(s[0] == first);
    let negative = first == '-';
    let start = if first == '-' || first == '+' {
        from + 1
    } else {
        from
    };
    let ghost digits = v@.subrange(start as int, to as int);
    assert(digits =~= if s[0] == '-' || s[0] == '+' {
        s.skip(1)
    } else {
        s
    });
    if start == to {
        return None;
    }
    let limit: u64 = if negative {
        0x8000_0000_0000_0000
    } else {
        0x7fff_ffff_ffff_ffff
    };
    let mut acc: u64 = 0;
    let mut i: usize = start;
    assert(digits.take(0) =~= Seq::<char>::empty());
    while i < to
        invariant
            start <= i <= to <= v.len(),
            digits == v@.subrange(start as int, to as int),
            forall|j: int| 0 <= j < i - start ==> is_digit(#[trigger] digits[j]),
            acc == digits_value(digits.take(i - start)),
            acc <= limit,
        decreases to - i,
    {
        let u = v[i] as u32;
        assert(digits[i - start] == v@[i as int]);
        if u < 0x30 || u > 0x39 {
            assert(!is_digit(digits[i - start]));
            return None;
        }
        let d = (u - 0x30) as u64;
        proof {
            assert(digits.take(i - start + 1).drop_last() =~= digits.take(i - start));
            assert(digits.take(i - start + 1).last() == v@[i as int]);
            assert(digits_value(digits.take(i - start + 1)) == acc * 10 + d);
        }
        if acc > (limit - d) / 10 {
            proof {
                lemma_digits_grow(digits, i - start + 1);
            }
            return None;
        }
        acc = acc * 10 + d;
        i = i + 1;
    }
    assert(digits.take(i - start) =~= digits);
    assert(all_digits(digits));
    if negative {
        if acc == 0x8000_0000_0000_0000 {
            Some(i64::MIN)
        } else {
            Some(-(acc as i64))
        }
    } else {
        Some(acc as i64)
    }
}

/// Appends the decimal text of `x` to `out`.
pub fn push_decimal(out: &mut String, x: i64)
    ensures
        final(out)@ == old(out)@ + decimal(x as int),
{
    let ghost before = out@;
    let mut n: u64 = if x < 0 {
        out.push('-');
        (-(x as i128)) as u64
    } else {
        x as u64
    };
    let ghost magnitude = n as nat;
    let ghost signed = out@;
    assert(before + decimal(x as int) =~= signed + digits_of(magnitude));
    let mut low: Vec<char> = Vec::new();
    while n >= 10
        invariant
            digits_of(magnitude) == digits_of(n as nat) + low@.reverse(),
        decreases n,
    {
        let d = (n % 10) as u8;
        let c = (0x30 + d) as char;
        proof {
            assert(c == digit((n % 10) as nat));
            let pushed = low@.push(c);
            assert(pushed.reverse() =~= seq![c] + low@.reverse());
            assert(digits_of(n as nat) + low@.reverse() =~= digits_of((n / 10) as nat)
                + pushed.reverse());
        }
        low.push(c);
        n = n / 10;
    }
    let first = (0x30 + n as u8) as char;
    assert(digits_of(n as nat) =~= seq![first]);
    out.push(first);
    let mut i: usize = low.len();
    assert(low@.reverse().take(0) =~= Seq::<char>::empty());
    while i > 0
        invariant
            i <= low.len(),
            out@ == signed + seq![first] + low@.reverse().take(low.len() - i),
        decreases i,
    {
        i = i - 1;
        out.push(low[i]);
        proof {
            let r = low@.reverse();
            assert(r.take(low.len() - i) =~= r.take(low.len() - i - 1).push(low@[i as int]));
        }
    }
    assert(low@.reverse().take(low.len() as int) =~= low@.reverse());
    assert(signed + seq![first] + low@.reverse() =~= signed + (seq![first] + low@.reverse()));
}

/// `s` without the white space around it.
pub fn trim(s: &str) -> (t: String)
    ensures
        t@ == trimmed(s@),
{
    let v = chars_of(s);
    assert(v@.subrange(0, v@.len() as int) =~= v@);
    let (a, b) = trim_bounds(&v, 0, v.len());
    text_of(&v, a, b)
}

} // verus!
