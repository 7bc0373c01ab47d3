//! Characters, whole numbers in decimal text, and trimming.

use vstd::prelude::*;

verus! {

/// The characters `0` to `9`.
pub open spec fn is_digit(c: char) -> bool {
    '0' <= c && c <= '9'
}

/// What a digit character counts for.
pub open spec fn digit_value(c: char) -> int {
    c as int - '0' as int
}

/// The character that writes a number below ten.
pub open spec fn digit_char(d: int) -> char {
    if d == 0 {
        '0'
    } else if d == 1 {
        '1'
    } else if d == 2 {
        '2'
    } else if d == 3 {
        '3'
    } else if d == 4 {
        '4'
    } else if d == 5 {
        '5'
    } else if d == 6 {
        '6'
    } else if d == 7 {
        '7'
    } else if d == 8 {
        '8'
    } else {
        '9'
    }
}

/// Every character is a digit.
pub open spec fn all_digits(s: Seq<char>) -> bool {
    forall|i: int| 0 <= i < s.len() ==> is_digit(#[trigger] s[i])
}

/// The number that a run of digits writes, read in base ten.
pub open spec fn number(s: Seq<char>) -> nat
    decreases s.len(),
{
    if s.len() == 0 {
        0
    } else {
        (number(s.drop_last()) * 10 + digit_value(s.last())) as nat
    }
}

/// A natural number in base ten, without leading zeros.
pub open spec fn digits(n: nat) -> Seq<char>
    decreases n,
{
    if n < 10 {
        seq![digit_char(n as int)]
    } else {
        digits(n / 10).push(digit_char((n % 10) as int))
    }
}

/// An integer in base ten, with a minus sign in front of a negative one.
pub open spec fn integer_text(v: int) -> Seq<char> {
    if v < 0 {
        seq!['-'] + digits((-v) as nat)
    } else {
        digits(v as nat)
    }
}

/// The characters that count as white space: the Unicode property of that
/// name.
pub open spec fn is_whitespace(c: char) -> bool {
    let u = c as int;
    ||| 0x09 <= u <= 0x0D
    ||| u == 0x20
    ||| u == 0x85
    ||| u == 0xA0
    ||| u == 0x1680
    ||| 0x2000 <= u <= 0x200A
    ||| u == 0x2028
    ||| u == 0x2029
    ||| u == 0x202F
    ||| u == 0x205F
    ||| u == 0x3000
}

/// The text without the white space it begins with.
pub open spec fn trim_start(s: Seq<char>) -> Seq<char>
    decreases s.len(),
{
    if s.len() > 0 && is_whitespace(s[0]) {
        trim_start(s.drop_first())
    } else {
        s
    }
}

/// The text without the white space it ends with.
pub open spec fn trim_end(s: Seq<char>) -> Seq<char>
    decreases s.len(),
{
    if s.len() > 0 && is_whitespace(s.last()) {
        trim_end(s.drop_last())
    } else {
        s
    }
}

/// The text without white space at either end.
pub open spec fn trim(s: Seq<char>) -> Seq<char> {
    trim_end(trim_start(s))
}

/// Where `c` first stands in the text; the length of the text where it
/// stands nowhere.
pub open spec fn position(s: Seq<char>, c: char) -> int
    decreases s.len(),
{
    if s.len() == 0 || s[0] == c {
        0
    } else {
        1 + position(s.drop_first(), c)
    }
}

/// The text after an optional sign: after `+`, and after `-` where
/// `signed`.
pub open spec fn unsigned_part(s: Seq<char>, signed: bool) -> Seq<char> {
    if s.len() > 0 && (s[0] == '+' || (signed && s[0] == '-')) {
        s.drop_first()
    } else {
        s
    }
}

/// The integer that a text writes, where it writes one that fits in 32 bits
/// with a sign: an optional `+` or `-`, then digits and nothing else.
pub open spec fn signed_integer(s: Seq<char>) -> Option<i32> {
    let body = unsigned_part(s, true);
    let value = if s.len() > 0 && s[0] == '-' {
        -(number(body) as int)
    } else {
        number(body) as int
    };
    if body.len() > 0 && all_digits(body) && i32::MIN <= value <= i32::MAX {
        Some(value as i32)
    } else {
        None
    }
}

/// The integer that a text writes, where it writes one that fits in 32 bits
/// without a sign: an optional `+`, then digits and nothing else.
pub open spec fn unsigned_integer(s: Seq<char>) -> Option<u32> {
    let body = unsigned_part(s, false);
    if body.len() > 0 && all_digits(body) && number(body) <= u32::MAX {
        Some(number(body) as u32)
    } else {
        None
    }
}

/// One more digit at the end multiplies by ten and adds the digit.
pub proof fn lemma_number_step(s: Seq<char>, lo: int, i: int)
    requires
        0 <= lo <= i < s.len(),
        is_digit(s[i]),
    ensures
        number(s.subrange(lo, i + 1)) == number(s.subrange(lo, i)) * 10 + digit_value(s[i]),
{
    let longer = s.subrange(lo, i + 1);
    assert(longer.drop_last() =~= s.subrange(lo, i));
    assert(longer.last() == s[i]);
}

/// [`position`] is the one place that has `c` and nothing but other
/// characters before it.
pub proof fn lemma_position(s: Seq<char>, c: char, p: int)
    requires
        0 <= p <= s.len(),
        forall|k: int| 0 <= k < p ==> s[k] != c,
        p < s.len() ==> s[p] == c,
    ensures
        position(s, c) == p,
    decreases s.len(),
{
    if s.len() > 0 && s[0] != c {
        let rest = s.drop_first();
        assert forall|k: int| 0 <= k < p - 1 implies rest[k] != c by {
            assert(rest[k] == s[k + 1]);
        }
        lemma_position(rest, c, p - 1);
    }
}

/// A number as written is one digit at least and digits only, and reads
/// back as the number.
pub proof fn lemma_digits(n: nat)
    ensures
        digits(n).len() >= 1,
        all_digits(digits(n)),
        number(digits(n)) == n,
    decreases n,
{
    if n < 10 {
        let s = digits(n);
        assert(s.drop_last() =~= Seq::<char>::empty());
        assert(number(s.drop_last()) == 0);
        assert(number(s) == n);
    } else {
        lemma_digits(n / 10);
        let s = digits(n);
        assert(s.drop_last() =~= digits(n / 10));
        assert(s.last() == digit_char((n % 10) as int));
        assert forall|i: int| 0 <= i < s.len() implies is_digit(#[trigger] s[i]) by {
            if i < s.len() - 1 {
                assert(s[i] == digits(n / 10)[i]);
            }
        }
    }
}

/// Text that neither begins nor ends with white space is left as it is.
pub proof fn lemma_trim_keeps(s: Seq<char>)
    requires
        s.len() > 0,
        !is_whitespace(s[0]),
        !is_whitespace(s.last()),
    ensures
        trim(s) == s,
{
}

/// The characters of a text, one by one.
pub(crate) fn to_chars(s: &str) -> (v: Vec<char>)
    ensures
        v@ == s@,
{
    let mut v: Vec<char> = Vec::new();
    for c in iter: s.chars()
        invariant
            iter.seq() == s@,
            v@ == s@.take(iter.index() as int),
    {
        v.push(c);
        assert(v@ == s@.take(iter.index() + 1));
    }
    assert(s@.take(s@.len() as int) =~= s@);
    v
}

/// Whether the character is one of `0` to `9`.
pub fn digit(c: char) -> (r: bool)
    ensures
        r == is_digit(c),
{
    '0' <= c && c <= '9'
}

/// Whether the character is white space.
pub fn whitespace(c: char) -> (r: bool)
    ensures
        r == is_whitespace(c),
{
    let u: u32 = c as u32;
    (0x09 <= u && u <= 0x0D) || u == 0x20 || u == 0x85 || u == 0xA0 || u == 0x1680 || (0x2000 <= u
        && u <= 0x200A) || u == 0x2028 || u == 0x2029 || u == 0x202F || u == 0x205F || u == 0x3000
}

/// Where the text between `from` and `to` begins and ends once the white
/// space at its two ends is left out.
pub(crate) fn trim_bounds(v: &Vec<char>, from: usize, to: usize) -> (r: (usize, usize))
    requires
        from <= to <= v.len(),
    ensures
        from <= r.0 <= r.1 <= to,
        v@.subrange(r.0 as int, r.1 as int) == trim(v@.subrange(from as int, to as int)),
{
    let mut lo: usize = from;
    while lo < to && whitespace(v[lo])
        invariant
            from <= lo <= to <= v.len(),
            trim_start(v@.subrange(from as int, to as int)) == trim_start(
                v@.subrange(lo as int, to as int),
            ),
        decreases to - lo,
    {
        assert(v@.subrange(lo as int, to as int).drop_first() =~= v@.subrange(
            lo + 1,
            to as int,
        ));
        lo = lo + 1;
    }
    let mut hi: usize = to;
    while hi > lo && whitespace(v[hi - 1])
        invariant
            lo <= hi <= to <= v.len(),
            trim_end(v@.subrange(lo as int, to as int)) == trim_end(
                v@.subrange(lo as int, hi as int),
            ),
        decreases hi - lo,
    {
        assert(v@.subrange(lo as int, hi as int).drop_last() =~= v@.subrange(
            lo as int,
            hi - 1,
        ));
        hi = hi - 1;
    }
    (lo, hi)
}

/// Reads the digits between `from` and `to` as a number. `None` where there
/// is no character, one that is no digit, or the number is above `cap`.
pub(crate) fn parse_digits(v: &Vec<char>, from: usize, to: usize, cap: u64) -> (r: Option<u64>)
    requires
        from <= to <= v.len(),
        cap <= 0x1_0000_0000,
    ensures
        r == {
            let body = v@.subrange(from as int, to as int);
            if body.len() > 0 && all_digits(body) && number(body) <= cap {
                Some(number(body) as u64)
            } else {
                None
            }
        },
{
    let mut acc: u64 = 0;
    let mut i: usize = from;
    while i < to
        invariant
            from <= i <= to <= v.len(),
            cap <= 0x1_0000_0000,
            all_digits(v@.subrange(from as int, i as int)),
            number(v@.subrange(from as int, i as int)) <= cap ==> acc == number(
                v@.subrange(from as int, i as int),
            ),
            number(v@.subrange(from as int, i as int)) > cap ==> acc == cap + 1,
        decreases to - i,
    {
        let c = v[i];
        if !digit(c) {
            assert(v@.subrange(from as int, to as int)[i - from] == c);
            return None;
        }
        let d: u64 = (c as u32 - '0' as u32) as u64;
        proof {
            lemma_number_step(v@, from as int, i as int);
            assert forall|k: int| 0 <= k < i + 1 - from implies is_digit(
                #[trigger] v@.subrange(from as int, i + 1)[k],
            ) by {
                if k < i - from {
                    assert(v@.subrange(from as int, i as int)[k] == v@.subrange(
                        from as int,
                        i + 1,
                    )[k]);
                }
            }
        }
        if acc <= cap {
            acc = acc * 10 + d;
            if acc > cap {
                acc = cap + 1;
            }
        }
        i = i + 1;
    }
    if from == to || acc > cap {
        None
    } else {
        Some(acc)
    }
}

/// Reads the text between `from` and `to` as an integer of 32 bits with a
/// sign, as [`signed_integer`] says.
pub(crate) fn parse_signed(v: &Vec<char>, from: usize, to: usize) -> (r: Option<i32>)
    requires
        from <= to <= v.len(),
    ensures
        r == signed_integer(v@.subrange(from as int, to as int)),
{
    if from == to {
        return None;
    }
    let first = v[from];
    let minus = first == '-';
    let start: usize = if minus || first == '+' {
        from + 1
    } else {
        from
    };
    proof {
        let s = v@.subrange(from as int, to as int);
        assert(s[0] == first);
        assert(s.drop_first() =~= v@.subrange(from + 1, to as int));
        assert(unsigned_part(s, true) == v@.subrange(start as int, to as int));
    }
    match parse_digits(v, start, to, 0x8000_0000) {
        None => None,
        Some(m) => {
            if minus {
                Some((-(m as i64)) as i32)
            } else if m <= 0x7FFF_FFFF {
                Some(m as i32)
            } else {
                None
            }
        },
    }
}

/// Reads the text between `from` and `to` as an integer of 32 bits without
/// a sign, as [`unsigned_integer`] says.
pub(crate) fn parse_unsigned(v: &Vec<char>, from: usize, to: usize) -> (r: Option<u32>)
    requires
        from <= to <= v.len(),
    ensures
        r == unsigned_integer(v@.subrange(from as int, to as int)),
{
    if from == to {
        return None;
    }
    let start: usize = if v[from] == '+' {
        from + 1
    } else {
        from
    };
    proof {
        let s = v@.subrange(from as int, to as int);
        assert(s[0] == v@[from as int]);
        assert(s.drop_first() =~= v@.subrange(from + 1, to as int));
        assert(unsigned_part(s, false) == v@.subrange(start as int, to as int));
    }
    match parse_digits(v, start, to, 0xFFFF_FFFF) {
        None => None,
        Some(m) => Some(m as u32),
    }
}

/// The text of one digit.
pub(crate) fn digit_text(d: u64) -> (s: &'static str)
    requires
        d < 10,
    ensures
        s@ == seq![digit_char(d as int)],
{
    proof {
        reveal_strlit("0");
        reveal_strlit("1");
        reveal_strlit("2");
        reveal_strlit("3");
        reveal_strlit("4");
        reveal_strlit("5");
        reveal_strlit("6");
        reveal_strlit("7");
        reveal_strlit("8");
        reveal_strlit("9");
    }
    let s = if d == 0 {
        "0"
    } else if d == 1 {
        "1"
    } else if d == 2 {
        "2"
    } else if d == 3 {
        "3"
    } else if d == 4 {
        "4"
    } else if d == 5 {
        "5"
    } else if d == 6 {
        "6"
    } else if d == 7 {
        "7"
    } else if d == 8 {
        "8"
    } else {
        "9"
    };
    assert(s@ =~= seq![digit_char(d as int)]);
    s
}

/// Writes a natural number in base ten at the end of `out`.
pub(crate) fn append_number(out: &mut String, n: u64)
    ensures
        final(out)@ == old(out)@ + digits(n as nat),
    decreases n,
{
    if n >= 10 {
        append_number(out, n / 10);
    }
    out.append(digit_text(n % 10));
    assert(out@ =~= old(out)@ + digits(n as nat));
}

/// Writes an integer in base ten at the end of `out`.
pub(crate) fn append_integer(out: &mut String, v: i32)
    ensures
        final(out)@ == old(out)@ + integer_text(v as int),
{
    if v < 0 {
        proof {
            reveal_strlit("-");
        }
        out.append("-");
        append_number(out, (-(v as i64)) as u64);
        assert(out@ =~= old(out)@ + integer_text(v as int));
    } else {
        append_number(out, v as u64);
    }
}

/// Where `c` first stands between `from` and `to`; `to` where it stands
/// nowhere there.
pub(crate) fn find(v: &Vec<char>, from: usize, to: usize, c: char) -> (p: usize)
    requires
        from <= to <= v.len(),
    ensures
        from <= p <= to,
        p - from == position(v@.subrange(from as int, to as int), c),
{
    let mut p: usize = from;
    while p < to && v[p] != c
        invariant
            from <= p <= to <= v.len(),
            forall|k: int| from <= k < p ==> v@[k] != c,
        decreases to - p,
    {
        p = p + 1;
    }
    proof {
        lemma_position(v@.subrange(from as int, to as int), c, p - from);
    }
    p
}

} // verus!
