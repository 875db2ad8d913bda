//! Text as sequences of characters: trimming, splitting, and decimal numbers
//! read and written.

use vstd::prelude::*;
use vstd::string::*;

verus! {

/// Whether a character is white space as Unicode defines it.
pub open spec fn is_whitespace(c: char) -> bool {
    let u = c as u32;
    (0x09 <= u <= 0x0D) || u == 0x20 || u == 0x85 || u == 0xA0 || u == 0x1680 || (0x2000 <= u
        <= 0x200A) || u == 0x2028 || u == 0x2029 || u == 0x202F || u == 0x205F || u == 0x3000
}

/// The text without the white space at its start.
pub open spec fn trim_start(s: Seq<char>) -> Seq<char>
    decreases s.len(),
{
    if s.len() > 0 && is_whitespace(s.first()) {
        trim_start(s.drop_first())
    } else {
        s
    }
}

/// The text without the white space at its end.
pub open spec fn trim_end(s: Seq<char>) -> Seq<char>
    decreases s.len(),
{
    if s.len() > 0 && is_whitespace(s.last()) {
        trim_end(s.drop_last())
    } else {
        s
    }
}

/// The text without the white space at its start and at its end.
pub open spec fn trimmed(s: Seq<char>) -> Seq<char> {
    trim_end(trim_start(s))
}

/// How many characters stand before the first `sep`, or the length of the
/// text where it holds no `sep`.
pub open spec fn first_piece_len(s: Seq<char>, sep: char) -> nat
    decreases s.len(),
{
    if s.len() == 0 || s.first() == sep {
        0
    } else {
        1 + first_piece_len(s.drop_first(), sep)
    }
}

/// The pieces between the occurrences of `sep`: one more piece than there
/// are occurrences, empty pieces included.
pub open spec fn split(s: Seq<char>, sep: char) -> Seq<Seq<char>>
    decreases s.len(),
{
    let k = first_piece_len(s, sep) as int;
    if k >= s.len() {
        seq![s]
    } else {
        seq![s.take(k)] + split(s.skip(k + 1), sep)
    }
}

/// Whether a character is one of the ten decimal digits.
pub open spec fn is_digit(c: char) -> bool {
    0x30 <= (c as u32) <= 0x39
}

/// The value of a decimal digit.
pub open spec fn digit_value(c: char) -> nat {
    ((c as u32) - 0x30) as nat
}

/// Whether the text is made of decimal digits alone. True of the empty text.
pub open spec fn all_digits(s: Seq<char>) -> bool {
    forall|i: int| 0 <= i < s.len() ==> is_digit(#[trigger] s[i])
}

/// The number that a text of decimal digits writes. Zero for the empty text.
pub open spec fn decimal_value(s: Seq<char>) -> nat
    decreases s.len(),
{
    if s.len() == 0 {
        0
    } else {
        decimal_value(s.drop_last()) * 10 + digit_value(s.last())
    }
}

/// The number written by a text that is an optional `+` and then one or more
/// decimal digits; `None` for any other text.
pub open spec fn parse_unsigned(s: Seq<char>) -> Option<nat> {
    let digits = if s.len() > 0 && s.first() == '+' {
        s.drop_first()
    } else {
        s
    };
    if digits.len() > 0 && all_digits(digits) {
        Some(decimal_value(digits))
    } else {
        None
    }
}

/// The number written by a text that is an optional `+` or `-` and then one
/// or more decimal digits; `None` for any other text.
pub open spec fn parse_signed(s: Seq<char>) -> Option<int> {
    if s.len() > 0 && s.first() == '-' {
        if s.len() > 1 && all_digits(s.drop_first()) {
            Some(-(decimal_value(s.drop_first()) as int))
        } else {
            None
        }
    } else {
        match parse_unsigned(s) {
            Some(n) => Some(n as int),
            None => None,
        }
    }
}

/// The 16-bit number that the text writes, where it writes one.
pub open spec fn parse_u16(s: Seq<char>) -> Option<u16> {
    match parse_unsigned(s) {
        Some(n) => if n <= u16::MAX {
            Some(n as u16)
        } else {
            None
        },
        None => None,
    }
}

/// The decimal digit for a value below ten.
pub open spec fn digit_char(d: nat) -> char {
    if d == 0 {
        '0'
    } else if d == 1 {
        '1'
    } else if d == 2 {
        '2'
    } else if d == 3 {
        '3'
    } else if d == 4 {
        '4'
    } else if d == 5 {
        '5'
    } else if d == 6 {
        '6'
    } else if d == 7 {
        '7'
    } else if d == 8 {
        '8'
    } else {
        '9'
    }
}

/// A number in decimal, without leading zeros.
pub open spec fn decimal_text(n: nat) -> Seq<char>
    decreases n,
{
    if n < 10 {
        seq![digit_char(n)]
    } else {
        decimal_text(n / 10).push(digit_char(n % 10))
    }
}

/// `count` spaces.
pub open spec fn spaces(count: nat) -> Seq<char> {
    Seq::new(count, |i: int| ' ')
}

/// The text followed by as many spaces as it takes to reach `width`
/// characters; the text itself where it is that long already.
pub open spec fn pad_right(s: Seq<char>, width: nat) -> Seq<char> {
    if s.len() >= width {
        s
    } else {
        s + spaces((width - s.len()) as nat)
    }
}

/// The views of a vector of texts.
pub open spec fn text_views(pieces: Seq<Vec<char>>) -> Seq<Seq<char>> {
    Seq::new(pieces.len(), |k: int| pieces[k]@)
}

/// Whether a character is white space as Unicode defines it.
pub fn is_space(c: char) -> (b: bool)
    ensures
        b == is_whitespace(c),
{
    let u: u32 = c as u32;
    (0x09 <= u && u <= 0x0D) || u == 0x20 || u == 0x85 || u == 0xA0 || u == 0x1680 || (0x2000 <= u
        && u <= 0x200A) || u == 0x2028 || u == 0x2029 || u == 0x202F || u == 0x205F || u == 0x3000
}

/// The characters of a string.
pub fn chars_of(s: &str) -> (v: Vec<char>)
    ensures
        v@ == s@,
{
    let mut v: Vec<char> = Vec::new();
    for c in it: s.chars()
        invariant
            it.seq() == s@,
            v@ == it.seq().take(it.index() as int),
    {
        v.push(c);
        assert(v@ =~= it.seq().take(it.index() + 1));
    }
    assert(s@.take(s@.len() as int) =~= s@);
    v
}

/// The characters from position `lo` up to, not including, position `hi`.
pub(crate) fn slice_of(v: &Vec<char>, lo: usize, hi: usize) -> (r: Vec<char>)
    requires
        lo <= hi <= v.len(),
    ensures
        r@ == v@.subrange(lo as int, hi as int),
{
    let mut r: Vec<char> = Vec::new();
    let mut i: usize = lo;
    while i < hi
        invariant
            lo <= i <= hi <= v.len(),
            r@ == v@.subrange(lo as int, i as int),
        decreases hi - i,
    {
        r.push(v[i]);
        i = i + 1;
    }
    r
}

/// The text without the white space at its start and at its end.
pub fn trim(v: &Vec<char>) -> (r: Vec<char>)
    ensures
        r@ == trimmed(v@),
{
    let n = v.len();
    let mut lo: usize = 0;
    assert(v@.skip(0) =~= v@);
    while lo < n && is_space(v[lo])
        invariant
            n == v.len(),
            lo <= n,
            trim_start(v@) == trim_start(v@.skip(lo as int)),
        decreases n - lo,
    {
        assert(v@.skip(lo as int).drop_first() =~= v@.skip(lo + 1));
        lo = lo + 1;
    }
    assert(trim_start(v@) == v@.skip(lo as int));
    let mut hi: usize = n;
    assert(v@.skip(lo as int) =~= v@.subrange(lo as int, n as int));
    while hi > lo && is_space(v[hi - 1])
        invariant
            n == v.len(),
            lo <= hi <= n,
            trimmed(v@) == trim_end(v@.subrange(lo as int, hi as int)),
        decreases hi - lo,
    {
        assert(v@.subrange(lo as int, hi as int).drop_last() =~= v@.subrange(
            lo as int,
            hi - 1,
        ));
        hi = hi - 1;
    }
    slice_of(v, lo, hi)
}

/// The pieces between the occurrences of `sep`.
pub fn split_on(v: &Vec<char>, sep: char) -> (pieces: Vec<Vec<char>>)
    ensures
        text_views(pieces@) == split(v@, sep),
{
    let n = v.len();
    let mut pieces: Vec<Vec<char>> = Vec::new();
    let mut pos: usize = 0;
    assert(v@.skip(0) =~= v@);
    assert(text_views(pieces@) + split(v@, sep) =~= split(v@, sep));
    loop
        invariant_except_break
            n == v.len(),
            pos <= n,
            text_views(pieces@) + split(v@.skip(pos as int), sep) == split(v@, sep),
        ensures
            text_views(pieces@) == split(v@, sep),
        decreases n - pos,
    {
        let ghost rest = v@.skip(pos as int);
        let mut end: usize = pos;
        while end < n && v[end] != sep
            invariant
                n == v.len(),
                pos <= end <= n,
                rest == v@.skip(pos as int),
                first_piece_len(rest, sep) == (end - pos) + first_piece_len(
                    v@.skip(end as int),
                    sep,
                ),
            decreases n - end,
        {
            assert(v@.skip(end as int).drop_first() =~= v@.skip(end + 1));
            end = end + 1;
        }
        let piece = slice_of(v, pos, end);
        let ghost before = text_views(pieces@);
        proof {
            assert(first_piece_len(rest, sep) == end - pos);
            assert(piece@ =~= rest.take(end - pos));
            assert(text_views(pieces@.push(piece)) =~= before + seq![piece@]);
        }
        pieces.push(piece);
        if end == n {
            proof {
                assert(piece@ =~= rest);
                assert(split(rest, sep) == seq![rest]);
            }
            break ;
        }
        proof {
            assert(rest.skip(end - pos + 1) =~= v@.skip(end + 1));
            assert(before + seq![piece@] + split(v@.skip(end + 1), sep) =~= before + split(
                rest,
                sep,
            ));
        }
        pos = end + 1;
    }
    pieces
}

/// A number written with more digits is no smaller: the value of a text of
/// digits is at least the value of each of its prefixes.
pub proof fn lemma_decimal_value_grows(s: Seq<char>, k: int)
    requires
        0 <= k <= s.len(),
    ensures
        decimal_value(s.take(k)) <= decimal_value(s),
    decreases s.len() - k,
{
    if k == s.len() {
        assert(s.take(k) =~= s);
    } else {
        lemma_decimal_value_grows(s, k + 1);
        assert(s.take(k + 1).drop_last() =~= s.take(k));
    }
}

/// Reads the decimal digits from position `start` to the end of the text as
/// one number. `None` where there is no digit, where another character
/// stands among them, or where the number is above `limit`.
pub(crate) fn read_digits(v: &Vec<char>, start: usize, limit: u64) -> (r: Option<u64>)
    requires
        start <= v.len(),
        limit <= 0xFFFF_FFFF,
    ensures
        r == (if v@.skip(start as int).len() > 0 && all_digits(v@.skip(start as int))
            && decimal_value(v@.skip(start as int)) <= limit {
            Some(decimal_value(v@.skip(start as int)) as u64)
        } else {
            None
        }),
{
    let n = v.len();
    let ghost digits = v@.skip(start as int);
    if start == n {
        return None;
    }
    let mut acc: u64 = 0;
    let mut i: usize = start;
    while i < n
        invariant
            n == v.len(),
            start <= i <= n,
            limit <= 0xFFFF_FFFF,
            digits == v@.skip(start as int),
            all_digits(digits.take(i - start)),
            acc == decimal_value(digits.take(i - start)),
            acc <= limit,
        decreases n - i,
    {
        let c = v[i];
        let u: u32 = c as u32;
        if u < 0x30 || u > 0x39 {
            assert(!is_digit(digits[i - start]));
            return None;
        }
        proof {
            let next = digits.take(i - start + 1);
            assert(next.drop_last() =~= digits.take(i - start));
            assert(next.last() == c);
            assert forall|j: int| 0 <= j < next.len() implies is_digit(#[trigger] next[j]) by {
                if j < i - start {
                    assert(digits.take(i - start)[j] == next[j]);
                }
            }
        }
        acc = acc * 10 + (u - 0x30) as u64;
        if acc > limit {
            proof {
                if all_digits(digits) {
                    lemma_decimal_value_grows(digits, i - start + 1);
                }
            }
            return None;
        }
        i = i + 1;
    }
    assert(digits.take(n - start) =~= digits);
    Some(acc)
}

/// Reads a text as a 16-bit number: an optional `+`, then decimal digits.
pub fn read_u16(v: &Vec<char>) -> (r: Option<u16>)
    ensures
        r == parse_u16(v@),
{
    let start: usize = if v.len() > 0 && v[0] == '+' {
        1
    } else {
        0
    };
    assert(v@.skip(0) =~= v@);
    assert(v@.skip(1) =~= v@.drop_first());
    match read_digits(v, start, 0xFFFF) {
        Some(n) => Some(n as u16),
        None => None,
    }
}

/// The 32-bit number that the text writes, where it writes one.
pub open spec fn parse_u32(s: Seq<char>) -> Option<u32> {
    match parse_unsigned(s) {
        Some(n) => if n <= u32::MAX {
            Some(n as u32)
        } else {
            None
        },
        None => None,
    }
}

/// Reads a text as a 32-bit number: an optional `+`, then decimal digits.
pub fn read_u32(v: &Vec<char>) -> (r: Option<u32>)
    ensures
        r == parse_u32(v@),
{
    let start: usize = if v.len() > 0 && v[0] == '+' {
        1
    } else {
        0
    };
    assert(v@.skip(0) =~= v@);
    assert(v@.skip(1) =~= v@.drop_first());
    match read_digits(v, start, 0xFFFF_FFFF) {
        Some(n) => Some(n as u32),
        None => None,
    }
}

/// The 32-bit signed number that the text writes, where it writes one.
pub open spec fn parse_i32(s: Seq<char>) -> Option<i32> {
    match parse_signed(s) {
        Some(n) => if i32::MIN <= n <= i32::MAX {
            Some(n as i32)
        } else {
            None
        },
        None => None,
    }
}

/// Reads a text as a 32-bit signed number: an optional `+` or `-`, then
/// decimal digits.
pub fn read_i32(v: &Vec<char>) -> (r: Option<i32>)
    ensures
        r == parse_i32(v@),
{
    assert(v@.skip(0) =~= v@);
    assert(v@.skip(1) =~= v@.drop_first());
    if v.len() > 0 && v[0] == '-' {
        match read_digits(v, 1, 0x8000_0000) {
            Some(n) => Some((0 - (n as i64)) as i32),
            None => None,
        }
    } else {
        let start: usize = if v.len() > 0 && v[0] == '+' {
            1
        } else {
            0
        };
        match read_digits(v, start, 0x7FFF_FFFF) {
            Some(n) => Some(n as i32),
            None => None,
        }
    }
}

/// The text of one decimal digit.
pub(crate) fn digit_str(d: u32) -> (r: &'static str)
    requires
        d < 10,
    ensures
        r@ == seq![digit_char(d as nat)],
{
    proof {
        reveal_strlit("0");
        reveal_strlit("1");
        reveal_strlit("2");
        reveal_strlit("3");
        reveal_strlit("4");
        reveal_strlit("5");
        reveal_strlit("6");
        reveal_strlit("7");
        reveal_strlit("8");
        reveal_strlit("9");
    }
    let r = if d == 0 {
        "0"
    } else if d == 1 {
        "1"
    } else if d == 2 {
        "2"
    } else if d == 3 {
        "3"
    } else if d == 4 {
        "4"
    } else if d == 5 {
        "5"
    } else if d == 6 {
        "6"
    } else if d == 7 {
        "7"
    } else if d == 8 {
        "8"
    } else {
        "9"
    };
    assert(r@ =~= seq![digit_char(d as nat)]);
    r
}

/// Writes a number in decimal at the end of `out`.
pub fn push_decimal(out: &mut String, n: u32)
    ensures
        final(out)@ == old(out)@ + decimal_text(n as nat),
    decreases n,
{
    if n >= 10 {
        push_decimal(out, n / 10);
    }
    out.append(digit_str(n % 10));
    assert(final(out)@ =~= old(out)@ + decimal_text(n as nat));
}

/// Writes `count` spaces at the end of `out`.
pub fn push_spaces(out: &mut String, count: usize)
    ensures
        final(out)@ == old(out)@ + spaces(count as nat),
{
    let mut i: usize = 0;
    assert(out@ =~= old(out)@ + spaces(0));
    while i < count
        invariant
            i <= count,
            out@ == old(out)@ + spaces(i as nat),
        decreases count - i,
    {
        proof {
            reveal_strlit(" ");
        }
        out.append(" ");
        i = i + 1;
        assert(out@ =~= old(out)@ + spaces(i as nat));
    }
}

/// What is written for a number: decimal digits alone, at least one, no
/// zero in front unless the number is zero, and as many as the size of the
/// number asks for. Read as a number, they give the number back.
pub proof fn lemma_decimal_text(n: nat)
    ensures
        decimal_text(n).len() >= 1,
        all_digits(decimal_text(n)),
        decimal_value(decimal_text(n)) == n,
        n >= 1 ==> decimal_text(n).first() != '0',
        n < 10 ==> decimal_text(n).len() == 1,
        n < 100 ==> decimal_text(n).len() <= 2,
        n < 1000 ==> decimal_text(n).len() <= 3,
        parse_unsigned(decimal_text(n)) == Some(n),
    decreases n,
{
    let s = decimal_text(n);
    if n < 10 {
        assert(s.drop_last() =~= Seq::<char>::empty());
        assert(is_digit(s[0]) && digit_value(s[0]) == n);
        assert(decimal_value(s) == decimal_value(s.drop_last()) * 10 + digit_value(s.last()));
    } else {
        let t = decimal_text(n / 10);
        let c = digit_char(n % 10);
        lemma_decimal_text(n / 10);
        assert(s == t.push(c));
        assert(s.drop_last() =~= t);
        assert(is_digit(c) && digit_value(c) == n % 10);
        assert(s.first() == t.first());
        assert forall|i: int| 0 <= i < s.len() implies is_digit(#[trigger] s[i]) by {
            if i < t.len() {
                assert(s[i] == t[i]);
            }
        }
    }
    assert(is_digit(s.first()));
    assert(s.first() != '+');
}

/// What is written for a 16-bit number reads back as that number.
pub proof fn lemma_u16_round_trip(n: u16)
    ensures
        parse_u16(decimal_text(n as nat)) == Some(n),
{
    lemma_decimal_text(n as nat);
}

} // verus!
