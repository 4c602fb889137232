//! Words, fields and numbers in text, with their meaning stated on sequences
//! of characters.
use vstd::prelude::*;
use vstd::std_specs::iter::IteratorSpec;

verus! {

/// The characters with the Unicode property `White_Space`.
pub open spec fn white_space(c: char) -> bool {
    let v = c as int;
    ||| 0x09 <= v <= 0x0d
    ||| v == 0x20
    ||| v == 0x85
    ||| v == 0xa0
    ||| v == 0x1680
    ||| 0x2000 <= v <= 0x200a
    ||| v == 0x2028
    ||| v == 0x2029
    ||| v == 0x202f
    ||| v == 0x205f
    ||| v == 0x3000
}

pub fn is_white(c: char) -> (r: bool)
    ensures
        r == white_space(c),
{
    let v = c as u32;
    (0x09 <= v && v <= 0x0d) || v == 0x20 || v == 0x85 || v == 0xa0 || v == 0x1680 || (0x2000 <= v
        && v <= 0x200a) || v == 0x2028 || v == 0x2029 || v == 0x202f || v == 0x205f || v == 0x3000
}

/// The number of a character.
pub fn code_point(c: char) -> (r: u32)
    ensures
        r == c as int,
{
    c as u32
}

/// How many characters at the front of `s` are not white space.
pub open spec fn word_len(s: Seq<char>) -> nat
    decreases s.len(),
{
    if s.len() == 0 || white_space(s[0]) {
        0
    } else {
        1 + word_len(s.skip(1))
    }
}

/// The maximal runs of characters that are not white space, in order.
pub open spec fn words(s: Seq<char>) -> Seq<Seq<char>>
    decreases s.len(),
    via words_decreases
{
    if s.len() == 0 {
        seq![]
    } else if white_space(s[0]) {
        words(s.skip(1))
    } else {
        seq![s.take(word_len(s) as int)] + words(s.skip(word_len(s) as int))
    }
}

#[via_fn]
proof fn words_decreases(s: Seq<char>) {
    word_len_bound(s);
}

pub proof fn word_len_bound(s: Seq<char>)
    ensures
        word_len(s) <= s.len(),
    decreases s.len(),
{
    if s.len() > 0 && !white_space(s[0]) {
        word_len_bound(s.skip(1));
    }
}

/// The pieces of `s` between occurrences of `sep`: one more than there are
/// separators.
pub open spec fn fields(s: Seq<char>, sep: char) -> Seq<Seq<char>>
    decreases s.len(),
{
    if s.len() == 0 {
        seq![seq![]]
    } else {
        let rest = fields(s.drop_last(), sep);
        if s.last() == sep {
            rest.push(seq![])
        } else {
            rest.drop_last().push(rest.last().push(s.last()))
        }
    }
}

/// The texts that a list of words holds.
pub open spec fn texts(v: Seq<Vec<char>>) -> Seq<Seq<char>> {
    v.map_values(|w: Vec<char>| w@)
}

/// The characters of a string.
pub fn letters(s: &str) -> (r: Vec<char>)
    ensures
        r@ == s@,
{
    let mut out: Vec<char> = Vec::new();
    let mut it = s.chars();
    loop
        invariant
            it.obeys_prophetic_iter_laws(),
            out@ + it.remaining() == s@,
            it.decrease() is Some,
        decreases it.decrease()->0,
    {
        match it.next() {
            Some(c) => {
                out.push(c);
                proof {
                    assert(out@ + it.remaining() =~= s@);
                }
            },
            None => {
                proof {
                    assert(out@ =~= s@);
                }
                return out;
            },
        }
    }
}

/// The words of a text.
pub fn split_words(s: &Vec<char>) -> (r: Vec<Vec<char>>)
    ensures
        texts(r@) == words(s@),
{
    let mut out: Vec<Vec<char>> = Vec::new();
    let mut i: usize = 0;
    proof {
        assert(s@.skip(0) =~= s@);
        assert(texts(out@) + words(s@) =~= words(s@));
    }
    while i < s.len()
        invariant
            i <= s.len(),
            texts(out@) + words(s@.skip(i as int)) == words(s@),
        decreases s.len() - i,
    {
        if is_white(s[i]) {
            proof {
                assert(s@.skip(i as int).skip(1) =~= s@.skip(i + 1));
            }
            i += 1;
        } else {
            let start: usize = i;
            let ghost rest = s@.skip(start as int);
            let mut word: Vec<char> = Vec::new();
            while i < s.len() && !is_white(s[i])
                invariant
                    start <= i <= s.len(),
                    rest == s@.skip(start as int),
                    word@ =~= rest.take(i - start),
                    word_len(rest) == (i - start) + word_len(s@.skip(i as int)),
                decreases s.len() - i,
            {
                proof {
                    assert(s@.skip(i as int).skip(1) =~= s@.skip(i + 1));
                }
                word.push(s[i]);
                i += 1;
            }
            proof {
                assert(word_len(rest) == i - start);
                assert(i > start) by {
                    if i == start {
                        assert(word_len(rest) == 1 + word_len(rest.skip(1)));
                    }
                }
                assert(rest.skip(i - start) =~= s@.skip(i as int));
                assert(texts(out@.push(word)) =~= texts(out@).push(rest.take(i - start)));
                assert(texts(out@).push(rest.take(i - start)) + words(s@.skip(i as int))
                    =~= texts(out@) + (seq![rest.take(i - start)] + words(s@.skip(i as int))));
            }
            out.push(word);
        }
    }
    proof {
        assert(words(s@.skip(i as int)) =~= seq![]);
        assert(texts(out@) =~= words(s@));
    }
    out
}

/// The fields of a text between separators.
pub fn split_fields(s: &Vec<char>, sep: char) -> (r: Vec<Vec<char>>)
    ensures
        texts(r@) == fields(s@, sep),
{
    let mut done: Vec<Vec<char>> = Vec::new();
    let mut open: Vec<char> = Vec::new();
    let mut i: usize = 0;
    proof {
        assert(texts(done@).push(open@) =~= fields(s@.take(0), sep));
    }
    while i < s.len()
        invariant
            i <= s.len(),
            texts(done@).push(open@) == fields(s@.take(i as int), sep),
        decreases s.len() - i,
    {
        let c = s[i];
        let ghost before = fields(s@.take(i as int), sep);
        proof {
            assert(s@.take(i + 1).drop_last() =~= s@.take(i as int));
            assert(s@.take(i + 1).last() == c);
            assert(before.drop_last() =~= texts(done@));
            assert(before.last() == open@);
        }
        if c == sep {
            proof {
                assert(texts(done@.push(open)) =~= texts(done@).push(open@));
            }
            done.push(open);
            open = Vec::new();
            proof {
                assert(texts(done@).push(open@) =~= before.push(seq![]));
            }
        } else {
            open.push(c);
        }
        i += 1;
    }
    proof {
        assert(s@.take(i as int) =~= s@);
        assert(texts(done@.push(open)) =~= texts(done@).push(open@));
    }
    done.push(open);
    done
}

/// Whether a list of characters spells the given string.
pub fn spells(a: &Vec<char>, text: &str) -> (r: bool)
    ensures
        r == (a@ == text@),
{
    let b = letters(text);
    if a.len() != b.len() {
        return false;
    }
    let mut i: usize = 0;
    while i < a.len()
        invariant
            i <= a.len(),
            a.len() == b.len(),
            b@ == text@,
            forall|j: int| 0 <= j < i ==> a@[j] == b@[j],
        decreases a.len() - i,
    {
        if a[i] != b[i] {
            return false;
        }
        i += 1;
    }
    proof {
        assert(a@ =~= b@);
    }
    true
}

pub fn contains_letter(a: &Vec<char>, c: char) -> (r: bool)
    ensures
        r == a@.contains(c),
{
    let mut i: usize = 0;
    while i < a.len()
        invariant
            i <= a.len(),
            forall|j: int| 0 <= j < i ==> a@[j] != c,
        decreases a.len() - i,
    {
        if a[i] == c {
            return true;
        }
        i += 1;
    }
    false
}

pub open spec fn is_digit(c: char) -> bool {
    '0' <= c <= '9'
}

pub open spec fn digit_value(c: char) -> int {
    c as int - '0' as int
}

/// The number that a row of decimal digits spells.
pub open spec fn decimal(s: Seq<char>) -> int
    decreases s.len(),
{
    if s.len() == 0 {
        0
    } else {
        10 * decimal(s.drop_last()) + digit_value(s.last())
    }
}

pub open spec fn all_digits(s: Seq<char>) -> bool {
    s.len() > 0 && forall|i: int| 0 <= i < s.len() ==> is_digit(#[trigger] s[i])
}

/// An unsigned number of 16 bits: an optional plus sign and decimal digits.
pub open spec fn read_u16(s: Seq<char>) -> Option<u16> {
    let body = if s.len() > 0 && s[0] == '+' {
        s.skip(1)
    } else {
        s
    };
    if all_digits(body) && decimal(body) <= 65535 {
        Some(decimal(body) as u16)
    } else {
        None
    }
}

/// A signed number of 32 bits: an optional sign and decimal digits.
pub open spec fn read_i32(s: Seq<char>) -> Option<i32> {
    let signed = s.len() > 0 && (s[0] == '+' || s[0] == '-');
    let body = if signed {
        s.skip(1)
    } else {
        s
    };
    let value = if signed && s[0] == '-' {
        -decimal(body)
    } else {
        decimal(body)
    };
    if all_digits(body) && -0x8000_0000 <= value <= 0x7fff_ffff {
        Some(value as i32)
    } else {
        None
    }
}

/// Larger than any number read here.
pub const DECIMAL_CAP: u64 = 0x1_0000_0000;

/// The number spelt from `start` on, cut off at the cap; nothing if what
/// stands there is not a row of digits.
fn read_decimal(s: &Vec<char>, start: usize) -> (r: Option<u64>)
    requires
        start <= s.len(),
    ensures
        r is Some <==> all_digits(s@.skip(start as int)),
        r matches Some(v) ==> v == if decimal(s@.skip(start as int)) >= DECIMAL_CAP {
            DECIMAL_CAP as int
        } else {
            decimal(s@.skip(start as int))
        },
{
    let ghost body = s@.skip(start as int);
    if start == s.len() {
        return None;
    }
    let mut i: usize = start;
    let mut value: u64 = 0;
    while i < s.len()
        invariant
            start <= i <= s.len(),
            body == s@.skip(start as int),
            value <= DECIMAL_CAP,
            value == if decimal(body.take(i - start)) >= DECIMAL_CAP {
                DECIMAL_CAP as int
            } else {
                decimal(body.take(i - start))
            },
            forall|j: int| 0 <= j < i - start ==> is_digit(#[trigger] body[j]),
        decreases s.len() - i,
    {
        let c = s[i];
        assert(c == body[i - start]);
        if !('0' <= c && c <= '9') {
            return None;
        }
        proof {
            assert(body.take(i - start + 1).drop_last() =~= body.take(i - start));
        }
        let d: u64 = (c as u32 - '0' as u32) as u64;
        value = 10 * value + d;
        if value > DECIMAL_CAP {
            value = DECIMAL_CAP;
        }
        i += 1;
    }
    proof {
        assert(body.take(i - start) =~= body);
    }
    Some(value)
}

pub fn parse_u16(s: &Vec<char>) -> (r: Option<u16>)
    ensures
        r == read_u16(s@),
{
    let start: usize = if s.len() > 0 && s[0] == '+' {
        1
    } else {
        0
    };
    proof {
        assert(s@.skip(0) =~= s@);
    }
    match read_decimal(s, start) {
        Some(v) => if v <= 65535 {
            Some(v as u16)
        } else {
            None
        },
        None => None,
    }
}

pub fn parse_i32(s: &Vec<char>) -> (r: Option<i32>)
    ensures
        r == read_i32(s@),
{
    let negative = s.len() > 0 && s[0] == '-';
    let start: usize = if negative || (s.len() > 0 && s[0] == '+') {
        1
    } else {
        0
    };
    proof {
        assert(s@.skip(0) =~= s@);
    }
    match read_decimal(s, start) {
        Some(v) => if negative && v <= 0x8000_0000 {
            Some((-(v as i64)) as i32)
        } else if !negative && v <= 0x7fff_ffff {
            Some(v as i32)
        } else {
            None
        },
        None => None,
    }
}

/// The decimal digits of a number, without leading zeros.
pub open spec fn digits_of(n: int) -> Seq<char>
    decreases n,
{
    if n < 10 {
        seq![(48 + n) as char]
    } else {
        digits_of(n / 10).push((48 + n % 10) as char)
    }
}

/// A number in decimal, with a minus sign where it is negative.
pub open spec fn number_text(n: int) -> Seq<char> {
    if n < 0 {
        seq!['-'] + digits_of(-n)
    } else {
        digits_of(n)
    }
}

/// Reading the digits of a number gives the number.
pub proof fn digits_round_trip(n: int)
    requires
        0 <= n,
    ensures
        all_digits(digits_of(n)),
        decimal(digits_of(n)) == n,
    decreases n,
{
    if n >= 10 {
        digits_round_trip(n / 10);
        let d = digits_of(n / 10);
        let c = (48 + n % 10) as char;
        assert(d.push(c).drop_last() =~= d);
        assert(is_digit(c) && digit_value(c) == n % 10);
        assert forall|i: int| 0 <= i < d.push(c).len() implies is_digit(#[trigger] d.push(c)[i]) by {
            if i < d.len() {
                assert(is_digit(d[i]));
            }
        }
    } else {
        let c = (48 + n) as char;
        assert(is_digit(c) && digit_value(c) == n);
        let d = seq![c];
        assert(d.drop_last() =~= seq![]);
        assert(decimal(seq![]) == 0);
        assert(d.last() == c);
    }
}

fn digit_char(d: u8) -> (c: char)
    requires
        d < 10,
    ensures
        c == (48 + d) as char,
{
    (48 + d) as char
}

/// Appends a number in decimal.
pub fn push_u64(s: &mut String, n: u64)
    ensures
        final(s)@ == old(s)@ + digits_of(n as int),
    decreases n,
{
    if n >= 10 {
        push_u64(s, n / 10);
    }
    s.push(digit_char((n % 10) as u8));
    proof {
        assert(s@ =~= old(s)@ + digits_of(n as int));
    }
}

/// Appends a number in decimal.
pub fn push_i64(s: &mut String, n: i64)
    ensures
        final(s)@ == old(s)@ + number_text(n as int),
{
    if n < 0 {
        s.push('-');
        let m: u64 = if n == i64::MIN {
            0x8000_0000_0000_0000
        } else {
            (-n) as u64
        };
        push_u64(s, m);
        proof {
            assert(s@ =~= old(s)@ + number_text(n as int));
        }
    } else {
        push_u64(s, n as u64);
    }
}

/// Appends a text.
pub fn push_text(s: &mut String, t: &str)
    ensures
        final(s)@ == old(s)@ + t@,
{
    let cs = letters(t);
    let mut i: usize = 0;
    proof {
        assert(t@.take(0) =~= seq![]);
        assert(s@ =~= old(s)@ + t@.take(0));
    }
    while i < cs.len()
        invariant
            i <= cs@.len(),
            cs@ == t@,
            s@ == old(s)@ + t@.take(i as int),
        decreases cs@.len() - i,
    {
        s.push(cs[i]);
        proof {
            assert(s@ =~= old(s)@ + t@.take(i + 1));
        }
        i += 1;
    }
    proof {
        assert(t@.take(i as int) =~= t@);
    }
}

} // verus!
