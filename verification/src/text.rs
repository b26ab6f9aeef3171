//! Byte-level helpers for text: equality and prefix tests whose contracts
//! speak of both the characters and the UTF-8 bytes of a string.

use vstd::prelude::*;
use vstd::string::StringSliceAdditionalSpecFns;
use vstd::utf8::*;

verus! {

/// Two character sequences with the same UTF-8 encoding are equal.
pub proof fn lemma_encoding_injective(a: Seq<char>, b: Seq<char>)
    requires
        encode_utf8(a) == encode_utf8(b),
    ensures
        a == b,
{
    encode_utf8_decode_utf8(a);
    encode_utf8_decode_utf8(b);
}

/// `prefix` is an initial segment of `s`.
pub open spec fn has_prefix(s: Seq<u8>, prefix: Seq<u8>) -> bool {
    prefix.len() <= s.len() && s.subrange(0, prefix.len() as int) == prefix
}

/// Whether `s` begins with the bytes of `prefix`.
pub fn starts_with(s: &[u8], prefix: &[u8]) -> (r: bool)
    ensures
        r == has_prefix(s@, prefix@),
{
    if prefix.len() > s.len() {
        return false;
    }
    let n = prefix.len();
    let mut i: usize = 0;
    while i < n
        invariant
            n == prefix.len(),
            n <= s.len(),
            i <= n,
            forall|j: int| 0 <= j < i ==> s@[j] == prefix@[j],
        decreases n - i,
    {
        if s[i] != prefix[i] {
            assert(s@.subrange(0, n as int)[i as int] != prefix@[i as int]);
            return false;
        }
        i += 1;
    }
    assert(s@.subrange(0, n as int) =~= prefix@);
    true
}

/// Whether two byte strings are equal.
pub fn bytes_eq(a: &[u8], b: &[u8]) -> (r: bool)
    ensures
        r == (a@ == b@),
{
    if a.len() != b.len() {
        return false;
    }
    let r = starts_with(a, b);
    assert(a@.subrange(0, a@.len() as int) =~= a@);
    r
}

/// Whether two strings hold the same characters.
pub fn str_eq(a: &str, b: &str) -> (r: bool)
    ensures
        r == (a@ == b@),
{
    let r = bytes_eq(a.as_bytes(), b.as_bytes());
    proof {
        if r {
            lemma_encoding_injective(a@, b@);
        }
    }
    r
}


/// Whether `b` is ASCII white space.
pub open spec fn is_space(b: u8) -> bool {
    b == 0x20 || (0x09 <= b && b <= 0x0d)
}

/// `s` without the ASCII white space at its two ends.
pub open spec fn trimmed(s: Seq<u8>) -> Seq<u8>
    decreases s.len(),
{
    if s.len() > 0 && is_space(s[0]) {
        trimmed(s.skip(1))
    } else if s.len() > 0 && is_space(s.last()) {
        trimmed(s.drop_last())
    } else {
        s
    }
}

/// The lower-case form of an ASCII letter; any other byte as it is.
pub open spec fn lower(b: u8) -> u8 {
    if 0x41 <= b && b <= 0x5a {
        (b + 0x20) as u8
    } else {
        b
    }
}

/// `s` with its ASCII letters in lower case.
pub open spec fn lowered(s: Seq<u8>) -> Seq<u8> {
    Seq::new(s.len(), |i: int| lower(s[i]))
}

/// The range of `s` that is left when the ASCII white space at its two
/// ends is taken off.
pub fn trim_range(s: &[u8]) -> (r: (usize, usize))
    ensures
        r.0 <= r.1 <= s.len(),
        s@.subrange(r.0 as int, r.1 as int) == trimmed(s@),
{
    let mut start: usize = 0;
    let mut end: usize = s.len();
    assert(s@.subrange(0, s@.len() as int) =~= s@);
    while start < end && is_space_byte(s[start])
        invariant
            start <= end <= s.len(),
            end == s.len(),
            trimmed(s@) == trimmed(s@.subrange(start as int, end as int)),
        decreases end - start,
    {
        assert(s@.subrange(start as int, end as int).skip(1) =~= s@.subrange(
            start + 1,
            end as int,
        ));
        start += 1;
    }
    while start < end && is_space_byte(s[end - 1])
        invariant
            start <= end <= s.len(),
            start < end ==> !is_space(s@[start as int]),
            trimmed(s@) == trimmed(s@.subrange(start as int, end as int)),
        decreases end - start,
    {
        assert(s@.subrange(start as int, end as int).drop_last() =~= s@.subrange(
            start as int,
            end - 1,
        ));
        end -= 1;
    }
    (start, end)
}

/// Whether `b` is ASCII white space.
pub fn is_space_byte(b: u8) -> (r: bool)
    ensures
        r == is_space(b),
{
    b == 0x20 || (0x09 <= b && b <= 0x0d)
}

/// Whether the bytes of `s` from `from` to `to`, with ASCII letters taken
/// in lower case, spell `word`.
pub fn spells(s: &[u8], from: usize, to: usize, word: &[u8]) -> (r: bool)
    requires
        from <= to <= s.len(),
    ensures
        r == (lowered(s@.subrange(from as int, to as int)) == word@),
{
    if to - from != word.len() {
        return false;
    }
    let n = word.len();
    let mut i: usize = 0;
    let ghost part = s@.subrange(from as int, to as int);
    while i < n
        invariant
            n == word.len(),
            from + n == to,
            to <= s.len(),
            part == s@.subrange(from as int, to as int),
            i <= n,
            forall|j: int| 0 <= j < i ==> lowered(part)[j] == word@[j],
        decreases n - i,
    {
        let b = s[from + i];
        let low = if 0x41 <= b && b <= 0x5a {
            b + 0x20
        } else {
            b
        };
        assert(part[i as int] == b);
        if low != word[i] {
            assert(lowered(part)[i as int] != word@[i as int]);
            return false;
        }
        i += 1;
    }
    assert(lowered(part) =~= word@);
    true
}


/// `String::push`: the character is appended.
#[verifier::external_body]
pub(crate) fn push_char(s: &mut String, c: char)
    ensures
        final(s)@ == old(s)@.push(c),
{
    s.push(c)
}

/// The characters of `s`.
pub fn chars_of(s: &str) -> (v: Vec<char>)
    ensures
        v@ == s@,
{
    let mut v: Vec<char> = Vec::new();
    for c in it: s.chars()
        invariant
            v@ == it.seq().take(it.index()),
    {
        v.push(c);
        assert(v@ =~= it.seq().take(it.index() + 1));
    }
    assert(s@.take(s@.len() as int) =~= s@);
    v
}

/// The string of the characters of `v` from `from` to `to`.
pub fn string_of(v: &[char], from: usize, to: usize) -> (s: String)
    requires
        from <= to <= v@.len(),
    ensures
        s@ == v@.subrange(from as int, to as int),
{
    let mut s = String::new();
    let mut i: usize = from;
    while i < to
        invariant
            from <= i <= to <= v@.len(),
            s@ == v@.subrange(from as int, i as int),
        decreases to - i,
    {
        push_char(&mut s, v[i]);
        i += 1;
        assert(s@ =~= v@.subrange(from as int, i as int));
    }
    s
}

/// In valid UTF-8, the place after the character that starts at a
/// character boundary is a character boundary.
pub proof fn lemma_boundary_step(bytes: Seq<u8>, at: int)
    requires
        valid_utf8(bytes),
        is_char_boundary(bytes, at),
        0 <= at < bytes.len(),
    ensures
        valid_first_scalar(bytes.subrange(at, bytes.len() as int)),
        is_char_boundary(
            bytes,
            at + length_of_first_scalar(bytes.subrange(at, bytes.len() as int)),
        ),
    decreases bytes.len(),
{
    let first = length_of_first_scalar(bytes);
    if at == 0 {
        assert(bytes.subrange(0, bytes.len() as int) =~= bytes);
        reveal_with_fuel(is_char_boundary, 2);
        assert(is_char_boundary(pop_first_scalar(bytes), 0));
    } else {
        let rest = pop_first_scalar(bytes);
        assert(is_char_boundary(rest, at - first));
        assert(at - first < rest.len());
        if at - first < 0 {
            reveal_with_fuel(is_char_boundary, 2);
            assert(false);
        }
        lemma_boundary_step(rest, at - first);
        assert(rest.subrange(at - first, rest.len() as int) =~= bytes.subrange(
            at,
            bytes.len() as int,
        ));
    }
}

/// In valid UTF-8, the place after an ASCII byte is a character boundary.
pub proof fn lemma_boundary_after_ascii(bytes: Seq<u8>, at: int)
    requires
        valid_utf8(bytes),
        0 <= at < bytes.len(),
        bytes[at] < 0x80,
    ensures
        is_char_boundary(bytes, at),
        is_char_boundary(bytes, at + 1),
{
    let b = bytes[at];
    assert(!is_continuation_byte(b) && is_leading_byte_width_1(b)) by {
        utf8_byte_ranges_bitwise(b);
    }
    is_char_boundary_iff_not_is_continuation_byte(bytes, at);
    lemma_boundary_step(bytes, at);
    assert(bytes.subrange(at, bytes.len() as int)[0] == b);
}

/// The text of `s` from byte `from` on, which has to be a character
/// boundary.
pub fn str_from(s: &str, from: usize) -> (r: &str)
    requires
        is_char_boundary(s.spec_bytes(), from as int),
    ensures
        r.spec_bytes() == s.spec_bytes().skip(from as int),
{
    let (_, rest) = s.split_at(from);
    rest
}

/// A string is the text that its bytes stand for.
pub proof fn lemma_text_of_bytes(s: &str)
    ensures
        valid_utf8(s.spec_bytes()),
        s@ == decode_utf8(s.spec_bytes()),
{
    encode_utf8_valid_utf8(s@);
    encode_utf8_decode_utf8(s@);
}


/// The text of `s` from byte `from` to byte `to`, which have to be
/// character boundaries.
pub fn substring(s: &str, from: usize, to: usize) -> (r: &str)
    requires
        from <= to <= s.spec_bytes().len(),
        is_char_boundary(s.spec_bytes(), from as int),
        is_char_boundary(s.spec_bytes(), to as int),
    ensures
        r.spec_bytes() == s.spec_bytes().subrange(from as int, to as int),
        r@ == decode_utf8(s.spec_bytes().subrange(from as int, to as int)),
{
    let ghost bytes = s.spec_bytes();
    let (head, _) = s.split_at(to);
    proof {
        lemma_text_of_bytes(s);
        lemma_text_of_bytes(head);
        let part = bytes.subrange(0, to as int);
        assert(head.spec_bytes() == part);
        if from == to {
            is_char_boundary_start_end_of_seq(part);
        } else if from > 0 {
            is_char_boundary_iff_not_is_continuation_byte(bytes, from as int);
            is_char_boundary_iff_not_is_continuation_byte(part, from as int);
        }
    }
    let (_, tail) = head.split_at(from);
    proof {
        assert(tail.spec_bytes() =~= bytes.subrange(from as int, to as int));
        lemma_text_of_bytes(tail);
    }
    tail
}


/// The digits of `n` to the base ten.
pub open spec fn decimal(n: nat) -> Seq<char>
    decreases n,
{
    if n < 10 {
        seq![digit(n)]
    } else {
        decimal(n / 10).push(digit(n % 10))
    }
}

/// The character of a digit.
pub open spec fn digit(d: nat) -> char {
    if d == 0 {
        '0'
    } else if d == 1 {
        '1'
    } else if d == 2 {
        '2'
    } else if d == 3 {
        '3'
    } else if d == 4 {
        '4'
    } else if d == 5 {
        '5'
    } else if d == 6 {
        '6'
    } else if d == 7 {
        '7'
    } else if d == 8 {
        '8'
    } else {
        '9'
    }
}

/// The character of a digit.
pub fn digit_char(d: usize) -> (r: char)
    requires
        d < 10,
    ensures
        r == digit(d as nat),
{
    if d == 0 {
        '0'
    } else if d == 1 {
        '1'
    } else if d == 2 {
        '2'
    } else if d == 3 {
        '3'
    } else if d == 4 {
        '4'
    } else if d == 5 {
        '5'
    } else if d == 6 {
        '6'
    } else if d == 7 {
        '7'
    } else if d == 8 {
        '8'
    } else {
        '9'
    }
}

/// The digits of `n` to the base ten.
pub fn convert_usize(n: usize) -> (r: String)
    ensures
        r@ == decimal(n as nat),
{
    let mut digits: Vec<char> = Vec::new();
    let mut rest = n;
    digits.push(digit_char(rest % 10));
    rest = rest / 10;
    proof {
        assert(digits@.reverse() =~= seq![digit((n % 10) as nat)]);
        if n >= 10 {
            assert(decimal(n as nat) =~= decimal(rest as nat) + digits@.reverse());
        }
    }
    // `digits`, read backwards, are the low digits of `n`; `rest` is what is above them
    while rest > 0
        invariant
            digits@.len() > 0,
            decimal(n as nat) == if rest == 0 {
                digits@.reverse()
            } else {
                decimal(rest as nat) + digits@.reverse()
            },
        decreases rest,
    {
        let ghost before = digits@;
        let ghost above = rest;
        digits.push(digit_char(rest % 10));
        rest = rest / 10;
        proof {
            assert(digits@.reverse() =~= seq![digit((above % 10) as nat)] + before.reverse());
            if above < 10 {
                assert(decimal(above as nat) + before.reverse() =~= digits@.reverse());
            } else {
                assert(decimal(above as nat) + before.reverse() =~= decimal(rest as nat)
                    + digits@.reverse());
            }
        }
    }
    let mut text = String::new();
    let mut i: usize = digits.len();
    while i > 0
        invariant
            i <= digits@.len(),
            text@ == digits@.reverse().take(digits@.len() - i),
        decreases i,
    {
        i -= 1;
        push_char(&mut text, digits[i]);
        assert(text@ =~= digits@.reverse().take(digits@.len() - i));
    }
    assert(digits@.reverse().take(digits@.len() as int) =~= digits@.reverse());
    text
}

/// The character of a digit to the base sixteen, in lower case.
pub open spec fn hex_digit(d: nat) -> char {
    if d < 10 {
        digit(d)
    } else if d == 10 {
        'a'
    } else if d == 11 {
        'b'
    } else if d == 12 {
        'c'
    } else if d == 13 {
        'd'
    } else if d == 14 {
        'e'
    } else {
        'f'
    }
}

/// The digits of a byte to the base sixteen, in lower case, without a
/// zero before a single digit.
pub open spec fn hex_of(b: u8) -> Seq<char> {
    if b < 16 {
        seq![hex_digit(b as nat)]
    } else {
        seq![hex_digit((b / 16) as nat), hex_digit((b % 16) as nat)]
    }
}

/// The digits of each byte of `bytes` to the base sixteen, one after the
/// other.
pub open spec fn hex_text(bytes: Seq<u8>) -> Seq<char>
    decreases bytes.len(),
{
    if bytes.len() == 0 {
        Seq::empty()
    } else {
        hex_text(bytes.drop_last()) + hex_of(bytes.last())
    }
}

/// The character of a digit to the base sixteen, in lower case.
pub fn hex_digit_char(d: u8) -> (r: char)
    requires
        d < 16,
    ensures
        r == hex_digit(d as nat),
{
    if d < 10 {
        digit_char(d as usize)
    } else if d == 10 {
        'a'
    } else if d == 11 {
        'b'
    } else if d == 12 {
        'c'
    } else if d == 13 {
        'd'
    } else if d == 14 {
        'e'
    } else {
        'f'
    }
}

/// Appends the digits of each byte of `bytes` to the base sixteen to
/// `text`.
pub fn push_hex(text: &mut String, bytes: &[u8])
    ensures
        final(text)@ == old(text)@ + hex_text(bytes@),
{
    let mut i: usize = 0;
    assert(text@ =~= old(text)@ + hex_text(bytes@.take(0)));
    while i < bytes.len()
        invariant
            i <= bytes@.len(),
            text@ == old(text)@ + hex_text(bytes@.take(i as int)),
        decreases bytes@.len() - i,
    {
        let b = bytes[i];
        proof {
            assert(bytes@.take(i + 1).drop_last() =~= bytes@.take(i as int));
            assert(bytes@.take(i + 1).last() == b);
        }
        if b >= 16 {
            push_char(text, hex_digit_char(b / 16));
        }
        push_char(text, hex_digit_char(b % 16));
        i += 1;
        assert(text@ =~= old(text)@ + hex_text(bytes@.take(i as int)));
    }
    assert(bytes@.take(bytes@.len() as int) =~= bytes@);
}

} // verus!
