use vstd::prelude::*;
use vstd::string::StringExecFns;
use vstd::utf8::encode_scalar;
use vstd::utf8::encode_utf8;

verus! {

/// Number of bytes that the UTF-8 encoding of `c` occupies.
pub open spec fn char_width(c: char) -> nat {
    if (c as u32) < 0x80 {
        1
    } else if (c as u32) < 0x800 {
        2
    } else if (c as u32) < 0x10000 {
        3
    } else {
        4
    }
}

/// Number of bytes that the UTF-8 encoding of `s` occupies.
pub open spec fn byte_len(s: Seq<char>) -> nat
    decreases s.len(),
{
    if s.len() == 0 {
        0
    } else {
        byte_len(s.drop_last()) + char_width(s.last())
    }
}

/// Byte offset, in the UTF-8 encoding of `s`, of the character with index `i`.
pub open spec fn byte_offset(s: Seq<char>, i: int) -> nat {
    byte_len(s.take(i))
}

/// The offset of the next character is the offset of this one plus its width.
pub proof fn lemma_byte_offset_step(s: Seq<char>, i: int)
    requires
        0 <= i < s.len(),
    ensures
        byte_offset(s, i + 1) == byte_offset(s, i) + char_width(s[i]),
        byte_offset(s, 0) == 0,
{
    assert(s.take(i + 1).drop_last() =~= s.take(i));
    assert(s.take(i + 1).last() == s[i]);
    assert(s.take(0).len() == 0);
}

/// Offsets grow with the index, by at least one byte for each character.
pub proof fn lemma_byte_offset_monotonic(s: Seq<char>, i: int, j: int)
    requires
        0 <= i <= j <= s.len(),
    ensures
        byte_offset(s, i) <= byte_offset(s, j),
        j - i <= byte_offset(s, j) - byte_offset(s, i),
    decreases j - i,
{
    if i < j {
        lemma_byte_offset_monotonic(s, i, j - 1);
        lemma_byte_offset_step(s, j - 1);
    }
}

/// The encoding of a text with one more character is the encoding of the
/// text followed by that of the character.
proof fn lemma_encode_push(s: Seq<char>, c: char)
    ensures
        encode_utf8(s.push(c)) == encode_utf8(s) + encode_scalar(c as u32),
    decreases s.len(),
{
    if s.len() == 0 {
        assert(s.push(c).drop_first() =~= Seq::<char>::empty());
        assert(encode_utf8(s.push(c).drop_first()) =~= Seq::<u8>::empty());
        assert(encode_utf8(s.push(c)) =~= encode_utf8(s) + encode_scalar(c as u32));
    } else {
        lemma_encode_push(s.drop_first(), c);
        assert(s.push(c).drop_first() =~= s.drop_first().push(c));
        assert(encode_utf8(s.push(c)) =~= encode_utf8(s) + encode_scalar(c as u32));
    }
}

/// `byte_len` agrees with the length of the UTF-8 encoding.
pub proof fn lemma_byte_len_is_encoded_len(s: Seq<char>)
    ensures
        byte_len(s) == encode_utf8(s).len(),
    decreases s.len(),
{
    if s.len() > 0 {
        lemma_byte_len_is_encoded_len(s.drop_last());
        lemma_encode_push(s.drop_last(), s.last());
        assert(s.drop_last().push(s.last()) =~= s);
        let c = s.last();
        assert(vstd::utf8::is_scalar(c as u32)) by {
            vstd::utf8::char_is_scalar(c);
        }
        assert(encode_scalar(c as u32).len() == char_width(c));
    }
}

/// The encoding of a concatenation is the concatenation of the encodings.
pub proof fn lemma_encode_concat(a: Seq<char>, b: Seq<char>)
    ensures
        encode_utf8(a + b) == encode_utf8(a) + encode_utf8(b),
    decreases b.len(),
{
    if b.len() == 0 {
        assert(a + b =~= a);
        assert(encode_utf8(a) + encode_utf8(b) =~= encode_utf8(a));
    } else {
        lemma_encode_concat(a, b.drop_last());
        lemma_encode_push(a + b.drop_last(), b.last());
        lemma_encode_push(b.drop_last(), b.last());
        assert((a + b.drop_last()).push(b.last()) =~= a + b);
        assert(b.drop_last().push(b.last()) =~= b);
        assert(encode_utf8(a) + encode_utf8(b.drop_last()) + encode_scalar(b.last() as u32)
            =~= encode_utf8(a) + (encode_utf8(b.drop_last()) + encode_scalar(b.last() as u32)));
    }
}

/// The bytes between the offsets of two characters are the encoding of the
/// characters between them.
pub proof fn lemma_encoded_subrange(s: Seq<char>, start: int, end: int)
    requires
        0 <= start <= end <= s.len(),
    ensures
        byte_offset(s, start) <= byte_offset(s, end) <= byte_len(s),
        encode_utf8(s).subrange(byte_offset(s, start) as int, byte_offset(s, end) as int)
            == encode_utf8(s.subrange(start, end)),
{
    let head = s.take(start);
    let middle = s.subrange(start, end);
    let tail = s.skip(end);
    assert(head + middle =~= s.take(end));
    assert(s.take(end) + tail =~= s);
    lemma_encode_concat(head, middle);
    lemma_encode_concat(s.take(end), tail);
    lemma_byte_len_is_encoded_len(head);
    lemma_byte_len_is_encoded_len(s.take(end));
    lemma_byte_len_is_encoded_len(s);
    assert(encode_utf8(s).subrange(byte_offset(s, start) as int, byte_offset(s, end) as int)
        =~= encode_utf8(middle));
}

/// Number of bytes that `c` occupies in UTF-8.
pub fn width_of(c: char) -> (n: usize)
    ensures
        n == char_width(c),
{
    let code: u32 = c as u32;
    if code < 0x80 {
        1
    } else if code < 0x800 {
        2
    } else if code < 0x10000 {
        3
    } else {
        4
    }
}

/// The characters of `text`, in order.
pub fn chars_of(text: &str) -> (chars: Vec<char>)
    ensures
        chars@ == text@,
{
    broadcast use vstd::string::group_string_axioms;

    let mut chars: Vec<char> = Vec::new();
    for c in it: text.chars()
        invariant
            chars@ == it.history(),
            it.seq() == text@,
    {
        chars.push(c);
    }
    chars
}

/// The string made of the characters `chars`.
pub fn string_of(chars: &[char]) -> (text: String)
    ensures
        text@ == chars@,
{
    let mut text = String::new();
    let mut i: usize = 0;
    while i < chars.len()
        invariant
            i <= chars.len(),
            text@ == chars@.take(i as int),
        decreases chars.len() - i,
    {
        push_char(&mut text, chars[i]);
        i += 1;
        assert(chars@.take(i as int) =~= chars@.take(i - 1).push(chars@[i - 1]));
    }
    assert(chars@.take(chars@.len() as int) =~= chars@);
    text
}

/// `String::push`: appends one character.
#[verifier::external_body]
pub(crate) fn push_char(text: &mut String, c: char)
    ensures
        final(text)@ == old(text)@.push(c),
{
    text.push(c)
}

/// The character of a decimal digit.
pub open spec fn digit_char(d: int) -> char {
    if d == 0 {
        '0'
    } else if d == 1 {
        '1'
    } else if d == 2 {
        '2'
    } else if d == 3 {
        '3'
    } else if d == 4 {
        '4'
    } else if d == 5 {
        '5'
    } else if d == 6 {
        '6'
    } else if d == 7 {
        '7'
    } else if d == 8 {
        '8'
    } else {
        '9'
    }
}

/// The decimal numeral of a natural number, without leading zeros.
pub open spec fn decimal_nat(n: nat) -> Seq<char>
    decreases n,
{
    if n < 10 {
        seq![digit_char(n as int)]
    } else {
        decimal_nat(n / 10).push(digit_char((n % 10) as int))
    }
}

/// The decimal numeral of an integer, with a minus sign if it is negative.
pub open spec fn decimal(i: int) -> Seq<char> {
    if i < 0 {
        seq!['-'] + decimal_nat((-i) as nat)
    } else {
        decimal_nat(i as nat)
    }
}

/// The character of the decimal digit `d`.
pub fn digit_of(d: u64) -> (c: char)
    requires
        d < 10,
    ensures
        c == digit_char(d as int),
{
    if d == 0 {
        '0'
    } else if d == 1 {
        '1'
    } else if d == 2 {
        '2'
    } else if d == 3 {
        '3'
    } else if d == 4 {
        '4'
    } else if d == 5 {
        '5'
    } else if d == 6 {
        '6'
    } else if d == 7 {
        '7'
    } else if d == 8 {
        '8'
    } else {
        '9'
    }
}

/// Appends the decimal numeral of `n` to `text`.
pub fn push_decimal(text: &mut String, n: u64)
    ensures
        final(text)@ == old(text)@ + decimal_nat(n as nat),
    decreases n,
{
    if n >= 10 {
        push_decimal(text, n / 10);
    }
    push_char(text, digit_of(n % 10));
    proof {
        if n >= 10 {
            assert(old(text)@ + decimal_nat((n / 10) as nat).push(digit_char((n % 10) as int))
                =~= (old(text)@ + decimal_nat((n / 10) as nat)).push(digit_char((n % 10) as int)));
        } else {
            assert(old(text)@ + seq![digit_char(n as int)] =~= old(text)@.push(
                digit_char(n as int),
            ));
        }
    }
}

/// Appends the decimal numeral of `i` to `text`.
pub fn push_integer(text: &mut String, i: i64)
    ensures
        final(text)@ == old(text)@ + decimal(i as int),
{
    if i < 0 {
        push_char(text, '-');
        let magnitude: u64 = if i == i64::MIN {
            9223372036854775808u64
        } else {
            (-i) as u64
        };
        push_decimal(text, magnitude);
        assert(old(text)@.push('-') + decimal_nat(magnitude as nat) =~= old(text)@ + (seq!['-']
            + decimal_nat(magnitude as nat)));
    } else {
        push_decimal(text, i as u64);
    }
}

/// The decimal numeral of `i`.
pub fn integer_to_string(i: i64) -> (text: String)
    ensures
        text@ == decimal(i as int),
{
    let mut text = String::new();
    push_integer(&mut text, i);
    assert(Seq::<char>::empty() + decimal(i as int) =~= decimal(i as int));
    text
}

/// Appends `more` to `text`.
pub fn push_str(text: &mut String, more: &str)
    ensures
        final(text)@ == old(text)@ + more@,
{
    text.append(more);
}

/// The string made of the characters `chars[from..to]`.
pub fn substring(chars: &Vec<char>, from: usize, to: usize) -> (text: String)
    requires
        from <= to <= chars.len(),
    ensures
        text@ == chars@.subrange(from as int, to as int),
{
    let ghost whole = chars@;
    let part = vstd::slice::slice_subrange(chars.as_slice(), from, to);
    string_of(part)
}

} // verus!
