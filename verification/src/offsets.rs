//! Where the characters of a text stand among its bytes, so that a range of
//! characters can be cut out of a string slice in one step.

use vstd::prelude::*;
use vstd::std_specs::iter::IteratorSpec;
use vstd::string::StringSliceAdditionalSpecFns;
use vstd::utf8::{
    encode_scalar, encode_utf8, encode_utf8_decode_utf8, encode_utf8_first_scalar,
    encode_utf8_valid_utf8, is_char_boundary, pop_first_scalar,
};

verus! {

/// How many bytes the characters of `chars` take in UTF-8.
pub open spec fn byte_len(chars: Seq<char>) -> nat {
    encode_utf8(chars).len()
}

/// The encoding of a text made of two parts is the encoding of the first
/// followed by that of the second.
pub proof fn encoding_distributes_over_add(a: Seq<char>, b: Seq<char>)
    ensures
        encode_utf8(a + b) == encode_utf8(a) + encode_utf8(b),
        byte_len(a + b) == byte_len(a) + byte_len(b),
    decreases a.len(),
{
    if a.len() == 0 {
        assert(a + b =~= b);
        assert(encode_utf8(a) + encode_utf8(b) =~= encode_utf8(b));
    } else {
        encoding_distributes_over_add(a.drop_first(), b);
        assert((a + b).drop_first() =~= a.drop_first() + b);
        assert(encode_utf8(a + b) =~= encode_utf8(a) + encode_utf8(b));
    }
}

/// The bytes before the character `to` are the bytes before the character
/// `from` and the bytes of the characters between the two; there are no more
/// of them than the whole text has.
pub proof fn prefix_bytes_add(text: Seq<char>, from: int, to: int)
    requires
        0 <= from <= to <= text.len(),
    ensures
        byte_len(text.take(to)) == byte_len(text.take(from)) + byte_len(text.subrange(from, to)),
        byte_len(text.take(to)) <= byte_len(text),
{
    encoding_distributes_over_add(text.take(from), text.subrange(from, to));
    assert(text.take(from) + text.subrange(from, to) =~= text.take(to));
    encoding_distributes_over_add(text.take(to), text.skip(to));
    assert(text.take(to) + text.skip(to) =~= text);
}

/// In the encoding of a text every character starts at a character
/// boundary: the place where a prefix of the text ends is one.
pub proof fn prefix_ends_at_boundary(a: Seq<char>, b: Seq<char>)
    ensures
        is_char_boundary(encode_utf8(a + b), byte_len(a) as int),
    decreases a.len(),
{
    let whole = a + b;
    let bytes = encode_utf8(whole);
    encode_utf8_valid_utf8(whole);
    if a.len() > 0 {
        encoding_distributes_over_add(a, b);
        encode_utf8_first_scalar(whole);
        assert(whole.drop_first() =~= a.drop_first() + b);
        assert(pop_first_scalar(bytes) =~= encode_utf8(whole.drop_first()));
        prefix_ends_at_boundary(a.drop_first(), b);
    }
}

/// A text is known by its encoding: two texts with the same bytes are the
/// same text.
pub proof fn same_bytes_same_text(a: Seq<char>, b: Seq<char>)
    requires
        encode_utf8(a) == encode_utf8(b),
    ensures
        a == b,
{
    encode_utf8_decode_utf8(a);
    encode_utf8_decode_utf8(b);
}

/// The characters of `s`, one element each.
pub fn to_chars(s: &str) -> (chars: Vec<char>)
    ensures
        chars@ == s@,
        byte_len(chars@) <= usize::MAX,
{
    let mut chars: Vec<char> = Vec::with_capacity(s.as_bytes().len());
    for c in it: s.chars()
        invariant
            chars@ == it.seq().take(it.index() as int),
    {
        chars.push(c);
    }
    chars
}

/// How many bytes `c` takes in UTF-8.
pub fn char_width(c: char) -> (width: usize)
    ensures
        1 <= width <= 4,
        width == encode_scalar(c as u32).len(),
        width == byte_len(seq![c]),
{
    proof {
        assert(seq![c].drop_first() =~= Seq::<char>::empty());
        assert(encode_utf8(seq![c]) =~= encode_scalar(c as u32)) by {
            reveal_with_fuel(encode_utf8, 2);
        }
    }
    let n: u32 = c as u32;
    if n < 0x80 {
        1
    } else if n < 0x800 {
        2
    } else if n < 0x10000 {
        3
    } else {
        4
    }
}

/// How many bytes the characters `text[from..to]` take in UTF-8.
pub fn byte_len_between(text: &[char], from: usize, to: usize) -> (bytes: usize)
    requires
        from <= to <= text@.len(),
        byte_len(text@) <= usize::MAX,
    ensures
        bytes == byte_len(text@.subrange(from as int, to as int)),
{
    let mut bytes: usize = 0;
    let mut i: usize = from;
    while i < to
        invariant
            from <= i <= to <= text@.len(),
            byte_len(text@) <= usize::MAX,
            bytes == byte_len(text@.subrange(from as int, i as int)),
        decreases to - i,
    {
        let width = char_width(text[i]);
        proof {
            let done = text@.subrange(from as int, i as int);
            encoding_distributes_over_add(done, seq![text@[i as int]]);
            assert(done + seq![text@[i as int]] =~= text@.subrange(from as int, i + 1));
            prefix_bytes_add(text@, from as int, i + 1);
        }
        bytes += width;
        i += 1;
    }
    bytes
}

/// The characters `from..to` of `text`, cut out of it in one step. `chars`
/// holds the characters of `text`, and `from_byte` is the byte offset at
/// which the character `from` starts.
pub fn cut<'a>(text: &'a str, chars: &[char], from: usize, to: usize, from_byte: usize) -> (part:
    &'a str)
    requires
        chars@ == text@,
        from <= to <= chars@.len(),
        from_byte == byte_len(chars@.take(from as int)),
        byte_len(chars@) <= usize::MAX,
    ensures
        part@ == text@.subrange(from as int, to as int),
{
    let ghost skipped = text@.take(from as int);
    let ghost wanted = text@.subrange(from as int, to as int);
    let ghost front = text@.take(to as int);
    let ghost back = text@.skip(to as int);
    proof {
        assert(skipped + wanted =~= front);
        assert(front + back =~= text@);
        prefix_bytes_add(text@, from as int, to as int);
        encoding_distributes_over_add(skipped, wanted);
        encoding_distributes_over_add(front, back);
        prefix_ends_at_boundary(skipped, wanted);
        prefix_ends_at_boundary(front, back);
    }
    let to_byte = from_byte + byte_len_between(chars, from, to);
    let (head, _) = text.split_at(to_byte);
    proof {
        assert(encode_utf8(head@) =~= encode_utf8(front));
        same_bytes_same_text(head@, front);
    }
    let (_, part) = head.split_at(from_byte);
    proof {
        assert(encode_utf8(part@) =~= encode_utf8(wanted));
        same_bytes_same_text(part@, wanted);
    }
    part
}

} // verus!
