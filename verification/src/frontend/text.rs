//! Helpers that move between strings and their characters.
use vstd::prelude::*;
use vstd::std_specs::iter::IteratorSpec;
use vstd::string::StringSliceAdditionalSpecFns;
use vstd::utf8::{char_is_scalar, encode_scalar, encode_utf8};

verus! {

/// The characters of `text`, in order.
pub fn characters(text: &str) -> (chars: Vec<char>)
    ensures
        chars@ == text@,
{
    broadcast use vstd::string::group_string_axioms;

    let mut chars: Vec<char> = Vec::new();
    let mut rest = text.chars();
    loop
        invariant
            chars@ + rest.remaining() == text@,
            rest.obeys_prophetic_iter_laws(),
            rest.decrease() is Some,
        ensures
            chars@ == text@,
        decreases rest.decrease()->0,
    {
        match rest.next() {
            Some(c) => {
                chars.push(c);
                assert(chars@ + rest.remaining() =~= text@);
            },
            None => {
                assert(chars@ =~= text@);
                break ;
            },
        }
    }
    chars
}

/// Appends one character to a string.
///
/// Stands for `String::push`: the string afterwards is the string before
/// followed by `c`.
#[verifier::external_body]
pub(crate) fn push_char(text: &mut String, c: char)
    ensures
        final(text)@ == old(text)@.push(c),
{
    text.push(c)
}

/// The string made of `chars[from..to]`.
pub fn text_between(chars: &Vec<char>, from: usize, to: usize) -> (text: String)
    requires
        from <= to <= chars.len(),
    ensures
        text@ == chars@.subrange(from as int, to as int),
{
    let mut text = String::new();
    let mut i: usize = from;
    while i < to
        invariant
            from <= i <= to <= chars.len(),
            text@ == chars@.subrange(from as int, i as int),
        decreases to - i,
    {
        push_char(&mut text, chars[i]);
        i += 1;
        assert(text@ =~= chars@.subrange(from as int, i as int));
    }
    text
}

/// Whether two strings hold the same characters.
pub fn same_text(a: &str, b: &str) -> (same: bool)
    ensures
        same == (a@ == b@),
{
    let left = characters(a);
    let right = characters(b);
    if left.len() != right.len() {
        return false;
    }
    let mut i: usize = 0;
    while i < left.len()
        invariant
            left.len() == right.len(),
            left@ == a@,
            right@ == b@,
            i <= left.len(),
            left@.subrange(0, i as int) == right@.subrange(0, i as int),
        decreases left.len() - i,
    {
        if left[i] != right[i] {
            assert(left@[i as int] != right@[i as int]);
            return false;
        }
        i += 1;
        assert(left@.subrange(0, i as int) =~= left@.subrange(0, i - 1).push(left@[i - 1]));
        assert(right@.subrange(0, i as int) =~= right@.subrange(0, i - 1).push(right@[i - 1]));
    }
    assert(left@ =~= left@.subrange(0, i as int));
    assert(right@ =~= right@.subrange(0, i as int));
    true
}

/// The number of bytes that `c` takes in UTF-8.
pub open spec fn utf8_width(c: char) -> int {
    let code = c as u32;
    if code <= 0x7F {
        1
    } else if code <= 0x7FF {
        2
    } else if code <= 0xFFFF {
        3
    } else {
        4
    }
}

/// The byte offset in UTF-8 at which the character at `index` of `text`
/// starts; for `index` at or past the length of `text`, its length in
/// bytes.
pub open spec fn byte_offset(text: Seq<char>, index: int) -> int
    decreases index,
{
    if index <= 0 {
        0
    } else if index > text.len() {
        byte_offset(text, index - 1)
    } else {
        byte_offset(text, index - 1) + utf8_width(text[index - 1])
    }
}

/// Byte offsets grow with the characters, by at least one byte each.
pub proof fn lemma_byte_offset_grows(text: Seq<char>, from: int, to: int)
    requires
        0 <= from <= to <= text.len(),
    ensures
        byte_offset(text, from) + (to - from) <= byte_offset(text, to),
        0 <= byte_offset(text, from),
    decreases to,
{
    if from < to {
        lemma_byte_offset_grows(text, from, to - 1);
    } else if from > 0 {
        lemma_byte_offset_grows(text, from - 1, from - 1);
    }
}

/// The byte offsets of a text without its first character are those of the
/// text, less the width of that character.
proof fn lemma_byte_offset_without_first(text: Seq<char>, index: int)
    requires
        1 <= index <= text.len(),
    ensures
        byte_offset(text, index) == utf8_width(text[0]) + byte_offset(text.drop_first(), index - 1),
    decreases index,
{
    if index > 1 {
        lemma_byte_offset_without_first(text, index - 1);
        assert(text.drop_first()[index - 2] == text[index - 1]);
    } else {
        assert(byte_offset(text, 0) == 0);
        assert(byte_offset(text.drop_first(), 0) == 0);
    }
}

/// The byte offset of the end of a text is the length of its UTF-8
/// encoding.
pub proof fn lemma_byte_length_is_encoded_length(text: Seq<char>)
    ensures
        byte_offset(text, text.len() as int) == encode_utf8(text).len(),
    decreases text.len(),
{
    if text.len() > 0 {
        lemma_byte_length_is_encoded_length(text.drop_first());
        lemma_byte_offset_without_first(text, text.len() as int);
        char_is_scalar(text[0]);
        assert(encode_scalar(text[0] as u32).len() == utf8_width(text[0]));
    }
}

/// The number of bytes that `c` takes in UTF-8.
pub fn width_of(c: char) -> (width: usize)
    ensures
        width == utf8_width(c),
{
    let code = c as u32;
    if code <= 0x7F {
        1
    } else if code <= 0x7FF {
        2
    } else if code <= 0xFFFF {
        3
    } else {
        4
    }
}

/// Byte offsets depend on the characters before them alone.
pub proof fn lemma_byte_offset_of_prefix(text: Seq<char>, longer: Seq<char>, index: int)
    requires
        0 <= index <= text.len() <= longer.len(),
        forall|i: int| 0 <= i < text.len() ==> text[i] == longer[i],
    ensures
        byte_offset(text, index) == byte_offset(longer, index),
    decreases index,
{
    if index > 0 {
        lemma_byte_offset_of_prefix(text, longer, index - 1);
    }
}

/// Whether `offsets` holds the byte offset of every character of `chars`,
/// and of their end.
pub open spec fn offsets_of(chars: Seq<char>, offsets: Seq<usize>) -> bool {
    &&& offsets.len() == chars.len() + 1
    &&& forall|i: int| 0 <= i <= chars.len() ==> (#[trigger] offsets[i]) == byte_offset(chars, i)
}

/// The characters of `text`, and the byte offset at which each of them
/// starts; one more offset, the last, is the length of `text` in bytes.
pub fn characters_with_offsets(text: &str) -> (found: (Vec<char>, Vec<usize>))
    ensures
        found.0@ == text@,
        offsets_of(found.0@, found.1@),
{
    let chars = characters(text);
    let bytes = text.as_bytes();
    let length = bytes.len();
    proof {
        lemma_byte_length_is_encoded_length(text@);
    }
    let mut offsets: Vec<usize> = Vec::new();
    let mut offset: usize = 0;
    let mut index: usize = 0;
    offsets.push(offset);
    while index < chars.len()
        invariant
            chars@ == text@,
            index <= chars.len(),
            offsets.len() == index + 1,
            offset == byte_offset(chars@, index as int),
            byte_offset(chars@, chars.len() as int) == length,
            forall|i: int| 0 <= i <= index ==> (#[trigger] offsets[i]) == byte_offset(chars@, i),
        decreases chars.len() - index,
    {
        proof {
            lemma_byte_offset_grows(chars@, index + 1, chars.len() as int);
        }
        offset += width_of(chars[index]);
        index += 1;
        offsets.push(offset);
    }
    (chars, offsets)
}

} // verus!
