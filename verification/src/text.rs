//! Reading string slices one character at a time.

use vstd::prelude::*;
use vstd::string::*;
use vstd::utf8::*;

verus! {

/// Whether `c` is one of the 128 ASCII characters.
pub open spec fn is_ascii_char(c: char) -> bool {
    (c as u32) < 0x80
}

/// Whether `prefix` stands at the head of `text`.
pub open spec fn begins_with(text: Seq<char>, prefix: Seq<char>) -> bool {
    prefix.len() <= text.len() && text.take(prefix.len() as int) == prefix
}

/// A string that begins with an ASCII character has a character boundary
/// after its first byte, and the bytes after it encode the remaining characters.
proof fn lemma_ascii_head(chars: Seq<char>)
    requires
        chars.len() > 0,
        is_ascii_char(chars[0]),
    ensures
        is_char_boundary(encode_utf8(chars), 1),
        encode_utf8(chars).len() >= 1,
        encode_utf8(chars).subrange(1, encode_utf8(chars).len() as int) == encode_utf8(
            chars.drop_first(),
        ),
        encode_utf8(chars).subrange(0, 1) == encode_utf8(seq![chars[0]]),
{
    broadcast use group_utf8_lib;

    let bytes = encode_utf8(chars);
    encode_utf8_first_scalar(chars);
    assert(is_char_boundary(pop_first_scalar(bytes), 0));
    assert(bytes.subrange(1, bytes.len() as int) =~= encode_utf8(chars.drop_first()));
    let single = seq![chars[0]];
    assert(encode_utf8(single.drop_first()) =~= Seq::<u8>::empty());
}

/// The first character of `input`, if it has one.
pub fn first_char(input: &str) -> (first: Option<char>)
    ensures
        first == if input@.len() == 0 {
            None
        } else {
            Some(input@[0])
        },
{
    if input.is_empty() {
        None
    } else {
        Some(input.get_char(0))
    }
}

/// Splits `input` after its first character, which must be ASCII.
pub(crate) fn split_first<'a>(input: &'a str) -> (parts: (&'a str, &'a str))
    requires
        input@.len() > 0,
        is_ascii_char(input@[0]),
    ensures
        parts.0@ == seq![input@[0]],
        parts.1@ == input@.drop_first(),
{
    broadcast use group_utf8_lib;

    proof {
        lemma_ascii_head(input@);
    }
    let parts = input.split_at(1);
    proof {
        assert(decode_utf8(encode_utf8(input@.drop_first())) == input@.drop_first());
    }
    parts
}

/// Whether two string slices hold the same characters.
pub fn same_text(a: &str, b: &str) -> (same: bool)
    ensures
        same == (a@ == b@),
{
    broadcast use group_utf8_lib;

    let x = a.as_bytes();
    let y = b.as_bytes();
    proof {
        assert(decode_utf8(encode_utf8(b@)) == b@);
    }
    if x.len() != y.len() {
        return false;
    }
    let mut i: usize = 0;
    while i < x.len()
        invariant
            x@ == encode_utf8(a@),
            y@ == encode_utf8(b@),
            x@.len() == y@.len(),
            i <= x@.len(),
            forall|j: int| 0 <= j < i ==> x@[j] == y@[j],
        decreases x@.len() - i,
    {
        if x[i] != y[i] {
            return false;
        }
        i += 1;
    }
    assert(x@ =~= y@);
    true
}

/// Removes `prefix`, a run of ASCII characters, from the head of `input`.
/// Answers `None` where `input` does not begin with it.
pub(crate) fn strip_prefix<'a>(input: &'a str, prefix: &str) -> (rest: Option<&'a str>)
    requires
        forall|i: int| 0 <= i < prefix@.len() ==> is_ascii_char(#[trigger] prefix@[i]),
    ensures
        (match rest {
            Some(r) => begins_with(input@, prefix@) && r@ == input@.skip(prefix@.len() as int),
            None => !begins_with(input@, prefix@),
        }),
{
    let mut left = input;
    let mut want = prefix;
    let ghost mut k: int = 0;
    loop
        invariant
            0 <= k <= input@.len(),
            k <= prefix@.len(),
            left@ == input@.skip(k),
            want@ == prefix@.skip(k),
            input@.take(k) == prefix@.take(k),
            forall|i: int| 0 <= i < prefix@.len() ==> is_ascii_char(#[trigger] prefix@[i]),
        decreases prefix@.len() - k,
    {
        match first_char(want) {
            None => {
                assert(prefix@.take(k) =~= prefix@);
                return Some(left);
            },
            Some(w) => {
                match first_char(left) {
                    Some(c) => {
                        if c == w {
                            left = split_first(left).1;
                            want = split_first(want).1;
                            proof {
                                k = k + 1;
                            }
                        } else {
                            return None;
                        }
                    },
                    None => {
                        return None;
                    },
                }
            },
        }
    }
}

} // verus!
