//! Small helpers on strings: finding a character, taking a first word,
//! picking the longer of two strings.
//!
//! Positions are counted in characters. The UTF-8 bytes of a text come in
//! only where a function cuts a string at a byte offset.

use vstd::prelude::*;
use vstd::std_specs::iter::IteratorSpec;
use vstd::string::{StrSliceExecFns, StringExecFns, StringSliceAdditionalSpecFns};
use vstd::utf8::{
    encode_scalar, encode_utf8, encode_utf8_decode_utf8, encode_utf8_first_scalar,
    encode_utf8_valid_utf8, is_ascii_chars, is_ascii_chars_encode_utf8, is_char_boundary,
    pop_first_scalar,
};

verus! {

/// `wanted` stands at index `at` of `text` and nowhere before it.
pub open spec fn first_at(text: Seq<char>, wanted: char, at: int) -> bool {
    &&& 0 <= at < text.len()
    &&& text[at] == wanted
    &&& forall|j: int| 0 <= j < at ==> text[j] != wanted
}

/// `wanted` stands nowhere in `text`.
pub open spec fn absent(text: Seq<char>, wanted: char) -> bool {
    forall|j: int| 0 <= j < text.len() ==> text[j] != wanted
}

/// A scan of `text` for `wanted` ends at `at`: on the first `wanted`, or at
/// the end of a text that holds none.
pub open spec fn scan_ends_at(text: Seq<char>, wanted: char, at: int) -> bool {
    first_at(text, wanted, at) || (absent(text, wanted) && at == text.len())
}

/// Where a scan of `text` for `wanted` ends: the index of the first `wanted`,
/// or the length of a text that holds none.
pub open spec fn scan_end(text: Seq<char>, wanted: char) -> int {
    choose|at: int| scan_ends_at(text, wanted, at)
}

/// A scan ends at one place only, so `scan_end` is that place.
pub proof fn lemma_scan_end(text: Seq<char>, wanted: char, at: int)
    requires
        scan_ends_at(text, wanted, at),
    ensures
        scan_end(text, wanted) == at,
{
    let chosen: int = scan_end(text, wanted);
    assert(scan_ends_at(text, wanted, chosen));
    if chosen < at {
        assert(text[chosen] == wanted);
    } else if at < chosen {
        assert(text[at] == wanted);
    }
}

/// A text has no more characters than its UTF-8 encoding has bytes.
pub proof fn lemma_chars_within_bytes(text: Seq<char>)
    ensures
        text.len() <= encode_utf8(text).len(),
    decreases text.len(),
{
    if text.len() > 0 {
        lemma_chars_within_bytes(text.drop_first());
    }
}

/// Encoding a text is encoding its front and its back apart.
pub proof fn lemma_encode_concat(front: Seq<char>, back: Seq<char>)
    ensures
        encode_utf8(front + back) == encode_utf8(front) + encode_utf8(back),
    decreases front.len(),
{
    if front.len() == 0 {
        assert(front + back =~= back);
        assert(encode_utf8(front) + encode_utf8(back) =~= encode_utf8(back));
    } else {
        let head: Seq<u8> = encode_scalar(front[0] as u32);
        assert((front + back).drop_first() =~= front.drop_first() + back);
        lemma_encode_concat(front.drop_first(), back);
        assert(head + (encode_utf8(front.drop_first()) + encode_utf8(back)) =~= (head
            + encode_utf8(front.drop_first())) + encode_utf8(back));
    }
}

/// Where the first `count` characters of a text are ASCII, they take `count`
/// bytes: the byte offset `count` falls between two characters, and the bytes
/// before it encode those characters.
pub proof fn lemma_ascii_prefix(text: Seq<char>, count: int)
    requires
        0 <= count <= text.len(),
        is_ascii_chars(text.subrange(0, count)),
    ensures
        is_char_boundary(encode_utf8(text), count),
        encode_utf8(text).subrange(0, count) == encode_utf8(text.subrange(0, count)),
    decreases count,
{
    let front: Seq<char> = text.subrange(0, count);
    let back: Seq<char> = text.subrange(count, text.len() as int);
    assert(text =~= front + back);
    lemma_encode_concat(front, back);
    is_ascii_chars_encode_utf8(front);
    assert(encode_utf8(text).subrange(0, count) =~= encode_utf8(front));
    encode_utf8_valid_utf8(text);
    if count > 0 {
        let rest: Seq<char> = text.drop_first();
        assert(front[0] == text[0]);
        assert(encode_scalar(text[0] as u32).len() == 1);
        encode_utf8_first_scalar(text);
        assert(pop_first_scalar(encode_utf8(text)) =~= encode_utf8(rest));
        assert forall|i: int| 0 <= i < count - 1 implies '\0' <= #[trigger] rest.subrange(
            0,
            count - 1,
        )[i] <= '\u{7f}' by {
            assert(rest.subrange(0, count - 1)[i] == front[i + 1]);
        }
        lemma_ascii_prefix(rest, count - 1);
    }
}

/// Scans `text` for `wanted`: where the scan ends, and whether it ended on a
/// `wanted`.
fn scan(text: &str, wanted: char) -> (hit: (usize, bool))
    ensures
        text@.len() <= usize::MAX,
        hit.0 == scan_end(text@, wanted),
        hit.1 ==> first_at(text@, wanted, hit.0 as int) && !absent(text@, wanted),
        !hit.1 ==> absent(text@, wanted) && hit.0 == text@.len(),
{
    let byte_count: usize = text.as_bytes().len();
    proof {
        lemma_chars_within_bytes(text@);
    }
    let mut index: usize = 0;
    for character in iter: text.chars()
        invariant
            text@.len() <= byte_count,
            iter.seq() == text@,
            index == iter.index(),
            forall|j: int| 0 <= j < index ==> text@[j] != wanted,
    {
        if character == wanted {
            proof {
                lemma_scan_end(text@, wanted, index as int);
                assert(text@[index as int] == wanted);
            }
            return (index, true);
        }
        index = index + 1;
    }
    proof {
        lemma_scan_end(text@, wanted, index as int);
    }
    (index, false)
}

/// The index of the first `'a'` in `s`, counted in characters, or `None` where
/// `s` holds none. The index is cast to `i32`, so it stands as it is up to
/// `i32::MAX` and is cut to its low 32 bits beyond that.
pub fn find_first_a(s: String) -> (found: Option<i32>)
    ensures
        match found {
            Some(index) => first_at(s@, 'a', scan_end(s@, 'a')) && index == scan_end(s@, 'a')
                as i32,
            None => absent(s@, 'a'),
        },
{
    let hit: (usize, bool) = scan(s.as_str(), 'a');
    if hit.1 {
        Some(#[verifier::truncate] (hit.0 as i32))
    } else {
        None
    }
}

/// The sentence up to its first space, the space included; the whole
/// sentence where it holds no space.
pub fn get_first_word(sentence: String) -> (word: String)
    ensures
        word@ == sentence@.subrange(
            0,
            if absent(sentence@, ' ') {
                sentence@.len() as int
            } else {
                scan_end(sentence@, ' ') + 1
            },
        ),
{
    let text: &str = sentence.as_str();
    let hit: (usize, bool) = scan(text, ' ');
    let cut: usize = if hit.1 {
        hit.0 + 1
    } else {
        hit.0
    };
    String::from_str(text.substring_char(0, cut))
}

/// The text before its first capital `W`, the whole text where it holds
/// none. The cut is made at a byte offset, and that offset is the number of
/// characters before the `W`: so the result is the text before the `W`
/// wherever that part is ASCII. Where the offset would fall inside a
/// character, no string can be cut there, and the call is not admitted.
pub fn first_word(text: &String) -> (word: &str)
    requires
        is_char_boundary(encode_utf8(text@), scan_end(text@, 'W')),
    ensures
        word.spec_bytes() == encode_utf8(text@).subrange(0, scan_end(text@, 'W')),
        is_ascii_chars(text@.subrange(0, scan_end(text@, 'W'))) ==> word@ == text@.subrange(
            0,
            scan_end(text@, 'W'),
        ),
{
    let whole: &str = text.as_str();
    let hit: (usize, bool) = scan(whole, 'W');
    let parts: (&str, &str) = whole.split_at(hit.0);
    proof {
        let front: Seq<char> = text@.subrange(0, hit.0 as int);
        if is_ascii_chars(front) {
            lemma_ascii_prefix(text@, hit.0 as int);
            assert(encode_utf8(parts.0@) == encode_utf8(front));
            encode_utf8_decode_utf8(parts.0@);
            encode_utf8_decode_utf8(front);
        }
    }
    parts.0
}

/// Appends `" World"` to `s`.
pub fn update_str(s: &mut String)
    ensures
        final(s)@ == old(s)@ + " World"@,
{
    s.append(" World");
}

/// The longer of two strings by their length in bytes; the second where
/// neither is longer.
pub fn longest<'a>(str1: &'a str, str2: &'a str) -> (longer: &'a str)
    ensures
        longer == if str1.len() > str2.len() {
            str1
        } else {
            str2
        },
{
    if str1.len() > str2.len() {
        str1
    } else {
        str2
    }
}

} // verus!
