//! Membership in a list of extension names.
//!
//! The list is a text of names parted by white space. A name is in the list
//! where it is one of its words as a whole: with the same characters in the
//! same case, and not as a part of a longer word.

use vstd::prelude::*;
use crate::text::{chars_of, same_chars};

verus! {

/// Whether `c` is white space, that is, has the Unicode property White_Space.
pub open spec fn is_white_space(c: char) -> bool {
    let code = c as u32;
    ||| 0x09 <= code <= 0x0D
    ||| code == 0x20
    ||| code == 0x85
    ||| code == 0xA0
    ||| code == 0x1680
    ||| 0x2000 <= code <= 0x200A
    ||| code == 0x2028
    ||| code == 0x2029
    ||| code == 0x202F
    ||| code == 0x205F
    ||| code == 0x3000
}

/// Whether the characters of `list` from `from` up to `to` are one of its
/// words: a run of characters that are no white space, with white space or an
/// end of the text on either side.
pub open spec fn is_word(list: Seq<char>, from: int, to: int) -> bool {
    &&& 0 <= from < to <= list.len()
    &&& from == 0 || is_white_space(list[from - 1])
    &&& to == list.len() || is_white_space(list[to])
    &&& forall|k: int| from <= k < to ==> !is_white_space(#[trigger] list[k])
}

/// Whether `name` is one of the words of `list`.
pub open spec fn has_word(list: Seq<char>, name: Seq<char>) -> bool {
    exists|from: int, to: int| is_word(list, from, to) && #[trigger] list.subrange(from, to) == name
}

/// Whether `c` is white space.
pub fn is_whitespace(c: char) -> (white: bool)
    ensures
        white == is_white_space(c),
{
    let code: u32 = c as u32;
    (0x09 <= code && code <= 0x0D) || code == 0x20 || code == 0x85 || code == 0xA0 || code
        == 0x1680 || (0x2000 <= code && code <= 0x200A) || code == 0x2028 || code == 0x2029
        || code == 0x202F || code == 0x205F || code == 0x3000
}

/// Whether `ext` is one of the names in `list`.
pub fn has_extension(list: &str, ext: &str) -> (found: bool)
    ensures
        found == has_word(list@, ext@),
{
    let text = chars_of(list);
    let name = chars_of(ext);
    let mut at: usize = 0;
    while at < text.len()
        invariant
            text@ == list@,
            name@ == ext@,
            at <= text@.len(),
            at == 0 || at == text@.len() || is_white_space(text@[at - 1]) || is_white_space(
                text@[at as int],
            ),
            forall|from: int, to: int|
                is_word(text@, from, to) && to <= at ==> #[trigger] text@.subrange(from, to)
                    != name@,
        decreases text@.len() - at,
    {
        if is_whitespace(text[at]) {
            at = at + 1;
        } else {
            let start = at;
            let mut end = at + 1;
            while end < text.len() && !is_whitespace(text[end])
                invariant
                    start < end <= text@.len(),
                    forall|k: int| start <= k < end ==> !is_white_space(#[trigger] text@[k]),
                decreases text@.len() - end,
            {
                end = end + 1;
            }
            assert(is_word(text@, start as int, end as int));
            if end - start == name.len() && same_chars(text.as_slice(), start, name.as_slice()) {
                assert(text@.subrange(start as int, end as int) == name@);
                return true;
            }
            assert forall|from: int, to: int|
                is_word(text@, from, to) && to <= end implies #[trigger] text@.subrange(from, to)
                != name@ by {
                if to > start {
                    if to < end {
                        assert(!is_white_space(text@[to]));
                    }
                    if from > start {
                        assert(!is_white_space(text@[from - 1]));
                    }
                    if from < start {
                        assert(!is_white_space(text@[start - 1]));
                    }
                    assert(from == start && to == end);
                }
            }
            at = end;
        }
    }
    false
}

/// `has_extension` as the number 1 or 0.
pub fn glxdrv_has_extension(list: &str, ext: &str) -> (found: i32)
    ensures
        found == if has_word(list@, ext@) {
            1i32
        } else {
            0i32
        },
{
    if has_extension(list, ext) {
        1
    } else {
        0
    }
}

} // verus!
