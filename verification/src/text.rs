//! Searching text.

use vstd::prelude::*;

verus! {

/// Whether `needle` occurs in `text`.
pub open spec fn has_text(text: Seq<char>, needle: Seq<char>) -> bool {
    exists|at: int| #[trigger] text_at(text, needle, at)
}

/// Whether `needle` stands at a position of `text`.
pub open spec fn text_at(text: Seq<char>, needle: Seq<char>, at: int) -> bool {
    0 <= at && at + needle.len() <= text.len() && text.subrange(at, at + needle.len()) == needle
}

/// Looks for `needle` in `text`.
pub fn contains_text(text: &str, needle: &str) -> (found: bool)
    ensures
        found == has_text(text@, needle@),
{
    let text_len: usize = text.unicode_len();
    let needle_len: usize = needle.unicode_len();
    if needle_len > text_len {
        return false;
    }
    let mut at: usize = 0;
    while at <= text_len - needle_len
        invariant
            text_len == text@.len(),
            needle_len == needle@.len(),
            needle_len <= text_len,
            at <= text_len - needle_len + 1,
            forall|i: int| 0 <= i < at ==> !#[trigger] text_at(text@, needle@, i),
        decreases text_len - at,
    {
        let mut matched: usize = 0;
        while matched < needle_len && text.get_char(at + matched) == needle.get_char(matched)
            invariant
                text_len == text@.len(),
                needle_len == needle@.len(),
                at + needle_len <= text_len,
                matched <= needle_len,
                forall|i: int| 0 <= i < matched ==> text@[at + i] == needle@[i],
            ensures
                matched < needle_len ==> text@[at + matched] != needle@[matched as int],
            decreases needle_len - matched,
        {
            matched = matched + 1;
        }
        if matched == needle_len {
            assert(text@.subrange(at as int, at + needle@.len()) =~= needle@);
            assert(text_at(text@, needle@, at as int));
            return true;
        }
        assert(!text_at(text@, needle@, at as int)) by {
            if text_at(text@, needle@, at as int) {
                assert(text@.subrange(at as int, at + needle@.len())[matched as int]
                    == text@[at + matched]);
            }
        }
        if at == text_len {
            return false;
        }
        at = at + 1;
    }
    false
}

/// A text is found exactly where some stretch of the other one is the same, character by character.
pub proof fn law_found_text_stands_somewhere(text: &str, needle: &str, found: bool)
    requires
        call_ensures(contains_text, (text, needle), found),
    ensures
        found <==> exists|before: Seq<char>, after: Seq<char>|
            text@ == #[trigger] (before + needle@ + after),
{
    if has_text(text@, needle@) {
        let at = choose|at: int| #[trigger] text_at(text@, needle@, at);
        let before = text@.take(at);
        let after = text@.skip(at + needle@.len());
        assert(text@ =~= before + needle@ + after);
    }
    if exists|before: Seq<char>, after: Seq<char>|
        text@ == #[trigger] (before + needle@ + after) {
        let (before, after) = choose|before: Seq<char>, after: Seq<char>|
            text@ == #[trigger] (before + needle@ + after);
        let at = before.len() as int;
        assert(text@.subrange(at, at + needle@.len()) =~= needle@);
        assert(text_at(text@, needle@, at));
    }
}

} // verus!
