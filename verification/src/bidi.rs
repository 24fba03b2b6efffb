//! Base direction of a paragraph, from its first strongly directional character.

use vstd::prelude::*;

verus! {

/// The direction a paragraph is laid out in.
#[derive(Debug, Clone, Copy, PartialEq, Eq, Structural)]
pub enum ParagraphDirection {
    LeftToRight,
    RightToLeft,
}

/// The strong bidirectional classes this library tells apart.
#[derive(Debug, Clone, Copy, PartialEq, Eq, Structural)]
pub enum BidiCategory {
    StrongLtr,
    StrongRtl,
}

/// Latin letters (basic, Latin-1 and Latin Extended-A/B) are strongly left-to-right.
pub open spec fn is_strong_ltr(cp: u32) -> bool {
    (0x41 <= cp <= 0x5A) || (0x61 <= cp <= 0x7A) || (0xC0 <= cp <= 0x24F)
}

/// Hebrew, Arabic, Syriac and the Arabic presentation forms are strongly right-to-left.
pub open spec fn is_strong_rtl(cp: u32) -> bool {
    (0x590 <= cp <= 0x5FF) || (0x600 <= cp <= 0x6FF) || (0x700 <= cp <= 0x74F) || (0xFB50
        <= cp <= 0xFDFF) || (0xFE70 <= cp <= 0xFEFF)
}

/// The strong class of a character, if it has one.
pub open spec fn bidi_category_of(ch: char) -> Option<BidiCategory> {
    if is_strong_ltr(ch as u32) {
        Some(BidiCategory::StrongLtr)
    } else if is_strong_rtl(ch as u32) {
        Some(BidiCategory::StrongRtl)
    } else {
        None
    }
}

/// The direction given by the first strong character of `chars`; left-to-right when
/// there is none.
pub open spec fn direction_of(chars: Seq<char>) -> ParagraphDirection
    decreases chars.len(),
{
    if chars.len() == 0 {
        ParagraphDirection::LeftToRight
    } else {
        match bidi_category_of(chars[0]) {
            Some(BidiCategory::StrongLtr) => ParagraphDirection::LeftToRight,
            Some(BidiCategory::StrongRtl) => ParagraphDirection::RightToLeft,
            None => direction_of(chars.drop_first()),
        }
    }
}

pub fn unicode_bidi_category(ch: char) -> (r: Option<BidiCategory>)
    ensures
        r == bidi_category_of(ch),
{
    let cp = ch as u32;
    if (0x0041 <= cp && cp <= 0x005A) || (0x0061 <= cp && cp <= 0x007A) || (0x00C0 <= cp && cp
        <= 0x024F) {
        return Some(BidiCategory::StrongLtr);
    }
    if (0x0590 <= cp && cp <= 0x05FF) || (0x0600 <= cp && cp <= 0x06FF) || (0x0700 <= cp && cp
        <= 0x074F) || (0xFB50 <= cp && cp <= 0xFDFF) || (0xFE70 <= cp && cp <= 0xFEFF) {
        return Some(BidiCategory::StrongRtl);
    }
    None
}

proof fn lemma_direction_skips_weak(chars: Seq<char>, i: int)
    requires
        0 <= i <= chars.len(),
        forall|j: int| 0 <= j < i ==> bidi_category_of(#[trigger] chars[j]) is None,
    ensures
        direction_of(chars) == direction_of(chars.subrange(i, chars.len() as int)),
    decreases i,
{
    if i == 0 {
        assert(chars.subrange(0, chars.len() as int) =~= chars);
    } else {
        let rest = chars.drop_first();
        assert forall|j: int| 0 <= j < i - 1 implies bidi_category_of(#[trigger] rest[j]) is None by {
            assert(rest[j] == chars[j + 1]);
        }
        lemma_direction_skips_weak(rest, i - 1);
        assert(rest.subrange(i - 1, rest.len() as int) =~= chars.subrange(i, chars.len() as int));
        assert(bidi_category_of(chars[0]) is None);
    }
}

/// The direction of a paragraph: that of its first strong character, else left-to-right.
pub fn paragraph_direction(text: &str) -> (r: ParagraphDirection)
    ensures
        r == direction_of(text@),
{
    let ghost chars = text@;
    for ch in it: text.chars()
        invariant
            it.seq() == chars,
            chars == text@,
            forall|j: int| 0 <= j < it.index() ==> bidi_category_of(#[trigger] chars[j]) is None,
    {
        proof {
            lemma_direction_skips_weak(chars, it.index() as int);
        }
        let ghost rest = chars.subrange(it.index() as int, chars.len() as int);
        assert(rest.len() > 0);
        assert(rest[0] == ch);
        assert(direction_of(chars) == direction_of(rest));
        match unicode_bidi_category(ch) {
            Some(BidiCategory::StrongLtr) => return ParagraphDirection::LeftToRight,
            Some(BidiCategory::StrongRtl) => return ParagraphDirection::RightToLeft,
            None => {},
        }
    }
    proof {
        lemma_direction_skips_weak(chars, chars.len() as int);
        assert(chars.subrange(chars.len() as int, chars.len() as int).len() == 0);
    }
    ParagraphDirection::LeftToRight
}

} // verus!
