//! The text content an accessibility node announces, gathered from its descendants.

use vstd::prelude::*;

use crate::utf8_text::string_of_char;

verus! {

/// Unicode `White_Space` characters.
pub open spec fn is_white_space(c: char) -> bool {
    let u = c as u32;
    (0x9 <= u && u <= 0xD) || u == 0x20 || u == 0x85 || u == 0xA0 || u == 0x1680 || (0x2000 <= u
        && u <= 0x200A) || u == 0x2028 || u == 0x2029 || u == 0x202F || u == 0x205F || u == 0x3000
}

pub open spec fn trim_start_chars(s: Seq<char>) -> Seq<char>
    decreases s.len(),
{
    if s.len() > 0 && is_white_space(s[0]) {
        trim_start_chars(s.drop_first())
    } else {
        s
    }
}

pub open spec fn trim_end_chars(s: Seq<char>) -> Seq<char>
    decreases s.len(),
{
    if s.len() > 0 && is_white_space(s.last()) {
        trim_end_chars(s.drop_last())
    } else {
        s
    }
}

/// `s` without leading and trailing white space.
pub open spec fn trim_chars(s: Seq<char>) -> Seq<char> {
    trim_end_chars(trim_start_chars(s))
}

/// `str::trim`: std removes the leading and trailing characters that have the Unicode
/// `White_Space` property.
#[verifier::external_body]
fn trim_str(s: &str) -> (r: &str)
    ensures
        r@ == trim_chars(s@),
{
    s.trim()
}

/// The trimmed fragments that are not empty, in order.
pub open spec fn kept_fragments(frags: Seq<Seq<char>>) -> Seq<Seq<char>>
    decreases frags.len(),
{
    if frags.len() == 0 {
        Seq::empty()
    } else {
        let kept = kept_fragments(frags.drop_last());
        let t = trim_chars(frags.last());
        if t.len() == 0 {
            kept
        } else {
            kept.push(t)
        }
    }
}

/// The parts joined with single spaces.
pub open spec fn join_with_spaces(parts: Seq<Seq<char>>) -> Seq<char>
    decreases parts.len(),
{
    if parts.len() == 0 {
        Seq::empty()
    } else if parts.len() == 1 {
        parts[0]
    } else {
        join_with_spaces(parts.drop_last()) + seq![' '] + parts.last()
    }
}

/// The fragments, trimmed, empty ones dropped, joined with single spaces.
pub fn join_text_fragments(fragments: Vec<String>) -> (r: String)
    ensures
        r@ == join_with_spaces(kept_fragments(fragments@.map_values(|f: String| f@))),
{
    let ghost frags = fragments@.map_values(|f: String| f@);
    let mut out = String::new();
    let mut any = false;
    let space = string_of_char(' ');
    let n = fragments.len();
    for i in 0..n
        invariant
            n == fragments@.len(),
            frags == fragments@.map_values(|f: String| f@),
            space@ == seq![' '],
            any == (kept_fragments(frags.take(i as int)).len() > 0),
            out@ == join_with_spaces(kept_fragments(frags.take(i as int))),
    {
        proof {
            assert(frags.take(i + 1).drop_last() =~= frags.take(i as int));
            assert(frags.take(i + 1).last() == fragments@[i as int]@);
        }
        let trimmed = trim_str(fragments[i].as_str());
        if trimmed.as_bytes().len() > 0 {
            proof {
                assert(trimmed@.len() > 0) by {
                    if trimmed@.len() == 0 {
                        assert(vstd::utf8::encode_utf8(trimmed@) =~= Seq::<u8>::empty());
                    }
                }
            }
            let ghost kept = kept_fragments(frags.take(i as int));
            if any {
                out.append(space.as_str());
            }
            out.append(trimmed);
            any = true;
            proof {
                let k2 = kept.push(trimmed@);
                assert(kept_fragments(frags.take(i + 1)) == k2);
                assert(k2.drop_last() =~= kept);
                assert(out@ =~= join_with_spaces(k2));
            }
        } else {
            proof {
                assert(trimmed@.len() == 0) by {
                    if trimmed@.len() > 0 {
                        assert(vstd::utf8::encode_utf8(trimmed@).len() > 0);
                    }
                }
                assert(kept_fragments(frags.take(i + 1)) == kept_fragments(frags.take(i as int)));
            }
        }
    }
    proof {
        assert(frags.take(n as int) =~= frags);
    }
    out
}

/// The characters of an optional string.
pub open spec fn opt_chars(o: Option<String>) -> Option<Seq<char>> {
    match o {
        Some(s) => Some(s@),
        None => None,
    }
}

/// The text that a node's descendants announce.
pub open spec fn child_text(fragments: Seq<String>) -> Seq<char> {
    join_with_spaces(kept_fragments(fragments.map_values(|f: String| f@)))
}

/// The label and the text content of an accessibility node, given its own label and text
/// content and the texts its descendants announce: a node without a label takes its
/// descendants' text as label when there is some; its text content is its own, else its
/// label, else its descendants' text.
pub fn a11y_node_text(label: Option<String>, text_content: Option<String>, child_fragments: Vec<
    String,
>) -> (r: (Option<String>, String))
    ensures
        opt_chars(r.0) == (if label is None && child_text(child_fragments@).len() > 0 {
            Some(child_text(child_fragments@))
        } else {
            opt_chars(label)
        }),
        r.1@ == (match text_content {
            Some(t) => t@,
            None => match opt_chars(r.0) {
                Some(l) => l,
                None => child_text(child_fragments@),
            },
        }),
{
    let child = join_text_fragments(child_fragments);
    let label = match label {
        Some(l) => Some(l),
        None => if !child.as_str().is_empty() {
            Some(child.clone())
        } else {
            None
        },
    };
    let text = match text_content {
        Some(t) => t,
        None => match &label {
            Some(l) => l.clone(),
            None => child,
        },
    };
    (label, text)
}

/// The text content a node without an accessibility node of its own passes up: its own
/// text content and its descendants' text, trimmed, empty parts dropped, joined with
/// single spaces.
pub fn a11y_container_text(text_content: Option<String>, child_fragments: Vec<String>) -> (r: String)
    ensures
        r@ == join_with_spaces(
            kept_fragments(
                match opt_chars(text_content) {
                    Some(t) => seq![t, child_text(child_fragments@)],
                    None => seq![child_text(child_fragments@)],
                },
            ),
        ),
{
    let child = join_text_fragments(child_fragments);
    let ghost tc = opt_chars(text_content);
    let mut parts: Vec<String> = Vec::new();
    if let Some(t) = text_content {
        parts.push(t);
    }
    parts.push(child);
    let ghost frags = parts@.map_values(|f: String| f@);
    proof {
        match tc {
            Some(t) => {
                assert(frags =~= seq![t, child_text(child_fragments@)]);
            },
            None => {
                assert(frags =~= seq![child_text(child_fragments@)]);
            },
        }
    }
    join_text_fragments(parts)
}

} // verus!
