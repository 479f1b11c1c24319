//! Coherency auto-corrections: which divergences an LLM rewrite can repair,
//! and the file content a rewrite produces. The caller asks the model, writes
//! the file, re-analyzes and keeps or restores it.
use vstd::prelude::*;
use vstd::utf8::{decode_utf8, encode_utf8, is_char_boundary};
use crate::auto_fix::{comment_lines, comment_prefix_for, format_as_comments, narrative_prefix};
use crate::domain::RuleId;
use crate::text::{chars_of, lemma_encode_utf8_concat, lines_of, push_str, split_lines, string_of, trim, trim_seq};

verus! {

/// What a correction rewrites: the drifted Markdown section, replaced by the
/// model's reply, or an example's narrative, replaced by the reply written
/// as comments.
#[derive(Debug, Clone, Copy, PartialEq, Eq, Structural)]
pub enum CorrectionKind {
    Section,
    Narrative,
}

pub open spec fn kind_for(rule: RuleId) -> Option<CorrectionKind> {
    match rule {
        RuleId::OutdatedLogic => Some(CorrectionKind::Section),
        RuleId::LogicGap => Some(CorrectionKind::Narrative),
        _ => None,
    }
}

/// The correction a divergence of `rule` asks for, if any.
pub fn correction_kind(rule: RuleId) -> (k: Option<CorrectionKind>)
    ensures
        k == kind_for(rule),
{
    match rule {
        RuleId::OutdatedLogic => Some(CorrectionKind::Section),
        RuleId::LogicGap => Some(CorrectionKind::Narrative),
        _ => None,
    }
}

/// `bytes` with `start..end` replaced by `middle`.
pub open spec fn spliced(bytes: Seq<u8>, start: int, end: int, middle: Seq<u8>) -> Seq<u8> {
    bytes.subrange(0, start) + middle + bytes.subrange(end, bytes.len() as int)
}

/// The byte range `start..end` of `text` lies on character boundaries.
pub open spec fn valid_range(text: Seq<char>, start: int, end: int) -> bool {
    &&& 0 <= start <= end <= encode_utf8(text).len()
    &&& is_char_boundary(encode_utf8(text), start)
    &&& is_char_boundary(encode_utf8(text), end)
}

proof fn lemma_boundary_in_suffix(bytes: Seq<u8>, start: int, end: int)
    requires
        vstd::utf8::valid_utf8(bytes),
        0 <= start <= end <= bytes.len(),
        is_char_boundary(bytes, start),
        is_char_boundary(bytes, end),
    ensures
        vstd::utf8::valid_utf8(bytes.subrange(start, bytes.len() as int)),
        is_char_boundary(bytes.subrange(start, bytes.len() as int), end - start),
{
    let tail = bytes.subrange(start, bytes.len() as int);
    vstd::utf8::valid_utf8_split(bytes, start);
    if end == bytes.len() {
        vstd::utf8::is_char_boundary_start_end_of_seq(tail);
        assert(tail.len() == end - start);
    } else if end == start {
        assert(is_char_boundary(tail, 0));
    } else {
        vstd::utf8::is_char_boundary_iff_not_is_continuation_byte(bytes, end);
        vstd::utf8::is_char_boundary_iff_not_is_continuation_byte(tail, end - start);
        assert(tail[end - start] == bytes[end]);
    }
}

/// `original` with the bytes `start..end` replaced by `text`, as
/// `String::replace_range` does.
pub fn splice(original: &str, start: usize, end: usize, text: &str) -> (r: String)
    requires
        valid_range(original@, start as int, end as int),
    ensures
        encode_utf8(r@) == spliced(encode_utf8(original@), start as int, end as int, encode_utf8(text@)),
{
    let ghost bytes = encode_utf8(original@);
    proof {
        vstd::utf8::encode_utf8_valid_utf8(original@);
        lemma_boundary_in_suffix(bytes, start as int, end as int);
    }
    let (head, tail) = original.split_at(start);
    let (_middle, rest) = tail.split_at(end - start);
    let mut r = String::new();
    push_str(&mut r, head);
    push_str(&mut r, text);
    push_str(&mut r, rest);
    proof {
        assert(r@ =~= head@ + text@ + rest@);
        lemma_encode_utf8_concat(head@ + text@, rest@);
        lemma_encode_utf8_concat(head@, text@);
        assert(encode_utf8(rest@) =~= bytes.subrange(end as int, bytes.len() as int));
    }
    r
}

/// The first line of the text in `start..end` (empty when there is none).
pub open spec fn first_line_of(text: Seq<char>, start: int, end: int) -> Seq<char> {
    let ls = lines_of(decode_utf8(encode_utf8(text).subrange(start, end)));
    if ls.len() > 0 {
        ls[0]
    } else {
        Seq::empty()
    }
}

/// The file content a correction produces from the model's reply: for a
/// section, the trimmed reply in place of the section (nothing when the
/// reply is blank); for a narrative, the reply as comments with the prefix
/// of the narrative's first line.
pub open spec fn corrected(kind: CorrectionKind, original: Seq<char>, start: int, end: int, reply: Seq<char>) -> Option<Seq<u8>> {
    match kind {
        CorrectionKind::Section => if trim_seq(reply).len() == 0 {
            None
        } else {
            Some(spliced(encode_utf8(original), start, end, encode_utf8(trim_seq(reply))))
        },
        CorrectionKind::Narrative => Some(
            spliced(
                encode_utf8(original),
                start,
                end,
                encode_utf8(comment_lines(lines_of(reply), narrative_prefix(first_line_of(original, start, end)))),
            ),
        ),
    }
}

/// The content of the corrected file, when the reply makes one.
pub fn corrected_content(kind: CorrectionKind, original: &str, start: usize, end: usize, reply: &str) -> (r: Option<String>)
    requires
        valid_range(original@, start as int, end as int),
    ensures
        match corrected(kind, original@, start as int, end as int, reply@) {
            Some(b) => r matches Some(s) && encode_utf8(s@) == b,
            None => r is None,
        },
{
    match kind {
        CorrectionKind::Section => {
            let t = trim(&chars_of(reply));
            if t.len() == 0 {
                None
            } else {
                let body = string_of(&t);
                Some(splice(original, start, end, body.as_str()))
            }
        },
        CorrectionKind::Narrative => {
            let ghost bytes = encode_utf8(original@);
            proof {
                vstd::utf8::encode_utf8_valid_utf8(original@);
                lemma_boundary_in_suffix(bytes, start as int, end as int);
            }
            let (_head, tail) = original.split_at(start);
            let (middle, _rest) = tail.split_at(end - start);
            proof {
                assert(encode_utf8(middle@) =~= bytes.subrange(start as int, end as int));
                vstd::utf8::encode_utf8_decode_utf8(middle@);
            }
            let lines = split_lines(&chars_of(middle));
            let first = if lines.len() > 0 {
                string_of(&lines[0])
            } else {
                String::new()
            };
            proof {
                if lines.len() > 0 {
                    assert(lines@[0]@ == lines_of(middle@)[0]);
                }
            }
            let prefix = comment_prefix_for(first.as_str());
            let comments = format_as_comments(reply, prefix);
            Some(splice(original, start, end, comments.as_str()))
        },
    }
}

} // verus!
