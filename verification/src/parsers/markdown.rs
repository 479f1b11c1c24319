//! Markdown: inline code spans and fenced code blocks as claims, and the
//! H2/H3 section structure of a document.
//!
//! The CommonMark parsing itself is `pulldown-cmark`'s; this module walks
//! the event stream it produces.
use vstd::prelude::*;
use vstd::utf8::{encode_utf8, is_char_boundary};
use pulldown_cmark::{CodeBlockKind, Event, Options, Parser, Tag, TagEnd};
use self::MdEvent::{CodeBlockEnd, CodeBlockStart, Code, HeadingEnd, HeadingStart, Other, Text};
use crate::domain::{ClaimKind, Location, SpecClaim};
use crate::text::{chars_of, push_char, push_str, trim, trim_seq};

verus! {

/// The events of the Markdown parse this module reads; everything else is
/// `Other`. Offsets are byte offsets into the source.
#[derive(Debug, Clone, PartialEq, Eq)]
pub enum MdEvent {
    HeadingStart { level: u8, start: usize },
    HeadingEnd,
    Text(String),
    Code { text: String, start: usize },
    CodeBlockStart { lang: String, start: usize },
    CodeBlockEnd,
    Other,
}

/// An [`MdEvent`] with its texts as character sequences.
pub enum MdEventView {
    HeadingStart { level: u8, start: usize },
    HeadingEnd,
    Text(Seq<char>),
    Code { text: Seq<char>, start: usize },
    CodeBlockStart { lang: Seq<char>, start: usize },
    CodeBlockEnd,
    Other,
}

impl MdEvent {
    pub open spec fn view(self) -> MdEventView {
        match self {
            MdEvent::HeadingStart { level, start } => MdEventView::HeadingStart { level, start },
            MdEvent::HeadingEnd => MdEventView::HeadingEnd,
            MdEvent::Text(t) => MdEventView::Text(t@),
            MdEvent::Code { text, start } => MdEventView::Code { text: text@, start },
            MdEvent::CodeBlockStart { lang, start } => MdEventView::CodeBlockStart { lang: lang@, start },
            MdEvent::CodeBlockEnd => MdEventView::CodeBlockEnd,
            MdEvent::Other => MdEventView::Other,
        }
    }
}

pub open spec fn event_views(v: Seq<MdEvent>) -> Seq<MdEventView> {
    v.map_values(|e: MdEvent| e.view())
}

/// The events `pulldown_cmark::Parser::new_ext(source, Options::all())`
/// yields, with their offsets, reduced to [`MdEventView`].
pub uninterp spec fn markdown_events(source: Seq<char>) -> Seq<MdEventView>;

/// Runs the `pulldown-cmark` parser (all extensions on) over `source`.
#[verifier::external_body]
pub(crate) fn parse_markdown(source: &str) -> (r: Vec<MdEvent>)
    ensures
        event_views(r@) == markdown_events(source@),
{
    let mut out = Vec::new();
    for (event, range) in Parser::new_ext(source, Options::all()).into_offset_iter() {
        let at = range.start;
        out.push(match event {
            Event::Start(Tag::Heading { level, .. }) => HeadingStart { level: level as u8, start: at },
            Event::End(TagEnd::Heading(_)) => HeadingEnd,
            Event::Text(t) => Text(t.to_string()),
            Event::Code(t) => Code { text: t.to_string(), start: at },
            Event::Start(Tag::CodeBlock(k)) => CodeBlockStart { lang: match k { CodeBlockKind::Fenced(l) => l.to_string(), _ => String::new() }, start: at },
            Event::End(TagEnd::CodeBlock) => CodeBlockEnd,
            _ => Other,
        });
    }
    out
}

// ---------------------------------------------------------------------------
// Lines of byte offsets
// ---------------------------------------------------------------------------

/// The number of newline bytes among the first `end` bytes.
pub open spec fn newlines_before(bytes: Seq<u8>, end: int) -> int
    decreases end,
{
    if end <= 0 || end > bytes.len() {
        0
    } else {
        newlines_before(bytes, end - 1) + if bytes[end - 1] == 10u8 {
            1int
        } else {
            0int
        }
    }
}

/// The 1-based line of byte `offset` (offsets past the end count as the end).
pub open spec fn line_at(bytes: Seq<u8>, offset: int) -> int {
    let end = if offset < bytes.len() {
        offset
    } else {
        bytes.len() as int
    };
    newlines_before(bytes, end) + 1
}

proof fn lemma_newlines_bounded(bytes: Seq<u8>, end: int)
    requires
        0 <= end <= bytes.len(),
    ensures
        0 <= newlines_before(bytes, end) <= end,
    decreases end,
{
    if end > 0 {
        lemma_newlines_bounded(bytes, end - 1);
    }
}

/// The 1-based line on which byte `offset` of `source` lies.
pub fn line_of_offset(source: &str, offset: usize) -> (l: u32)
    requires
        encode_utf8(source@).len() < 0xffff_ffff,
    ensures
        l == line_at(encode_utf8(source@), offset as int),
{
    let bytes = source.as_bytes();
    let ghost bs = encode_utf8(source@);
    assert(bytes@ == bs);
    let end = if offset < bytes.len() {
        offset
    } else {
        bytes.len()
    };
    let mut count: u32 = 0;
    let mut i: usize = 0;
    while i < end
        invariant
            bytes@ == bs,
            end <= bs.len(),
            bs.len() < 0xffff_ffff,
            i <= end,
            count == newlines_before(bs, i as int),
            count <= i,
        decreases end - i,
    {
        if bytes[i] == 10u8 {
            count = count + 1;
        }
        i = i + 1;
    }
    count + 1
}

// ---------------------------------------------------------------------------
// H2/H3 sections
// ---------------------------------------------------------------------------

/// Only whitespace (`str::trim` leaves nothing).
pub open spec fn blank(t: Seq<char>) -> bool {
    trim_seq(t).len() == 0
}

pub fn is_blank(t: &str) -> (b: bool)
    ensures
        b == blank(t@),
{
    let v = chars_of(t);
    trim(&v).len() == 0
}

/// The state of a walk over the events: the finished sections (text, line,
/// start offset, end offset), and the open section's text, line and start.
pub struct SectionWalk {
    pub done: Seq<(Seq<char>, int, int, int)>,
    pub text: Seq<char>,
    pub line: int,
    pub offset: int,
    pub in_heading: bool,
    pub level: int,
}

/// One event of the walk. An H2/H3 heading closes the open section when it
/// has text (else it only moves the open section's start there); heading
/// text ends in a newline, body text and code spans in a space.
pub open spec fn section_step(s: SectionWalk, e: MdEventView, bytes: Seq<u8>) -> SectionWalk {
    match e {
        MdEventView::HeadingStart { level, start } => if level == 2 || level == 3 {
            if !blank(s.text) {
                SectionWalk {
                    done: s.done.push((s.text, s.line, s.offset, start as int)),
                    text: Seq::empty(),
                    line: line_at(bytes, start as int),
                    offset: start as int,
                    in_heading: true,
                    level: level as int,
                }
            } else {
                SectionWalk {
                    line: line_at(bytes, start as int),
                    offset: start as int,
                    in_heading: true,
                    level: level as int,
                    ..s
                }
            }
        } else {
            s
        },
        MdEventView::HeadingEnd => SectionWalk { in_heading: false, level: 0, ..s },
        MdEventView::Text(t) => if s.in_heading && (s.level == 2 || s.level == 3) {
            SectionWalk { text: s.text + t + seq!['\n'], ..s }
        } else if !s.in_heading {
            SectionWalk { text: s.text + t + seq![' '], ..s }
        } else {
            s
        },
        MdEventView::Code { text, start } => SectionWalk {
            text: s.text + seq!['`'] + text + seq!['`', ' '],
            ..s
        },
        _ => s,
    }
}

pub open spec fn section_walk(events: Seq<MdEventView>, bytes: Seq<u8>) -> SectionWalk
    decreases events.len(),
{
    if events.len() == 0 {
        SectionWalk {
            done: Seq::empty(),
            text: Seq::empty(),
            line: 1,
            offset: 0,
            in_heading: false,
            level: 0,
        }
    } else {
        section_step(section_walk(events.drop_last(), bytes), events.last(), bytes)
    }
}

/// The walk over the whole of `source`.
pub open spec fn source_walk(source: Seq<char>) -> SectionWalk {
    section_walk(markdown_events(source), encode_utf8(source))
}

/// The sections of `source`: each H2/H3 heading starts one; text before the
/// first such heading forms a leading section on line 1. Sections without
/// text are dropped.
pub open spec fn sections_of(source: Seq<char>) -> Seq<(Seq<char>, int)> {
    sections_from(markdown_events(source), encode_utf8(source))
}

/// The sections an event stream over a text with bytes `bytes` makes.
pub open spec fn sections_from(events: Seq<MdEventView>, bytes: Seq<u8>) -> Seq<(Seq<char>, int)> {
    let w = section_walk(events, bytes);
    w.done.map_values(|d: (Seq<char>, int, int, int)| (d.0, d.1)) + if !blank(w.text) {
        seq![(w.text, w.line)]
    } else {
        Seq::empty()
    }
}

/// The byte ranges of the sections of `source`, with their lines. The last
/// one reaches the end of the source and is kept when it has text or is not
/// empty.
pub open spec fn section_ranges(source: Seq<char>) -> Seq<(int, int, int)> {
    let w = source_walk(source);
    let n = encode_utf8(source).len() as int;
    w.done.map_values(|d: (Seq<char>, int, int, int)| (d.1, d.2, d.3)) + if !blank(w.text) || w.offset
        < n {
        seq![(w.line, w.offset, n)]
    } else {
        Seq::empty()
    }
}

/// A section of Markdown delimited by H2/H3 headings.
pub struct Section {
    /// The section's heading, prose and code spans.
    pub text: String,
    /// The line of the heading (1 for the leading section).
    pub line: u32,
}

pub open spec fn done_views(v: Seq<(String, u32, usize, usize)>) -> Seq<(Seq<char>, int, int, int)> {
    v.map_values(|d: (String, u32, usize, usize)| (d.0@, d.1 as int, d.2 as int, d.3 as int))
}

struct Walk {
    done: Vec<(String, u32, usize, usize)>,
    text: String,
    line: u32,
    offset: usize,
}

fn walk_sections(source: &str) -> (w: Walk)
    requires
        encode_utf8(source@).len() < 0xffff_ffff,
    ensures
        done_views(w.done@) == source_walk(source@).done,
        w.text@ == source_walk(source@).text,
        w.line == source_walk(source@).line,
        w.offset == source_walk(source@).offset,
{
    let events = parse_markdown(source);
    walk_events(source, &events)
}

/// The section walk over `events`, the events of `source`.
fn walk_events(source: &str, events: &Vec<MdEvent>) -> (w: Walk)
    requires
        encode_utf8(source@).len() < 0xffff_ffff,
    ensures
        done_views(w.done@) == section_walk(event_views(events@), encode_utf8(source@)).done,
        w.text@ == section_walk(event_views(events@), encode_utf8(source@)).text,
        w.line == section_walk(event_views(events@), encode_utf8(source@)).line,
        w.offset == section_walk(event_views(events@), encode_utf8(source@)).offset,
{
    let ghost evs = event_views(events@);
    let ghost bytes = encode_utf8(source@);
    let mut done: Vec<(String, u32, usize, usize)> = Vec::new();
    let mut text = String::new();
    let mut line: u32 = 1;
    let mut offset: usize = 0;
    let mut in_heading = false;
    let mut level: u8 = 0;
    for i in 0..events.len()
        invariant
            evs == event_views(events@),
            bytes == encode_utf8(source@),
            encode_utf8(source@).len() < 0xffff_ffff,
            done_views(done@) == section_walk(evs.take(i as int), bytes).done,
            text@ == section_walk(evs.take(i as int), bytes).text,
            line == section_walk(evs.take(i as int), bytes).line,
            offset == section_walk(evs.take(i as int), bytes).offset,
            in_heading == section_walk(evs.take(i as int), bytes).in_heading,
            level == section_walk(evs.take(i as int), bytes).level,
    {
        proof {
            assert(evs.take(i + 1).drop_last() =~= evs.take(i as int));
            assert(evs.take(i + 1).last() == events@[i as int].view());
        }
        match &events[i] {
            MdEvent::HeadingStart { level: lvl, start } => {
                if *lvl == 2 || *lvl == 3 {
                    let l = line_of_offset(source, *start);
                    if !is_blank(text.as_str()) {
                        let mut finished = String::new();
                        std::mem::swap(&mut finished, &mut text);
                        let ghost before = done@;
                        done.push((finished, line, offset, *start));
                        assert(done_views(done@) =~= done_views(before).push(
                            (done@.last().0@, line as int, offset as int, *start as int),
                        ));
                    }
                    line = l;
                    offset = *start;
                    in_heading = true;
                    level = *lvl;
                }
            },
            MdEvent::HeadingEnd => {
                in_heading = false;
                level = 0;
            },
            MdEvent::Text(t) => {
                if in_heading && (level == 2 || level == 3) {
                    push_str(&mut text, t.as_str());
                    push_char(&mut text, '\n');
                } else if !in_heading {
                    push_str(&mut text, t.as_str());
                    push_char(&mut text, ' ');
                }
            },
            MdEvent::Code { text: t, start: _ } => {
                push_char(&mut text, '`');
                push_str(&mut text, t.as_str());
                push_char(&mut text, '`');
                push_char(&mut text, ' ');
                proof {
                    assert(text@ =~= section_walk(evs.take(i as int), bytes).text + seq!['`'] + t@
                        + seq!['`', ' ']);
                }
            },
            _ => {},
        }
    }
    assert(evs.take(events.len() as int) =~= evs);
    Walk { done, text, line, offset }
}

/// Split Markdown into sections delimited by H2/H3 headings. The section
/// `text` is the concatenation of every block in the section; `line` is the
/// source line of the heading (or 1 for the implicit leading section).
pub fn split_sections(source: &str) -> (r: Vec<Section>)
    requires
        encode_utf8(source@).len() < 0xffff_ffff,
    ensures
        r@.map_values(|s: Section| (s.text@, s.line as int)) == sections_of(source@),
{
    let events = parse_markdown(source);
    sections_from_events(source, &events)
}

/// The sections that the Markdown events `events` of `source` delimit.
pub fn sections_from_events(source: &str, events: &Vec<MdEvent>) -> (r: Vec<Section>)
    requires
        encode_utf8(source@).len() < 0xffff_ffff,
    ensures
        r@.map_values(|s: Section| (s.text@, s.line as int)) == sections_from(event_views(events@), encode_utf8(source@)),
{
    let w = walk_events(source, events);
    let ghost expected = sections_from(event_views(events@), encode_utf8(source@));
    let mut r: Vec<Section> = Vec::new();
    for i in 0..w.done.len()
        invariant
            expected == sections_from(event_views(events@), encode_utf8(source@)),
            done_views(w.done@) == section_walk(event_views(events@), encode_utf8(source@)).done,
            r@.len() == i,
            forall|k: int|
                0 <= k < i ==> (#[trigger] r@[k]).text@ == expected[k].0 && r@[k].line as int
                    == expected[k].1,
    {
        let t = w.done[i].0.clone();
        r.push(Section { text: t, line: w.done[i].1 });
        assert(done_views(w.done@)[i as int] == section_walk(event_views(events@), encode_utf8(source@)).done[i as int]);
    }
    if !is_blank(w.text.as_str()) {
        r.push(Section { text: w.text, line: w.line });
    }
    assert(r@.map_values(|s: Section| (s.text@, s.line as int)) =~= expected);
    r
}

/// The index of the first range on `line`, or the length when none is.
pub open spec fn first_on_line(rs: Seq<(int, int, int)>, line: int) -> int
    decreases rs.len(),
{
    if rs.len() == 0 {
        0
    } else if rs[0].0 == line {
        0
    } else {
        1 + first_on_line(rs.drop_first(), line)
    }
}

proof fn lemma_first_on_line(rs: Seq<(int, int, int)>, line: int, i: int)
    requires
        0 <= i <= rs.len(),
        forall|k: int| 0 <= k < i ==> (#[trigger] rs[k]).0 != line,
        i == rs.len() || rs[i].0 == line,
    ensures
        first_on_line(rs, line) == i,
    decreases rs.len(),
{
    if rs.len() > 0 && i > 0 {
        assert forall|k: int| 0 <= k < i - 1 implies (#[trigger] rs.drop_first()[k]).0 != line by {
            assert(rs[k + 1].0 != line);
        }
        lemma_first_on_line(rs.drop_first(), line, i - 1);
    }
}

/// What slicing the section that starts on `line` gives: its text and byte
/// range, when the first section on that line is a valid range of the source.
pub open spec fn sliced_section(source: Seq<char>, line: int) -> Option<(int, int)> {
    let rs = section_ranges(source);
    let k = first_on_line(rs, line);
    let bytes = encode_utf8(source);
    if k < rs.len() && 0 <= rs[k].1 <= rs[k].2 <= bytes.len() && is_char_boundary(bytes, rs[k].1)
        && is_char_boundary(bytes, rs[k].2) {
        Some((rs[k].1, rs[k].2))
    } else {
        None
    }
}

/// The text and byte range of the section that starts on `start_line`.
pub fn slice_markdown_section(source: &str, start_line: u32) -> (r: Option<(String, core::ops::Range<usize>)>)
    requires
        encode_utf8(source@).len() < 0xffff_ffff,
    ensures
        match sliced_section(source@, start_line as int) {
            Some((a, b)) => r matches Some((t, range)) && range.start == a && range.end == b
                && encode_utf8(t@) == encode_utf8(source@).subrange(a, b),
            None => r is None,
        },
{
    let w = walk_sections(source);
    let n = source.len();
    let ghost rs = section_ranges(source@);
    let mut ranges: Vec<(u32, usize, usize)> = Vec::new();
    for i in 0..w.done.len()
        invariant
            done_views(w.done@) == source_walk(source@).done,
            ranges@.len() == i,
            forall|k: int|
                0 <= k < i ==> (#[trigger] ranges@[k]).0 as int == rs[k].0 && ranges@[k].1 as int
                    == rs[k].1 && ranges@[k].2 as int == rs[k].2,
            rs == section_ranges(source@),
            w.text@ == source_walk(source@).text,
            w.line == source_walk(source@).line,
            w.offset == source_walk(source@).offset,
            n == encode_utf8(source@).len(),
    {
        ranges.push((w.done[i].1, w.done[i].2, w.done[i].3));
        assert(done_views(w.done@)[i as int] == source_walk(source@).done[i as int]);
    }
    proof {
        assert(done_views(w.done@).len() == w.done@.len());
    }
    if !is_blank(w.text.as_str()) || w.offset < n {
        ranges.push((w.line, w.offset, n));
    }
    assert(ranges@.len() == rs.len());
    let mut k: usize = 0;
    while k < ranges.len() && ranges[k].0 != start_line
        invariant
            k <= ranges.len(),
            ranges@.len() == rs.len(),
            forall|j: int|
                0 <= j < ranges@.len() ==> (#[trigger] ranges@[j]).0 as int == rs[j].0
                    && ranges@[j].1 as int == rs[j].1 && ranges@[j].2 as int == rs[j].2,
            forall|j: int| 0 <= j < k ==> (#[trigger] rs[j]).0 != start_line as int,
        decreases ranges.len() - k,
    {
        k = k + 1;
    }
    proof {
        lemma_first_on_line(rs, start_line as int, k as int);
    }
    if k == ranges.len() {
        return None;
    }
    let a = ranges[k].1;
    let b = ranges[k].2;
    if !(a <= b && b <= n && source.is_char_boundary(a) && source.is_char_boundary(b)) {
        return None;
    }
    let (_, tail) = source.split_at(a);
    proof {
        let bytes = encode_utf8(source@);
        vstd::utf8::encode_utf8_valid_utf8(source@);
        vstd::utf8::valid_utf8_split(bytes, a as int);
        let tb = bytes.subrange(a as int, bytes.len() as int);
        assert(encode_utf8(tail@) == tb);
        if b < n {
            vstd::utf8::is_char_boundary_iff_not_is_continuation_byte(bytes, b as int);
            vstd::utf8::is_char_boundary_iff_not_is_continuation_byte(tb, b - a);
            assert(tb[b - a] == bytes[b as int]);
        } else {
            vstd::utf8::is_char_boundary_start_end_of_seq(tb);
        }
        assert(is_char_boundary(tb, b - a));
    }
    let (mid, _) = tail.split_at(b - a);
    let text = mid.to_owned();
    assert(encode_utf8(text@) =~= encode_utf8(source@).subrange(a as int, b as int));
    Some((text, a..b))
}

// ---------------------------------------------------------------------------
// Claims and code blocks
// ---------------------------------------------------------------------------

/// The text a fenced code block contributes as a claim.
pub open spec fn block_label(lang: Seq<char>) -> Seq<char> {
    if lang.len() == 0 {
        "[fenced code block]"@
    } else {
        "[fenced code block: "@ + lang + "]"@
    }
}

/// The claims of an event stream: each inline code span, and each code
/// block's label, with the line it starts on.
pub open spec fn claims_from(events: Seq<MdEventView>, bytes: Seq<u8>) -> Seq<(int, Seq<char>)>
    decreases events.len(),
{
    if events.len() == 0 {
        Seq::empty()
    } else {
        let rest = claims_from(events.drop_last(), bytes);
        match events.last() {
            MdEventView::Code { text, start } => rest.push((line_at(bytes, start as int), text)),
            MdEventView::CodeBlockStart { lang, start } => rest.push(
                (line_at(bytes, start as int), block_label(lang)),
            ),
            _ => rest,
        }
    }
}

/// `claims` are the claims of `source`, all symbol claims located in `path`.
pub open spec fn claims_match(claims: Seq<SpecClaim>, path: Seq<char>, source: Seq<char>) -> bool {
    claims_match_events(claims, path, markdown_events(source), encode_utf8(source))
}

/// `claims` are the claims of the event stream `events` over a text with
/// bytes `bytes`, all symbol claims located in `path`.
pub open spec fn claims_match_events(claims: Seq<SpecClaim>, path: Seq<char>, events: Seq<MdEventView>, bytes: Seq<u8>) -> bool {
    let expected = claims_from(events, bytes);
    &&& claims.len() == expected.len()
    &&& forall|k: int|
        0 <= k < claims.len() ==> (#[trigger] claims[k]).location.file@ == path
            && claims[k].location.line as int == expected[k].0 && claims[k].kind == ClaimKind::Symbol
            && claims[k].text@ == expected[k].1
}

pub struct MarkdownParser;

impl MarkdownParser {
    /// Extract both inline code spans and fenced code blocks of `source` (the
    /// text of the Markdown file `path`) as [`SpecClaim`]s. Each claim carries
    /// its source line for precise drift-report anchors.
    pub fn parse(path: &str, source: &str) -> (claims: Vec<SpecClaim>)
        requires
            encode_utf8(source@).len() < 0xffff_ffff,
        ensures
            claims_match(claims@, path@, source@),
    {
        let events = parse_markdown(source);
        claims_from_events(path, source, &events)
    }
}

/// The claims that the Markdown events `events` of `source` (the text of
/// the file `path`) make.
pub fn claims_from_events(path: &str, source: &str, events: &Vec<MdEvent>) -> (claims: Vec<SpecClaim>)
    requires
        encode_utf8(source@).len() < 0xffff_ffff,
    ensures
        claims_match_events(claims@, path@, event_views(events@), encode_utf8(source@)),
{
    let ghost evs = event_views(events@);
    let ghost bytes = encode_utf8(source@);
    let mut claims: Vec<SpecClaim> = Vec::new();
    for i in 0..events.len()
        invariant
            evs == event_views(events@),
            bytes == encode_utf8(source@),
            encode_utf8(source@).len() < 0xffff_ffff,
            claims@.len() == claims_from(evs.take(i as int), bytes).len(),
            forall|k: int|
                0 <= k < claims@.len() ==> (#[trigger] claims@[k]).location.file@ == path@
                    && claims@[k].location.line as int == claims_from(evs.take(i as int), bytes)[k].0
                    && claims@[k].kind == ClaimKind::Symbol && claims@[k].text@ == claims_from(
                    evs.take(i as int),
                    bytes,
                )[k].1,
    {
        proof {
            assert(evs.take(i + 1).drop_last() =~= evs.take(i as int));
            assert(evs.take(i + 1).last() == events@[i as int].view());
        }
        match &events[i] {
            MdEvent::Code { text, start } => {
                let line = line_of_offset(source, *start);
                claims.push(
                    SpecClaim {
                        location: Location::new(path, line),
                        kind: ClaimKind::Symbol,
                        text: text.clone(),
                    },
                );
            },
            MdEvent::CodeBlockStart { lang, start } => {
                let line = line_of_offset(source, *start);
                let mut label = String::new();
                if lang.as_str().is_empty() {
                    push_str(&mut label, "[fenced code block]");
                } else {
                    push_str(&mut label, "[fenced code block: ");
                    push_str(&mut label, lang.as_str());
                    push_str(&mut label, "]");
                }
                claims.push(
                    SpecClaim {
                        location: Location::new(path, line),
                        kind: ClaimKind::Symbol,
                        text: label,
                    },
                );
            },
            _ => {},
        }
    }
    proof {
        assert(evs.take(events.len() as int) =~= evs);
    }
    claims
}

/// The code blocks of an event stream: each block's language tag (empty
/// when untagged) and the text inside it.
pub struct BlockWalk {
    pub blocks: Seq<(Seq<char>, Seq<char>)>,
    pub lang: Seq<char>,
    pub content: Seq<char>,
    pub in_block: bool,
}

pub open spec fn block_walk(events: Seq<MdEventView>) -> BlockWalk
    decreases events.len(),
{
    if events.len() == 0 {
        BlockWalk { blocks: Seq::empty(), lang: Seq::empty(), content: Seq::empty(), in_block: false }
    } else {
        let s = block_walk(events.drop_last());
        match events.last() {
            MdEventView::CodeBlockStart { lang, start } => BlockWalk {
                lang,
                content: Seq::empty(),
                in_block: true,
                ..s
            },
            MdEventView::CodeBlockEnd => if s.in_block {
                BlockWalk {
                    blocks: s.blocks.push((s.lang, s.content)),
                    content: Seq::empty(),
                    in_block: false,
                    ..s
                }
            } else {
                s
            },
            MdEventView::Text(t) => if s.in_block {
                BlockWalk { content: s.content + t, ..s }
            } else {
                s
            },
            _ => s,
        }
    }
}

pub struct MarkdownBlocks;

impl MarkdownBlocks {
    /// Extract fenced code blocks with their language tag and full content.
    /// Returns `(language, content)` pairs; the language is empty for
    /// untagged blocks.
    pub fn extract_code_blocks(source: &str) -> (blocks: Vec<(String, String)>)
        ensures
            blocks@.map_values(|b: (String, String)| (b.0@, b.1@)) == block_walk(
                markdown_events(source@),
            ).blocks,
    {
        let events = parse_markdown(source);
        code_blocks_from_events(&events)
    }
}

/// The fenced code blocks of the Markdown events `events`: each block's
/// language tag (empty when untagged) and its content.
pub fn code_blocks_from_events(events: &Vec<MdEvent>) -> (blocks: Vec<(String, String)>)
    ensures
        blocks@.map_values(|b: (String, String)| (b.0@, b.1@)) == block_walk(event_views(events@)).blocks,
{
    let ghost evs = event_views(events@);
    let mut blocks: Vec<(String, String)> = Vec::new();
    let mut lang = String::new();
    let mut content = String::new();
    let mut in_block = false;
    for i in 0..events.len()
        invariant
            evs == event_views(events@),
            blocks@.map_values(|b: (String, String)| (b.0@, b.1@)) == block_walk(
                evs.take(i as int),
            ).blocks,
            lang@ == block_walk(evs.take(i as int)).lang,
            content@ == block_walk(evs.take(i as int)).content,
            in_block == block_walk(evs.take(i as int)).in_block,
    {
        proof {
            assert(evs.take(i + 1).drop_last() =~= evs.take(i as int));
            assert(evs.take(i + 1).last() == events@[i as int].view());
        }
        match &events[i] {
            MdEvent::CodeBlockStart { lang: l, start: _ } => {
                lang = l.clone();
                content = String::new();
                in_block = true;
            },
            MdEvent::CodeBlockEnd => {
                if in_block {
                    let ghost before = blocks@;
                    let mut done = String::new();
                    std::mem::swap(&mut done, &mut content);
                    blocks.push((lang.clone(), done));
                    assert(blocks@.map_values(|b: (String, String)| (b.0@, b.1@)) =~= before.map_values(
                        |b: (String, String)| (b.0@, b.1@),
                    ).push((lang@, block_walk(evs.take(i as int)).content)));
                    in_block = false;
                }
            },
            MdEvent::Text(t) => {
                if in_block {
                    push_str(&mut content, t.as_str());
                }
            },
            _ => {},
        }
    }
    proof {
        assert(evs.take(events.len() as int) =~= evs);
    }
    blocks
}

} // verus!
