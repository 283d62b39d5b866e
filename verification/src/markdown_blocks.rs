//! Converting Markdown text to typed [`Block`]s, and deriving heading paths.

use pulldown_cmark::{CodeBlockKind, Event, Options, Parser, Tag, TagEnd};
use vstd::prelude::*;
use vstd::string::*;
use vstd::utf8::*;

use crate::block::{block_page, block_views, kind_name, Block, BlockKind, BlockKindView, BlockView};
use crate::ids::{content_hash, content_hash_of};
use crate::markdown_assembler::blocks_from_events;
use crate::markdown_events::{
    assembled, event_views, events_fit, ElementTag, EventView, MarkdownEvent,
};
use crate::text::{
    byte_len, chars_of, decimal, find_from, found, join, joined, lemma_encode_concat, occurs_at,
    optional_text, same_text, stands_at, text_of, texts, to_decimal,
};

verus! {

// ---------------------------------------------------------------------------
// Front matter
// ---------------------------------------------------------------------------

/// The YAML front matter at the very beginning of `s`, and the position at
/// which the rest begins. It opens with a line `---` that ends in `\n` or `\r\n`.
/// It runs to the next line `---` that ends in `\r\n`; where there is none, to the
/// next that ends in `\n`; and where there is none either, to a last line `---`
/// that has no line end. So a closing line with `\r\n` goes before an earlier one
/// with `\n`.
pub open spec fn frontmatter_of(s: Seq<char>) -> (Option<Seq<char>>, int) {
    let open: int = if occurs_at(s, "---\r\n"@, 0) {
        5
    } else if occurs_at(s, "---\n"@, 0) {
        4
    } else {
        0
    };
    if open == 0 {
        (None, 0)
    } else if let Some(p) = found(s, "\n---\r\n"@, open) {
        (Some(s.subrange(open, p)), p + 6)
    } else if let Some(p) = found(s, "\n---\n"@, open) {
        (Some(s.subrange(open, p)), p + 5)
    } else if let Some(p) = found(s, "\n---"@, open) {
        let last_line = s.subrange(p + 1, s.len() as int);
        if last_line == "---"@ || last_line == "---\r"@ {
            (Some(s.subrange(open, p)), s.len() as int)
        } else {
            (None, 0)
        }
    } else {
        (None, 0)
    }
}

/// Detects YAML front matter at the very beginning of `markdown`: its body,
/// where there is one, and the rest of the text.
pub fn extract_frontmatter(markdown: &str) -> (r: (Option<String>, &str))
    ensures
        optional_text(r.0) == frontmatter_of(markdown@).0,
        0 <= frontmatter_of(markdown@).1 <= markdown@.len(),
        r.1@ == markdown@.subrange(frontmatter_of(markdown@).1, markdown@.len() as int),
{
    let chars = chars_of(markdown);
    let n: usize = chars.len();
    proof {
        reveal_strlit("---\r\n");
        reveal_strlit("---\n");
        reveal_strlit("\n---\r\n");
        reveal_strlit("\n---\n");
        reveal_strlit("\n---");
        assert(markdown@.subrange(0, n as int) =~= markdown@);
    }
    let open: usize = if stands_at(chars.as_slice(), "---\r\n", 0) {
        5
    } else if stands_at(chars.as_slice(), "---\n", 0) {
        4
    } else {
        return (None, markdown);
    };
    if let Some(p) = find_from(chars.as_slice(), "\n---\r\n", open) {
        let body = text_of(chars.as_slice(), open, p);
        return (Some(body), markdown.substring_char(p + 6, n));
    }
    if let Some(p) = find_from(chars.as_slice(), "\n---\n", open) {
        let body = text_of(chars.as_slice(), open, p);
        return (Some(body), markdown.substring_char(p + 5, n));
    }
    if let Some(p) = find_from(chars.as_slice(), "\n---", open) {
        let last_line = markdown.substring_char(p + 1, n);
        if same_text(last_line, "---") || same_text(last_line, "---\r") {
            let body = text_of(chars.as_slice(), open, p);
            return (Some(body), markdown.substring_char(n, n));
        }
    }
    (None, markdown)
}

// ---------------------------------------------------------------------------
// Markdown events
// ---------------------------------------------------------------------------

/// The closing tag of a Markdown element.
#[verifier::external_type_specification]
#[verifier::external_body]
pub struct ExTagEnd(pulldown_cmark::TagEnd);

/// One event of a Markdown text.
#[verifier::external_type_specification]
#[verifier::external_body]
pub struct ExEvent<'a>(pulldown_cmark::Event<'a>);

/// The events of a Markdown text with tables, strikethrough, task lists and
/// definition lists, each with the byte at which it starts.
pub uninterp spec fn markdown_events(text: Seq<char>) -> Seq<(EventView, int)>;

/// What an event says.
pub uninterp spec fn event_value(event: pulldown_cmark::Event<'_>) -> EventView;

/// The element that a closing tag belongs to.
pub uninterp spec fn tag_value(tag: pulldown_cmark::TagEnd) -> ElementTag;

/// An event whose tag has not been told apart yet.
enum RawEvent {
    Start(pulldown_cmark::TagEnd, Option<String>),
    End(pulldown_cmark::TagEnd),
    Text(String),
    Code(String),
    Html(String),
    SoftBreak,
    HardBreak,
    Other,
}

spec fn raw_view(e: RawEvent) -> EventView {
    match e {
        RawEvent::Start(tag, detail) => EventView::Start(tag_value(tag), optional_text(detail)),
        RawEvent::End(tag) => EventView::End(tag_value(tag)),
        RawEvent::Text(t) => EventView::Text(t@),
        RawEvent::Code(t) => EventView::Code(t@),
        RawEvent::Html(t) => EventView::Html(t@),
        RawEvent::SoftBreak => EventView::SoftBreak,
        RawEvent::HardBreak => EventView::HardBreak,
        RawEvent::Other => EventView::Other,
    }
}

/// `pulldown_cmark::Parser::new_ext` with tables, strikethrough, task lists and
/// definition lists, run through `into_offset_iter`: the events of `text` in
/// order, each with the start of its range. They depend on the text alone.
#[verifier::external_body]
fn parse_events(text: &str) -> (r: Vec<(Event<'_>, usize)>)
    ensures
        r@.map_values(|e: (Event<'_>, usize)| (event_value(e.0), e.1 as int)) == markdown_events(
            text@,
        ),
{
    let tables = Options::ENABLE_TABLES | Options::ENABLE_STRIKETHROUGH;
    let opts = tables | Options::ENABLE_TASKLISTS | Options::ENABLE_DEFINITION_LIST;
    let events = Parser::new_ext(text, opts).into_offset_iter();
    events.map(|(event, range)| (event, range.start)).collect()
}

/// Tells the variants of `pulldown_cmark::Event` apart. The start of a fenced
/// code block comes with its info string, that of an image with its address.
#[verifier::external_body]
fn open_event(event: Event<'_>) -> (r: RawEvent)
    ensures
        raw_view(r) == event_value(event),
{
    match event {
        Event::Start(Tag::CodeBlock(CodeBlockKind::Fenced(t))) => RawEvent::Start(TagEnd::CodeBlock, Some(t.into_string())),
        Event::Start(Tag::Image { dest_url, .. }) => RawEvent::Start(TagEnd::Image, Some(dest_url.into_string())),
        Event::Start(tag) => RawEvent::Start(tag.to_end(), None),
        Event::End(tag) => RawEvent::End(tag),
        Event::Text(t) => RawEvent::Text(t.into_string()),
        Event::Code(t) => RawEvent::Code(t.into_string()),
        Event::Html(t) => RawEvent::Html(t.into_string()),
        Event::SoftBreak => RawEvent::SoftBreak,
        Event::HardBreak => RawEvent::HardBreak,
        _ => RawEvent::Other,
    }
}

/// Tells the variants of `pulldown_cmark::TagEnd` apart.
#[verifier::external_body]
fn element_tag(tag: TagEnd) -> (r: ElementTag)
    ensures
        r == tag_value(tag),
{
    match tag {
        TagEnd::Paragraph => ElementTag::Paragraph,
        TagEnd::Heading(level) => ElementTag::Heading(level as u8),
        TagEnd::BlockQuote(_) => ElementTag::BlockQuote,
        TagEnd::CodeBlock => ElementTag::CodeBlock,
        TagEnd::List(_) => ElementTag::List,
        TagEnd::Item => ElementTag::Item,
        TagEnd::Table => ElementTag::Table,
        TagEnd::TableHead => ElementTag::TableHead,
        TagEnd::TableRow => ElementTag::TableRow,
        TagEnd::TableCell => ElementTag::TableCell,
        TagEnd::Image => ElementTag::Image,
        _ => ElementTag::Other,
    }
}

/// The events of a Markdown text, each with the byte at which it starts.
fn read_events(text: &str) -> (r: Vec<(MarkdownEvent, usize)>)
    ensures
        event_views(r@) == markdown_events(text@),
{
    let parsed = parse_events(text);
    let ghost all = markdown_events(text@);
    let mut out: Vec<(MarkdownEvent, usize)> = Vec::new();
    for entry in it: parsed
        invariant
            it.seq() == parsed@,
            all == parsed@.map_values(
                |e: (Event<'_>, usize)| (event_value(e.0), e.1 as int),
            ),
            event_views(out@) == all.take(it.index() as int),
    {
        let ghost i = it.index();
        let ghost before = event_views(out@);
        let event = match open_event(entry.0) {
            RawEvent::Start(tag, detail) => MarkdownEvent::Start(element_tag(tag), detail),
            RawEvent::End(tag) => MarkdownEvent::End(element_tag(tag)),
            RawEvent::Text(t) => MarkdownEvent::Text(t),
            RawEvent::Code(t) => MarkdownEvent::Code(t),
            RawEvent::Html(t) => MarkdownEvent::Html(t),
            RawEvent::SoftBreak => MarkdownEvent::SoftBreak,
            RawEvent::HardBreak => MarkdownEvent::HardBreak,
            RawEvent::Other => MarkdownEvent::Other,
        };
        out.push((event, entry.1));
        proof {
            assert(entry == parsed@[i]);
            assert(all[i] == (event_value(entry.0), entry.1 as int));
            assert(event@ == event_value(entry.0));
            assert(event_views(out@) =~= before.push((event@, entry.1 as int)));
            assert(all.take(i + 1) =~= before.push(all[i]));
        }
    }
    proof {
        assert(all.take(parsed@.len() as int) =~= all);
    }
    out
}

// ---------------------------------------------------------------------------
// Blocks
// ---------------------------------------------------------------------------

/// The text of `markdown` behind its front matter.
pub open spec fn body_of(markdown: Seq<char>) -> Seq<char> {
    markdown.subrange(frontmatter_of(markdown).1, markdown.len() as int)
}

/// The byte of `markdown` at which the text behind its front matter begins.
pub open spec fn body_start(markdown: Seq<char>) -> int {
    encode_utf8(markdown).len() - encode_utf8(body_of(markdown)).len()
}

/// The blocks of a Markdown text: its front matter, then what the events of
/// the rest assemble.
pub open spec fn markdown_blocks(markdown: Seq<char>, pages: Seq<(usize, u32)>) -> Seq<BlockView> {
    assembled(
        frontmatter_of(markdown).0,
        markdown_events(body_of(markdown)),
        body_start(markdown),
        pages,
    )
}

/// The front matter, the events of the rest, and the byte at which it begins.
fn read_markdown(markdown: &str) -> (r: (Option<String>, Vec<(MarkdownEvent, usize)>, usize))
    ensures
        optional_text(r.0) == frontmatter_of(markdown@).0,
        event_views(r.1@) == markdown_events(body_of(markdown@)),
        r.2 == body_start(markdown@),
{
    let (frontmatter, rest) = extract_frontmatter(markdown);
    proof {
        let at = frontmatter_of(markdown@).1;
        lemma_encode_concat(markdown@.subrange(0, at), rest@);
        assert(markdown@.subrange(0, at) + rest@ =~= markdown@);
    }
    let base: usize = byte_len(markdown) - byte_len(rest);
    (frontmatter, read_events(rest), base)
}

/// Converts Markdown text to blocks, numbered from 0 and without locations.
pub fn markdown_to_blocks(markdown: &str) -> (r: Vec<Block>)
    requires
        events_fit(markdown_events(body_of(markdown@)), body_start(markdown@)),
    ensures
        block_views(r@) == markdown_blocks(markdown@, Seq::empty()),
{
    let none: Vec<(usize, u32)> = Vec::new();
    proof {
        assert(none@ =~= Seq::empty());
    }
    markdown_to_blocks_with_pages(markdown, none.as_slice())
}

/// Converts Markdown text to blocks, and gives each block the page on which its
/// first contributing byte stands. `page_starts` holds the first byte and the
/// number of each page, ascending.
pub fn markdown_to_blocks_with_pages(markdown: &str, page_starts: &[(usize, u32)]) -> (r: Vec<
    Block,
>)
    requires
        events_fit(markdown_events(body_of(markdown@)), body_start(markdown@)),
    ensures
        block_views(r@) == markdown_blocks(markdown@, page_starts@),
{
    let (frontmatter, events, base) = read_markdown(markdown);
    blocks_from_events(frontmatter, events, base, page_starts)
}

/// Whether the blocks of a text can be numbered and its bytes counted with
/// machine integers.
pub fn markdown_fits(markdown: &str) -> (r: bool)
    ensures
        r == events_fit(markdown_events(body_of(markdown@)), body_start(markdown@)),
{
    let (_, events, base) = read_markdown(markdown);
    let ghost views = event_views(events@);
    let n: usize = events.len();
    if n > 4_294_967_293 {
        return false;
    }
    let mut i: usize = 0;
    while i < n
        invariant
            0 <= i <= n,
            n == events@.len(),
            views == event_views(events@),
            views == markdown_events(body_of(markdown@)),
            base == body_start(markdown@),
            forall|k: int| 0 <= k < i ==> base + (#[trigger] views[k]).1 <= usize::MAX,
        decreases n - i,
    {
        if events[i].1 > usize::MAX - base {
            proof {
                assert(views[i as int].1 == events@[i as int].1);
            }
            return false;
        }
        i += 1;
    }
    true
}

/// [`markdown_to_blocks`], or `None` for a text of so many events that its
/// blocks could not be numbered.
pub fn try_markdown_to_blocks(markdown: &str) -> (r: Option<Vec<Block>>)
    ensures
        r is Some == events_fit(markdown_events(body_of(markdown@)), body_start(markdown@)),
        r matches Some(blocks) ==> block_views(blocks@) == markdown_blocks(
            markdown@,
            Seq::empty(),
        ),
{
    if markdown_fits(markdown) {
        Some(markdown_to_blocks(markdown))
    } else {
        None
    }
}

/// [`markdown_to_blocks_with_pages`], or `None` for a text of so many events
/// that its blocks could not be numbered.
pub fn try_markdown_to_blocks_with_pages(
    markdown: &str,
    page_starts: &[(usize, u32)],
) -> (r: Option<Vec<Block>>)
    ensures
        r is Some == events_fit(markdown_events(body_of(markdown@)), body_start(markdown@)),
        r matches Some(blocks) ==> block_views(blocks@) == markdown_blocks(
            markdown@,
            page_starts@,
        ),
{
    if markdown_fits(markdown) {
        Some(markdown_to_blocks_with_pages(markdown, page_starts))
    } else {
        None
    }
}

// ---------------------------------------------------------------------------
// Content hash
// ---------------------------------------------------------------------------

/// What one block contributes to the content hash: its kind, its text, and its
/// page where it has one.
pub open spec fn hash_entry(b: BlockView) -> Seq<char> {
    let base = kind_name(b.kind) + ":"@ + b.text;
    match block_page(b) {
        Some(page) => base + "\x01p"@ + decimal(page as int),
        None => base,
    }
}

/// The text that is hashed for a run of blocks.
pub open spec fn hash_input(blocks: Seq<BlockView>) -> Seq<char> {
    joined(blocks.map_values(|b: BlockView| hash_entry(b)), "\x00"@)
}

/// The content hash of a run of blocks: kind, text and page of each, with
/// separators. A repagination of unchanged text changes what is hashed.
pub fn compute_blocks_hash(blocks: &[Block]) -> (r: String)
    ensures
        r@ == content_hash_of(hash_input(block_views(blocks@))),
        r@.len() == 64,
{
    let ghost entries = block_views(blocks@).map_values(|b: BlockView| hash_entry(b));
    let mut out: Vec<String> = Vec::new();
    let n: usize = blocks.len();
    let mut i: usize = 0;
    while i < n
        invariant
            0 <= i <= n,
            n == blocks@.len(),
            entries == block_views(blocks@).map_values(|b: BlockView| hash_entry(b)),
            texts(out@) =~= entries.take(i as int),
        decreases n - i,
    {
        let b = &blocks[i];
        let mut entry = b.kind.kind_str().to_owned();
        entry.append(":");
        entry.append(b.text.as_str());
        if let Some(location) = &b.location {
            if let Some(page) = location.page {
                entry.append("\x01p");
                let digits = to_decimal(page as u64);
                entry.append(digits.as_str());
            }
        }
        let ghost before = texts(out@);
        out.push(entry);
        proof {
            assert(texts(out@) =~= before.push(entry@));
            assert(entries[i as int] == hash_entry(blocks@[i as int]@));
            assert(entry@ =~= hash_entry(blocks@[i as int]@));
        }
        i += 1;
    }
    proof {
        assert(entries.take(n as int) =~= entries);
    }
    let combined = join(out.as_slice(), "\x00");
    content_hash(combined.as_str())
}

// ---------------------------------------------------------------------------
// Heading paths
// ---------------------------------------------------------------------------

/// The level of a heading, forced into 1 to 6.
pub open spec fn heading_level(level: int) -> int {
    if level < 1 {
        1
    } else if level > 6 {
        6
    } else {
        level
    }
}

/// `path` below a heading of level `level`: it replaces what stands at its own
/// level and deeper, and levels that were skipped are empty.
pub open spec fn under_heading(path: Seq<Seq<char>>, level: int, text: Seq<char>) -> Seq<
    Seq<char>,
> {
    Seq::new(
        heading_level(level) as nat,
        |i: int|
            if i == heading_level(level) - 1 {
                text
            } else if i < path.len() {
                path[i]
            } else {
                Seq::empty()
            },
    )
}

/// The heading path made by the headings with `seq < target`.
pub open spec fn heading_path(blocks: Seq<BlockView>, target: int) -> Seq<Seq<char>>
    decreases blocks.len(),
{
    if blocks.len() == 0 {
        Seq::empty()
    } else {
        let before = heading_path(blocks.drop_last(), target);
        let b = blocks.last();
        match b.kind {
            BlockKindView::Heading { level } if b.seq < target => under_heading(
                before,
                level,
                b.text,
            ),
            _ => before,
        }
    }
}

/// The heading path active at block `target_seq`.
pub fn heading_path_from_blocks(blocks: &[Block], target_seq: u32) -> (r: Vec<String>)
    ensures
        texts(r@) == heading_path(block_views(blocks@), target_seq as int),
        r@.len() <= 6,
{
    let ghost views = block_views(blocks@);
    let mut path: Vec<String> = Vec::new();
    let n: usize = blocks.len();
    let mut i: usize = 0;
    proof {
        assert(texts(path@) =~= Seq::empty());
    }
    while i < n
        invariant
            0 <= i <= n,
            n == blocks@.len(),
            views == block_views(blocks@),
            texts(path@) == heading_path(views.take(i as int), target_seq as int),
            path@.len() <= 6,
        decreases n - i,
    {
        let b = &blocks[i];
        let ghost before = texts(path@);
        proof {
            let next = views.take(i + 1);
            assert(next.drop_last() =~= views.take(i as int));
            assert(next.last() == b@);
        }
        if b.seq < target_seq {
            if let BlockKind::Heading { level } = &b.kind {
                let lv: usize = if *level < 1 {
                    1
                } else if *level > 6 {
                    6
                } else {
                    *level as usize
                };
                path.truncate(lv - 1);
                while path.len() < lv - 1
                    invariant
                        lv == heading_level(*level as int),
                        path@.len() <= lv - 1,
                        forall|k: int|
                            0 <= k < path@.len() ==> #[trigger] path@[k]@ == (if k < before.len() {
                                before[k]
                            } else {
                                Seq::empty()
                            }),
                        path@.len() < lv - 1 ==> path@.len() >= before.len(),
                    decreases lv - 1 - path.len(),
                {
                    path.push(String::new());
                }
                path.push(b.text.clone());
                proof {
                    assert(texts(path@) =~= under_heading(before, *level as int, b.text@));
                }
            }
        }
        i += 1;
    }
    proof {
        assert(views.take(n as int) =~= views);
    }
    path
}

} // verus!
