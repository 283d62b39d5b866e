//! Assembling typed blocks out of a stream of Markdown events.
//!
//! Elements that are open stand on a stack. Headings, code blocks, tables and
//! images become blocks of their own when they close. Everything else is
//! running text: it is gathered, and becomes one `Text` block at the next
//! structural boundary.

use vstd::prelude::*;
use vstd::string::*;

use crate::block::{BlockKindView, BlockLocation, BlockView};
use crate::text::{joined, optional_text, trimmed};

verus! {

/// The tag of a Markdown element.
#[derive(Clone, Copy, Debug, PartialEq, Eq, Structural)]
pub enum ElementTag {
    Paragraph,
    Heading(u8),
    BlockQuote,
    CodeBlock,
    List,
    Item,
    Table,
    TableHead,
    TableRow,
    TableCell,
    Image,
    Other,
}

/// One event of a Markdown document.
#[derive(Clone, Debug, PartialEq, Eq)]
pub enum MarkdownEvent {
    /// An element opens. A fenced code block carries the text behind its
    /// fence, an image its address.
    Start(ElementTag, Option<String>),
    /// An element closes.
    End(ElementTag),
    /// Text.
    Text(String),
    /// Inline code.
    Code(String),
    /// A line of an HTML block.
    Html(String),
    SoftBreak,
    HardBreak,
    /// Anything that contributes nothing.
    Other,
}

/// The mathematical value of a [`MarkdownEvent`].
#[verifier::ext_equal]
pub enum EventView {
    Start(ElementTag, Option<Seq<char>>),
    End(ElementTag),
    Text(Seq<char>),
    Code(Seq<char>),
    Html(Seq<char>),
    SoftBreak,
    HardBreak,
    Other,
}

impl View for MarkdownEvent {
    type V = EventView;

    open spec fn view(&self) -> EventView {
        match self {
            MarkdownEvent::Start(tag, detail) => EventView::Start(*tag, optional_text(*detail)),
            MarkdownEvent::End(tag) => EventView::End(*tag),
            MarkdownEvent::Text(t) => EventView::Text(t@),
            MarkdownEvent::Code(t) => EventView::Code(t@),
            MarkdownEvent::Html(t) => EventView::Html(t@),
            MarkdownEvent::SoftBreak => EventView::SoftBreak,
            MarkdownEvent::HardBreak => EventView::HardBreak,
            MarkdownEvent::Other => EventView::Other,
        }
    }
}

/// The values of a run of events, each with the byte at which it starts.
pub open spec fn event_views(events: Seq<(MarkdownEvent, usize)>) -> Seq<(EventView, int)> {
    events.map_values(|e: (MarkdownEvent, usize)| (e.0@, e.1 as int))
}

// ---------------------------------------------------------------------------
// The model
// ---------------------------------------------------------------------------

/// The location of the block that starts at byte `offset`: the page of the
/// last entry that starts at or before it, or of the first entry.
pub open spec fn page_at(pages: Seq<(usize, u32)>, offset: int) -> Option<BlockLocation>
    decreases pages.len(),
{
    if pages.len() == 0 {
        None
    } else if pages.len() == 1 || pages.last().0 <= offset {
        Some(BlockLocation { page: Some(pages.last().1) })
    } else {
        page_at(pages.drop_last(), offset)
    }
}

/// What an open element is.
#[verifier::ext_equal]
pub enum ElementKindView {
    Heading { level: int },
    Paragraph,
    Code { language: Option<Seq<char>> },
    Quote,
    List,
    Table,
    Image { src: Option<Seq<char>> },
}

/// An open element: what it is, the byte at which it starts, and what has been
/// gathered for it.
#[verifier::ext_equal]
pub struct ElementView {
    pub kind: ElementKindView,
    pub start: int,
    pub text: Seq<Seq<char>>,
    pub headers: Seq<Seq<char>>,
    pub rows: Seq<Seq<Seq<char>>>,
    pub row: Seq<Seq<char>>,
    pub cell: Seq<Seq<char>>,
    pub in_head: bool,
}

/// The state of the assembly: the finished blocks, the open elements, and the
/// running text gathered so far with the first byte that contributed to it.
#[verifier::ext_equal]
pub struct AssemblyView {
    pub blocks: Seq<BlockView>,
    pub open: Seq<ElementView>,
    pub running: Seq<Seq<char>>,
    pub running_start: Option<int>,
}

/// An element that has just opened.
pub open spec fn opened(kind: ElementKindView, start: int) -> ElementView {
    ElementView {
        kind,
        start,
        text: Seq::empty(),
        headers: Seq::empty(),
        rows: Seq::empty(),
        row: Seq::empty(),
        cell: Seq::empty(),
        in_head: false,
    }
}

/// `s` with one more block, numbered by its position.
pub open spec fn emitted(
    s: AssemblyView,
    kind: BlockKindView,
    text: Seq<char>,
    location: Option<BlockLocation>,
) -> AssemblyView {
    AssemblyView {
        blocks: s.blocks.push(BlockView { seq: s.blocks.len() as int, kind, text, location }),
        ..s
    }
}

/// `s` with one more block where `text` is not empty.
pub open spec fn emitted_nonempty(
    s: AssemblyView,
    kind: BlockKindView,
    text: Seq<char>,
    location: Option<BlockLocation>,
) -> AssemblyView {
    if text.len() == 0 {
        s
    } else {
        emitted(s, kind, text, location)
    }
}

/// `s` with `text`, which starts at byte `start`, added to the running text.
pub open spec fn gathered(s: AssemblyView, text: Seq<char>, start: int) -> AssemblyView {
    if text.len() == 0 {
        s
    } else {
        AssemblyView {
            running: s.running.push(text),
            running_start: match s.running_start {
                Some(first) if first <= start => Some(first),
                _ => Some(start),
            },
            ..s
        }
    }
}

/// `s` with its running text turned into one block, paragraphs apart.
pub open spec fn flushed(s: AssemblyView, pages: Seq<(usize, u32)>) -> AssemblyView {
    let bare = AssemblyView { running: Seq::empty(), running_start: None, ..s };
    if s.running.len() == 0 {
        bare
    } else {
        emitted(
            bare,
            BlockKindView::Text,
            joined(s.running, "\n\n"@),
            match s.running_start {
                Some(offset) => page_at(pages, offset),
                None => None,
            },
        )
    }
}

/// `s` with one more open element.
pub open spec fn with_open(s: AssemblyView, kind: ElementKindView, start: int) -> AssemblyView {
    AssemblyView { open: s.open.push(opened(kind, start)), ..s }
}

/// `s` without its innermost open element.
pub open spec fn closed_last(s: AssemblyView) -> AssemblyView {
    AssemblyView { open: s.open.drop_last(), ..s }
}

/// `s` with its innermost open element replaced by `e`.
pub open spec fn with_last(s: AssemblyView, e: ElementView) -> AssemblyView {
    AssemblyView { open: s.open.drop_last().push(e), ..s }
}

/// `e` with one more piece of text: tables gather per cell.
pub open spec fn with_piece(e: ElementView, piece: Seq<char>) -> ElementView {
    if e.kind is Table {
        ElementView { cell: e.cell.push(piece), ..e }
    } else {
        ElementView { text: e.text.push(piece), ..e }
    }
}

/// The language a fence names: the text behind it, trimmed, unless empty.
pub open spec fn fence_language(info: Option<Seq<char>>) -> Option<Seq<char>> {
    match info {
        Some(t) if trimmed(t).len() > 0 => Some(trimmed(t)),
        _ => None,
    }
}

/// `s` with every `|` escaped by a backslash.
pub open spec fn pipe_escaped(s: Seq<char>) -> Seq<char>
    decreases s.len(),
{
    if s.len() == 0 {
        Seq::empty()
    } else if s.last() == '|' {
        pipe_escaped(s.drop_last()).push('\\').push('|')
    } else {
        pipe_escaped(s.drop_last()).push(s.last())
    }
}

/// The number of cells of the widest row.
pub open spec fn widest(rows: Seq<Seq<Seq<char>>>) -> nat
    decreases rows.len(),
{
    if rows.len() == 0 {
        0
    } else if widest(rows.drop_last()) >= rows.last().len() {
        widest(rows.drop_last())
    } else {
        rows.last().len()
    }
}

/// The number of columns of a table: that of its widest line.
pub open spec fn column_count(headers: Seq<Seq<char>>, rows: Seq<Seq<Seq<char>>>) -> nat {
    if widest(rows) >= headers.len() {
        widest(rows)
    } else {
        headers.len()
    }
}

/// `cells` escaped, and filled up with empty cells to `columns`.
pub open spec fn padded(cells: Seq<Seq<char>>, columns: nat) -> Seq<Seq<char>> {
    Seq::new(
        columns,
        |i: int|
            if i < cells.len() {
                pipe_escaped(cells[i])
            } else {
                Seq::empty()
            },
    )
}

/// One line of a table in pipe syntax.
pub open spec fn table_line(cells: Seq<Seq<char>>, columns: nat) -> Seq<char> {
    "| "@ + joined(padded(cells, columns), " | "@) + " |"@
}

/// The line between the header and the body of a table.
pub open spec fn table_rule(columns: nat) -> Seq<char> {
    "|"@ + joined(Seq::new(columns, |i: int| " --- "@), "|"@) + "|"@
}

/// A table in pipe syntax: header, rule, and one line per row.
pub open spec fn table_text(headers: Seq<Seq<char>>, rows: Seq<Seq<Seq<char>>>) -> Seq<char> {
    let columns = column_count(headers, rows);
    if columns == 0 {
        Seq::empty()
    } else {
        joined(
            seq![table_line(headers, columns), table_rule(columns)] + rows.map_values(
                |r: Seq<Seq<char>>| table_line(r, columns),
            ),
            "\n"@,
        )
    }
}

/// `s` with the text of every open element, innermost first, moved to the
/// running text, and nothing left open.
pub open spec fn drained(s: AssemblyView) -> AssemblyView
    decreases s.open.len(),
{
    if s.open.len() == 0 {
        s
    } else {
        let e = s.open.last();
        drained(gathered(closed_last(s), joined(e.text, " "@), e.start))
    }
}

/// The state after an element opens.
pub open spec fn after_start(
    s: AssemblyView,
    tag: ElementTag,
    detail: Option<Seq<char>>,
    offset: int,
    pages: Seq<(usize, u32)>,
) -> AssemblyView {
    match tag {
        ElementTag::Heading(level) => with_open(
            flushed(s, pages),
            ElementKindView::Heading { level: level as int },
            offset,
        ),
        ElementTag::Paragraph => with_open(s, ElementKindView::Paragraph, offset),
        ElementTag::CodeBlock => with_open(
            flushed(s, pages),
            ElementKindView::Code { language: fence_language(detail) },
            offset,
        ),
        ElementTag::BlockQuote => with_open(s, ElementKindView::Quote, offset),
        ElementTag::List => with_open(s, ElementKindView::List, offset),
        ElementTag::Table => with_open(flushed(s, pages), ElementKindView::Table, offset),
        ElementTag::Image => with_open(
            flushed(s, pages),
            ElementKindView::Image { src: detail },
            offset,
        ),
        ElementTag::TableHead => if s.open.len() == 0 {
            s
        } else {
            with_last(s, ElementView { in_head: true, ..s.open.last() })
        },
        ElementTag::Item => if s.open.len() > 0 && s.open.last().kind is List
            && s.open.last().text.len() > 0 {
            with_last(s, with_piece(s.open.last(), "\n"@))
        } else {
            s
        },
        _ => s,
    }
}

/// The state after a paragraph closes: inside a quote or a list its text goes
/// to the parent, elsewhere to the running text.
pub open spec fn after_paragraph(s: AssemblyView) -> AssemblyView {
    let e = s.open.last();
    let outer = closed_last(s);
    let text = joined(e.text, ""@);
    if !(e.kind is Paragraph) {
        s
    } else if outer.open.len() > 0 && (outer.open.last().kind is Quote || outer.open.last().kind
        is List) {
        let parent = outer.open.last();
        if parent.text.len() > 0 {
            with_last(outer, with_piece(with_piece(parent, " "@), text))
        } else {
            with_last(outer, with_piece(parent, text))
        }
    } else {
        gathered(outer, text, e.start)
    }
}

/// `e` with its open cell finished: trimmed, and added to the header or to the
/// open row.
pub open spec fn with_cell_done(e: ElementView) -> ElementView {
    let cell = trimmed(joined(e.cell, ""@));
    if e.in_head {
        ElementView { cell: Seq::empty(), headers: e.headers.push(cell), ..e }
    } else {
        ElementView { cell: Seq::empty(), row: e.row.push(cell), ..e }
    }
}

/// The state after an element closes.
pub open spec fn after_end(
    s: AssemblyView,
    tag: ElementTag,
    pages: Seq<(usize, u32)>,
) -> AssemblyView {
    if s.open.len() == 0 {
        s
    } else {
        let e = s.open.last();
        let outer = closed_last(s);
        match tag {
            ElementTag::Heading(_) => emitted_nonempty(
                outer,
                BlockKindView::Heading {
                    level: match e.kind {
                        ElementKindView::Heading { level } => level,
                        _ => 1,
                    },
                },
                joined(e.text, ""@),
                page_at(pages, e.start),
            ),
            ElementTag::Paragraph => after_paragraph(s),
            ElementTag::CodeBlock => emitted_nonempty(
                outer,
                BlockKindView::Code {
                    language: match e.kind {
                        ElementKindView::Code { language } => language,
                        _ => None,
                    },
                },
                joined(e.text, ""@),
                page_at(pages, e.start),
            ),
            ElementTag::BlockQuote => gathered(outer, joined(e.text, " "@), e.start),
            ElementTag::List => gathered(outer, joined(e.text, "\n"@), e.start),
            ElementTag::Table => emitted_nonempty(
                outer,
                BlockKindView::Table { headers: e.headers, rows: e.rows.len() as int },
                table_text(e.headers, e.rows),
                page_at(pages, e.start),
            ),
            ElementTag::TableCell => with_last(s, with_cell_done(e)),
            ElementTag::TableHead => with_last(s, ElementView { in_head: false, ..e }),
            ElementTag::TableRow => if e.in_head {
                s
            } else {
                with_last(s, ElementView { rows: e.rows.push(e.row), row: Seq::empty(), ..e })
            },
            ElementTag::Image => emitted(
                outer,
                BlockKindView::Image {
                    alt: if joined(e.text, ""@).len() == 0 {
                        None
                    } else {
                        Some(joined(e.text, ""@))
                    },
                    src: match e.kind {
                        ElementKindView::Image { src } => src,
                        _ => None,
                    },
                },
                joined(e.text, ""@),
                page_at(pages, e.start),
            ),
            _ => s,
        }
    }
}

/// The state after the event `event`, which starts at byte `offset`.
pub open spec fn after_event(
    s: AssemblyView,
    event: EventView,
    offset: int,
    pages: Seq<(usize, u32)>,
) -> AssemblyView {
    match event {
        EventView::Start(tag, detail) => after_start(s, tag, detail, offset, pages),
        EventView::End(tag) => after_end(s, tag, pages),
        EventView::Text(t) | EventView::Code(t) => if s.open.len() == 0 {
            s
        } else {
            with_last(s, with_piece(s.open.last(), t))
        },
        EventView::SoftBreak | EventView::HardBreak => if s.open.len() == 0 {
            s
        } else {
            with_last(s, with_piece(s.open.last(), " "@))
        },
        EventView::Html(t) => gathered(drained(s), trimmed(t), offset),
        EventView::Other => s,
    }
}

/// The state after a run of events whose offsets count from byte `base`.
pub open spec fn after_events(
    s: AssemblyView,
    events: Seq<(EventView, int)>,
    base: int,
    pages: Seq<(usize, u32)>,
) -> AssemblyView
    decreases events.len(),
{
    if events.len() == 0 {
        s
    } else {
        let before = after_events(s, events.drop_last(), base, pages);
        after_event(before, events.last().0, base + events.last().1, pages)
    }
}

/// The state before the first event: the front matter, where there is one, is
/// the first block.
pub open spec fn initial(
    frontmatter: Option<Seq<char>>,
    pages: Seq<(usize, u32)>,
) -> AssemblyView {
    let empty = AssemblyView {
        blocks: Seq::empty(),
        open: Seq::empty(),
        running: Seq::empty(),
        running_start: None,
    };
    match frontmatter {
        Some(text) => emitted(
            empty,
            BlockKindView::Frontmatter { format: "yaml"@ },
            text,
            page_at(pages, 0),
        ),
        None => empty,
    }
}

/// The blocks of a document: its front matter, then what its events assemble.
pub open spec fn assembled(
    frontmatter: Option<Seq<char>>,
    events: Seq<(EventView, int)>,
    base: int,
    pages: Seq<(usize, u32)>,
) -> Seq<BlockView> {
    flushed(after_events(initial(frontmatter, pages), events, base, pages), pages).blocks
}

/// Whether the blocks can be numbered and the offsets counted with machine
/// integers.
pub open spec fn events_fit(events: Seq<(EventView, int)>, base: int) -> bool {
    &&& events.len() + 2 <= u32::MAX
    &&& forall|i: int| 0 <= i < events.len() ==> base + (#[trigger] events[i]).1 <= usize::MAX
}

} // verus!
