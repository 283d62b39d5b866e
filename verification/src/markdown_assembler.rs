//! The machine that assembles blocks out of Markdown events.

use vstd::prelude::*;
use vstd::string::*;

use crate::block::{block_views, Block, BlockKind, BlockLocation};
use crate::markdown_events::{
    after_end, after_event, after_events, after_paragraph, after_start, assembled, closed_last,
    drained, emitted, emitted_nonempty, event_views, events_fit, flushed, gathered, initial, opened,
    padded, page_at, pipe_escaped, table_line, table_rule, table_text, widest, with_cell_done,
    with_last, with_open, with_piece, AssemblyView, ElementKindView, ElementTag, ElementView,
    EventView, MarkdownEvent,
};
use crate::text::{chars_of, join, joined, optional_text, texts, trim};

verus! {

/// What an open element is.
enum ElementKind {
    Heading { level: u8 },
    Paragraph,
    Code { language: Option<String> },
    Quote,
    List,
    Table,
    Image { src: Option<String> },
}

impl View for ElementKind {
    type V = ElementKindView;

    closed spec fn view(&self) -> ElementKindView {
        match self {
            ElementKind::Heading { level } => ElementKindView::Heading { level: *level as int },
            ElementKind::Paragraph => ElementKindView::Paragraph,
            ElementKind::Code { language } => ElementKindView::Code {
                language: optional_text(*language),
            },
            ElementKind::Quote => ElementKindView::Quote,
            ElementKind::List => ElementKindView::List,
            ElementKind::Table => ElementKindView::Table,
            ElementKind::Image { src } => ElementKindView::Image { src: optional_text(*src) },
        }
    }
}

/// The texts of the cells of a table, row by row.
spec fn row_texts(rows: Seq<Vec<String>>) -> Seq<Seq<Seq<char>>> {
    rows.map_values(|r: Vec<String>| texts(r@))
}

/// An open element and what has been gathered for it.
struct Element {
    kind: ElementKind,
    start: usize,
    text: Vec<String>,
    headers: Vec<String>,
    rows: Vec<Vec<String>>,
    row: Vec<String>,
    cell: Vec<String>,
    in_head: bool,
}

impl View for Element {
    type V = ElementView;

    closed spec fn view(&self) -> ElementView {
        ElementView {
            kind: self.kind@,
            start: self.start as int,
            text: texts(self.text@),
            headers: texts(self.headers@),
            rows: row_texts(self.rows@),
            row: texts(self.row@),
            cell: texts(self.cell@),
            in_head: self.in_head,
        }
    }
}

/// Adds `piece` to a run of texts.
fn push_text(v: &mut Vec<String>, piece: String)
    ensures
        texts(final(v)@) == texts(old(v)@).push(piece@),
{
    v.push(piece);
    proof {
        assert(texts(v@) =~= texts(old(v)@).push(piece@));
    }
}

impl Element {
    fn new(kind: ElementKind, start: usize) -> (r: Element)
        ensures
            r@ == opened(kind@, start as int),
    {
        let r = Element {
            kind,
            start,
            text: Vec::new(),
            headers: Vec::new(),
            rows: Vec::new(),
            row: Vec::new(),
            cell: Vec::new(),
            in_head: false,
        };
        proof {
            assert(r@ =~~= opened(kind@, start as int));
        }
        r
    }

    /// Adds a piece of text: tables gather per cell.
    fn add_piece(&mut self, piece: String)
        ensures
            final(self)@ == with_piece(old(self)@, piece@),
    {
        match self.kind {
            ElementKind::Table => push_text(&mut self.cell, piece),
            _ => push_text(&mut self.text, piece),
        }
    }

    /// Finishes the open cell of a table.
    fn finish_cell(&mut self)
        ensures
            final(self)@ == with_cell_done(old(self)@),
    {
        let whole = join(self.cell.as_slice(), "");
        let cell = trim(whole.as_str());
        self.cell = Vec::new();
        if self.in_head {
            push_text(&mut self.headers, cell);
        } else {
            push_text(&mut self.row, cell);
        }
        proof {
            assert(self@ =~~= with_cell_done(old(self)@));
        }
    }

    /// Finishes the open row of a table, outside of its header.
    fn finish_row(&mut self)
        ensures
            final(self)@ == (if old(self)@.in_head {
                old(self)@
            } else {
                ElementView {
                    rows: old(self)@.rows.push(old(self)@.row),
                    row: Seq::empty(),
                    ..old(self)@
                }
            }),
    {
        if !self.in_head {
            let mut row: Vec<String> = Vec::new();
            row.append(&mut self.row);
            self.rows.push(row);
            proof {
                assert(row@ =~= old(self).row@);
                assert(self@ =~~= (ElementView {
                    rows: old(self)@.rows.push(old(self)@.row),
                    row: Seq::empty(),
                    ..old(self)@
                }));
            }
        }
    }
}

/// The location of the block that starts at byte `offset`.
fn location_at(pages: &[(usize, u32)], offset: usize) -> (r: Option<BlockLocation>)
    ensures
        r == page_at(pages@, offset as int),
{
    let n: usize = pages.len();
    if n == 0 {
        return None;
    }
    let mut i: usize = n;
    proof {
        assert(pages@.take(n as int) =~= pages@);
    }
    while i > 1 && pages[i - 1].0 > offset
        invariant
            1 <= i <= n,
            n == pages@.len(),
            page_at(pages@, offset as int) == page_at(pages@.take(i as int), offset as int),
        decreases i,
    {
        proof {
            let now = pages@.take(i as int);
            assert(now.last() == pages@[i - 1]);
            assert(now.drop_last() =~= pages@.take(i - 1));
        }
        i -= 1;
    }
    proof {
        assert(pages@.take(i as int).last() == pages@[i - 1]);
    }
    Some(BlockLocation { page: Some(pages[i - 1].1) })
}

/// `s` with every `|` escaped by a backslash.
fn escape_pipes(s: &str) -> (r: String)
    ensures
        r@ == pipe_escaped(s@),
{
    let chars = chars_of(s);
    let n: usize = chars.len();
    let mut out = String::new();
    let mut i: usize = 0;
    while i < n
        invariant
            0 <= i <= n,
            n == chars@.len(),
            chars@ == s@,
            out@ == pipe_escaped(s@.take(i as int)),
        decreases n - i,
    {
        if chars[i] == '|' {
            out.push('\\');
        }
        out.push(chars[i]);
        proof {
            let next = s@.take(i + 1);
            assert(next.drop_last() =~= s@.take(i as int));
            assert(next.last() == s@[i as int]);
        }
        i += 1;
    }
    proof {
        assert(s@.take(n as int) =~= s@);
    }
    out
}

/// `open` + `middle` + `close`.
fn framed(open: &str, middle: &str, close: &str) -> (r: String)
    ensures
        r@ == open@ + middle@ + close@,
{
    let mut out = open.to_owned();
    out.append(middle);
    out.append(close);
    out
}

/// One line of a table in pipe syntax.
fn render_line(cells: &[String], columns: usize) -> (r: String)
    ensures
        r@ == table_line(texts(cells@), columns as nat),
{
    let mut out: Vec<String> = Vec::new();
    let n: usize = cells.len();
    let mut i: usize = 0;
    while i < columns
        invariant
            0 <= i <= columns,
            n == cells@.len(),
            texts(out@) == padded(texts(cells@), columns as nat).take(i as int),
        decreases columns - i,
    {
        let cell = if i < n {
            escape_pipes(cells[i].as_str())
        } else {
            String::new()
        };
        push_text(&mut out, cell);
        proof {
            assert(texts(out@) =~= padded(texts(cells@), columns as nat).take(i + 1));
        }
        i += 1;
    }
    proof {
        assert(padded(texts(cells@), columns as nat).take(columns as int) =~= padded(
            texts(cells@),
            columns as nat,
        ));
    }
    let middle = join(out.as_slice(), " | ");
    framed("| ", middle.as_str(), " |")
}

/// The line between the header and the body of a table.
fn render_rule(columns: usize) -> (r: String)
    ensures
        r@ == table_rule(columns as nat),
{
    let mut out: Vec<String> = Vec::new();
    let mut i: usize = 0;
    while i < columns
        invariant
            0 <= i <= columns,
            texts(out@) =~= Seq::new(i as nat, |k: int| " --- "@),
        decreases columns - i,
    {
        push_text(&mut out, " --- ".to_owned());
        i += 1;
    }
    let middle = join(out.as_slice(), "|");
    framed("|", middle.as_str(), "|")
}

/// A table in pipe syntax: header, rule, and one line per row.
fn render_table(headers: &[String], rows: &[Vec<String>]) -> (r: String)
    ensures
        r@ == table_text(texts(headers@), row_texts(rows@)),
{
    let n: usize = rows.len();
    let mut columns: usize = 0;
    let mut i: usize = 0;
    while i < n
        invariant
            0 <= i <= n,
            n == rows@.len(),
            columns == widest(row_texts(rows@).take(i as int)),
        decreases n - i,
    {
        if columns < rows[i].len() {
            columns = rows[i].len();
        }
        proof {
            let next = row_texts(rows@).take(i + 1);
            assert(next.drop_last() =~= row_texts(rows@).take(i as int));
            assert(next.last() == texts(rows@[i as int]@));
        }
        i += 1;
    }
    proof {
        assert(row_texts(rows@).take(n as int) =~= row_texts(rows@));
    }
    if columns < headers.len() {
        columns = headers.len();
    }
    if columns == 0 {
        return String::new();
    }
    let ghost body = row_texts(rows@).map_values(
        |r: Seq<Seq<char>>| table_line(r, columns as nat),
    );
    let ghost top = seq![table_line(texts(headers@), columns as nat), table_rule(columns as nat)];
    let mut lines: Vec<String> = Vec::new();
    push_text(&mut lines, render_line(headers, columns));
    push_text(&mut lines, render_rule(columns));
    proof {
        assert(texts(lines@) =~= top + body.take(0));
    }
    let mut k: usize = 0;
    while k < n
        invariant
            0 <= k <= n,
            n == rows@.len(),
            body == row_texts(rows@).map_values(
                |r: Seq<Seq<char>>| table_line(r, columns as nat),
            ),
            texts(lines@) == top + body.take(k as int),
        decreases n - k,
    {
        push_text(&mut lines, render_line(rows[k].as_slice(), columns));
        proof {
            assert(top + body.take(k + 1) =~= (top + body.take(k as int)).push(body[k as int]));
        }
        k += 1;
    }
    proof {
        assert(body.take(n as int) =~= body);
    }
    join(lines.as_slice(), "\n")
}

/// The values of a run of open elements.
spec fn element_views(open: Seq<Element>) -> Seq<ElementView> {
    open.map_values(|e: Element| e@)
}

/// `o` as a mathematical integer, where there is one.
spec fn optional_offset(o: Option<usize>) -> Option<int> {
    match o {
        Some(n) => Some(n as int),
        None => None,
    }
}

/// The state of the assembly.
struct Assembler<'a> {
    pages: &'a [(usize, u32)],
    blocks: Vec<Block>,
    open: Vec<Element>,
    running: Vec<String>,
    running_start: Option<usize>,
}

impl<'a> View for Assembler<'a> {
    type V = AssemblyView;

    closed spec fn view(&self) -> AssemblyView {
        AssemblyView {
            blocks: block_views(self.blocks@),
            open: element_views(self.open@),
            running: texts(self.running@),
            running_start: optional_offset(self.running_start),
        }
    }
}

impl<'a> Assembler<'a> {
    fn new(pages: &'a [(usize, u32)], frontmatter: Option<String>) -> (r: Assembler<'a>)
        ensures
            r.pages == pages,
            r@ == initial(optional_text(frontmatter), pages@),
            r@.blocks.len() <= 1,
    {
        let mut r = Assembler {
            pages,
            blocks: Vec::new(),
            open: Vec::new(),
            running: Vec::new(),
            running_start: None,
        };
        proof {
            assert(r@ =~~= initial(None, pages@));
        }
        if let Some(text) = frontmatter {
            let kind = BlockKind::Frontmatter { format: "yaml".to_owned() };
            let location = location_at(pages, 0);
            r.emit(kind, text, location);
        }
        r
    }

    /// Adds a block, numbered by its position.
    fn emit(&mut self, kind: BlockKind, text: String, location: Option<BlockLocation>)
        requires
            old(self)@.blocks.len() <= u32::MAX,
        ensures
            final(self).pages == old(self).pages,
            final(self)@ == emitted(old(self)@, kind@, text@, location),
    {
        let seq: u32 = self.blocks.len() as u32;
        self.blocks.push(Block { seq, kind, text, location });
        proof {
            assert(self@ =~~= emitted(old(self)@, kind@, text@, location));
        }
    }

    /// Adds the block that starts at byte `start` where its text is not empty.
    fn emit_nonempty(&mut self, kind: BlockKind, text: String, start: usize)
        requires
            old(self)@.blocks.len() <= u32::MAX,
        ensures
            final(self).pages == old(self).pages,
            final(self)@ == emitted_nonempty(
                old(self)@,
                kind@,
                text@,
                page_at(old(self).pages@, start as int),
            ),
    {
        if text.as_str().unicode_len() > 0 {
            let location = location_at(self.pages, start);
            self.emit(kind, text, location);
        }
    }

    /// Adds text that starts at byte `start` to the running text.
    fn gather(&mut self, text: String, start: usize)
        ensures
            final(self).pages == old(self).pages,
            final(self)@ == gathered(old(self)@, text@, start as int),
    {
        if text.as_str().unicode_len() > 0 {
            self.running_start = match self.running_start {
                Some(first) => if first <= start {
                    Some(first)
                } else {
                    Some(start)
                },
                None => Some(start),
            };
            push_text(&mut self.running, text);
            proof {
                assert(self@ =~~= gathered(old(self)@, text@, start as int));
            }
        }
    }

    /// Turns the running text into one block.
    fn flush(&mut self)
        requires
            old(self)@.blocks.len() <= u32::MAX,
        ensures
            final(self).pages == old(self).pages,
            final(self)@ == flushed(old(self)@, old(self).pages@),
    {
        let start = self.running_start;
        let text = join(self.running.as_slice(), "\n\n");
        let some: bool = self.running.len() > 0;
        self.running = Vec::new();
        self.running_start = None;
        proof {
            let bare = AssemblyView {
                running: Seq::empty(),
                running_start: None,
                ..old(self)@
            };
            assert(self@ =~~= bare);
        }
        if some {
            let location = match start {
                Some(offset) => location_at(self.pages, offset),
                None => None,
            };
            self.emit(BlockKind::Text, text, location);
        }
    }

    /// Opens an element.
    fn open_element(&mut self, kind: ElementKind, start: usize)
        ensures
            final(self).pages == old(self).pages,
            final(self)@ == with_open(old(self)@, kind@, start as int),
    {
        self.open.push(Element::new(kind, start));
        proof {
            assert(self@ =~~= with_open(old(self)@, kind@, start as int));
        }
    }

    /// Takes the innermost open element off.
    fn take_last(&mut self) -> (r: Option<Element>)
        ensures
            final(self).pages == old(self).pages,
            r is None <==> old(self)@.open.len() == 0,
            r is None ==> final(self)@ == old(self)@,
            r matches Some(e) ==> e@ == old(self)@.open.last() && final(self)@ == closed_last(
                old(self)@,
            ),
    {
        let r = self.open.pop();
        proof {
            if r is Some {
                assert(self@ =~~= closed_last(old(self)@));
            }
        }
        r
    }

    /// Puts an element back on.
    fn put_last(&mut self, e: Element)
        ensures
            final(self).pages == old(self).pages,
            final(self)@ == (AssemblyView { open: old(self)@.open.push(e@), ..old(self)@ }),
    {
        self.open.push(e);
        proof {
            assert(self@ =~~= (AssemblyView { open: old(self)@.open.push(e@), ..old(self)@ }));
        }
    }

    /// Adds a piece of text to the innermost open element.
    fn add_piece(&mut self, piece: String)
        ensures
            final(self).pages == old(self).pages,
            final(self)@ == (if old(self)@.open.len() == 0 {
                old(self)@
            } else {
                with_last(old(self)@, with_piece(old(self)@.open.last(), piece@))
            }),
    {
        if let Some(mut e) = self.take_last() {
            e.add_piece(piece);
            self.put_last(e);
        }
    }

    /// Moves the text of every open element to the running text.
    fn drain(&mut self)
        ensures
            final(self).pages == old(self).pages,
            final(self)@ == drained(old(self)@),
            final(self)@.blocks.len() == old(self)@.blocks.len(),
    {
        while self.open.len() > 0
            invariant
                self.pages == old(self).pages,
                drained(self@) == drained(old(self)@),
                self@.blocks.len() == old(self)@.blocks.len(),
            decreases self.open.len(),
        {
            if let Some(e) = self.take_last() {
                let text = join(e.text.as_slice(), " ");
                self.gather(text, e.start);
            }
        }
    }

    /// An element opens.
    fn start(&mut self, tag: ElementTag, detail: Option<String>, offset: usize)
        requires
            old(self)@.blocks.len() <= u32::MAX,
        ensures
            final(self).pages == old(self).pages,
            final(self)@ == after_start(
                old(self)@,
                tag,
                optional_text(detail),
                offset as int,
                old(self).pages@,
            ),
    {
        match tag {
            ElementTag::Heading(level) => {
                self.flush();
                self.open_element(ElementKind::Heading { level }, offset);
            },
            ElementTag::Paragraph => self.open_element(ElementKind::Paragraph, offset),
            ElementTag::CodeBlock => {
                let language = match detail {
                    Some(info) => {
                        let name = trim(info.as_str());
                        if name.as_str().unicode_len() > 0 {
                            Some(name)
                        } else {
                            None
                        }
                    },
                    None => None,
                };
                self.flush();
                self.open_element(ElementKind::Code { language }, offset);
            },
            ElementTag::BlockQuote => self.open_element(ElementKind::Quote, offset),
            ElementTag::List => self.open_element(ElementKind::List, offset),
            ElementTag::Table => {
                self.flush();
                self.open_element(ElementKind::Table, offset);
            },
            ElementTag::Image => {
                self.flush();
                self.open_element(ElementKind::Image { src: detail }, offset);
            },
            ElementTag::TableHead => {
                if let Some(mut e) = self.take_last() {
                    e.in_head = true;
                    self.put_last(e);
                }
            },
            ElementTag::Item => {
                if let Some(mut e) = self.take_last() {
                    if let ElementKind::List = e.kind {
                        if e.text.len() > 0 {
                            e.add_piece("\n".to_owned());
                        }
                    }
                    self.put_last(e);
                    proof {
                        assert(old(self)@.open.drop_last().push(old(self)@.open.last())
                            =~= old(self)@.open);
                    }
                }
            },
            _ => {},
        }
    }

    /// A paragraph closes.
    fn end_paragraph(&mut self, e: Element)
        requires
            old(self)@.blocks.len() <= u32::MAX,
        ensures
            final(self).pages == old(self).pages,
            final(self)@ == after_paragraph(
                AssemblyView { open: old(self)@.open.push(e@), ..old(self)@ },
            ),
    {
        let ghost before = AssemblyView { open: old(self)@.open.push(e@), ..old(self)@ };
        proof {
            assert(closed_last(before) =~~= self@);
        }
        if let ElementKind::Paragraph = e.kind {
            let text = join(e.text.as_slice(), "");
            match self.take_last() {
                Some(mut parent) => {
                    let container: bool = match parent.kind {
                        ElementKind::Quote | ElementKind::List => true,
                        _ => false,
                    };
                    if container {
                        if parent.text.len() > 0 {
                            parent.add_piece(" ".to_owned());
                        }
                        parent.add_piece(text);
                        self.put_last(parent);
                    } else {
                        self.put_last(parent);
                        proof {
                            assert(self@ =~~= old(self)@);
                        }
                        self.gather(text, e.start);
                    }
                },
                None => self.gather(text, e.start),
            }
        } else {
            self.put_last(e);
        }
    }

    /// An element closes.
    fn end(&mut self, tag: ElementTag)
        requires
            old(self)@.blocks.len() <= u32::MAX,
        ensures
            final(self).pages == old(self).pages,
            final(self)@ == after_end(old(self)@, tag, old(self).pages@),
    {
        if let Some(mut e) = self.take_last() {
            let ghost whole = old(self)@.open;
            proof {
                assert(whole.drop_last().push(whole.last()) =~= whole);
            }
            match tag {
                ElementTag::Heading(_) => {
                    let text = join(e.text.as_slice(), "");
                    let level: u8 = match e.kind {
                        ElementKind::Heading { level } => level,
                        _ => 1,
                    };
                    self.emit_nonempty(BlockKind::Heading { level }, text, e.start);
                },
                ElementTag::Paragraph => self.end_paragraph(e),
                ElementTag::CodeBlock => {
                    let text = join(e.text.as_slice(), "");
                    let start: usize = e.start;
                    let language = match e.kind {
                        ElementKind::Code { language } => language,
                        _ => None,
                    };
                    self.emit_nonempty(BlockKind::Code { language }, text, start);
                },
                ElementTag::BlockQuote => {
                    let text = join(e.text.as_slice(), " ");
                    self.gather(text, e.start);
                },
                ElementTag::List => {
                    let text = join(e.text.as_slice(), "\n");
                    self.gather(text, e.start);
                },
                ElementTag::Table => {
                    let text = render_table(e.headers.as_slice(), e.rows.as_slice());
                    let rows: usize = e.rows.len();
                    let start: usize = e.start;
                    self.emit_nonempty(BlockKind::Table { headers: e.headers, rows }, text, start);
                },
                ElementTag::TableCell => {
                    e.finish_cell();
                    self.put_last(e);
                },
                ElementTag::TableHead => {
                    e.in_head = false;
                    self.put_last(e);
                },
                ElementTag::TableRow => {
                    e.finish_row();
                    self.put_last(e);
                },
                ElementTag::Image => {
                    let text = join(e.text.as_slice(), "");
                    let start: usize = e.start;
                    let src = match e.kind {
                        ElementKind::Image { src } => src,
                        _ => None,
                    };
                    let alt = if text.as_str().unicode_len() > 0 {
                        Some(text.clone())
                    } else {
                        None
                    };
                    let location = location_at(self.pages, start);
                    self.emit(BlockKind::Image { alt, src }, text, location);
                },
                _ => self.put_last(e),
            }
        }
    }

    /// One event of the document, which starts at byte `offset`.
    fn event(&mut self, event: MarkdownEvent, offset: usize)
        requires
            old(self)@.blocks.len() <= u32::MAX,
        ensures
            final(self).pages == old(self).pages,
            final(self)@ == after_event(old(self)@, event@, offset as int, old(self).pages@),
    {
        match event {
            MarkdownEvent::Start(tag, detail) => self.start(tag, detail, offset),
            MarkdownEvent::End(tag) => self.end(tag),
            MarkdownEvent::Text(t) => self.add_piece(t),
            MarkdownEvent::Code(t) => self.add_piece(t),
            MarkdownEvent::SoftBreak => self.add_piece(" ".to_owned()),
            MarkdownEvent::HardBreak => self.add_piece(" ".to_owned()),
            MarkdownEvent::Html(t) => {
                self.drain();
                let text = trim(t.as_str());
                self.gather(text, offset);
            },
            MarkdownEvent::Other => {},
        }
    }
}

/// Draining the open elements makes no block.
proof fn lemma_drained_blocks(s: AssemblyView)
    ensures
        drained(s).blocks == s.blocks,
    decreases s.open.len(),
{
    if s.open.len() > 0 {
        let e = s.open.last();
        lemma_drained_blocks(gathered(closed_last(s), joined(e.text, " "@), e.start));
    }
}

/// One event makes at most one block.
proof fn lemma_one_block_per_event(
    s: AssemblyView,
    event: EventView,
    offset: int,
    pages: Seq<(usize, u32)>,
)
    ensures
        after_event(s, event, offset, pages).blocks.len() <= s.blocks.len() + 1,
{
    lemma_drained_blocks(s);
}

/// The blocks of a document: its front matter, then what its events assemble.
/// The offsets of the events count from byte `base`.
pub fn blocks_from_events(
    frontmatter: Option<String>,
    events: Vec<(MarkdownEvent, usize)>,
    base: usize,
    pages: &[(usize, u32)],
) -> (r: Vec<Block>)
    requires
        events_fit(event_views(events@), base as int),
    ensures
        block_views(r@) == assembled(
            optional_text(frontmatter),
            event_views(events@),
            base as int,
            pages@,
        ),
{
    let ghost views = event_views(events@);
    let ghost first = initial(optional_text(frontmatter), pages@);
    let mut assembler = Assembler::new(pages, frontmatter);
    for entry in it: events
        invariant
            it.seq() == events@,
            views == event_views(events@),
            events_fit(views, base as int),
            assembler.pages == pages,
            assembler@ == after_events(first, views.take(it.index() as int), base as int, pages@),
            assembler@.blocks.len() <= it.index() + 1,
    {
        let ghost i = it.index();
        proof {
            assert(entry == events@[i]);
            assert(views[i] == (entry.0@, entry.1 as int));
            let next = views.take(i + 1);
            assert(next.drop_last() =~= views.take(i));
            assert(next.last() == views[i]);
            lemma_one_block_per_event(assembler@, views[i].0, base + views[i].1, pages@);
        }
        assembler.event(entry.0, base + entry.1);
    }
    proof {
        assert(views.take(views.len() as int) =~= views);
    }
    assembler.flush();
    assembler.blocks
}

} // verus!
