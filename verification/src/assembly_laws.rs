//! What each event does to the blocks of a document, and that no text is lost.

use vstd::prelude::*;
use vstd::string::*;

use crate::block::{BlockKindView, BlockLocation, BlockView};
use crate::markdown_events::{
    after_end, after_event, after_events, after_start, assembled, closed_last, column_count,
    drained, emitted, flushed, gathered, initial, padded, page_at, pipe_escaped, table_line,
    table_rule, table_text, widest, AssemblyView, ElementKindView, ElementTag, ElementView,
    EventView,
};
use crate::text::{joined, occurs_at, trimmed, whitespace};
use crate::text_laws::{
    contains_text, laid_out, law_joined_holds_every_part, law_joined_is_laid_out,
    law_layout_is_unique, law_trimmed, lemma_contains_self, lemma_contains_transitive,
};

verus! {

// ---------------------------------------------------------------------------
// Single events
// ---------------------------------------------------------------------------

/// Whether `f` is `e` with `piece` behind what was gathered last: a table gathers
/// for its open cell, everything else for itself.
pub open spec fn gained(e: ElementView, f: ElementView, piece: Seq<char>) -> bool {
    &&& f.kind == e.kind && f.start == e.start && f.headers == e.headers && f.rows == e.rows
    &&& f.row == e.row && f.in_head == e.in_head
    &&& if e.kind is Table {
        f.cell == e.cell.push(piece) && f.text == e.text
    } else {
        f.text == e.text.push(piece) && f.cell == e.cell
    }
}

/// Whether `r` is `s` but for its innermost open element.
pub open spec fn same_but_innermost(s: AssemblyView, r: AssemblyView) -> bool {
    &&& r.blocks == s.blocks && r.running == s.running && r.running_start == s.running_start
    &&& r.open.len() == s.open.len()
    &&& forall|i: int| 0 <= i < s.open.len() - 1 ==> #[trigger] r.open[i] == s.open[i]
}

/// Text and inline code go to the innermost open element, whatever it is, and a
/// line break goes there as a space. Outside of all elements they say nothing.
pub proof fn law_text_goes_to_innermost_element(
    s: AssemblyView,
    event: EventView,
    offset: int,
    pages: Seq<(usize, u32)>,
)
    requires
        event is Text || event is Code || event is SoftBreak || event is HardBreak,
    ensures
        ({
            let r = after_event(s, event, offset, pages);
            let piece = match event {
                EventView::Text(t) => t,
                EventView::Code(t) => t,
                _ => seq![' '],
            };
            &&& s.open.len() == 0 ==> r == s
            &&& s.open.len() > 0 ==> same_but_innermost(s, r) && gained(
                s.open.last(),
                r.open.last(),
                piece,
            )
        }),
{
    reveal_strlit(" ");
    assert(" "@ =~= seq![' ']);
}

/// Whether `r` is `s` with its running text turned into one text block that lays
/// its pieces out a blank line apart, on the page of its first byte.
pub open spec fn turned_into_block(
    s: AssemblyView,
    r: AssemblyView,
    pages: Seq<(usize, u32)>,
) -> bool {
    &&& r.open == s.open && r.running.len() == 0 && r.running_start is None
    &&& if s.running.len() == 0 {
        r.blocks == s.blocks
    } else {
        &&& r.blocks.len() == s.blocks.len() + 1
        &&& r.blocks.drop_last() == s.blocks
        &&& r.blocks.last().seq == s.blocks.len()
        &&& r.blocks.last().kind is Text
        &&& laid_out(r.blocks.last().text, s.running, seq!['\n', '\n'])
        &&& s.running_start matches Some(first) ==> r.blocks.last().location == page_at(pages, first)
    }
}

/// At a boundary the running text becomes one block, whole.
pub proof fn law_flush_keeps_running_text(s: AssemblyView, pages: Seq<(usize, u32)>)
    ensures
        turned_into_block(s, flushed(s, pages), pages),
{
    reveal_strlit("\n\n");
    assert("\n\n"@ =~= seq!['\n', '\n']);
    law_joined_is_laid_out(s.running, "\n\n"@);
    if s.running.len() > 0 {
        assert(flushed(s, pages).blocks.drop_last() =~= s.blocks);
    } else {
        assert(flushed(s, pages).running =~= Seq::empty());
    }
}

/// Whether an element opens behind a boundary: it becomes a block of its own.
pub open spec fn is_boundary(tag: ElementTag) -> bool {
    tag is Heading || tag is CodeBlock || tag is Table || tag is Image
}

/// What an element with the tag `tag` and the detail `detail` is, where it is
/// kept open.
pub open spec fn opens_as(
    tag: ElementTag,
    detail: Option<Seq<char>>,
    kind: ElementKindView,
) -> bool {
    match (tag, kind) {
        (ElementTag::Heading(n), ElementKindView::Heading { level }) => level == n,
        (ElementTag::Paragraph, ElementKindView::Paragraph) => true,
        (ElementTag::CodeBlock, ElementKindView::Code { language }) => match (detail, language) {
            (None, None) => true,
            (Some(d), None) => forall|k: int| 0 <= k < d.len() ==> whitespace(#[trigger] d[k]),
            (Some(d), Some(l)) => l == trimmed(d) && l.len() > 0,
            _ => false,
        },
        (ElementTag::BlockQuote, ElementKindView::Quote) => true,
        (ElementTag::List, ElementKindView::List) => true,
        (ElementTag::Table, ElementKindView::Table) => true,
        (ElementTag::Image, ElementKindView::Image { src }) => src == detail,
        _ => false,
    }
}

/// Headings, paragraphs, code blocks, quotes, lists, tables and images open an
/// element that has gathered nothing yet. Only those that become blocks of their
/// own end the running text.
pub proof fn law_elements_open(
    s: AssemblyView,
    tag: ElementTag,
    detail: Option<Seq<char>>,
    offset: int,
    pages: Seq<(usize, u32)>,
)
    requires
        is_boundary(tag) || tag is Paragraph || tag is BlockQuote || tag is List,
    ensures
        ({
            let r = after_event(s, EventView::Start(tag, detail), offset, pages);
            let e = r.open.last();
            let outer = AssemblyView { open: s.open, ..r };
            &&& r.open.len() == s.open.len() + 1
            &&& r.open.drop_last() == s.open
            &&& opens_as(tag, detail, e.kind)
            &&& e.start == offset
            &&& e.text.len() == 0 && e.headers.len() == 0 && e.rows.len() == 0 && e.row.len() == 0
            &&& e.cell.len() == 0 && !e.in_head
            &&& if is_boundary(tag) {
                turned_into_block(s, outer, pages)
            } else {
                outer == s
            }
        }),
{
    let r = after_event(s, EventView::Start(tag, detail), offset, pages);
    law_flush_keeps_running_text(s, pages);
    assert(r.open.drop_last() =~= s.open);
    if tag is CodeBlock {
        if let Some(d) = detail {
            law_trimmed(d);
            if trimmed(d).len() == 0 {
                let (a, b) = choose|a: int, b: int|
                    #![trigger d.subrange(a, b)]
                    0 <= a <= b <= d.len() && trimmed(d) == d.subrange(a, b) && (forall|k: int|
                        0 <= k < d.len() && (k < a || b <= k) ==> whitespace(#[trigger] d[k]));
                assert(a == b);
            }
        }
    }
    if !is_boundary(tag) {
        assert(AssemblyView { open: s.open, ..r } == s);
    } else {
        assert(AssemblyView { open: s.open, ..r } == flushed(s, pages));
    }
}

/// The head of a table is entered and left, and a further item of a list begins
/// on a new line. Nothing else that opens without an element of its own changes
/// anything.
pub proof fn law_inner_marks(
    s: AssemblyView,
    tag: ElementTag,
    detail: Option<Seq<char>>,
    offset: int,
    pages: Seq<(usize, u32)>,
)
    requires
        s.open.len() > 0,
    ensures
        ({
            let r = after_event(s, EventView::Start(ElementTag::TableHead, detail), offset, pages);
            &&& same_but_innermost(s, r)
            &&& r.open.last() == (ElementView { in_head: true, ..s.open.last() })
        }),
        ({
            let r = after_event(s, EventView::End(ElementTag::TableHead), offset, pages);
            &&& same_but_innermost(s, r)
            &&& r.open.last() == (ElementView { in_head: false, ..s.open.last() })
        }),
        ({
            let r = after_event(s, EventView::Start(ElementTag::Item, detail), offset, pages);
            if s.open.last().kind is List && s.open.last().text.len() > 0 {
                same_but_innermost(s, r) && gained(s.open.last(), r.open.last(), seq!['\n'])
            } else {
                r == s
            }
        }),
        tag is TableRow || tag is TableCell || tag is Other ==> after_event(
            s,
            EventView::Start(tag, detail),
            offset,
            pages,
        ) == s,
        tag is Item || tag is Other ==> after_event(s, EventView::End(tag), offset, pages) == s,
        after_event(s, EventView::Other, offset, pages) == s,
{
    reveal_strlit("\n");
    assert("\n"@ =~= seq!['\n']);
}

/// Outside of all elements a closing tag changes nothing.
pub proof fn law_closing_nothing(
    s: AssemblyView,
    tag: ElementTag,
    offset: int,
    pages: Seq<(usize, u32)>,
)
    requires
        s.open.len() == 0,
    ensures
        after_event(s, EventView::End(tag), offset, pages) == s,
{
}

/// Whether `r` is `s` with the text `t`, which begins at byte `start`, behind its
/// running text; an empty text leaves it as it is.
pub open spec fn runs_on(s: AssemblyView, r: AssemblyView, t: Seq<char>, start: int) -> bool {
    &&& r.blocks == s.blocks && r.open == s.open
    &&& if t.len() == 0 {
        r.running == s.running && r.running_start == s.running_start
    } else {
        &&& r.running == s.running.push(t)
        &&& r.running_start matches Some(first) && first <= start && (match s.running_start {
            Some(before) => first <= before && (first == before || first == start),
            None => first == start,
        })
    }
}

/// Whether `r` is `s` with one more block.
pub open spec fn one_more_block(
    s: AssemblyView,
    r: AssemblyView,
    kind: BlockKindView,
    t: Seq<char>,
    location: Option<BlockLocation>,
) -> bool {
    &&& r.open == s.open && r.running == s.running && r.running_start == s.running_start
    &&& r.blocks.len() == s.blocks.len() + 1
    &&& r.blocks.drop_last() == s.blocks
    &&& r.blocks.last() == (BlockView { seq: s.blocks.len() as int, kind, text: t, location })
}

/// A list that closes adds to the running text all it gathered, line by line, and
/// a quote all it gathered with spaces between.
pub proof fn law_lists_and_quotes_keep_their_text(
    s: AssemblyView,
    tag: ElementTag,
    offset: int,
    pages: Seq<(usize, u32)>,
    t: Seq<char>,
)
    requires
        s.open.len() > 0,
        tag is List || tag is BlockQuote,
        laid_out(
            t,
            s.open.last().text,
            seq![if tag is List {
                '\n'
            } else {
                ' '
            }],
        ),
    ensures
        runs_on(
            AssemblyView { open: s.open.drop_last(), ..s },
            after_event(s, EventView::End(tag), offset, pages),
            t,
            s.open.last().start,
        ),
{
    reveal_strlit("\n");
    reveal_strlit(" ");
    let e = s.open.last();
    if tag is List {
        assert("\n"@ =~= seq!['\n']);
        law_joined_is_laid_out(e.text, "\n"@);
        law_layout_is_unique(t, joined(e.text, "\n"@), e.text, "\n"@);
    } else {
        assert(" "@ =~= seq![' ']);
        law_joined_is_laid_out(e.text, " "@);
        law_layout_is_unique(t, joined(e.text, " "@), e.text, " "@);
    }
}

/// A paragraph that closes keeps all it gathered, without gaps: inside a list or a
/// quote it goes there, behind a space where something stands there already, and
/// elsewhere it adds to the running text.
pub proof fn law_paragraphs_keep_their_text(
    s: AssemblyView,
    offset: int,
    pages: Seq<(usize, u32)>,
    t: Seq<char>,
)
    requires
        s.open.len() > 0,
        s.open.last().kind is Paragraph,
        laid_out(t, s.open.last().text, Seq::empty()),
    ensures
        ({
            let outer = AssemblyView { open: s.open.drop_last(), ..s };
            let r = after_event(s, EventView::End(ElementTag::Paragraph), offset, pages);
            if outer.open.len() > 0 && (outer.open.last().kind is List
                || outer.open.last().kind is Quote) {
                let parent = outer.open.last();
                let now = r.open.last();
                &&& same_but_innermost(outer, r)
                &&& now == (ElementView { text: now.text, ..parent })
                &&& if parent.text.len() > 0 {
                    now.text == parent.text.push(seq![' ']).push(t)
                } else {
                    now.text == seq![t]
                }
            } else {
                runs_on(outer, r, t, s.open.last().start)
            }
        }),
{
    reveal_strlit(" ");
    reveal_strlit("");
    assert(" "@ =~= seq![' ']);
    assert(""@ =~= Seq::empty());
    let e = s.open.last();
    law_joined_is_laid_out(e.text, ""@);
    law_layout_is_unique(t, joined(e.text, ""@), e.text, ""@);
    let outer = closed_last(s);
    if outer.open.len() > 0 && outer.open.last().text.len() == 0 {
        assert(outer.open.last().text.push(t) =~= seq![t]);
    }
}

/// A paragraph's closing tag leaves any other element as it is.
pub proof fn law_paragraph_ends_only_paragraphs(
    s: AssemblyView,
    offset: int,
    pages: Seq<(usize, u32)>,
)
    requires
        s.open.len() > 0,
        !(s.open.last().kind is Paragraph),
    ensures
        after_event(s, EventView::End(ElementTag::Paragraph), offset, pages) == s,
{
}

/// A heading, a code block and an image that close become a block of all that they
/// gathered, without gaps, on the page where they begin. An empty heading or code
/// block gives none.
pub proof fn law_blocks_keep_their_text(
    s: AssemblyView,
    tag: ElementTag,
    offset: int,
    pages: Seq<(usize, u32)>,
    t: Seq<char>,
)
    requires
        s.open.len() > 0,
        laid_out(t, s.open.last().text, Seq::empty()),
        tag is Heading && s.open.last().kind is Heading || tag is CodeBlock
            && s.open.last().kind is Code || tag is Image && s.open.last().kind is Image,
    ensures
        ({
            let outer = AssemblyView { open: s.open.drop_last(), ..s };
            let r = after_event(s, EventView::End(tag), offset, pages);
            let location = page_at(pages, s.open.last().start);
            match s.open.last().kind {
                ElementKindView::Heading { level } => if t.len() == 0 {
                    r == outer
                } else {
                    one_more_block(outer, r, BlockKindView::Heading { level }, t, location)
                },
                ElementKindView::Code { language } => if t.len() == 0 {
                    r == outer
                } else {
                    one_more_block(outer, r, BlockKindView::Code { language }, t, location)
                },
                ElementKindView::Image { src } => one_more_block(
                    outer,
                    r,
                    BlockKindView::Image {
                        alt: if t.len() == 0 {
                            None
                        } else {
                            Some(t)
                        },
                        src,
                    },
                    t,
                    location,
                ),
                _ => false,
            }
        }),
{
    reveal_strlit("");
    assert(""@ =~= Seq::empty());
    let e = s.open.last();
    law_joined_is_laid_out(e.text, ""@);
    law_layout_is_unique(t, joined(e.text, ""@), e.text, ""@);
    let r = after_event(s, EventView::End(tag), offset, pages);
    if r.blocks.len() > 0 {
        assert(s.blocks.push(r.blocks.last()).drop_last() =~= s.blocks);
    }
}

/// A block of HTML takes up what every open element has gathered, innermost first,
/// and adds itself, trimmed, to the running text. Nothing stays open.
pub proof fn law_html_takes_up_open_text(
    s: AssemblyView,
    html: Seq<char>,
    offset: int,
    pages: Seq<(usize, u32)>,
)
    ensures
        after_event(s, EventView::Html(html), offset, pages).open.len() == 0,
        after_event(s, EventView::Html(html), offset, pages).blocks == s.blocks,
        runs_on(
            drained(s),
            after_event(s, EventView::Html(html), offset, pages),
            trimmed(html),
            offset,
        ),
        s.open.len() == 0 ==> drained(s) == s,
{
    lemma_drained(s);
}

/// Taking up open text takes up that of the innermost element first.
pub proof fn law_innermost_text_is_taken_up_first(s: AssemblyView, t: Seq<char>, u: AssemblyView)
    requires
        s.open.len() > 0,
        laid_out(t, s.open.last().text, seq![' ']),
        runs_on(AssemblyView { open: s.open.drop_last(), ..s }, u, t, s.open.last().start),
    ensures
        drained(s) == drained(u),
{
    reveal_strlit(" ");
    assert(" "@ =~= seq![' ']);
    let e = s.open.last();
    law_joined_is_laid_out(e.text, " "@);
    law_layout_is_unique(t, joined(e.text, " "@), e.text, " "@);
    let g = gathered(closed_last(s), t, e.start);
    assert(u.running_start == g.running_start);
    assert(u == g);
}

proof fn lemma_drained(s: AssemblyView)
    ensures
        drained(s).open.len() == 0,
        drained(s).blocks == s.blocks,
    decreases s.open.len(),
{
    if s.open.len() > 0 {
        let e = s.open.last();
        lemma_drained(gathered(closed_last(s), joined(e.text, " "@), e.start));
    }
}

// ---------------------------------------------------------------------------
// Tables
// ---------------------------------------------------------------------------

/// Escaping puts a backslash before each `|` and changes nothing else, character
/// by character.
pub proof fn law_pipes_are_escaped(a: Seq<char>, b: Seq<char>, c: char)
    ensures
        pipe_escaped(a + b) == pipe_escaped(a) + pipe_escaped(b),
        pipe_escaped(seq!['|']) == seq!['\\', '|'],
        c != '|' ==> pipe_escaped(seq![c]) == seq![c],
        pipe_escaped(Seq::empty()) == Seq::<char>::empty(),
    decreases b.len(),
{
    reveal_with_fuel(pipe_escaped, 2);
    assert(seq!['|'].drop_last() =~= Seq::empty());
    assert(seq![c].drop_last() =~= Seq::empty());
    assert(pipe_escaped(seq!['|']) =~= seq!['\\', '|']);
    if c != '|' {
        assert(pipe_escaped(seq![c]) =~= seq![c]);
    }
    if b.len() == 0 {
        assert(a + b =~= a);
        assert(pipe_escaped(a) + pipe_escaped(b) =~= pipe_escaped(a));
    } else {
        law_pipes_are_escaped(a, b.drop_last(), c);
        assert((a + b).drop_last() =~= a + b.drop_last());
        assert(pipe_escaped(a + b) =~= pipe_escaped(a) + pipe_escaped(b));
    }
}

/// A table is as wide as its widest line.
pub proof fn law_columns_of_widest_line(headers: Seq<Seq<char>>, rows: Seq<Seq<Seq<char>>>)
    ensures
        headers.len() <= column_count(headers, rows),
        forall|i: int| 0 <= i < rows.len() ==> (#[trigger] rows[i]).len() <= column_count(headers, rows),
        column_count(headers, rows) == headers.len() || exists|i: int|
            0 <= i < rows.len() && (#[trigger] rows[i]).len() == column_count(headers, rows),
{
    lemma_widest(rows);
}

proof fn lemma_widest(rows: Seq<Seq<Seq<char>>>)
    ensures
        forall|i: int| 0 <= i < rows.len() ==> (#[trigger] rows[i]).len() <= widest(rows),
        rows.len() > 0 ==> exists|i: int|
            0 <= i < rows.len() && (#[trigger] rows[i]).len() == widest(rows),
        rows.len() == 0 ==> widest(rows) == 0,
    decreases rows.len(),
{
    if rows.len() > 0 {
        let front = rows.drop_last();
        lemma_widest(front);
        assert forall|i: int| 0 <= i < rows.len() implies (#[trigger] rows[i]).len() <= widest(
            rows,
        ) by {
            if i < rows.len() - 1 {
                assert(front[i] == rows[i]);
            }
        }
        if widest(front) >= rows.last().len() && front.len() > 0 {
            let i = choose|i: int| 0 <= i < front.len() && (#[trigger] front[i]).len() == widest(front);
            assert(rows[i].len() == widest(rows));
        } else {
            assert(rows[rows.len() - 1].len() == widest(rows));
        }
    }
}

/// Every cell stands in the line of its row at its own column, escaped; missing
/// cells are empty.
pub proof fn law_cells_stand_in_their_line(cells: Seq<Seq<char>>, columns: nat, i: int)
    requires
        cells.len() <= columns,
        0 <= i < columns,
    ensures
        padded(cells, columns).len() == columns,
        padded(cells, columns)[i] == (if i < cells.len() {
            pipe_escaped(cells[i])
        } else {
            Seq::empty()
        }),
        table_line(cells, columns).len() >= 4,
        table_line(cells, columns).take(2) == seq!['|', ' '],
        table_line(cells, columns).skip(table_line(cells, columns).len() - 2) == seq![' ', '|'],
        laid_out(
            table_line(cells, columns).subrange(2, table_line(cells, columns).len() - 2),
            padded(cells, columns),
            seq![' ', '|', ' '],
        ),
{
    reveal_strlit("| ");
    reveal_strlit(" | ");
    reveal_strlit(" |");
    assert(" | "@ =~= seq![' ', '|', ' ']);
    let inner = joined(padded(cells, columns), " | "@);
    law_joined_is_laid_out(padded(cells, columns), " | "@);
    assert("| "@ =~= seq!['|', ' ']);
    assert(" |"@ =~= seq![' ', '|']);
    lemma_framed("| "@, inner, " |"@);
}

/// A text between two others is found again between them.
proof fn lemma_framed(a: Seq<char>, b: Seq<char>, c: Seq<char>)
    ensures
        (a + b + c).len() == a.len() + b.len() + c.len(),
        (a + b + c).take(a.len() as int) == a,
        (a + b + c).skip((a + b + c).len() - c.len()) == c,
        (a + b + c).subrange(a.len() as int, (a + b + c).len() - c.len()) == b,
{
    let t = a + b + c;
    assert(t.take(a.len() as int) =~= a);
    assert(t.skip(t.len() - c.len()) =~= c);
    assert(t.subrange(a.len() as int, t.len() - c.len()) =~= b);
}

/// A table is its header line, a rule, and one line for each row, in order.
pub proof fn law_tables_keep_every_row(headers: Seq<Seq<char>>, rows: Seq<Seq<Seq<char>>>)
    requires
        column_count(headers, rows) > 0,
    ensures
        ({
            let columns = column_count(headers, rows);
            laid_out(
                table_text(headers, rows),
                Seq::new(
                    (rows.len() + 2) as nat,
                    |i: int|
                        if i == 0 {
                            table_line(headers, columns)
                        } else if i == 1 {
                            table_rule(columns)
                        } else {
                            table_line(rows[i - 2], columns)
                        },
                ),
                seq!['\n'],
            )
        }),
        ({
            let columns = column_count(headers, rows);
            let rule = table_rule(columns);
            &&& rule.len() >= 2 && rule[0] == '|' && rule.last() == '|'
            &&& laid_out(
                rule.subrange(1, rule.len() - 1),
                Seq::new(columns, |i: int| seq![' ', '-', '-', '-', ' ']),
                seq!['|'],
            )
        }),
{
    let columns = column_count(headers, rows);
    reveal_strlit("\n");
    reveal_strlit("|");
    reveal_strlit(" --- ");
    assert("\n"@ =~= seq!['\n']);
    assert("|"@ =~= seq!['|']);
    assert(" --- "@ =~= seq![' ', '-', '-', '-', ' ']);
    let lines = seq![table_line(headers, columns), table_rule(columns)] + rows.map_values(
        |r: Seq<Seq<char>>| table_line(r, columns),
    );
    assert(lines =~= Seq::new(
        (rows.len() + 2) as nat,
        |i: int|
            if i == 0 {
                table_line(headers, columns)
            } else if i == 1 {
                table_rule(columns)
            } else {
                table_line(rows[i - 2], columns)
            },
    ));
    law_joined_is_laid_out(lines, "\n"@);
    let dashes = Seq::new(columns, |i: int| " --- "@);
    let rule = table_rule(columns);
    assert(dashes =~= Seq::new(columns, |i: int| seq![' ', '-', '-', '-', ' ']));
    law_joined_is_laid_out(dashes, "|"@);
    lemma_framed("|"@, joined(dashes, "|"@), "|"@);
}

/// A cell that closes is trimmed and goes to the head or to the open row, and a
/// row of the body that closes goes behind the rows before it.
pub proof fn law_cells_and_rows_are_kept(
    s: AssemblyView,
    offset: int,
    pages: Seq<(usize, u32)>,
    t: Seq<char>,
)
    requires
        s.open.len() > 0,
        laid_out(t, s.open.last().cell, Seq::empty()),
    ensures
        ({
            let e = s.open.last();
            let r = after_event(s, EventView::End(ElementTag::TableCell), offset, pages);
            &&& same_but_innermost(s, r)
            &&& r.open.last() == if e.in_head {
                ElementView { headers: e.headers.push(trimmed(t)), cell: Seq::empty(), ..e }
            } else {
                ElementView { row: e.row.push(trimmed(t)), cell: Seq::empty(), ..e }
            }
        }),
        ({
            let e = s.open.last();
            let r = after_event(s, EventView::End(ElementTag::TableRow), offset, pages);
            if e.in_head {
                r == s
            } else {
                &&& same_but_innermost(s, r)
                &&& r.open.last() == (ElementView { rows: e.rows.push(e.row), row: Seq::empty(), ..e })
            }
        }),
        ({
            let e = s.open.last();
            let outer = AssemblyView { open: s.open.drop_last(), ..s };
            let r = after_event(s, EventView::End(ElementTag::Table), offset, pages);
            if table_text(e.headers, e.rows).len() == 0 {
                r == outer
            } else {
                one_more_block(
                    outer,
                    r,
                    BlockKindView::Table { headers: e.headers, rows: e.rows.len() as int },
                    table_text(e.headers, e.rows),
                    page_at(pages, e.start),
                )
            }
        }),
        column_count(s.open.last().headers, s.open.last().rows) == 0 ==> table_text(
            s.open.last().headers,
            s.open.last().rows,
        ).len() == 0,
{
    reveal_strlit("");
    assert(""@ =~= Seq::empty());
    let e = s.open.last();
    law_joined_is_laid_out(e.cell, ""@);
    law_layout_is_unique(t, joined(e.cell, ""@), e.cell, ""@);
    let r = after_event(s, EventView::End(ElementTag::Table), offset, pages);
    if r.blocks.len() > 0 {
        assert(s.blocks.push(r.blocks.last()).drop_last() =~= s.blocks);
    }
}

// ---------------------------------------------------------------------------
// Runs of events
// ---------------------------------------------------------------------------

/// Events are dealt with one after another, each at its byte of the document.
pub proof fn law_events_in_order(
    s: AssemblyView,
    events: Seq<(EventView, int)>,
    next: (EventView, int),
    base: int,
    pages: Seq<(usize, u32)>,
)
    ensures
        after_events(s, Seq::empty(), base, pages) == s,
        after_events(s, events.push(next), base, pages) == after_event(
            after_events(s, events, base, pages),
            next.0,
            base + next.1,
            pages,
        ),
{
    assert(events.push(next).drop_last() =~= events);
}

/// A document begins with its front matter, where it has some, on the page of its
/// first byte, and ends by turning its running text into a block.
pub proof fn law_documents_begin_and_end(
    frontmatter: Option<Seq<char>>,
    events: Seq<(EventView, int)>,
    base: int,
    pages: Seq<(usize, u32)>,
    end: AssemblyView,
)
    requires
        turned_into_block(
            after_events(initial(frontmatter, pages), events, base, pages),
            end,
            pages,
        ),
    ensures
        initial(frontmatter, pages).open.len() == 0,
        initial(frontmatter, pages).running.len() == 0,
        initial(frontmatter, pages).running_start is None,
        frontmatter is None ==> initial(frontmatter, pages).blocks.len() == 0,
        frontmatter matches Some(text) ==> initial(frontmatter, pages).blocks == seq![
            BlockView {
                seq: 0,
                kind: BlockKindView::Frontmatter { format: seq!['y', 'a', 'm', 'l'] },
                text,
                location: page_at(pages, 0),
            },
        ],
        assembled(frontmatter, events, base, pages).len() == end.blocks.len(),
        forall|i: int|
            0 <= i < end.blocks.len() ==> (#[trigger] assembled(frontmatter, events, base, pages)[i]).text
                == end.blocks[i].text && assembled(frontmatter, events, base, pages)[i].kind
                == end.blocks[i].kind,
{
    reveal_strlit("yaml");
    assert("yaml"@ =~= seq!['y', 'a', 'm', 'l']);
    let s = after_events(initial(frontmatter, pages), events, base, pages);
    law_flush_keeps_running_text(s, pages);
    let r = flushed(s, pages);
    let b = seq!['\n', '\n'];
    if s.running.len() > 0 {
        law_layout_is_unique(r.blocks.last().text, end.blocks.last().text, s.running, b);
        assert forall|i: int| 0 <= i < end.blocks.len() implies (#[trigger] r.blocks[i]).text
            == end.blocks[i].text && r.blocks[i].kind == end.blocks[i].kind by {
            if i < s.blocks.len() {
                assert(r.blocks.drop_last()[i] == end.blocks.drop_last()[i]);
            }
        }
    }
    if let Some(text) = frontmatter {
        assert(initial(frontmatter, pages).blocks =~= seq![
            BlockView {
                seq: 0,
                kind: BlockKindView::Frontmatter { format: "yaml"@ },
                text,
                location: page_at(pages, 0),
            },
        ]);
    }
}

// ---------------------------------------------------------------------------
// No text is lost
// ---------------------------------------------------------------------------

/// Whether a piece of `pieces` holds `t`.
pub open spec fn in_pieces(pieces: Seq<Seq<char>>, t: Seq<char>) -> bool {
    exists|i: int| 0 <= i < pieces.len() && contains_text(#[trigger] pieces[i], t)
}

/// Whether a block of `blocks` holds `t`.
pub open spec fn in_blocks(blocks: Seq<BlockView>, t: Seq<char>) -> bool {
    exists|i: int| 0 <= i < blocks.len() && contains_text((#[trigger] blocks[i]).text, t)
}

/// Whether `t` has been gathered and is still there: in a finished block, in the
/// running text, or in an open element.
pub open spec fn held(s: AssemblyView, t: Seq<char>) -> bool {
    ||| in_blocks(s.blocks, t)
    ||| in_pieces(s.running, t)
    ||| exists|i: int| 0 <= i < s.open.len() && in_pieces((#[trigger] s.open[i]).text, t)
}

/// Whether a closing tag belongs to an element of the given kind.
pub open spec fn closes(tag: ElementTag, kind: ElementKindView) -> bool {
    match tag {
        ElementTag::Heading(_) => kind is Heading,
        ElementTag::Paragraph => kind is Paragraph,
        ElementTag::CodeBlock => kind is Code,
        ElementTag::BlockQuote => kind is Quote,
        ElementTag::List => kind is List,
        ElementTag::Table => kind is Table,
        ElementTag::Image => kind is Image,
        _ => true,
    }
}

/// Whether the elements of a table gather in its cells only.
pub open spec fn tables_gather_in_cells(s: AssemblyView) -> bool {
    forall|i: int|
        0 <= i < s.open.len() && (#[trigger] s.open[i]).kind is Table ==> s.open[i].text.len() == 0
}

proof fn lemma_in_joined(pieces: Seq<Seq<char>>, sep: Seq<char>, t: Seq<char>)
    requires
        in_pieces(pieces, t),
    ensures
        contains_text(joined(pieces, sep), t),
{
    let i = choose|i: int| 0 <= i < pieces.len() && contains_text(#[trigger] pieces[i], t);
    law_joined_holds_every_part(pieces, sep, i, i);
    lemma_contains_transitive(joined(pieces, sep), pieces[i], t);
}

proof fn lemma_in_pieces_push(pieces: Seq<Seq<char>>, piece: Seq<char>, t: Seq<char>)
    ensures
        in_pieces(pieces, t) ==> in_pieces(pieces.push(piece), t),
        contains_text(piece, t) ==> in_pieces(pieces.push(piece), t),
{
    let all = pieces.push(piece);
    if in_pieces(pieces, t) {
        let i = choose|i: int| 0 <= i < pieces.len() && contains_text(#[trigger] pieces[i], t);
        assert(all[i] == pieces[i]);
    }
    if contains_text(piece, t) {
        assert(all[pieces.len() as int] == piece);
    }
}

proof fn lemma_gathered_holds(s: AssemblyView, piece: Seq<char>, start: int, t: Seq<char>)
    requires
        t.len() > 0,
        held(s, t) || contains_text(piece, t),
    ensures
        held(gathered(s, piece, start), t),
        gathered(s, piece, start).open == s.open,
{
    let r = gathered(s, piece, start);
    lemma_in_pieces_push(s.running, piece, t);
    if contains_text(piece, t) {
        let k = choose|k: int| #[trigger] occurs_at(piece, t, k);
        assert(piece.len() > 0);
    }
}

proof fn lemma_emitted_holds(
    s: AssemblyView,
    kind: BlockKindView,
    text: Seq<char>,
    location: Option<BlockLocation>,
    t: Seq<char>,
)
    requires
        held(s, t) || contains_text(text, t),
    ensures
        held(emitted(s, kind, text, location), t),
{
    let r = emitted(s, kind, text, location);
    if in_blocks(s.blocks, t) {
        let i = choose|i: int| 0 <= i < s.blocks.len() && contains_text((#[trigger] s.blocks[i]).text, t);
        assert(r.blocks[i] == s.blocks[i]);
    }
    if contains_text(text, t) {
        assert(contains_text(r.blocks[s.blocks.len() as int].text, t));
    }
}

proof fn lemma_flushed_holds(s: AssemblyView, pages: Seq<(usize, u32)>, t: Seq<char>)
    requires
        held(s, t),
    ensures
        held(flushed(s, pages), t),
        flushed(s, pages).open == s.open,
        s.open.len() == 0 ==> in_blocks(flushed(s, pages).blocks, t),
{
    let bare = AssemblyView { running: Seq::empty(), running_start: None, ..s };
    if s.running.len() > 0 {
        let text = joined(s.running, "\n\n"@);
        let location = match s.running_start {
            Some(offset) => page_at(pages, offset),
            None => None,
        };
        if in_pieces(s.running, t) {
            lemma_in_joined(s.running, "\n\n"@, t);
        } else {
            assert(held(bare, t));
        }
        lemma_emitted_holds(bare, BlockKindView::Text, text, location, t);
    } else {
        assert(held(bare, t));
    }
    let r = flushed(s, pages);
    assert(r.running.len() == 0);
}

/// What an element or what lies outside of it holds: where the innermost element
/// holds `t` its text does, and otherwise the rest holds it.
proof fn lemma_held_apart(s: AssemblyView, t: Seq<char>)
    requires
        held(s, t),
        s.open.len() > 0,
    ensures
        in_pieces(s.open.last().text, t) || held(closed_last(s), t),
{
    let outer = closed_last(s);
    if !in_blocks(s.blocks, t) && !in_pieces(s.running, t) {
        let i = choose|i: int| 0 <= i < s.open.len() && in_pieces((#[trigger] s.open[i]).text, t);
        if i < s.open.len() - 1 {
            assert(outer.open[i] == s.open[i]);
        }
    }
}

proof fn lemma_with_last_holds(s: AssemblyView, r: AssemblyView, t: Seq<char>)
    requires
        held(s, t),
        s.open.len() > 0,
        same_but_innermost(s, r),
        in_pieces(s.open.last().text, t) ==> in_pieces(r.open.last().text, t),
    ensures
        held(r, t),
{
    if !in_blocks(s.blocks, t) && !in_pieces(s.running, t) {
        let i = choose|i: int| 0 <= i < s.open.len() && in_pieces((#[trigger] s.open[i]).text, t);
        if i < s.open.len() - 1 {
            assert(r.open[i] == s.open[i]);
        } else {
            assert(in_pieces(r.open[i].text, t));
        }
    }
}

proof fn lemma_drained_holds(s: AssemblyView, t: Seq<char>)
    requires
        held(s, t),
        t.len() > 0,
    ensures
        held(drained(s), t),
    decreases s.open.len(),
{
    if s.open.len() > 0 {
        let e = s.open.last();
        lemma_held_apart(s, t);
        if in_pieces(e.text, t) {
            lemma_in_joined(e.text, " "@, t);
        }
        lemma_gathered_holds(closed_last(s), joined(e.text, " "@), e.start, t);
        lemma_drained_holds(gathered(closed_last(s), joined(e.text, " "@), e.start), t);
    }
}

proof fn lemma_start_holds(
    s: AssemblyView,
    tag: ElementTag,
    detail: Option<Seq<char>>,
    offset: int,
    pages: Seq<(usize, u32)>,
    t: Seq<char>,
)
    requires
        held(s, t),
    ensures
        held(after_start(s, tag, detail, offset, pages), t),
{
    let r = after_start(s, tag, detail, offset, pages);
    if is_boundary(tag) || tag is Paragraph || tag is BlockQuote || tag is List {
        let base = if is_boundary(tag) {
            flushed(s, pages)
        } else {
            s
        };
        lemma_flushed_holds(s, pages, t);
        assert(r.blocks == base.blocks && r.running == base.running);
        if !in_blocks(base.blocks, t) && !in_pieces(base.running, t) {
            let i = choose|i: int|
                0 <= i < base.open.len() && in_pieces((#[trigger] base.open[i]).text, t);
            assert(r.open[i] == base.open[i]);
        }
    } else if s.open.len() > 0 {
        law_inner_marks(s, tag, detail, offset, pages);
        if r != s {
            reveal_strlit("\n");
            lemma_in_pieces_push(s.open.last().text, "\n"@, t);
            lemma_with_last_holds(s, r, t);
        }
    }
}

proof fn lemma_end_holds(s: AssemblyView, tag: ElementTag, pages: Seq<(usize, u32)>, t: Seq<char>)
    requires
        held(s, t),
        t.len() > 0,
        tables_gather_in_cells(s),
        s.open.len() > 0 ==> closes(tag, s.open.last().kind),
    ensures
        held(after_end(s, tag, pages), t),
{
    if s.open.len() > 0 {
        let e = s.open.last();
        let outer = closed_last(s);
        let r = after_end(s, tag, pages);
        lemma_held_apart(s, t);
        let sep = if tag is List {
            "\n"@
        } else if tag is BlockQuote {
            " "@
        } else {
            ""@
        };
        let text = joined(e.text, sep);
        if in_pieces(e.text, t) {
            lemma_in_joined(e.text, sep, t);
            let k = choose|k: int| #[trigger] occurs_at(text, t, k);
            assert(text.len() > 0);
        }
        match tag {
            ElementTag::Heading(_) | ElementTag::CodeBlock | ElementTag::Image => {
                if text.len() > 0 || tag is Image {
                    lemma_emitted_holds(outer, r.blocks.last().kind, text, page_at(pages, e.start), t);
                    assert(r == emitted(outer, r.blocks.last().kind, text, page_at(pages, e.start)));
                }
            },
            ElementTag::Table => {
                assert(s.open[s.open.len() - 1] == e);
                assert(held(outer, t));
                lemma_emitted_holds(
                    outer,
                    BlockKindView::Table { headers: e.headers, rows: e.rows.len() as int },
                    table_text(e.headers, e.rows),
                    page_at(pages, e.start),
                    t,
                );
            },
            ElementTag::BlockQuote | ElementTag::List => {
                lemma_gathered_holds(outer, text, e.start, t);
            },
            ElementTag::Paragraph => {
                if outer.open.len() > 0 && (outer.open.last().kind is Quote
                    || outer.open.last().kind is List) {
                    let parent = outer.open.last();
                    lemma_in_pieces_push(parent.text, " "@, t);
                    lemma_in_pieces_push(parent.text, text, t);
                    lemma_in_pieces_push(parent.text.push(" "@), text, t);
                    assert(same_but_innermost(outer, r));
                    if held(outer, t) {
                        lemma_with_last_holds(outer, r, t);
                    } else {
                        assert(in_pieces(r.open[r.open.len() - 1].text, t));
                    }
                } else {
                    lemma_gathered_holds(outer, text, e.start, t);
                }
            },
            ElementTag::TableCell | ElementTag::TableHead | ElementTag::TableRow => {
                if r != s {
                    lemma_with_last_holds(s, r, t);
                }
            },
            _ => {},
        }
    }
}

/// No event loses a text that was gathered, where closing tags close the element
/// that they belong to.
pub proof fn law_no_event_loses_text(
    s: AssemblyView,
    event: EventView,
    offset: int,
    pages: Seq<(usize, u32)>,
    t: Seq<char>,
)
    requires
        held(s, t),
        t.len() > 0,
        tables_gather_in_cells(s),
        event matches EventView::End(tag) ==> (s.open.len() > 0 ==> closes(tag, s.open.last().kind)),
    ensures
        held(after_event(s, event, offset, pages), t),
        tables_gather_in_cells(after_event(s, event, offset, pages)),
{
    lemma_tables_gather(s, event, offset, pages);
    let r = after_event(s, event, offset, pages);
    match event {
        EventView::Start(tag, detail) => {
            lemma_start_holds(s, tag, detail, offset, pages, t);
        },
        EventView::End(tag) => {
            lemma_end_holds(s, tag, pages, t);
        },
        EventView::Html(h) => {
            lemma_drained_holds(s, t);
            lemma_gathered_holds(drained(s), trimmed(h), offset, t);
        },
        EventView::Other => {},
        _ => {
            if s.open.len() > 0 {
                law_text_goes_to_innermost_element(s, event, offset, pages);
                let piece = match event {
                    EventView::Text(x) => x,
                    EventView::Code(x) => x,
                    _ => seq![' '],
                };
                lemma_in_pieces_push(s.open.last().text, piece, t);
                lemma_with_last_holds(s, r, t);
            }
        },
    }
}

proof fn lemma_tables_gather(
    s: AssemblyView,
    event: EventView,
    offset: int,
    pages: Seq<(usize, u32)>,
)
    requires
        tables_gather_in_cells(s),
    ensures
        tables_gather_in_cells(after_event(s, event, offset, pages)),
{
    let r = after_event(s, event, offset, pages);
    if event is Html {
        lemma_drained(s);
    }
    assert forall|i: int|
        0 <= i < r.open.len() && (#[trigger] r.open[i]).kind is Table implies r.open[i].text.len()
        == 0 by {
        if i < s.open.len() {
            assert(s.open[i].kind is Table ==> s.open[i].text.len() == 0);
        }
    }
}

/// Whether every closing tag of a run of events closes the element that it
/// belongs to, and nothing is open at the end.
pub open spec fn well_nested(
    s: AssemblyView,
    events: Seq<(EventView, int)>,
    base: int,
    pages: Seq<(usize, u32)>,
) -> bool {
    &&& forall|i: int|
        0 <= i < events.len() ==> ({
            let before = after_events(s, events.take(i), base, pages);
            (#[trigger] events[i]).0 matches EventView::End(tag) ==> (before.open.len() > 0
                ==> closes(tag, before.open.last().kind))
        })
    &&& after_events(s, events, base, pages).open.len() == 0
}

proof fn lemma_held_through(
    s: AssemblyView,
    events: Seq<(EventView, int)>,
    base: int,
    pages: Seq<(usize, u32)>,
    from: int,
    to: int,
    t: Seq<char>,
)
    requires
        well_nested(s, events, base, pages),
        0 <= from <= to <= events.len(),
        t.len() > 0,
        held(after_events(s, events.take(from), base, pages), t),
        tables_gather_in_cells(after_events(s, events.take(from), base, pages)),
    ensures
        held(after_events(s, events.take(to), base, pages), t),
    decreases to - from,
{
    if from < to {
        let now = after_events(s, events.take(from), base, pages);
        let next = events.take(from + 1);
        assert(next.drop_last() =~= events.take(from));
        assert(next.last() == events[from]);
        law_no_event_loses_text(now, events[from].0, base + events[from].1, pages, t);
        lemma_held_through(s, events, base, pages, from + 1, to, t);
    }
}

proof fn lemma_tables_gather_through(
    s: AssemblyView,
    events: Seq<(EventView, int)>,
    base: int,
    pages: Seq<(usize, u32)>,
)
    requires
        tables_gather_in_cells(s),
    ensures
        tables_gather_in_cells(after_events(s, events, base, pages)),
    decreases events.len(),
{
    if events.len() > 0 {
        lemma_tables_gather_through(s, events.drop_last(), base, pages);
        lemma_tables_gather(
            after_events(s, events.drop_last(), base, pages),
            events.last().0,
            base + events.last().1,
            pages,
        );
    }
}

/// No text is lost: in a document whose elements are nested as they should be, the
/// text of every text or inline code that stands in an element, other than a
/// table, is held by one of the blocks.
pub proof fn law_no_text_is_lost(
    frontmatter: Option<Seq<char>>,
    events: Seq<(EventView, int)>,
    base: int,
    pages: Seq<(usize, u32)>,
    at: int,
    t: Seq<char>,
)
    requires
        well_nested(initial(frontmatter, pages), events, base, pages),
        0 <= at < events.len(),
        events[at].0 == EventView::Text(t) || events[at].0 == EventView::Code(t),
        t.len() > 0,
        ({
            let before = after_events(initial(frontmatter, pages), events.take(at), base, pages);
            before.open.len() > 0 && !(before.open.last().kind is Table)
        }),
    ensures
        in_blocks(assembled(frontmatter, events, base, pages), t),
{
    let s = initial(frontmatter, pages);
    let before = after_events(s, events.take(at), base, pages);
    let next = events.take(at + 1);
    assert(next.drop_last() =~= events.take(at));
    assert(next.last() == events[at]);
    let now = after_events(s, next, base, pages);
    law_text_goes_to_innermost_element(before, events[at].0, base + events[at].1, pages);
    lemma_contains_self(t);
    lemma_in_pieces_push(before.open.last().text, t, t);
    assert(in_pieces(now.open[now.open.len() - 1].text, t));
    assert(tables_gather_in_cells(s));
    lemma_tables_gather_through(s, next, base, pages);
    lemma_held_through(s, events, base, pages, at + 1, events.len() as int, t);
    assert(events.take(events.len() as int) =~= events);
    lemma_flushed_holds(after_events(s, events, base, pages), pages, t);
}

} // verus!
