//! What holds of every block list, heading path and content hash.

use vstd::prelude::*;
use vstd::string::*;
use vstd::utf8::*;

use crate::block::{
    block_page, block_views, kind_name, Block, BlockKind, BlockKindView, BlockLocation, BlockView,
};
use crate::markdown_blocks::{
    body_of, body_start, frontmatter_of, hash_entry, hash_input, heading_level, heading_path,
    markdown_blocks, markdown_events,
};
use crate::markdown_events::{
    after_event, after_events, assembled, closed_last, drained, emitted, events_fit, flushed, gathered, initial,
    page_at, AssemblyView, EventView,
};
use crate::text_laws::{laid_out, law_joined_is_laid_out};
use crate::text::{
    decimal, found, joined, lemma_decimal_injective, lemma_encode_concat, lemma_found,
    lemma_joined_nonempty, lemma_joined_update, occurs_at,
};

verus! {

/// Whether `location` is what a page list allows: no location without pages,
/// and a listed page otherwise.
pub open spec fn located(location: Option<BlockLocation>, pages: Seq<(usize, u32)>) -> bool {
    if pages.len() == 0 {
        location is None
    } else {
        exists|j: int|
            0 <= j < pages.len() && location == Some(
                BlockLocation { page: Some((#[trigger] pages[j]).1) },
            )
    }
}

/// Whether `b` may stand at position `i` of a block list.
pub open spec fn well_formed_at(b: BlockView, i: int, pages: Seq<(usize, u32)>) -> bool {
    &&& b.seq == i
    &&& located(b.location, pages)
    &&& b.text.len() > 0 || b.kind is Image || b.kind is Frontmatter
}

/// Whether every block is numbered by its position, placed as the page list
/// allows, and not empty unless it is an image or front matter.
pub open spec fn well_formed(blocks: Seq<BlockView>, pages: Seq<(usize, u32)>) -> bool {
    forall|i: int| 0 <= i < blocks.len() ==> #[trigger] well_formed_at(blocks[i], i, pages)
}

spec fn sound(s: AssemblyView, pages: Seq<(usize, u32)>) -> bool {
    &&& well_formed(s.blocks, pages)
    &&& s.running.len() > 0 ==> s.running_start is Some
    &&& forall|i: int| 0 <= i < s.running.len() ==> (#[trigger] s.running[i]).len() > 0
}

proof fn lemma_page_located(pages: Seq<(usize, u32)>, offset: int)
    ensures
        located(page_at(pages, offset), pages),
    decreases pages.len(),
{
    if pages.len() > 1 && pages.last().0 > offset {
        lemma_page_located(pages.drop_last(), offset);
        let j = choose|j: int|
            0 <= j < pages.len() - 1 && page_at(pages.drop_last(), offset) == Some(
                BlockLocation { page: Some((#[trigger] pages.drop_last()[j]).1) },
            );
        assert(pages[j] == pages.drop_last()[j]);
    } else if pages.len() > 0 {
        assert(pages[pages.len() - 1] == pages.last());
    }
}

proof fn lemma_emitted_sound(
    s: AssemblyView,
    kind: BlockKindView,
    text: Seq<char>,
    location: Option<BlockLocation>,
    pages: Seq<(usize, u32)>,
)
    requires
        sound(s, pages),
        located(location, pages),
        text.len() > 0 || kind is Image || kind is Frontmatter,
    ensures
        sound(emitted(s, kind, text, location), pages),
{
    let r = emitted(s, kind, text, location);
    assert forall|i: int| 0 <= i < r.blocks.len() implies #[trigger] well_formed_at(
        r.blocks[i],
        i,
        pages,
    ) by {
        if i < s.blocks.len() {
            assert(well_formed_at(s.blocks[i], i, pages));
        }
    }
}

proof fn lemma_flushed_sound(s: AssemblyView, pages: Seq<(usize, u32)>)
    requires
        sound(s, pages),
    ensures
        sound(flushed(s, pages), pages),
{
    if s.running.len() > 0 {
        lemma_joined_nonempty(s.running, "\n\n"@);
        lemma_page_located(pages, s.running_start->0);
        let bare = AssemblyView { running: Seq::empty(), running_start: None, ..s };
        lemma_emitted_sound(
            bare,
            BlockKindView::Text,
            joined(s.running, "\n\n"@),
            page_at(pages, s.running_start->0),
            pages,
        );
    }
}

proof fn lemma_drained_sound(s: AssemblyView, pages: Seq<(usize, u32)>)
    requires
        sound(s, pages),
    ensures
        sound(drained(s), pages),
    decreases s.open.len(),
{
    if s.open.len() > 0 {
        let e = s.open.last();
        lemma_drained_sound(gathered(closed_last(s), joined(e.text, " "@), e.start), pages);
    }
}

proof fn lemma_event_sound(
    s: AssemblyView,
    event: EventView,
    offset: int,
    pages: Seq<(usize, u32)>,
)
    requires
        sound(s, pages),
    ensures
        sound(after_event(s, event, offset, pages), pages),
{
    match event {
        EventView::Start(tag, detail) => {
            lemma_flushed_sound(s, pages);
        },
        EventView::End(tag) => {
            if s.open.len() > 0 {
                lemma_page_located(pages, s.open.last().start);
                assert forall|kind: BlockKindView, text: Seq<char>|
                    text.len() > 0 || kind is Image implies sound(
                    #[trigger] emitted(
                        closed_last(s),
                        kind,
                        text,
                        page_at(pages, s.open.last().start),
                    ),
                    pages,
                ) by {
                    lemma_emitted_sound(
                        closed_last(s),
                        kind,
                        text,
                        page_at(pages, s.open.last().start),
                        pages,
                    );
                }
            }
        },
        EventView::Html(t) => {
            lemma_drained_sound(s, pages);
        },
        _ => {},
    }
}

proof fn lemma_events_sound(
    s: AssemblyView,
    events: Seq<(EventView, int)>,
    base: int,
    pages: Seq<(usize, u32)>,
)
    requires
        sound(s, pages),
    ensures
        sound(after_events(s, events, base, pages), pages),
    decreases events.len(),
{
    if events.len() > 0 {
        lemma_events_sound(s, events.drop_last(), base, pages);
        lemma_event_sound(
            after_events(s, events.drop_last(), base, pages),
            events.last().0,
            base + events.last().1,
            pages,
        );
    }
}

/// Whatever the events, the blocks of a document are numbered from 0 without a
/// gap, only images and front matter are ever empty, every block lies on a
/// listed page, and without a page list no block has a location.
pub proof fn law_assembled_well_formed(
    frontmatter: Option<Seq<char>>,
    events: Seq<(EventView, int)>,
    base: int,
    pages: Seq<(usize, u32)>,
)
    ensures
        well_formed(assembled(frontmatter, events, base, pages), pages),
{
    let empty = initial(None, pages);
    assert(sound(empty, pages));
    if let Some(text) = frontmatter {
        lemma_page_located(pages, 0);
        lemma_emitted_sound(
            empty,
            BlockKindView::Frontmatter { format: "yaml"@ },
            text,
            page_at(pages, 0),
            pages,
        );
    }
    lemma_events_sound(initial(frontmatter, pages), events, base, pages);
    lemma_flushed_sound(after_events(initial(frontmatter, pages), events, base, pages), pages);
}

/// The blocks of a Markdown text are numbered from 0 without a gap and, where
/// no pages are given, have no location.
pub proof fn law_markdown_blocks_numbered(markdown: Seq<char>, i: int)
    requires
        0 <= i < markdown_blocks(markdown, Seq::empty()).len(),
    ensures
        markdown_blocks(markdown, Seq::empty())[i].seq == i,
        markdown_blocks(markdown, Seq::empty())[i].location is None,
{
    law_assembled_well_formed(
        frontmatter_of(markdown).0,
        markdown_events(body_of(markdown)),
        body_start(markdown),
        Seq::empty(),
    );
    assert(well_formed_at(markdown_blocks(markdown, Seq::empty())[i], i, Seq::empty()));
}

/// The location rule does not depend on anything but the pages that start at or
/// before the block: on an ascending page list, a block at byte `offset` lies
/// on the last page that starts no later.
pub proof fn law_page_is_last_started(pages: Seq<(usize, u32)>, offset: int, j: int)
    requires
        0 <= j < pages.len(),
        forall|a: int, b: int| 0 <= a <= b < pages.len() ==> pages[a].0 <= pages[b].0,
        pages[j].0 <= offset,
        j + 1 < pages.len() ==> offset < pages[j + 1].0,
    ensures
        page_at(pages, offset) == Some(BlockLocation { page: Some(pages[j].1) }),
    decreases pages.len(),
{
    if j + 1 < pages.len() {
        assert(pages[j + 1].0 <= pages[pages.len() - 1].0);
        let front = pages.drop_last();
        assert forall|a: int, b: int| 0 <= a <= b < front.len() implies front[a].0
            <= front[b].0 by {
            assert(pages[a].0 <= pages[b].0);
        }
        assert(front[j] == pages[j]);
        law_page_is_last_started(front, offset, j);
    }
}

/// Whether two block lists differ in nothing but locations.
pub open spec fn alike(a: Seq<BlockView>, b: Seq<BlockView>) -> bool {
    &&& a.len() == b.len()
    &&& forall|i: int|
        0 <= i < a.len() ==> (#[trigger] a[i]).seq == b[i].seq && a[i].kind == b[i].kind
            && a[i].text == b[i].text
}

spec fn states_alike(s: AssemblyView, t: AssemblyView) -> bool {
    &&& alike(s.blocks, t.blocks)
    &&& s.open == t.open
    &&& s.running == t.running
    &&& s.running_start == t.running_start
}

proof fn lemma_drained_alike(s: AssemblyView, t: AssemblyView)
    requires
        states_alike(s, t),
    ensures
        states_alike(drained(s), drained(t)),
    decreases s.open.len(),
{
    if s.open.len() > 0 {
        let e = s.open.last();
        lemma_drained_alike(
            gathered(closed_last(s), joined(e.text, " "@), e.start),
            gathered(closed_last(t), joined(e.text, " "@), e.start),
        );
    }
}

proof fn lemma_event_alike(
    s: AssemblyView,
    t: AssemblyView,
    event: EventView,
    offset: int,
    p: Seq<(usize, u32)>,
    q: Seq<(usize, u32)>,
)
    requires
        states_alike(s, t),
    ensures
        states_alike(after_event(s, event, offset, p), after_event(t, event, offset, q)),
{
    if event is Html {
        lemma_drained_alike(s, t);
    }
}

proof fn lemma_events_alike(
    s: AssemblyView,
    t: AssemblyView,
    events: Seq<(EventView, int)>,
    base: int,
    p: Seq<(usize, u32)>,
    q: Seq<(usize, u32)>,
)
    requires
        states_alike(s, t),
    ensures
        states_alike(after_events(s, events, base, p), after_events(t, events, base, q)),
    decreases events.len(),
{
    if events.len() > 0 {
        lemma_events_alike(s, t, events.drop_last(), base, p, q);
        lemma_event_alike(
            after_events(s, events.drop_last(), base, p),
            after_events(t, events.drop_last(), base, q),
            events.last().0,
            base + events.last().1,
            p,
            q,
        );
    }
}

/// Pages never split, merge or reorder blocks: under any two lists of page starts
/// the blocks of a text are equally many, with the same number, kind and text.
pub proof fn law_pages_do_not_change_blocks(
    markdown: Seq<char>,
    p: Seq<(usize, u32)>,
    q: Seq<(usize, u32)>,
)
    ensures
        alike(markdown_blocks(markdown, p), markdown_blocks(markdown, q)),
{
    let frontmatter = frontmatter_of(markdown).0;
    let events = markdown_events(body_of(markdown));
    let base = body_start(markdown);
    lemma_events_alike(initial(frontmatter, p), initial(frontmatter, q), events, base, p, q);
}

/// A heading path never has more than six entries.
pub proof fn law_heading_path_depth(blocks: Seq<BlockView>, target: int)
    ensures
        heading_path(blocks, target).len() <= 6,
    decreases blocks.len(),
{
    if blocks.len() > 0 {
        law_heading_path_depth(blocks.drop_last(), target);
    }
}

/// Blocks at or behind the target do not change the heading path.
pub proof fn law_heading_path_looks_back(blocks: Seq<BlockView>, more: Seq<BlockView>, target: int)
    requires
        forall|i: int| 0 <= i < more.len() ==> (#[trigger] more[i]).seq >= target,
    ensures
        heading_path(blocks + more, target) == heading_path(blocks, target),
    decreases more.len(),
{
    if more.len() == 0 {
        assert(blocks + more =~= blocks);
    } else {
        assert((blocks + more).drop_last() =~= blocks + more.drop_last());
        assert((blocks + more).last() == more[more.len() - 1]);
        law_heading_path_looks_back(blocks, more.drop_last(), target);
    }
}

/// A heading ahead of the target ends the path with its own text, and keeps
/// what stood above its level.
pub proof fn law_heading_path_ends_with_heading(blocks: Seq<BlockView>, b: BlockView, target: int)
    requires
        b.kind is Heading,
        b.seq < target,
    ensures
        heading_path(blocks.push(b), target).len() == heading_level(b.kind->level),
        heading_path(blocks.push(b), target).last() == b.text,
        forall|i: int|
            0 <= i < heading_level(b.kind->level) - 1 && i < heading_path(blocks, target).len()
                ==> #[trigger] heading_path(blocks.push(b), target)[i] == heading_path(
                blocks,
                target,
            )[i],
{
    assert(blocks.push(b).drop_last() =~= blocks);
}

/// A change of one block's page alone changes what is hashed.
pub proof fn law_repagination_changes_hash_input(
    blocks: Seq<BlockView>,
    i: int,
    location: Option<BlockLocation>,
)
    requires
        0 <= i < blocks.len(),
        block_page(BlockView { location, ..blocks[i] }) != block_page(blocks[i]),
    ensures
        hash_input(blocks.update(i, BlockView { location, ..blocks[i] })) != hash_input(blocks),
{
    let moved = BlockView { location, ..blocks[i] };
    let entries = blocks.map_values(|b: BlockView| hash_entry(b));
    let entries2 = blocks.update(i, moved).map_values(|b: BlockView| hash_entry(b));
    assert(entries2 =~= entries.update(i, hash_entry(moved)));
    let base = kind_name(moved.kind) + ":"@ + moved.text;
    reveal_strlit("\x01p");
    if hash_input(blocks.update(i, moved)) == hash_input(blocks) {
        lemma_joined_update(entries, i, hash_entry(moved), "\x00"@);
        assert(hash_entry(moved) == hash_entry(blocks[i]));
        match (block_page(moved), block_page(blocks[i])) {
            (Some(p), Some(q)) => {
                let whole = hash_entry(moved);
                let n = (base + "\x01p"@).len() as int;
                assert(whole.subrange(n, whole.len() as int) =~= decimal(p as int));
                assert(hash_entry(blocks[i]).subrange(n, whole.len() as int) =~= decimal(q as int));
                lemma_decimal_injective(p as int, q as int);
            },
            (Some(p), None) => {
                assert(hash_entry(moved).len() > base.len());
            },
            (None, Some(q)) => {
                assert(hash_entry(blocks[i]).len() > base.len());
            },
            (None, None) => {},
        }
    }
}

/// The name of a kind holds no colon.
proof fn lemma_kind_name_plain(kind: BlockKindView, i: int)
    requires
        0 <= i < kind_name(kind).len(),
    ensures
        kind_name(kind)[i] != ':',
{
    reveal_strlit("text");
    reveal_strlit("heading");
    reveal_strlit("code");
    reveal_strlit("table");
    reveal_strlit("image");
    reveal_strlit("frontmatter");
    reveal_strlit("message");
}

/// A change of one block's kind changes what is hashed, whatever else of the
/// block changes with it.
pub proof fn law_kind_change_changes_hash_input(blocks: Seq<BlockView>, i: int, b: BlockView)
    requires
        0 <= i < blocks.len(),
        kind_name(b.kind) != kind_name(blocks[i].kind),
    ensures
        hash_input(blocks.update(i, b)) != hash_input(blocks),
{
    let entries = blocks.map_values(|b: BlockView| hash_entry(b));
    let entries2 = blocks.update(i, b).map_values(|b: BlockView| hash_entry(b));
    assert(entries2 =~= entries.update(i, hash_entry(b)));
    if hash_input(blocks.update(i, b)) == hash_input(blocks) {
        lemma_joined_update(entries, i, hash_entry(b), "\x00"@);
        lemma_kind_from_entry(b, blocks[i]);
    }
}

/// Equal entries are of blocks of one kind.
proof fn lemma_kind_from_entry(a: BlockView, b: BlockView)
    requires
        hash_entry(a) == hash_entry(b),
    ensures
        kind_name(a.kind) == kind_name(b.kind),
{
    reveal_strlit(":");
    let x = kind_name(a.kind);
    let y = kind_name(b.kind);
    let e = hash_entry(a);
    assert(e[x.len() as int] == ':');
    assert(hash_entry(b)[y.len() as int] == ':');
    assert forall|k: int| 0 <= k < x.len() implies #[trigger] e[k] == x[k] by {}
    assert forall|k: int| 0 <= k < y.len() implies #[trigger] hash_entry(b)[k] == y[k] by {}
    if x.len() < y.len() {
        lemma_kind_name_plain(b.kind, x.len() as int);
        assert(hash_entry(b)[x.len() as int] == y[x.len() as int]);
    } else if y.len() < x.len() {
        lemma_kind_name_plain(a.kind, y.len() as int);
        assert(e[y.len() as int] == x[y.len() as int]);
    }
    assert forall|k: int| 0 <= k < x.len() implies x[k] == y[k] by {
        assert(e[k] == x[k]);
        assert(hash_entry(b)[k] == y[k]);
    }
    assert(x =~= y);
}

/// A change of one block's text alone changes what is hashed.
pub proof fn law_text_change_changes_hash_input(blocks: Seq<BlockView>, i: int, text: Seq<char>)
    requires
        0 <= i < blocks.len(),
        text != blocks[i].text,
    ensures
        hash_input(blocks.update(i, BlockView { text, ..blocks[i] })) != hash_input(blocks),
{
    let old = blocks[i];
    let new = BlockView { text, ..old };
    let entries = blocks.map_values(|b: BlockView| hash_entry(b));
    let entries2 = blocks.update(i, new).map_values(|b: BlockView| hash_entry(b));
    assert(entries2 =~= entries.update(i, hash_entry(new)));
    if hash_input(blocks.update(i, new)) == hash_input(blocks) {
        lemma_joined_update(entries, i, hash_entry(new), "\x00"@);
        let start = (kind_name(old.kind) + ":"@).len() as int;
        let end = match block_page(old) {
            Some(page) => "\x01p"@.len() + decimal(page as int).len(),
            None => 0,
        };
        let a = hash_entry(new);
        let b = hash_entry(old);
        assert(a.subrange(start, a.len() - end) =~= text);
        assert(b.subrange(start, b.len() - end) =~= old.text);
    }
}

/// Without pages a block has no location, and a block ahead of the first listed
/// page lies on that page.
pub proof fn law_page_of_early_blocks(pages: Seq<(usize, u32)>, offset: int)
    requires
        forall|a: int, b: int| 0 <= a <= b < pages.len() ==> pages[a].0 <= pages[b].0,
    ensures
        pages.len() == 0 ==> page_at(pages, offset) is None,
        pages.len() > 0 && offset < pages[0].0 ==> page_at(pages, offset) == Some(
            BlockLocation { page: Some(pages[0].1) },
        ),
    decreases pages.len(),
{
    if pages.len() > 1 {
        let front = pages.drop_last();
        assert forall|a: int, b: int| 0 <= a <= b < front.len() implies front[a].0
            <= front[b].0 by {
            assert(pages[a].0 <= pages[b].0);
        }
        assert(pages[0].0 <= pages[pages.len() - 1].0);
        law_page_of_early_blocks(front, offset);
    }
}

/// A block that is no heading does not change the heading path, whatever it is
/// and wherever it stands, and neither does a heading at or behind the target.
pub proof fn law_only_earlier_headings_change_the_path(
    blocks: Seq<BlockView>,
    b: BlockView,
    target: int,
)
    requires
        !(b.kind is Heading) || b.seq >= target,
    ensures
        heading_path(blocks.push(b), target) == heading_path(blocks, target),
        heading_path(Seq::empty(), target) == Seq::<Seq<char>>::empty(),
{
    assert(blocks.push(b).drop_last() =~= blocks);
}

/// Blocks that are no headings can be taken out without changing the path.
pub proof fn law_path_is_that_of_the_headings(blocks: Seq<BlockView>, target: int)
    ensures
        heading_path(blocks, target) == heading_path(
            blocks.filter(|b: BlockView| b.kind is Heading),
            target,
        ),
    decreases blocks.len(),
{
    let keep = |b: BlockView| b.kind is Heading;
    reveal(Seq::filter);
    if blocks.len() > 0 {
        let front = blocks.drop_last();
        law_path_is_that_of_the_headings(front, target);
        assert(blocks =~= front.push(blocks.last()));
        if keep(blocks.last()) {
            let headings = front.filter(keep);
            assert(blocks.filter(keep) =~= headings.push(blocks.last()));
            assert(headings.push(blocks.last()).drop_last() =~= headings);
        } else {
            law_only_earlier_headings_change_the_path(front, blocks.last(), target);
        }
    }
}

/// A heading that skips levels leaves the skipped ones empty, and its level is
/// taken as 1 to 6.
pub proof fn law_skipped_levels_are_empty(
    blocks: Seq<BlockView>,
    b: BlockView,
    target: int,
    i: int,
)
    requires
        b.kind is Heading,
        b.seq < target,
        heading_path(blocks, target).len() <= i,
    ensures
        i < heading_path(blocks.push(b), target).len() - 1 ==> heading_path(
            blocks.push(b),
            target,
        )[i] == Seq::<char>::empty(),
        1 <= heading_path(blocks.push(b), target).len() <= 6,
        1 <= b.kind->level <= 6 ==> heading_path(blocks.push(b), target).len() == b.kind->level,
        b.kind->level < 1 ==> heading_path(blocks.push(b), target).len() == 1,
        b.kind->level > 6 ==> heading_path(blocks.push(b), target).len() == 6,
{
    assert(blocks.push(b).drop_last() =~= blocks);
    law_heading_path_depth(blocks, target);
}

// ---------------------------------------------------------------------------
// Front matter
// ---------------------------------------------------------------------------

/// Whether a text begins with a line `---`, and the length of that line.
pub open spec fn opening(s: Seq<char>) -> Option<int> {
    if s.len() >= 5 && s.take(5) == seq!['-', '-', '-', '\r', '\n'] {
        Some(5)
    } else if s.len() >= 4 && s.take(4) == seq!['-', '-', '-', '\n'] {
        Some(4)
    } else {
        None
    }
}

/// Front matter and the rest make up the text again: an opening line, the body, a
/// line end, a closing line, and the rest. What does not begin with an opening
/// line has none, and all of it is the rest.
pub proof fn law_frontmatter_and_rest_are_the_text(s: Seq<char>)
    ensures
        opening(s) is None ==> frontmatter_of(s).0 is None,
        frontmatter_of(s).0 is None ==> frontmatter_of(s).1 == 0,
        frontmatter_of(s).0 matches Some(body) ==> ({
            let open = opening(s)->0;
            let rest = frontmatter_of(s).1;
            let close = s.subrange(open + body.len(), rest);
            &&& open + body.len() <= rest <= s.len()
            &&& s.subrange(open, open + body.len()) == body
            &&& close == seq!['\n', '-', '-', '-', '\r', '\n'] || close == seq![
                '\n',
                '-',
                '-',
                '-',
                '\n',
            ] || (rest == s.len() && (close == seq!['\n', '-', '-', '-'] || close == seq![
                '\n',
                '-',
                '-',
                '-',
                '\r',
            ]))
        }),
{
    lemma_fences();
    let open: int = if occurs_at(s, "---\r\n"@, 0) {
        5
    } else if occurs_at(s, "---\n"@, 0) {
        4
    } else {
        0
    };
    if s.len() >= 5 {
        assert(s.subrange(0, 5) =~= s.take(5));
    }
    if s.len() >= 4 {
        assert(s.subrange(0, 4) =~= s.take(4));
    }
    lemma_found(s, "\n---\r\n"@, open);
    lemma_found(s, "\n---\n"@, open);
    lemma_found(s, "\n---"@, open);
    if let Some(body) = frontmatter_of(s).0 {
        let rest = frontmatter_of(s).1;
        let close = s.subrange(open + body.len(), rest);
        if found(s, "\n---\r\n"@, open) is None && found(s, "\n---\n"@, open) is None {
            let p = found(s, "\n---"@, open)->0;
            let last = s.subrange(p + 1, s.len() as int);
            assert(close =~= seq![s[p]] + last);
            assert(s.subrange(p, p + 4)[0] == '\n');
        }
    }
}

/// Front matter that opens is closed by the first line that can close it: one with
/// `\r\n` anywhere, otherwise one with `\n` anywhere, otherwise a last line
/// without a line end. Where there is none of these there is no front matter.
pub proof fn law_frontmatter_runs_to_first_closing_line(s: Seq<char>, k: int)
    requires
        opening(s) is Some,
        opening(s)->0 <= k,
    ensures
        occurs_at(s, seq!['\n', '-', '-', '-', '\r', '\n'], k) ==> (frontmatter_of(
            s,
        ).0 matches Some(body) && opening(s)->0 + body.len() <= k),
        occurs_at(s, seq!['\n', '-', '-', '-', '\n'], k) && (forall|j: int|
            opening(s)->0 <= j ==> !occurs_at(s, seq!['\n', '-', '-', '-', '\r', '\n'], j)) ==> (
        frontmatter_of(s).0 matches Some(body) && opening(s)->0 + body.len() <= k),
        frontmatter_of(s).0 is None ==> !occurs_at(s, seq!['\n', '-', '-', '-', '\r', '\n'], k)
            && !occurs_at(s, seq!['\n', '-', '-', '-', '\n'], k),
{
    lemma_fences();
    assert(s.len() >= 5 ==> s.subrange(0, 5) =~= s.take(5));
    assert(s.len() >= 4 ==> s.subrange(0, 4) =~= s.take(4));
    let open = opening(s)->0;
    lemma_found(s, "\n---\r\n"@, open);
    lemma_found(s, "\n---\n"@, open);
    lemma_found(s, "\n---"@, open);
}

/// Where no closing line has a line end, a last line `---` closes the front matter
/// if it is the first line to begin so.
pub proof fn law_frontmatter_may_end_the_text(s: Seq<char>, k: int)
    requires
        opening(s) is Some,
        opening(s)->0 <= k,
        occurs_at(s, seq!['\n', '-', '-', '-'], k),
        forall|j: int| opening(s)->0 <= j < k ==> !occurs_at(s, seq!['\n', '-', '-', '-'], j),
        k + 4 == s.len() || (k + 5 == s.len() && s[k + 4] == '\r'),
    ensures
        frontmatter_of(s).0 == Some(s.subrange(opening(s)->0, k)),
        frontmatter_of(s).1 == s.len(),
{
    lemma_fences();
    assert(s.len() >= 5 ==> s.subrange(0, 5) =~= s.take(5));
    assert(s.len() >= 4 ==> s.subrange(0, 4) =~= s.take(4));
    let open = opening(s)->0;
    lemma_found(s, "\n---\r\n"@, open);
    lemma_found(s, "\n---\n"@, open);
    lemma_found(s, "\n---"@, open);
    assert forall|j: int| open <= j implies !occurs_at(s, "\n---\r\n"@, j) && !occurs_at(
        s,
        "\n---\n"@,
        j,
    ) by {
        if occurs_at(s, "\n---\r\n"@, j) {
            assert(s.subrange(j, j + 4) =~= s.subrange(j, j + 6).take(4));
            assert("\n---\r\n"@.take(4) =~= seq!['\n', '-', '-', '-']);
            assert(occurs_at(s, seq!['\n', '-', '-', '-'], j));
        }
        if occurs_at(s, "\n---\n"@, j) {
            assert(s.subrange(j, j + 4) =~= s.subrange(j, j + 5).take(4));
            assert("\n---\n"@.take(4) =~= seq!['\n', '-', '-', '-']);
            assert(occurs_at(s, seq!['\n', '-', '-', '-'], j));
            assert(s.subrange(j, j + 5)[4] == '\n');
        }
    }
    let last = s.subrange(k + 1, s.len() as int);
    assert(s.subrange(k, k + 4)[1] == '-' && s.subrange(k, k + 4)[2] == '-' && s.subrange(k, k + 4)[3]
        == '-');
    if k + 4 == s.len() {
        assert(last =~= seq!['-', '-', '-']);
    } else {
        assert(last =~= seq!['-', '-', '-', '\r']);
    }
}

proof fn lemma_fences()
    ensures
        "---\r\n"@ == seq!['-', '-', '-', '\r', '\n'],
        "---\n"@ == seq!['-', '-', '-', '\n'],
        "\n---\r\n"@ == seq!['\n', '-', '-', '-', '\r', '\n'],
        "\n---\n"@ == seq!['\n', '-', '-', '-', '\n'],
        "\n---"@ == seq!['\n', '-', '-', '-'],
        "---"@ == seq!['-', '-', '-'],
        "---\r"@ == seq!['-', '-', '-', '\r'],
{
    reveal_strlit("---\r\n");
    reveal_strlit("---\n");
    reveal_strlit("\n---\r\n");
    reveal_strlit("\n---\n");
    reveal_strlit("\n---");
    reveal_strlit("---");
    reveal_strlit("---\r");
    assert("---\r\n"@ =~= seq!['-', '-', '-', '\r', '\n']);
    assert("---\n"@ =~= seq!['-', '-', '-', '\n']);
    assert("\n---\r\n"@ =~= seq!['\n', '-', '-', '-', '\r', '\n']);
    assert("\n---\n"@ =~= seq!['\n', '-', '-', '-', '\n']);
    assert("\n---"@ =~= seq!['\n', '-', '-', '-']);
    assert("---"@ =~= seq!['-', '-', '-']);
    assert("---\r"@ =~= seq!['-', '-', '-', '\r']);
}

/// The front matter and what the events of the rest assemble are the blocks, and
/// the bytes of the rest are counted from behind the front matter.
pub proof fn law_blocks_of_a_text(markdown: Seq<char>, pages: Seq<(usize, u32)>)
    ensures
        markdown_blocks(markdown, pages) == assembled(
            frontmatter_of(markdown).0,
            markdown_events(markdown.skip(frontmatter_of(markdown).1)),
            encode_utf8(markdown.take(frontmatter_of(markdown).1)).len() as int,
            pages,
        ),
{
    law_frontmatter_and_rest_are_the_text(markdown);
    let at = frontmatter_of(markdown).1;
    assert(0 <= at <= markdown.len());
    assert(body_of(markdown) =~= markdown.skip(at));
    lemma_encode_concat(markdown.take(at), markdown.skip(at));
    assert(markdown.take(at) + markdown.skip(at) =~= markdown);
}

// ---------------------------------------------------------------------------
// Content hash
// ---------------------------------------------------------------------------

/// Whether a text holds no character below U+0002, so none that the content hash
/// puts between texts.
pub open spec fn plain_text(t: Seq<char>) -> bool {
    forall|i: int| 0 <= i < t.len() ==> #[trigger] t[i] != '\x00' && t[i] != '\x01'
}

/// What is hashed tells block lists of plain texts apart: from it their number,
/// and the kind, the text and the page of each can be told.
pub proof fn law_hash_input_tells_blocks_apart(a: Seq<BlockView>, b: Seq<BlockView>)
    requires
        forall|i: int| 0 <= i < a.len() ==> plain_text((#[trigger] a[i]).text),
        forall|i: int| 0 <= i < b.len() ==> plain_text((#[trigger] b[i]).text),
        hash_input(a) == hash_input(b),
    ensures
        a.len() == b.len(),
        forall|i: int|
            0 <= i < a.len() ==> kind_name((#[trigger] a[i]).kind) == kind_name(b[i].kind)
                && a[i].text == b[i].text && block_page(a[i]) == block_page(b[i]),
    decreases a.len(),
{
    let x = a.map_values(|v: BlockView| hash_entry(v));
    let y = b.map_values(|v: BlockView| hash_entry(v));
    reveal_strlit("\x00");
    assert forall|i: int| 0 <= i < x.len() implies no_nul(#[trigger] x[i]) && x[i].len() > 0 by {
        lemma_entry_without_nul(a[i]);
    }
    assert forall|i: int| 0 <= i < y.len() implies no_nul(#[trigger] y[i]) && y[i].len() > 0 by {
        lemma_entry_without_nul(b[i]);
    }
    lemma_nul_joined_injective(x, y);
    assert forall|i: int| 0 <= i < a.len() implies kind_name((#[trigger] a[i]).kind) == kind_name(
        b[i].kind,
    ) && a[i].text == b[i].text && block_page(a[i]) == block_page(b[i]) by {
        assert(x[i] == hash_entry(a[i]));
        assert(y[i] == hash_entry(b[i]));
        lemma_entry_injective(a[i], b[i]);
    }
}

spec fn no_nul(t: Seq<char>) -> bool {
    forall|i: int| 0 <= i < t.len() ==> #[trigger] t[i] != '\x00'
}

proof fn lemma_decimal_plain(n: int, i: int)
    requires
        0 <= n,
        0 <= i < decimal(n).len(),
    ensures
        '0' <= decimal(n)[i] <= '9',
    decreases n,
{
    if n >= 10 && i < decimal(n).len() - 1 {
        lemma_decimal_plain(n / 10, i);
    }
}

proof fn lemma_kind_name_no_control(kind: BlockKindView, i: int)
    requires
        0 <= i < kind_name(kind).len(),
    ensures
        kind_name(kind)[i] != '\x00' && kind_name(kind)[i] != '\x01',
{
    reveal_strlit("text");
    reveal_strlit("heading");
    reveal_strlit("code");
    reveal_strlit("table");
    reveal_strlit("image");
    reveal_strlit("frontmatter");
    reveal_strlit("message");
}

proof fn lemma_entry_without_nul(b: BlockView)
    requires
        plain_text(b.text),
    ensures
        no_nul(hash_entry(b)),
        hash_entry(b).len() > 0,
{
    reveal_strlit(":");
    reveal_strlit("\x01p");
    let e = hash_entry(b);
    let k = kind_name(b.kind);
    assert forall|i: int| 0 <= i < e.len() implies #[trigger] e[i] != '\x00' by {
        if i < k.len() {
            lemma_kind_name_no_control(b.kind, i);
        } else if i == k.len() {
        } else if i < k.len() + 1 + b.text.len() {
            assert(e[i] == b.text[i - k.len() - 1]);
        } else {
            let page = block_page(b)->0;
            let at = k.len() + 1 + b.text.len();
            if i >= at + 2 {
                lemma_decimal_plain(page as int, i - at - 2);
                assert(e[i] == decimal(page as int)[i - at - 2]);
            }
        }
    }
}

proof fn lemma_entry_injective(a: BlockView, b: BlockView)
    requires
        plain_text(a.text),
        plain_text(b.text),
        hash_entry(a) == hash_entry(b),
    ensures
        kind_name(a.kind) == kind_name(b.kind),
        a.text == b.text,
        block_page(a) == block_page(b),
{
    lemma_kind_from_entry(a, b);
    reveal_strlit(":");
    reveal_strlit("\x01p");
    let e = hash_entry(a);
    let at = kind_name(a.kind).len() + 1;
    let m = at + a.text.len();
    let n = at + b.text.len();
    assert(e.subrange(at as int, m as int) =~= a.text);
    assert(hash_entry(b).subrange(at as int, n as int) =~= b.text);
    if m < n {
        assert(e.len() >= n);
        assert(e[m as int] == '\x01');
        assert(hash_entry(b)[m as int] == b.text[m - at]);
    } else if n < m {
        assert(hash_entry(b).len() >= m);
        assert(hash_entry(b)[n as int] == '\x01');
        assert(e[n as int] == a.text[n - at]);
    }
    match (block_page(a), block_page(b)) {
        (Some(p), Some(q)) => {
            assert(e.skip(m as int + 2) =~= decimal(p as int));
            assert(hash_entry(b).skip(m as int + 2) =~= decimal(q as int));
            lemma_decimal_injective(p as int, q as int);
        },
        (Some(p), None) => {
            assert(e.len() > m);
        },
        (None, Some(q)) => {
            assert(hash_entry(b).len() > m);
        },
        (None, None) => {},
    }
}

/// Parts that hold no NUL and are not empty can be told from their join by NUL.
proof fn lemma_nul_joined_injective(x: Seq<Seq<char>>, y: Seq<Seq<char>>)
    requires
        forall|i: int| 0 <= i < x.len() ==> no_nul(#[trigger] x[i]) && x[i].len() > 0,
        forall|i: int| 0 <= i < y.len() ==> no_nul(#[trigger] y[i]) && y[i].len() > 0,
        joined(x, "\x00"@) == joined(y, "\x00"@),
    ensures
        x == y,
    decreases x.len(),
{
    reveal_strlit("\x00");
    let sep = "\x00"@;
    let t = joined(x, sep);
    if x.len() == 0 {
        if y.len() > 0 {
            lemma_joined_nonempty(y, sep);
        }
        assert(x =~= y);
    } else if y.len() == 0 {
        lemma_joined_nonempty(x, sep);
    } else {
        let p = x.last();
        let q = y.last();
        lemma_last_part(x, sep);
        lemma_last_part(y, sep);
        let n = t.len() as int;
        if p.len() < q.len() {
            assert(t.skip(n - q.len())[q.len() - p.len() - 1] == q[q.len() - p.len() - 1]);
            if x.len() > 1 {
                assert(t[n - p.len() - 1] == '\x00');
            } else {
                assert(t == p);
            }
        } else if q.len() < p.len() {
            assert(t.skip(n - p.len())[p.len() - q.len() - 1] == p[p.len() - q.len() - 1]);
            if y.len() > 1 {
                assert(t[n - q.len() - 1] == '\x00');
            } else {
                assert(t == q);
            }
        }
        assert(p.len() == q.len());
        assert(p == q);
        if x.len() == 1 || y.len() == 1 {
            if x.len() > 1 {
                assert(t == q);
                assert(joined(x, sep).len() > p.len());
            }
            if y.len() > 1 {
                assert(t == p);
                assert(joined(y, sep).len() > q.len());
            }
            assert(x =~= y);
        } else {
            let a = x.drop_last();
            let b = y.drop_last();
            assert(t.take(n - p.len() - 1) =~= joined(a, sep));
            assert(t.take(n - q.len() - 1) =~= joined(b, sep));
            lemma_nul_joined_injective(a, b);
            assert(x =~= a.push(p));
            assert(y =~= b.push(q));
        }
    }
}

proof fn lemma_last_part(x: Seq<Seq<char>>, sep: Seq<char>)
    requires
        x.len() > 0,
        sep.len() == 1,
    ensures
        joined(x, sep).len() >= x.last().len(),
        joined(x, sep).skip(joined(x, sep).len() - x.last().len()) == x.last(),
        x.len() == 1 ==> joined(x, sep) == x.last(),
        x.len() > 1 ==> joined(x, sep).len() > x.last().len() && joined(x, sep)[joined(
            x,
            sep,
        ).len() - x.last().len() - 1] == sep[0],
{
    let t = joined(x, sep);
    assert(t.skip(t.len() - x.last().len()) =~= x.last());
}

/// What is hashed is kind, colon and text of each block, and its page where it has
/// one, with NUL between blocks.
pub proof fn law_hash_input_form(blocks: Seq<BlockView>)
    ensures
        laid_out(
            hash_input(blocks),
            Seq::new(
                blocks.len(),
                |i: int|
                    kind_name(blocks[i].kind) + seq![':'] + blocks[i].text + (match blocks[i].location {
                        Some(BlockLocation { page: Some(n) }) => seq!['\x01', 'p'] + decimal(n as int),
                        _ => Seq::empty(),
                    }),
            ),
            seq!['\x00'],
        ),
{
    reveal_strlit(":");
    reveal_strlit("\x01p");
    reveal_strlit("\x00");
    assert(":"@ =~= seq![':']);
    assert("\x01p"@ =~= seq!['\x01', 'p']);
    assert("\x00"@ =~= seq!['\x00']);
    let entries = blocks.map_values(|b: BlockView| hash_entry(b));
    let parts = Seq::new(
        blocks.len(),
        |i: int|
            kind_name(blocks[i].kind) + seq![':'] + blocks[i].text + (match blocks[i].location {
                Some(BlockLocation { page: Some(n) }) => seq!['\x01', 'p'] + decimal(n as int),
                _ => Seq::empty(),
            }),
    );
    assert forall|i: int| 0 <= i < blocks.len() implies entries[i] == parts[i] by {
        assert(hash_entry(blocks[i]) =~= parts[i]);
    }
    assert(entries =~= parts);
    law_joined_is_laid_out(entries, "\x00"@);
}

/// A text of fewer than four thousand million events, whose bytes can be counted,
/// is never too large.
pub proof fn law_ordinary_texts_fit(events: Seq<(EventView, int)>, base: int)
    requires
        events.len() <= 4_000_000_000,
        forall|i: int| 0 <= i < events.len() ==> base + (#[trigger] events[i]).1 <= usize::MAX,
    ensures
        events_fit(events, base),
{
}

/// Blocks keep their number, kind, text and location as values.
pub proof fn law_block_values(blocks: Seq<Block>, i: int)
    requires
        0 <= i < blocks.len(),
    ensures
        block_views(blocks).len() == blocks.len(),
        block_views(blocks)[i].seq == blocks[i].seq,
        block_views(blocks)[i].text == blocks[i].text@,
        block_views(blocks)[i].location == blocks[i].location,
        block_views(blocks)[i].kind == blocks[i].kind@,
        blocks[i].kind is Heading <==> block_views(blocks)[i].kind is Heading,
        blocks[i].kind is Code <==> block_views(blocks)[i].kind is Code,
        blocks[i].kind is Text <==> block_views(blocks)[i].kind is Text,
        blocks[i].kind is Table <==> block_views(blocks)[i].kind is Table,
        blocks[i].kind is Image <==> block_views(blocks)[i].kind is Image,
        blocks[i].kind matches BlockKind::Heading { level } ==> block_views(blocks)[i].kind
            == (BlockKindView::Heading { level: level as int }),
{
}

} // verus!
