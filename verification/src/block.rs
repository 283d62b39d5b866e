//! Typed blocks: the structural units a document is cut into before chunking.

use vstd::prelude::*;

use crate::text::{optional_text, texts};

verus! {

/// What a block is.
#[derive(Clone, Debug, PartialEq, Eq)]
pub enum BlockKind {
    /// Running text: paragraphs, lists, quotes and HTML merged together.
    Text,
    /// A heading of level 1 to 6.
    Heading { level: u8 },
    /// A code block with the language of its fence.
    Code { language: Option<String> },
    /// A table with its header cells and its number of body rows.
    Table { headers: Vec<String>, rows: usize },
    /// An image with its alternative text and its address.
    Image { alt: Option<String>, src: Option<String> },
    /// Metadata ahead of the document, in the named format.
    Frontmatter { format: String },
    /// One message of a conversation.
    Message {
        sender: String,
        timestamp: Option<String>,
        message_id: Option<String>,
        reply_to: Option<String>,
    },
}

/// The mathematical value of a [`BlockKind`].
#[verifier::ext_equal]
pub enum BlockKindView {
    Text,
    Heading { level: int },
    Code { language: Option<Seq<char>> },
    Table { headers: Seq<Seq<char>>, rows: int },
    Image { alt: Option<Seq<char>>, src: Option<Seq<char>> },
    Frontmatter { format: Seq<char> },
    Message {
        sender: Seq<char>,
        timestamp: Option<Seq<char>>,
        message_id: Option<Seq<char>>,
        reply_to: Option<Seq<char>>,
    },
}

impl View for BlockKind {
    type V = BlockKindView;

    open spec fn view(&self) -> BlockKindView {
        match self {
            BlockKind::Text => BlockKindView::Text,
            BlockKind::Heading { level } => BlockKindView::Heading { level: *level as int },
            BlockKind::Code { language } => BlockKindView::Code {
                language: optional_text(*language),
            },
            BlockKind::Table { headers, rows } => BlockKindView::Table {
                headers: texts(headers@),
                rows: *rows as int,
            },
            BlockKind::Image { alt, src } => BlockKindView::Image {
                alt: optional_text(*alt),
                src: optional_text(*src),
            },
            BlockKind::Frontmatter { format } => BlockKindView::Frontmatter { format: format@ },
            BlockKind::Message { sender, timestamp, message_id, reply_to } => BlockKindView::Message {
                sender: sender@,
                timestamp: optional_text(*timestamp),
                message_id: optional_text(*message_id),
                reply_to: optional_text(*reply_to),
            },
        }
    }
}

/// The short name of a kind of block.
pub open spec fn kind_name(kind: BlockKindView) -> Seq<char> {
    match kind {
        BlockKindView::Text => "text"@,
        BlockKindView::Heading { .. } => "heading"@,
        BlockKindView::Code { .. } => "code"@,
        BlockKindView::Table { .. } => "table"@,
        BlockKindView::Image { .. } => "image"@,
        BlockKindView::Frontmatter { .. } => "frontmatter"@,
        BlockKindView::Message { .. } => "message"@,
    }
}

impl BlockKind {
    /// The short name of this kind.
    pub fn kind_str(&self) -> (r: &'static str)
        ensures
            r@ == kind_name(self@),
    {
        match self {
            BlockKind::Text => "text",
            BlockKind::Heading { .. } => "heading",
            BlockKind::Code { .. } => "code",
            BlockKind::Table { .. } => "table",
            BlockKind::Image { .. } => "image",
            BlockKind::Frontmatter { .. } => "frontmatter",
            BlockKind::Message { .. } => "message",
        }
    }
}

/// Where in its source a block stands.
#[derive(Clone, Copy, Debug, PartialEq, Eq, Structural)]
pub struct BlockLocation {
    /// 1-based page number, for paginated formats.
    pub page: Option<u32>,
}

impl Default for BlockLocation {
    fn default() -> (r: BlockLocation)
        ensures
            r.page is None,
    {
        BlockLocation { page: None }
    }
}

/// One structural unit of a document.
#[derive(Clone, Debug, PartialEq, Eq)]
pub struct Block {
    /// Position of the block in its document, from 0.
    pub seq: u32,
    pub kind: BlockKind,
    pub text: String,
    pub location: Option<BlockLocation>,
}

/// The mathematical value of a [`Block`].
#[verifier::ext_equal]
pub struct BlockView {
    pub seq: int,
    pub kind: BlockKindView,
    pub text: Seq<char>,
    pub location: Option<BlockLocation>,
}

impl View for Block {
    type V = BlockView;

    open spec fn view(&self) -> BlockView {
        BlockView {
            seq: self.seq as int,
            kind: self.kind@,
            text: self.text@,
            location: self.location,
        }
    }
}

/// The values of a run of blocks.
pub open spec fn block_views(blocks: Seq<Block>) -> Seq<BlockView> {
    blocks.map_values(|b: Block| b@)
}

/// The page a block starts on, where its source has pages.
pub open spec fn block_page(b: BlockView) -> Option<u32> {
    match b.location {
        Some(location) => location.page,
        None => None,
    }
}

} // verus!
