//! Descriptive metadata of a document.

use vstd::prelude::*;
use vstd::string::*;

use crate::text::{clone_optional, clone_texts, optional_text, texts};

verus! {

/// Bibliographic metadata.
#[derive(Debug, PartialEq, Eq)]
pub struct DublinCoreMetadata {
    pub title: Option<String>,
    pub creator: Vec<String>,
    pub subject: Vec<String>,
    pub description: Option<String>,
    pub publisher: Option<String>,
    pub contributor: Vec<String>,
    pub date: Option<String>,
    pub language: Option<String>,
    pub relation: Vec<String>,
    pub rights: Option<String>,
}

/// The mathematical value of a [`DublinCoreMetadata`].
#[verifier::ext_equal]
pub struct DublinCoreView {
    pub title: Option<Seq<char>>,
    pub creator: Seq<Seq<char>>,
    pub subject: Seq<Seq<char>>,
    pub description: Option<Seq<char>>,
    pub publisher: Option<Seq<char>>,
    pub contributor: Seq<Seq<char>>,
    pub date: Option<Seq<char>>,
    pub language: Option<Seq<char>>,
    pub relation: Seq<Seq<char>>,
    pub rights: Option<Seq<char>>,
}

impl View for DublinCoreMetadata {
    type V = DublinCoreView;

    open spec fn view(&self) -> DublinCoreView {
        DublinCoreView {
            title: optional_text(self.title),
            creator: texts(self.creator@),
            subject: texts(self.subject@),
            description: optional_text(self.description),
            publisher: optional_text(self.publisher),
            contributor: texts(self.contributor@),
            date: optional_text(self.date),
            language: optional_text(self.language),
            relation: texts(self.relation@),
            rights: optional_text(self.rights),
        }
    }
}

impl Clone for DublinCoreMetadata {
    fn clone(&self) -> (r: DublinCoreMetadata)
        ensures
            r@ == self@,
    {
        DublinCoreMetadata {
            title: clone_optional(&self.title),
            creator: clone_texts(&self.creator),
            subject: clone_texts(&self.subject),
            description: clone_optional(&self.description),
            publisher: clone_optional(&self.publisher),
            contributor: clone_texts(&self.contributor),
            date: clone_optional(&self.date),
            language: clone_optional(&self.language),
            relation: clone_texts(&self.relation),
            rights: clone_optional(&self.rights),
        }
    }
}

/// Metadata that says nothing.
pub open spec fn no_metadata() -> DublinCoreView {
    DublinCoreView {
        title: None,
        creator: Seq::empty(),
        subject: Seq::empty(),
        description: None,
        publisher: None,
        contributor: Seq::empty(),
        date: None,
        language: None,
        relation: Seq::empty(),
        rights: None,
    }
}

impl Default for DublinCoreMetadata {
    fn default() -> (r: DublinCoreMetadata)
        ensures
            r@ == no_metadata(),
    {
        let r = DublinCoreMetadata {
            title: None,
            creator: Vec::new(),
            subject: Vec::new(),
            description: None,
            publisher: None,
            contributor: Vec::new(),
            date: None,
            language: None,
            relation: Vec::new(),
            rights: None,
        };
        proof {
            assert(texts(Seq::<String>::empty()) =~= Seq::empty());
            assert(r@ =~= no_metadata());
        }
        r
    }
}

/// Metadata of a document.
#[derive(Debug, PartialEq, Eq)]
pub struct DocumentMetadata {
    pub dublin_core: DublinCoreMetadata,
}

/// Metadata of a conversation.
#[derive(Debug, PartialEq, Eq)]
pub struct ConversationMetadata {
    pub dublin_core: DublinCoreMetadata,
}

/// Metadata of a transcription.
#[derive(Debug, PartialEq, Eq)]
pub struct TranscriptionMetadata {
    pub dublin_core: DublinCoreMetadata,
}

impl Default for DocumentMetadata {
    fn default() -> (r: DocumentMetadata)
        ensures
            r.dublin_core@ == no_metadata(),
    {
        DocumentMetadata { dublin_core: DublinCoreMetadata::default() }
    }
}

/// Metadata by kind of resource.
#[derive(Debug, PartialEq, Eq)]
pub enum Metadata {
    Document(DocumentMetadata),
    Conversation(ConversationMetadata),
    Transcription(TranscriptionMetadata),
}

/// The mathematical value of a [`Metadata`].
#[verifier::ext_equal]
pub enum MetadataView {
    Document(DublinCoreView),
    Conversation(DublinCoreView),
    Transcription(DublinCoreView),
}

impl View for Metadata {
    type V = MetadataView;

    open spec fn view(&self) -> MetadataView {
        match self {
            Metadata::Document(m) => MetadataView::Document(m.dublin_core@),
            Metadata::Conversation(m) => MetadataView::Conversation(m.dublin_core@),
            Metadata::Transcription(m) => MetadataView::Transcription(m.dublin_core@),
        }
    }
}

impl Clone for Metadata {
    fn clone(&self) -> (r: Metadata)
        ensures
            r@ == self@,
    {
        match self {
            Metadata::Document(m) => Metadata::Document(
                DocumentMetadata { dublin_core: m.dublin_core.clone() },
            ),
            Metadata::Conversation(m) => Metadata::Conversation(
                ConversationMetadata { dublin_core: m.dublin_core.clone() },
            ),
            Metadata::Transcription(m) => Metadata::Transcription(
                TranscriptionMetadata { dublin_core: m.dublin_core.clone() },
            ),
        }
    }
}

impl Default for Metadata {
    fn default() -> (r: Metadata)
        ensures
            r@ == MetadataView::Document(no_metadata()),
    {
        Metadata::Document(DocumentMetadata::default())
    }
}

/// The bibliographic part of metadata of any kind.
pub open spec fn bibliographic(m: MetadataView) -> DublinCoreView {
    match m {
        MetadataView::Document(d) => d,
        MetadataView::Conversation(d) => d,
        MetadataView::Transcription(d) => d,
    }
}

/// `m` with `title` as its title.
pub open spec fn titled(m: MetadataView, title: Seq<char>) -> MetadataView {
    let d = DublinCoreView { title: Some(title), ..bibliographic(m) };
    match m {
        MetadataView::Document(_) => MetadataView::Document(d),
        MetadataView::Conversation(_) => MetadataView::Conversation(d),
        MetadataView::Transcription(_) => MetadataView::Transcription(d),
    }
}

/// `m`, with `title` as its title where it has none of its own.
pub open spec fn title_backfilled(m: MetadataView, title: Option<Seq<char>>) -> MetadataView {
    match title {
        Some(t) if bibliographic(m).title is None => titled(m, t),
        _ => m,
    }
}

impl Metadata {
    /// The bibliographic part.
    pub fn dublin_core(&self) -> (r: &DublinCoreMetadata)
        ensures
            r@ == bibliographic(self@),
    {
        match self {
            Metadata::Document(m) => &m.dublin_core,
            Metadata::Conversation(m) => &m.dublin_core,
            Metadata::Transcription(m) => &m.dublin_core,
        }
    }

    /// The title, where there is one.
    pub fn title(&self) -> (r: Option<&str>)
        ensures
            r is Some == bibliographic(self@).title is Some,
            r matches Some(t) ==> bibliographic(self@).title == Some(t@),
    {
        match &self.dublin_core().title {
            Some(t) => Some(t.as_str()),
            None => None,
        }
    }

    /// Sets the title where there is none.
    pub fn backfill_title(&mut self, title: &Option<String>)
        ensures
            final(self)@ == title_backfilled(old(self)@, optional_text(*title)),
    {
        if let Some(t) = title {
            if self.title().is_none() {
                let new_title: Option<String> = Some(t.clone());
                match self {
                    Metadata::Document(m) => {
                        m.dublin_core.title = new_title;
                    },
                    Metadata::Conversation(m) => {
                        m.dublin_core.title = new_title;
                    },
                    Metadata::Transcription(m) => {
                        m.dublin_core.title = new_title;
                    },
                }
            }
        }
    }
}

} // verus!
