//! The document model produced by ingestion.
use vstd::prelude::*;

verus! {

/// Stable identifier of a document.
#[derive(Debug, Clone, Default)]
pub struct BookId(pub String);

/// Canonical metadata of a document; every field may be absent.
#[derive(Debug, Clone, Default)]
pub struct BookMetadata {
    pub identifier: Option<String>,
    pub title: Option<String>,
    pub authors: Vec<String>,
    pub language: Option<String>,
    pub description: Option<String>,
}

/// One resource of the archive: its id, its path and its media type.
#[derive(Debug, Clone, Default)]
pub struct ManifestItem {
    pub id: String,
    pub href: String,
    pub media_type: String,
}

/// The reading order, as manifest ids.
#[derive(Debug, Clone, Default)]
pub struct Spine {
    pub items: Vec<String>,
}

/// A node of the table of contents; its href carries no fragment.
#[derive(Debug, Default)]
pub struct TocEntry {
    pub label: String,
    pub href: String,
    pub children: Vec<TocEntry>,
}

/// Whether two entry trees have the same labels, hrefs and shape.
pub open spec fn entry_same(a: TocEntry, b: TocEntry) -> bool
    decreases a,
{
    &&& a.label@ == b.label@
    &&& a.href@ == b.href@
    &&& entries_same(a.children@, b.children@)
}

/// Whether two lists of entry trees are the same, one for one.
pub open spec fn entries_same(a: Seq<TocEntry>, b: Seq<TocEntry>) -> bool
    decreases a,
{
    &&& a.len() == b.len()
    &&& a.len() > 0 ==> {
        &&& entries_same(a.drop_last(), b.drop_last())
        &&& entry_same(a.last(), b.last())
    }
}

impl TocEntry {
    /// A deep copy of the entry and its subtree.
    pub fn duplicate(&self) -> (r: TocEntry)
        ensures
            entry_same(r, *self),
        decreases self,
    {
        let mut children: Vec<TocEntry> = Vec::new();
        let mut i: usize = 0;
        assert(self.children@.take(0).len() == 0);
        while i < self.children.len()
            invariant
                i <= self.children.len(),
                entries_same(children@, self.children@.take(i as int)),
            decreases self.children.len() - i,
        {
            assert(decreases_to!(self => self.children@[i as int]));
            let c = self.children[i].duplicate();
            let ghost before = children@;
            children.push(c);
            assert(children@.drop_last() =~= before);
            assert(self.children@.take(i + 1).drop_last() =~= self.children@.take(i as int));
            assert(self.children@.take(i + 1).last() == self.children@[i as int]);
            i += 1;
        }
        assert(self.children@.take(self.children.len() as int) =~= self.children@);
        TocEntry { label: self.label.clone(), href: self.href.clone(), children }
    }
}

impl Clone for TocEntry {
    fn clone(&self) -> (r: TocEntry)
        ensures
            entry_same(r, *self),
    {
        self.duplicate()
    }
}

/// A run of text with uniform style.
#[derive(Debug, Clone, Default)]
pub struct TextSpan {
    pub text: String,
    pub bold: bool,
    pub italic: bool,
}

/// What a span stands for: its characters and its style flags.
pub struct SpanModel {
    pub text: Seq<char>,
    pub bold: bool,
    pub italic: bool,
}

impl View for TextSpan {
    type V = SpanModel;

    open spec fn view(&self) -> SpanModel {
        SpanModel { text: self.text@, bold: self.bold, italic: self.italic }
    }
}

impl TextSpan {
    /// An unstyled span.
    pub fn plain(text: String) -> (r: TextSpan)
        ensures
            r@ == (SpanModel { text: text@, bold: false, italic: false }),
    {
        TextSpan { text, bold: false, italic: false }
    }

    /// A span with the given style flags.
    pub fn styled(text: String, bold: bool, italic: bool) -> (r: TextSpan)
        ensures
            r@ == (SpanModel { text: text@, bold, italic }),
    {
        TextSpan { text, bold, italic }
    }
}

/// The views of a sequence of spans.
pub open spec fn spans_view(spans: Seq<TextSpan>) -> Seq<SpanModel> {
    spans.map_values(|s: TextSpan| s@)
}

/// One structural unit of chapter content.
#[derive(Debug, Clone)]
pub enum ChapterBlock {
    Heading { level: u8, spans: Vec<TextSpan> },
    Paragraph { spans: Vec<TextSpan> },
}

/// What a block stands for.
pub enum BlockModel {
    Heading { level: u8, spans: Seq<SpanModel> },
    Paragraph { spans: Seq<SpanModel> },
}

impl View for ChapterBlock {
    type V = BlockModel;

    open spec fn view(&self) -> BlockModel {
        match self {
            ChapterBlock::Heading { level, spans } => BlockModel::Heading {
                level: *level,
                spans: spans_view(spans@),
            },
            ChapterBlock::Paragraph { spans } => BlockModel::Paragraph {
                spans: spans_view(spans@),
            },
        }
    }
}

impl BlockModel {
    pub open spec fn spans(self) -> Seq<SpanModel> {
        match self {
            BlockModel::Heading { spans, .. } => spans,
            BlockModel::Paragraph { spans } => spans,
        }
    }
}

/// The views of a sequence of blocks.
pub open spec fn blocks_view(blocks: Seq<ChapterBlock>) -> Seq<BlockModel> {
    blocks.map_values(|b: ChapterBlock| b@)
}

impl ChapterBlock {
    /// The spans of the block, whatever its kind.
    pub fn spans(&self) -> (r: &Vec<TextSpan>)
        ensures
            spans_view(r@) == self@.spans(),
    {
        match self {
            ChapterBlock::Heading { spans, .. } => spans,
            ChapterBlock::Paragraph { spans } => spans,
        }
    }
}

impl Default for ChapterBlock {
    fn default() -> (r: ChapterBlock)
        ensures
            r@ == (BlockModel::Paragraph { spans: Seq::empty() }),
    {
        let r = ChapterBlock::Paragraph { spans: Vec::new() };
        assert(spans_view(Seq::<TextSpan>::empty()) == Seq::<SpanModel>::empty());
        r
    }
}

/// Manifest, reading order, table of contents and chapters of a document.
#[derive(Debug, Clone, Default)]
pub struct BookContent {
    pub manifest: Vec<ManifestItem>,
    pub spine: Spine,
    pub toc: Vec<TocEntry>,
    pub chapters: Vec<Chapter>,
}

/// One chapter, built once at ingestion.
#[derive(Debug, Clone, Default)]
pub struct Chapter {
    pub id: String,
    pub title: Option<String>,
    pub href: String,
    pub blocks: Vec<ChapterBlock>,
    pub plain_text: String,
}

/// A whole document.
#[derive(Debug, Clone, Default)]
pub struct Book {
    pub id: BookId,
    pub metadata: BookMetadata,
    pub content: BookContent,
    pub source_path: String,
}

/// What a chapter stands for.
pub struct ChapterModel {
    pub id: Seq<char>,
    pub title: Option<Seq<char>>,
    pub href: Seq<char>,
    pub blocks: Seq<BlockModel>,
    pub plain_text: Seq<char>,
}

impl View for Chapter {
    type V = ChapterModel;

    open spec fn view(&self) -> ChapterModel {
        ChapterModel {
            id: self.id@,
            title: match self.title {
                Some(t) => Some(t@),
                None => None,
            },
            href: self.href@,
            blocks: blocks_view(self.blocks@),
            plain_text: self.plain_text@,
        }
    }
}

/// The views of a sequence of chapters.
pub open spec fn chapters_view(chapters: Seq<Chapter>) -> Seq<ChapterModel> {
    chapters.map_values(|c: Chapter| c@)
}

/// What a manifest entry stands for: id, path and media type.
pub open spec fn manifest_view(items: Seq<ManifestItem>) -> Seq<(Seq<char>, Seq<char>, Seq<char>)> {
    items.map_values(|m: ManifestItem| (m.id@, m.href@, m.media_type@))
}

impl ManifestItem {
    /// A copy of the entry.
    pub fn duplicate(&self) -> (r: ManifestItem)
        ensures
            r.id@ == self.id@,
            r.href@ == self.href@,
            r.media_type@ == self.media_type@,
    {
        ManifestItem { id: self.id.clone(), href: self.href.clone(), media_type: self.media_type.clone() }
    }
}

impl BookMetadata {
    pub open spec fn is_empty(&self) -> bool {
        &&& self.identifier is None
        &&& self.title is None
        &&& self.authors@.len() == 0
        &&& self.language is None
        &&& self.description is None
    }
}

impl BookContent {
    pub open spec fn is_empty(&self) -> bool {
        &&& self.manifest@.len() == 0
        &&& self.spine.items@.len() == 0
        &&& self.toc@.len() == 0
        &&& self.chapters@.len() == 0
    }
}

impl Book {
    /// A document with no content, whose id is `unknown`.
    pub fn empty() -> (r: Book)
        ensures
            r.id.0@ == "unknown"@,
            r.metadata.is_empty(),
            r.content.is_empty(),
            r.source_path@.len() == 0,
    {
        Book {
            id: BookId(String::from_str("unknown")),
            metadata: BookMetadata {
                identifier: None,
                title: None,
                authors: Vec::new(),
                language: None,
                description: None,
            },
            content: BookContent {
                manifest: Vec::new(),
                spine: Spine { items: Vec::new() },
                toc: Vec::new(),
                chapters: Vec::new(),
            },
            source_path: String::new(),
        }
    }
}

} // verus!
