//! The ingestion service: what a package reader supplies, and its assembly into a
//! `Book`.
use vstd::prelude::*;

use crate::chapters::{chapters_of, opt_view};
use crate::metadata::{
    all_values, first_value, items_view, keys_view, strings_view, MetadataItem,
};
use crate::model::{
    chapters_view, manifest_view, Book, BookContent, BookId, BookMetadata, ManifestItem, Spine,
};
use crate::toc::{entries_mirror, toc_labels, NavPoint};

verus! {

/// Normalizes what a package reader supplies into a `Book`.
#[derive(Debug, Default)]
pub struct EpubService;

/// What a package reader supplies for one archive.
#[derive(Debug)]
pub struct PackageData {
    /// Raw metadata pairs, in declaration order.
    pub metadata: Vec<MetadataItem>,
    /// The title that the reader's own title accessor gives.
    pub title: Option<String>,
    /// The package-level release identifier.
    pub release_identifier: Option<String>,
    /// The manifest; a lookup by id takes the first entry with that id.
    pub resources: Vec<ManifestItem>,
    /// The reading order, as manifest ids.
    pub spine: Vec<String>,
    /// The navigation tree.
    pub toc: Vec<NavPoint>,
    /// The markup of each reading-order entry (`fragments[k]` for `spine[k]`), when readable.
    pub fragments: Vec<Option<String>>,
}

/// The two ways ingestion fails, each with the archive's path and the cause.
#[derive(Debug)]
pub enum EpubError {
    /// The archive could not be read.
    Io { path: String, cause: String },
    /// The archive was read but is not a valid package.
    Parse { path: String, cause: String },
}

/// The first of two optional values that is present.
pub open spec fn either(a: Option<Seq<char>>, b: Option<Seq<char>>) -> Option<Seq<char>> {
    match a {
        Some(x) => Some(x),
        None => b,
    }
}

pub open spec fn identifier_keys() -> Seq<Seq<char>> {
    seq!["identifier"@]
}

pub open spec fn title_keys() -> Seq<Seq<char>> {
    seq!["title"@]
}

pub open spec fn author_keys() -> Seq<Seq<char>> {
    seq!["creator"@, "author"@]
}

pub open spec fn language_keys() -> Seq<Seq<char>> {
    seq!["language"@]
}

pub open spec fn description_keys() -> Seq<Seq<char>> {
    seq!["description"@, "abstract"@]
}

/// Whether `m` is the metadata record of the package: the first identifier (else
/// the release identifier), the reader's title (else the first title), all
/// creators and authors, the first language and the first description or abstract.
pub open spec fn metadata_conforms(m: BookMetadata, p: PackageData) -> bool {
    let items = items_view(p.metadata@);
    &&& opt_view(m.identifier) == either(
        first_value(items, identifier_keys()),
        opt_view(p.release_identifier),
    )
    &&& opt_view(m.title) == either(opt_view(p.title), first_value(items, title_keys()))
    &&& strings_view(m.authors@) == all_values(items, author_keys())
    &&& opt_view(m.language) == first_value(items, language_keys())
    &&& opt_view(m.description) == first_value(items, description_keys())
}

/// Whether `c` is the content of the package: its manifest and reading order, its
/// table of contents, and its chapters.
pub open spec fn content_conforms(c: BookContent, p: PackageData) -> bool {
    &&& manifest_view(c.manifest@) == manifest_view(p.resources@)
    &&& strings_view(c.spine.items@) == strings_view(p.spine@)
    &&& entries_mirror(c.toc@, p.toc@)
    &&& chapters_view(c.chapters@) == chapters_of(
        p.resources@,
        p.spine@,
        p.fragments@,
        toc_labels(p.toc@),
    )
}

/// Whether `b` is a document that ingesting package `p` from `source` may give:
/// its metadata and content are those of the package, and its id is the declared
/// identifier when there is one.
pub open spec fn ingested(p: PackageData, source: Seq<char>, b: Book) -> bool {
    &&& metadata_conforms(b.metadata, p)
    &&& content_conforms(b.content, p)
    &&& b.source_path@ == source
    &&& match b.metadata.identifier {
        Some(x) => b.id.0@ == x@,
        None => true,
    }
}

/// Relies on `uuid::Uuid::new_v4` and its `Display`: a freshly generated random
/// identifier in text form.
#[verifier::external_body]
fn fresh_identifier() -> (r: String) {
    uuid::Uuid::new_v4().to_string()
}

fn copy_strings(v: &Vec<String>) -> (r: Vec<String>)
    ensures
        strings_view(r@) == strings_view(v@),
{
    let mut out: Vec<String> = Vec::new();
    let mut i: usize = 0;
    while i < v.len()
        invariant
            i <= v.len(),
            strings_view(out@) == strings_view(v@.take(i as int)),
        decreases v.len() - i,
    {
        let ghost before = out@;
        out.push(v[i].clone());
        assert(strings_view(out@) =~= strings_view(before).push(v@[i as int]@));
        assert(strings_view(v@.take(i + 1)) =~= strings_view(v@.take(i as int)).push(v@[i as int]@));
        i += 1;
    }
    assert(v@.take(v.len() as int) =~= v@);
    out
}

fn copy_option(o: &Option<String>) -> (r: Option<String>)
    ensures
        opt_view(r) == opt_view(*o),
{
    match o {
        Some(s) => Some(s.clone()),
        None => None,
    }
}

impl EpubService {
    /// The metadata record of a package.
    pub fn extract_metadata(package: &PackageData) -> (r: BookMetadata)
        ensures
            metadata_conforms(r, *package),
    {
        let items = package.metadata.as_slice();
        let identifier_k: [&str; 1] = ["identifier"];
        let title_k: [&str; 1] = ["title"];
        let author_k: [&str; 2] = ["creator", "author"];
        let language_k: [&str; 1] = ["language"];
        let description_k: [&str; 2] = ["description", "abstract"];
        assert(keys_view(identifier_k@) =~= identifier_keys());
        assert(keys_view(title_k@) =~= title_keys());
        assert(keys_view(author_k@) =~= author_keys());
        assert(keys_view(language_k@) =~= language_keys());
        assert(keys_view(description_k@) =~= description_keys());
        let identifier = match Self::metadata_value(items, identifier_k.as_slice()) {
            Some(v) => Some(v),
            None => copy_option(&package.release_identifier),
        };
        let title = match copy_option(&package.title) {
            Some(t) => Some(t),
            None => Self::metadata_value(items, title_k.as_slice()),
        };
        let authors = Self::collect_metadata_values(items, author_k.as_slice());
        let language = Self::metadata_value(items, language_k.as_slice());
        let description = Self::metadata_value(items, description_k.as_slice());
        BookMetadata { identifier, title, authors, language, description }
    }

    /// The content of a package: manifest, reading order, table of contents and chapters.
    pub fn extract_content(package: &PackageData) -> (r: BookContent)
        ensures
            content_conforms(r, *package),
    {
        let mut manifest: Vec<ManifestItem> = Vec::new();
        let mut i: usize = 0;
        while i < package.resources.len()
            invariant
                i <= package.resources.len(),
                manifest_view(manifest@) == manifest_view(package.resources@.take(i as int)),
            decreases package.resources.len() - i,
        {
            let ghost before = manifest@;
            let ghost r = package.resources@[i as int];
            manifest.push(package.resources[i].duplicate());
            assert(manifest_view(manifest@) =~= manifest_view(before).push((r.id@, r.href@, r.media_type@)));
            assert(manifest_view(package.resources@.take(i + 1)) =~= manifest_view(
                package.resources@.take(i as int),
            ).push((r.id@, r.href@, r.media_type@)));
            i += 1;
        }
        assert(package.resources@.take(package.resources.len() as int) =~= package.resources@);
        let spine = Spine { items: copy_strings(&package.spine) };
        let toc_labels = Self::build_toc_label_map(package.toc.as_slice());
        let chapters = Self::collect_chapters(
            package.resources.as_slice(),
            package.spine.as_slice(),
            package.fragments.as_slice(),
            toc_labels.as_slice(),
        );
        let toc = Self::build_toc_entries(package.toc.as_slice());
        BookContent { manifest, spine, toc, chapters }
    }

    /// The document of a package read from `source_path`; its id is the declared
    /// identifier, else the release identifier, else `generated_id`.
    pub fn assemble_book(package: &PackageData, source_path: String, generated_id: String) -> (r:
        Book)
        ensures
            ingested(*package, source_path@, r),
            r.metadata.identifier is None ==> r.id.0@ == generated_id@,
    {
        let metadata = Self::extract_metadata(package);
        let content = Self::extract_content(package);
        let id = match &metadata.identifier {
            Some(x) => x.clone(),
            None => generated_id,
        };
        Book { id: BookId(id), metadata, content, source_path }
    }

    /// The document of a package read from `source_path`; without a declared or
    /// release identifier it gets a freshly generated one.
    pub fn open_package(&self, package: &PackageData, source_path: String) -> (r: Book)
        ensures
            ingested(*package, source_path@, r),
    {
        let generated = fresh_identifier();
        Self::assemble_book(package, source_path, generated)
    }
}

} // verus!
