//! The chapter builder: title derivation and assembly of chapters in reading order.
use vstd::prelude::*;

use crate::blocks::{plain_text, spans_text};
use crate::model::{
    blocks_view, chapters_view, BlockModel, Chapter, ChapterBlock, ChapterModel, ManifestItem,
};
use crate::metadata::{eq_ignore_case, fold_ascii};
use crate::parser::{blocks_from_lines, fragment_text, rendered_lines};
use crate::service::EpubService;
use crate::text::{
    lemma_split_len, lemma_split_push, split, string_from_range, to_chars, trim, trim_bounds,
    trim_range,
};
use crate::text::str_eq;
use crate::toc::{exact_label, is_same_path, labels_view, suffix_label};

verus! {

/// The trimmed text of the first block whose text is not blank.
pub open spec fn first_block_text(blocks: Seq<BlockModel>) -> Option<Seq<char>>
    decreases blocks.len(),
{
    if blocks.len() == 0 {
        None
    } else {
        match first_block_text(blocks.drop_last()) {
            Some(t) => Some(t),
            None => {
                let t = trim(spans_text(blocks.last().spans()));
                if t.len() > 0 {
                    Some(t)
                } else {
                    None
                }
            },
        }
    }
}

/// The first of the parts that is not blank, trimmed.
pub open spec fn first_nonblank(parts: Seq<Seq<char>>) -> Option<Seq<char>>
    decreases parts.len(),
{
    if parts.len() == 0 {
        None
    } else {
        match first_nonblank(parts.drop_last()) {
            Some(t) => Some(t),
            None => if trim(parts.last()).len() > 0 {
                Some(trim(parts.last()))
            } else {
                None
            },
        }
    }
}

/// The first non-blank line of a text, trimmed.
pub open spec fn first_nonblank_line(text: Seq<char>) -> Option<Seq<char>> {
    first_nonblank(split(text, '\n'))
}

/// The title of a chapter: the first that exists of the label for its exact path,
/// the label of a key that is a path suffix of it, the text of its first non-blank
/// block, the first non-blank line of its plain text, and its id if not empty.
pub open spec fn chapter_title(
    labels: Seq<(Seq<char>, Seq<char>)>,
    path: Seq<char>,
    blocks: Seq<BlockModel>,
    plain: Seq<char>,
    id: Seq<char>,
) -> Option<Seq<char>> {
    match exact_label(labels, path) {
        Some(l) => Some(l),
        None => match suffix_label(labels, path) {
            Some(l) => Some(l),
            None => match first_block_text(blocks) {
                Some(t) => Some(t),
                None => match first_nonblank_line(plain) {
                    Some(t) => Some(t),
                    None => if id.len() > 0 {
                        Some(id)
                    } else {
                        None
                    },
                },
            },
        },
    }
}

/// The view of an optional string.
pub open spec fn opt_view(o: Option<String>) -> Option<Seq<char>> {
    match o {
        Some(s) => Some(s@),
        None => None,
    }
}

/// A first match among a prefix is the first match of the whole.
pub proof fn lemma_exact_label_prefix(labels: Seq<(Seq<char>, Seq<char>)>, path: Seq<char>, k: int)
    requires
        0 <= k <= labels.len(),
        exact_label(labels.take(k), path) is Some,
    ensures
        exact_label(labels, path) == exact_label(labels.take(k), path),
    decreases labels.len() - k,
{
    if k < labels.len() {
        assert(labels.take(k + 1).drop_last() =~= labels.take(k));
        lemma_exact_label_prefix(labels, path, k + 1);
    } else {
        assert(labels.take(k) =~= labels);
    }
}

/// The label stored under the same path as `resource_path`.
fn exact_toc_label(toc_labels: &[(String, String)], resource_path: &str) -> (r: Option<String>)
    ensures
        opt_view(r) == exact_label(labels_view(toc_labels@), resource_path@),
{
    let mut i: usize = 0;
    while i < toc_labels.len()
        invariant
            i <= toc_labels.len(),
            exact_label(labels_view(toc_labels@.take(i as int)), resource_path@) is None,
        decreases toc_labels.len() - i,
    {
        assert(labels_view(toc_labels@.take(i + 1)).drop_last() =~= labels_view(
            toc_labels@.take(i as int),
        ));
        if is_same_path(toc_labels[i].0.as_str(), resource_path) {
            assert(labels_view(toc_labels@.take(i + 1)) =~= labels_view(toc_labels@).take(i + 1));
            proof {
                lemma_exact_label_prefix(labels_view(toc_labels@), resource_path@, i + 1);
            }
            return Some(toc_labels[i].1.clone());
        }
        i += 1;
    }
    assert(toc_labels@.take(toc_labels.len() as int) =~= toc_labels@);
    None
}

pub proof fn lemma_first_block_text_prefix(blocks: Seq<BlockModel>, k: int)
    requires
        0 <= k <= blocks.len(),
        first_block_text(blocks.take(k)) is Some,
    ensures
        first_block_text(blocks) == first_block_text(blocks.take(k)),
    decreases blocks.len() - k,
{
    if k < blocks.len() {
        assert(blocks.take(k + 1).drop_last() =~= blocks.take(k));
        lemma_first_block_text_prefix(blocks, k + 1);
    } else {
        assert(blocks.take(k) =~= blocks);
    }
}

/// The trimmed text of the first block whose text is not blank.
fn first_block_title(blocks: &[ChapterBlock]) -> (r: Option<String>)
    ensures
        opt_view(r) == first_block_text(blocks_view(blocks@)),
{
    let mut i: usize = 0;
    while i < blocks.len()
        invariant
            i <= blocks.len(),
            first_block_text(blocks_view(blocks@.take(i as int))) is None,
        decreases blocks.len() - i,
    {
        assert(blocks_view(blocks@.take(i + 1)).drop_last() =~= blocks_view(blocks@.take(i as int)));
        let text = EpubService::spans_to_text(blocks[i].spans().as_slice());
        let v = to_chars(text.as_str());
        let (lo, hi) = trim_bounds(&v);
        if lo < hi {
            assert(blocks_view(blocks@.take(i + 1)) =~= blocks_view(blocks@).take(i + 1));
            proof {
                lemma_first_block_text_prefix(blocks_view(blocks@), i + 1);
            }
            return Some(string_from_range(&v, lo, hi));
        }
        i += 1;
    }
    assert(blocks@.take(blocks.len() as int) =~= blocks@);
    None
}

pub proof fn lemma_first_nonblank_prefix(parts: Seq<Seq<char>>, k: int)
    requires
        0 <= k <= parts.len(),
        first_nonblank(parts.take(k)) is Some,
    ensures
        first_nonblank(parts) == first_nonblank(parts.take(k)),
    decreases parts.len() - k,
{
    if k < parts.len() {
        assert(parts.take(k + 1).drop_last() =~= parts.take(k));
        lemma_first_nonblank_prefix(parts, k + 1);
    } else {
        assert(parts.take(k) =~= parts);
    }
}

/// Splitting more text only adds to the last piece or adds pieces.
pub proof fn lemma_split_extends(s: Seq<char>, t: Seq<char>, sep: char)
    ensures
        split(s, sep).drop_last().is_prefix_of(split(s + t, sep)),
        split(s, sep).len() <= split(s + t, sep).len(),
    decreases t.len(),
{
    lemma_split_len(s, sep);
    if t.len() == 0 {
        assert(s + t =~= s);
    } else {
        lemma_split_extends(s, t.drop_last(), sep);
        assert(s + t =~= (s + t.drop_last()).push(t.last()));
        lemma_split_push(s + t.drop_last(), t.last(), sep);
        lemma_split_len(s + t.drop_last(), sep);
    }
}

/// The first non-blank line of a text, trimmed.
fn first_nonblank_text_line(text: &str) -> (r: Option<String>)
    ensures
        opt_view(r) == first_nonblank_line(text@),
{
    let v = to_chars(text);
    let mut start: usize = 0;
    let mut i: usize = 0;
    proof {
        assert(v@.take(0) =~= Seq::<char>::empty());
        assert(split(Seq::<char>::empty(), '\n').drop_last() =~= Seq::<Seq<char>>::empty());
        assert(v@.subrange(0, 0) =~= Seq::<char>::empty());
    }
    while i < v.len()
        invariant
            start <= i <= v.len(),
            v@ == text@,
            split(v@.take(i as int), '\n').len() >= 1,
            first_nonblank(split(v@.take(i as int), '\n').drop_last()) is None,
            split(v@.take(i as int), '\n').last() == v@.subrange(start as int, i as int),
        decreases v.len() - i,
    {
        let ghost pre = v@.take(i as int);
        let ghost parts = split(pre, '\n');
        proof {
            assert(v@.take(i + 1) =~= pre.push(v@[i as int]));
            lemma_split_push(pre, v@[i as int], '\n');
        }
        if v[i] == '\n' {
            let (lo, hi) = trim_range(&v, start, i);
            assert(parts.push(Seq::<char>::empty()).drop_last() =~= parts);
            assert(parts.drop_last().push(parts.last()) =~= parts);
            if lo < hi {
                proof {
                    lemma_split_extends(v@.take(i + 1), v@.subrange(i + 1, v.len() as int), '\n');
                    assert(v@.take(i + 1) + v@.subrange(i + 1, v.len() as int) =~= v@);
                    let all = split(v@, '\n');
                    assert(first_nonblank(parts) == Some(v@.subrange(lo as int, hi as int)));
                    assert(parts =~= all.take(parts.len() as int));
                    lemma_first_nonblank_prefix(all, parts.len() as int);
                    assert(first_nonblank(all) == Some(v@.subrange(lo as int, hi as int)));
                    assert(first_nonblank_line(text@) == Some(v@.subrange(lo as int, hi as int)));
                }
                return Some(string_from_range(&v, lo, hi));
            }
            start = i + 1;
            assert(v@.subrange(start as int, i + 1) =~= Seq::<char>::empty());
        } else {
            assert(parts.update(parts.len() - 1, parts.last().push(v@[i as int])).drop_last()
                =~= parts.drop_last());
            assert(v@.subrange(start as int, i + 1) =~= v@.subrange(start as int, i as int).push(
                v@[i as int],
            ));
        }
        i += 1;
    }
    assert(v@.take(v.len() as int) =~= v@);
    let (lo, hi) = trim_range(&v, start, v.len());
    let ghost parts = split(v@, '\n');
    assert(parts.drop_last().push(parts.last()) =~= parts);
    if lo < hi {
        Some(string_from_range(&v, lo, hi))
    } else {
        None
    }
}

impl EpubService {
    /// The title of a chapter, by the first rule that yields one: the label for its
    /// exact path, the label of a key that is a path suffix of it, the text of its
    /// first non-blank block, the first non-blank line of its plain text, its id.
    pub fn derive_chapter_title(
        toc_labels: &[(String, String)],
        resource_path: &str,
        blocks: &[ChapterBlock],
        plain_text: &str,
        fallback_id: &str,
    ) -> (r: Option<String>)
        ensures
            opt_view(r) == chapter_title(
                labels_view(toc_labels@),
                resource_path@,
                blocks_view(blocks@),
                plain_text@,
                fallback_id@,
            ),
    {
        if let Some(label) = exact_toc_label(toc_labels, resource_path) {
            return Some(label);
        }
        if let Some(label) = Self::match_toc_label(toc_labels, resource_path) {
            return Some(label);
        }
        if let Some(text) = first_block_title(blocks) {
            return Some(text);
        }
        if let Some(line) = first_nonblank_text_line(plain_text) {
            return Some(line);
        }
        if fallback_id.unicode_len() > 0 {
            return Some(String::from_str(fallback_id));
        }
        None
    }
}

/// The index of the first manifest entry with id `id`.
pub open spec fn find_resource(resources: Seq<ManifestItem>, id: Seq<char>) -> Option<int>
    decreases resources.len(),
{
    if resources.len() == 0 {
        None
    } else {
        match find_resource(resources.drop_last(), id) {
            Some(i) => Some(i),
            None => if resources.last().id@ == id {
                Some(resources.len() - 1)
            } else {
                None
            },
        }
    }
}

/// Whether a media type names markup: it holds `html`, ignoring ASCII case.
pub open spec fn is_markup_type(media: Seq<char>) -> bool {
    exists|i: int|
        0 <= i && i + 4 <= media.len() && eq_ignore_case(
            #[trigger] media.subrange(i, i + 4),
            seq!['h', 't', 'm', 'l'],
        )
}

/// The markup supplied for reading-order entry `k`, if any.
pub open spec fn fragment_at(fragments: Seq<Option<String>>, k: int) -> Option<Seq<char>> {
    if 0 <= k < fragments.len() {
        opt_view(fragments[k])
    } else {
        None
    }
}

/// The chapter built from a fragment: its blocks, its plain text (from the blocks,
/// or from the whole fragment when there are none) and its derived title.
pub open spec fn build_chapter(
    id: Seq<char>,
    href: Seq<char>,
    html: Seq<char>,
    labels: Seq<(Seq<char>, Seq<char>)>,
) -> ChapterModel {
    let blocks = blocks_from_lines(rendered_lines(html));
    let plain = if blocks.len() == 0 {
        fragment_text(html)
    } else {
        plain_text(blocks)
    };
    ChapterModel {
        id,
        title: chapter_title(labels, href, blocks, plain, id),
        href,
        blocks,
        plain_text: plain,
    }
}

/// The chapters of a reading order: one per entry whose id is in the manifest with
/// a markup media type and whose markup is supplied, in reading order.
pub open spec fn chapters_of(
    resources: Seq<ManifestItem>,
    spine: Seq<String>,
    fragments: Seq<Option<String>>,
    labels: Seq<(Seq<char>, Seq<char>)>,
) -> Seq<ChapterModel>
    decreases spine.len(),
{
    if spine.len() == 0 {
        Seq::empty()
    } else {
        let r = chapters_of(resources, spine.drop_last(), fragments, labels);
        let k = spine.len() - 1;
        let id = spine.last()@;
        match find_resource(resources, id) {
            None => r,
            Some(j) => {
                let item = resources[j];
                if !is_markup_type(item.media_type@) {
                    r
                } else {
                    match fragment_at(fragments, k) {
                        None => r,
                        Some(html) => r.push(build_chapter(id, item.href@, html, labels)),
                    }
                }
            },
        }
    }
}

pub proof fn lemma_find_resource_bounds(resources: Seq<ManifestItem>, id: Seq<char>)
    ensures
        find_resource(resources, id) is Some ==> {
            let j = find_resource(resources, id)->0;
            0 <= j < resources.len() && resources[j].id@ == id
        },
        find_resource(resources, id) is None ==> forall|j: int|
            0 <= j < resources.len() ==> (#[trigger] resources[j]).id@ != id,
    decreases resources.len(),
{
    if resources.len() > 0 {
        lemma_find_resource_bounds(resources.drop_last(), id);
        assert forall|j: int| 0 <= j < resources.len() - 1 implies resources.drop_last()[j]
            == #[trigger] resources[j] by {}
    }
}

/// The index of the first manifest entry with id `id`.
fn find_resource_index(resources: &[ManifestItem], id: &str) -> (r: Option<usize>)
    ensures
        match r {
            Some(j) => find_resource(resources@, id@) == Some(j as int),
            None => find_resource(resources@, id@) is None,
        },
{
    let mut j: usize = 0;
    while j < resources.len()
        invariant
            j <= resources.len(),
            find_resource(resources@.take(j as int), id@) is None,
        decreases resources.len() - j,
    {
        assert(resources@.take(j + 1).drop_last() =~= resources@.take(j as int));
        if str_eq(resources[j].id.as_str(), id) {
            proof {
                lemma_find_prefix(resources@, id@, j + 1);
            }
            return Some(j);
        }
        j += 1;
    }
    assert(resources@.take(resources.len() as int) =~= resources@);
    None
}

pub proof fn lemma_find_prefix(resources: Seq<ManifestItem>, id: Seq<char>, k: int)
    requires
        0 <= k <= resources.len(),
        find_resource(resources.take(k), id) is Some,
    ensures
        find_resource(resources, id) == find_resource(resources.take(k), id),
    decreases resources.len() - k,
{
    if k < resources.len() {
        assert(resources.take(k + 1).drop_last() =~= resources.take(k));
        lemma_find_prefix(resources, id, k + 1);
    } else {
        assert(resources.take(k) =~= resources);
    }
}

/// Whether a media type names markup.
pub fn is_markup_media_type(media: &str) -> (r: bool)
    ensures
        r == is_markup_type(media@),
{
    let v = to_chars(media);
    let pat: Vec<char> = vec!['h', 't', 'm', 'l'];
    let ghost p = seq!['h', 't', 'm', 'l'];
    assert(pat@ =~= p);
    assert(p.len() == 4);
    if v.len() < 4 {
        return false;
    }
    let mut i: usize = 0;
    while i <= v.len() - 4
        invariant
            v@ == media@,
            pat@ == p,
            p == seq!['h', 't', 'm', 'l'],
            p.len() == 4,
            4 <= v.len(),
            i <= v.len() - 3,
            forall|j: int| 0 <= j < i ==> !eq_ignore_case(#[trigger] v@.subrange(j, j + 4), p),
        decreases v.len() - i,
    {
        let mut same = true;
        let mut k: usize = 0;
        while k < 4
            invariant
                i + 4 <= v.len(),
                pat@ == p,
                p.len() == 4,
                k <= 4,
                same == forall|m: int| 0 <= m < k ==> fold_ascii(v@[i + m]) == fold_ascii(p[m]),
            decreases 4 - k,
        {
            if fold_char_of(v[i + k]) != fold_char_of(pat[k]) {
                same = false;
            }
            k += 1;
        }
        assert(same == eq_ignore_case(v@.subrange(i as int, i + 4), p)) by {
            if same {
                assert forall|m: int| 0 <= m < 4 implies fold_ascii(#[trigger] v@.subrange(i as int, i + 4)[m]) == fold_ascii(p[m]) by {
                    assert(fold_ascii(v@[i + m]) == fold_ascii(p[m]));
                }
            } else {
                let m = choose|m: int| 0 <= m < 4 && !(fold_ascii(v@[i + m]) == fold_ascii(p[m]));
                assert(v@.subrange(i as int, i + 4)[m] == v@[i + m]);
            }
        }
        if same {
            assert(media@.subrange(i as int, i + 4) == v@.subrange(i as int, i + 4));
            assert(eq_ignore_case(media@.subrange(i as int, i + 4), seq!['h', 't', 'm', 'l']));
            assert(is_markup_type(media@));
            return true;
        }
        i += 1;
    }
    false
}

fn fold_char_of(c: char) -> (r: u32)
    ensures
        r == fold_ascii(c),
{
    if 'A' <= c && c <= 'Z' {
        c as u32 + 32
    } else {
        c as u32
    }
}

impl EpubService {
    /// Builds one chapter from its fragment's markup.
    pub fn build_chapter(
        id: &str,
        href: &str,
        html: &str,
        toc_labels: &[(String, String)],
    ) -> (r: Chapter)
        ensures
            r@ == build_chapter(id@, href@, html@, labels_view(toc_labels@)),
    {
        let blocks = Self::html_to_blocks(html);
        let plain_text = if blocks.len() == 0 {
            Self::html_to_plain_text(html)
        } else {
            Self::blocks_to_plain_text(blocks.as_slice())
        };
        let title = Self::derive_chapter_title(
            toc_labels,
            href,
            blocks.as_slice(),
            plain_text.as_str(),
            id,
        );
        Chapter { id: String::from_str(id), title, href: String::from_str(href), blocks, plain_text }
    }

    /// The chapters of the reading order, in order: an entry is skipped when its id
    /// is not in the manifest, when its media type is not markup, or when its
    /// markup (`fragments[k]` for entry `k`) is not supplied.
    pub fn collect_chapters(
        resources: &[ManifestItem],
        spine: &[String],
        fragments: &[Option<String>],
        toc_labels: &[(String, String)],
    ) -> (r: Vec<Chapter>)
        ensures
            chapters_view(r@) == chapters_of(resources@, spine@, fragments@, labels_view(toc_labels@)),
    {
        let ghost labels = labels_view(toc_labels@);
        let mut chapters: Vec<Chapter> = Vec::new();
        let mut k: usize = 0;
        while k < spine.len()
            invariant
                k <= spine.len(),
                labels == labels_view(toc_labels@),
                chapters_view(chapters@) == chapters_of(resources@, spine@.take(k as int), fragments@, labels),
            decreases spine.len() - k,
        {
            let ghost before = chapters_view(chapters@);
            assert(spine@.take(k + 1).drop_last() =~= spine@.take(k as int));
            assert(spine@.take(k + 1).last() == spine@[k as int]);
            let id = spine[k].as_str();
            proof {
                lemma_find_resource_bounds(resources@, id@);
            }
            if let Some(j) = find_resource_index(resources, id) {
                let item = &resources[j];
                if is_markup_media_type(item.media_type.as_str()) && k < fragments.len() {
                    if let Some(html) = &fragments[k] {
                        let chapter = Self::build_chapter(id, item.href.as_str(), html.as_str(), toc_labels);
                        chapters.push(chapter);
                        assert(chapters_view(chapters@) =~= before.push(chapter@));
                    }
                }
            }
            k += 1;
        }
        assert(spine@.take(spine.len() as int) =~= spine@);
        chapters
    }
}

} // verus!
