//! Laws relating the normalizers' results across inputs and across calls.
use vstd::prelude::*;

use crate::chapters::{chapter_title, first_block_text, first_nonblank_line};
use crate::metadata::{
    all_values, eq_ignore_case, first_value, fold_ascii, has_ci, key_matches, matches_any,
    strings_view,
};
use crate::model::{chapters_view, entries_same, entry_same, manifest_view, BlockModel, Book, TocEntry};
use crate::service::{ingested, PackageData};
use crate::text::{split, trim};
use crate::toc::{
    components, entries_mirror, entry_mirrors, exact_label, keep_components, path_ends_with,
    suffix_label, NavPoint,
};

verus! {

/// Two entry trees that mirror one navigation tree are the same.
pub proof fn lemma_mirror_unique(a: TocEntry, b: TocEntry, n: NavPoint)
    requires
        entry_mirrors(a, n),
        entry_mirrors(b, n),
    ensures
        entry_same(a, b),
    decreases n,
{
    assert(decreases_to!(n => n.children@));
    lemma_mirrors_unique(a.children@, b.children@, n.children@);
}

/// Two lists of entry trees that mirror one list of navigation nodes are the same.
pub proof fn lemma_mirrors_unique(a: Seq<TocEntry>, b: Seq<TocEntry>, ns: Seq<NavPoint>)
    requires
        entries_mirror(a, ns),
        entries_mirror(b, ns),
    ensures
        entries_same(a, b),
    decreases ns,
{
    if ns.len() > 0 {
        assert(decreases_to!(ns => ns.drop_last()));
        assert(decreases_to!(ns => ns.last()));
        lemma_mirrors_unique(a.drop_last(), b.drop_last(), ns.drop_last());
        lemma_mirror_unique(a.last(), b.last(), ns.last());
    }
}

/// Ingestion is repeatable: two documents ingested from one package agree in
/// metadata, manifest, reading order, table of contents, chapters and source;
/// when the package declares an identifier (or a release identifier), their ids
/// agree as well, and only a generated id can tell them apart.
pub proof fn lemma_ingestion_repeatable(p: PackageData, source: Seq<char>, b1: Book, b2: Book)
    requires
        ingested(p, source, b1),
        ingested(p, source, b2),
    ensures
        crate::chapters::opt_view(b1.metadata.identifier) == crate::chapters::opt_view(b2.metadata.identifier),
        crate::chapters::opt_view(b1.metadata.title) == crate::chapters::opt_view(b2.metadata.title),
        strings_view(b1.metadata.authors@) == strings_view(b2.metadata.authors@),
        crate::chapters::opt_view(b1.metadata.language) == crate::chapters::opt_view(b2.metadata.language),
        crate::chapters::opt_view(b1.metadata.description) == crate::chapters::opt_view(
            b2.metadata.description,
        ),
        manifest_view(b1.content.manifest@) == manifest_view(b2.content.manifest@),
        strings_view(b1.content.spine.items@) == strings_view(b2.content.spine.items@),
        entries_same(b1.content.toc@, b2.content.toc@),
        chapters_view(b1.content.chapters@) == chapters_view(b2.content.chapters@),
        b1.source_path@ == b2.source_path@,
        b1.metadata.identifier is Some ==> b1.id.0@ == b2.id.0@,
{
    lemma_mirrors_unique(b1.content.toc@, b2.content.toc@, p.toc@);
    if b1.metadata.identifier is Some {
        assert(b2.metadata.identifier is Some);
    }
}

/// Title precedence: a label for the chapter's exact path wins over everything
/// else, whatever its blocks hold; without any label or text the id is the title,
/// and with an empty id there is none.
pub proof fn lemma_title_precedence(
    labels: Seq<(Seq<char>, Seq<char>)>,
    path: Seq<char>,
    blocks: Seq<BlockModel>,
    plain: Seq<char>,
    id: Seq<char>,
)
    ensures
        exact_label(labels, path) is Some ==> chapter_title(labels, path, blocks, plain, id)
            == exact_label(labels, path),
        exact_label(labels, path) is None && suffix_label(labels, path) is None
            && first_block_text(blocks) is None && first_nonblank_line(plain) is None
            ==> chapter_title(labels, path, blocks, plain, id) == (if id.len() > 0 {
            Some(id)
        } else {
            None
        }),
{
}

/// A character whose folded code is that of `:` is `:`.
proof fn lemma_fold_colon(c: char)
    requires
        fold_ascii(c) == fold_ascii(':'),
    ensures
        c == ':',
{
    if 'A' <= c && c <= 'Z' {
        assert(false);
    } else {
        assert(c as u32 == ':' as u32);
    }
}

/// Equality up to ASCII case is symmetric and transitive.
proof fn lemma_eq_ignore_case_trans(a: Seq<char>, b: Seq<char>, c: Seq<char>)
    requires
        eq_ignore_case(a, b),
        eq_ignore_case(b, c) || eq_ignore_case(c, b),
    ensures
        eq_ignore_case(a, c),
        eq_ignore_case(c, a),
{
    assert forall|i: int| 0 <= i < a.len() implies fold_ascii(#[trigger] a[i]) == fold_ascii(c[i]) by {
        assert(fold_ascii(a[i]) == fold_ascii(b[i]));
        if eq_ignore_case(b, c) {
            assert(fold_ascii(b[i]) == fold_ascii(c[i]));
        } else {
            assert(fold_ascii(c[i]) == fold_ascii(b[i]));
        }
    }
    assert forall|i: int| 0 <= i < c.len() implies fold_ascii(#[trigger] c[i]) == fold_ascii(a[i]) by {
        assert(fold_ascii(a[i]) == fold_ascii(c[i]));
    }
}

/// Key spellings: a key names itself and, behind any namespace prefix and `:`,
/// still names itself; and spellings that differ only in ASCII case (`title`,
/// `TITLE`, `OPF:TITLE` against `opf:title`) name the same keys.
pub proof fn lemma_key_spellings(key: Seq<char>, namespace: Seq<char>, p: Seq<char>, q: Seq<char>)
    requires
        eq_ignore_case(p, q),
    ensures
        key_matches(key, key),
        key_matches(namespace + seq![':'] + key, key),
        key_matches(p, key) == key_matches(q, key),
{
    let full = namespace + seq![':'] + key;
    assert(full.subrange(full.len() - key.len(), full.len() as int) =~= key);
    assert(full[full.len() - key.len() - 1] == ':');
    assert(eq_ignore_case(key, key));
    lemma_key_matches_case(p, q, key);
    lemma_key_matches_case(q, p, key);
}

proof fn lemma_key_matches_case(p: Seq<char>, q: Seq<char>, key: Seq<char>)
    requires
        eq_ignore_case(p, q) || eq_ignore_case(q, p),
    ensures
        key_matches(p, key) ==> key_matches(q, key),
{
    if key_matches(p, key) {
        assert(p.len() == q.len());
        if eq_ignore_case(p, key) {
            if eq_ignore_case(p, q) {
                lemma_eq_ignore_case_trans(q, p, key);
            } else {
                lemma_eq_ignore_case_trans(q, p, key);
            }
        } else {
            let n = p.len();
            let k = key.len();
            let ps = p.subrange(n - k, n as int);
            let qs = q.subrange(n - k, n as int);
            assert(fold_ascii(q[n - k - 1]) == fold_ascii(p[n - k - 1]));
            lemma_fold_colon(q[n - k - 1]);
            assert(eq_ignore_case(qs, ps)) by {
                assert forall|i: int| 0 <= i < qs.len() implies fold_ascii(#[trigger] qs[i]) == fold_ascii(ps[i]) by {
                    assert(fold_ascii(q[n - k + i]) == fold_ascii(p[n - k + i]));
                }
            }
            lemma_eq_ignore_case_trans(qs, ps, key);
        }
    }
}

/// Whether two lists of raw pairs hold the same values under properties that name
/// the same keys, pair for pair.
pub open spec fn same_naming(
    a: Seq<(Seq<char>, Seq<char>)>,
    b: Seq<(Seq<char>, Seq<char>)>,
    keys: Seq<Seq<char>>,
) -> bool {
    &&& a.len() == b.len()
    &&& forall|i: int|
        0 <= i < a.len() ==> (#[trigger] a[i]).1 == b[i].1 && matches_any(a[i].0, keys)
            == matches_any(b[i].0, keys)
}

/// Metadata resolves by what the properties name, not by how they are spelled:
/// pairs whose properties name the same keys give the same first value and the
/// same value list.
pub proof fn lemma_spelling_irrelevant(
    a: Seq<(Seq<char>, Seq<char>)>,
    b: Seq<(Seq<char>, Seq<char>)>,
    keys: Seq<Seq<char>>,
)
    requires
        same_naming(a, b, keys),
    ensures
        first_value(a, keys) == first_value(b, keys),
        all_values(a, keys) == all_values(b, keys),
    decreases a.len(),
{
    if a.len() > 0 {
        assert(same_naming(a.drop_last(), b.drop_last(), keys)) by {
            assert forall|i: int| 0 <= i < a.len() - 1 implies (#[trigger] a.drop_last()[i]).1
                == b.drop_last()[i].1 && matches_any(a.drop_last()[i].0, keys) == matches_any(
                b.drop_last()[i].0,
                keys,
            ) by {
                assert(a.drop_last()[i] == a[i]);
                assert(b.drop_last()[i] == b[i]);
            }
        }
        lemma_spelling_irrelevant(a.drop_last(), b.drop_last(), keys);
        assert(a.last() == a[a.len() - 1]);
        assert(b.last() == b[b.len() - 1]);
    }
}

/// Splitting at a separator placed between two texts splits each text apart.
pub proof fn lemma_split_concat(a: Seq<char>, b: Seq<char>, sep: char)
    ensures
        split(a.push(sep) + b, sep) == split(a, sep) + split(b, sep),
    decreases b.len(),
{
    crate::text::lemma_split_len(a, sep);
    crate::text::lemma_split_len(b, sep);
    if b.len() == 0 {
        assert(a.push(sep) + b =~= a.push(sep));
        assert(a.push(sep).drop_last() =~= a);
        assert(split(a, sep).push(Seq::empty()) =~= split(a, sep) + split(b, sep));
    } else {
        let b0 = b.drop_last();
        let c = b.last();
        lemma_split_concat(a, b0, sep);
        crate::text::lemma_split_len(b0, sep);
        assert(a.push(sep) + b =~= (a.push(sep) + b0).push(c));
        assert(b =~= b0.push(c));
        crate::text::lemma_split_push(a.push(sep) + b0, c, sep);
        crate::text::lemma_split_push(b0, c, sep);
        let x = split(a, sep);
        let y = split(b0, sep);
        if c == sep {
            assert((x + y).push(Seq::empty()) =~= x + y.push(Seq::empty()));
        } else {
            assert((x + y).update((x + y).len() - 1, (x + y).last().push(c)) =~= x + y.update(
                y.len() - 1,
                y.last().push(c),
            ));
        }
    }
}

/// Keeping components of two lists of pieces keeps those of each.
pub proof fn lemma_keep_concat(x: Seq<Seq<char>>, y: Seq<Seq<char>>)
    ensures
        keep_components(x + y) == keep_components(x) + keep_components(y),
    decreases y.len(),
{
    if y.len() == 0 {
        assert(x + y =~= x);
        assert(keep_components(x) + keep_components(y) =~= keep_components(x));
    } else {
        lemma_keep_concat(x, y.drop_last());
        assert((x + y).drop_last() =~= x + y.drop_last());
        assert((x + y).last() == y.last());
        let p = y.last();
        if p.len() > 0 && p != seq!['.'] {
            assert(keep_components(x) + keep_components(y.drop_last()).push(p) =~= (keep_components(
                x,
            ) + keep_components(y.drop_last())).push(p));
        }
    }
}

/// A label key matches every path that puts directories in front of it: a key
/// `chapter1.xhtml` matches `content/chapter1.xhtml`.
pub proof fn lemma_suffix_after_directory(dir: Seq<char>, key: Seq<char>)
    ensures
        path_ends_with(dir.push('/') + key, key),
{
    lemma_split_concat(dir, key, '/');
    lemma_keep_concat(split(dir, '/'), split(key, '/'));
    let a = components(dir.push('/') + key);
    let b = components(key);
    assert(a == components(dir) + b);
    assert(a.subrange(a.len() - b.len(), a.len() as int) =~= b);
}

/// The author list (any value list) holds no empty value, only trimmed values, and
/// no two values equal up to ASCII case.
pub proof fn lemma_values_distinct(items: Seq<(Seq<char>, Seq<char>)>, keys: Seq<Seq<char>>)
    ensures
        forall|i: int|
            0 <= i < all_values(items, keys).len() ==> (#[trigger] all_values(items, keys)[i]).len()
                > 0 && trim(all_values(items, keys)[i]) == all_values(items, keys)[i],
        forall|i: int, j: int|
            0 <= i < j < all_values(items, keys).len() ==> !eq_ignore_case(
                #[trigger] all_values(items, keys)[i],
                #[trigger] all_values(items, keys)[j],
            ),
    decreases items.len(),
{
    if items.len() > 0 {
        lemma_values_distinct(items.drop_last(), keys);
        let r = all_values(items.drop_last(), keys);
        let v = trim(items.last().1);
        crate::text::lemma_trim_idempotent(items.last().1);
        if matches_any(items.last().0, keys) && v.len() > 0 && !has_ci(r, v) {
            let out = r.push(v);
            assert forall|i: int, j: int| 0 <= i < j < out.len() implies !eq_ignore_case(
                #[trigger] out[i],
                #[trigger] out[j],
            ) by {
                if j == out.len() - 1 {
                    assert(out[i] == r[i]);
                    assert(!eq_ignore_case(r[i], v));
                } else {
                    assert(out[i] == r[i] && out[j] == r[j]);
                }
            }
            assert forall|i: int| 0 <= i < out.len() implies (#[trigger] out[i]).len() > 0 && trim(out[i]) == out[i] by {
                if i < r.len() {
                    assert(out[i] == r[i]);
                }
            }
        }
    }
}

} // verus!
