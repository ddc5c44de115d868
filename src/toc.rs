//! The table-of-contents normalizer: fragment stripping, the path-to-label
//! lookup and the entry tree.
use vstd::prelude::*;

use crate::model::TocEntry;
use crate::service::EpubService;
use crate::text::{
    before_char, chars_eq, lemma_split_len, lemma_split_push, split, str_eq,
    string_from_range, to_chars,
};

verus! {

/// A node of the navigation tree as the package declares it: a label, a target
/// path that may end in `#fragment`, and child nodes.
#[derive(Debug)]
pub struct NavPoint {
    pub label: String,
    pub content: String,
    pub children: Vec<NavPoint>,
}

/// A navigation target with its fragment removed.
pub open spec fn strip_fragment(target: Seq<char>) -> Seq<char> {
    before_char(target, '#')
}

/// Keeps the path components: pieces that are neither empty nor `.`.
pub open spec fn keep_components(parts: Seq<Seq<char>>) -> Seq<Seq<char>>
    decreases parts.len(),
{
    if parts.len() == 0 {
        Seq::empty()
    } else {
        let rest = keep_components(parts.drop_last());
        let p = parts.last();
        if p.len() > 0 && p != seq!['.'] {
            rest.push(p)
        } else {
            rest
        }
    }
}

/// The components of a `/`-separated path.
pub open spec fn components(path: Seq<char>) -> Seq<Seq<char>> {
    keep_components(split(path, '/'))
}

/// Whether the components of `suffix` end the components of `path`.
pub open spec fn path_ends_with(path: Seq<char>, suffix: Seq<char>) -> bool {
    let a = components(path);
    let b = components(suffix);
    b.len() <= a.len() && a.subrange(a.len() - b.len(), a.len() as int) == b
}

/// Whether two paths have the same components.
pub open spec fn same_path(a: Seq<char>, b: Seq<char>) -> bool {
    components(a) == components(b)
}

/// The views of path-to-label pairs.
pub open spec fn labels_view(labels: Seq<(String, String)>) -> Seq<(Seq<char>, Seq<char>)> {
    labels.map_values(|p: (String, String)| (p.0@, p.1@))
}

/// The (stripped target, label) pairs of the nodes, depth first, parents before children.
pub open spec fn nav_pairs(nodes: Seq<NavPoint>) -> Seq<(Seq<char>, Seq<char>)>
    decreases nodes,
{
    if nodes.len() == 0 {
        Seq::empty()
    } else {
        nav_pairs(nodes.drop_last()) + node_pairs(nodes.last())
    }
}

/// The (stripped target, label) pairs of a node and its subtree, depth first.
pub open spec fn node_pairs(n: NavPoint) -> Seq<(Seq<char>, Seq<char>)>
    decreases n,
{
    seq![(strip_fragment(n.content@), n.label@)] + nav_pairs(n.children@)
}

/// Whether some pair of `m` has key `k`.
pub open spec fn has_key(m: Seq<(Seq<char>, Seq<char>)>, k: Seq<char>) -> bool {
    exists|i: int| 0 <= i < m.len() && (#[trigger] m[i]).0 == k
}

/// Adds the pairs in order, each only if its key is not there yet.
pub open spec fn insert_absent(
    m: Seq<(Seq<char>, Seq<char>)>,
    pairs: Seq<(Seq<char>, Seq<char>)>,
) -> Seq<(Seq<char>, Seq<char>)>
    decreases pairs.len(),
{
    if pairs.len() == 0 {
        m
    } else {
        let r = insert_absent(m, pairs.drop_last());
        if has_key(r, pairs.last().0) {
            r
        } else {
            r.push(pairs.last())
        }
    }
}

/// The label lookup of a navigation tree: each stripped target with the first label seen for it.
pub open spec fn toc_labels(nav: Seq<NavPoint>) -> Seq<(Seq<char>, Seq<char>)> {
    insert_absent(Seq::empty(), nav_pairs(nav))
}

/// The label of the first pair whose key ends `path`.
pub open spec fn suffix_label(labels: Seq<(Seq<char>, Seq<char>)>, path: Seq<char>) -> Option<
    Seq<char>,
>
    decreases labels.len(),
{
    if labels.len() == 0 {
        None
    } else {
        match suffix_label(labels.drop_last(), path) {
            Some(l) => Some(l),
            None => if path_ends_with(path, labels.last().0) {
                Some(labels.last().1)
            } else {
                None
            },
        }
    }
}

/// The label of the first pair whose key is the same path as `path`.
pub open spec fn exact_label(labels: Seq<(Seq<char>, Seq<char>)>, path: Seq<char>) -> Option<
    Seq<char>,
>
    decreases labels.len(),
{
    if labels.len() == 0 {
        None
    } else {
        match exact_label(labels.drop_last(), path) {
            Some(l) => Some(l),
            None => if same_path(labels.last().0, path) {
                Some(labels.last().1)
            } else {
                None
            },
        }
    }
}

/// Whether an entry tree mirrors a navigation tree, targets stripped of fragments.
pub open spec fn entry_mirrors(e: TocEntry, n: NavPoint) -> bool
    decreases n,
{
    &&& e.label@ == n.label@
    &&& e.href@ == strip_fragment(n.content@)
    &&& entries_mirror(e.children@, n.children@)
}

/// Whether a list of entries mirrors a list of navigation nodes, one for one.
pub open spec fn entries_mirror(es: Seq<TocEntry>, ns: Seq<NavPoint>) -> bool
    decreases ns,
{
    &&& es.len() == ns.len()
    &&& ns.len() > 0 ==> {
        &&& entries_mirror(es.drop_last(), ns.drop_last())
        &&& entry_mirrors(es.last(), ns.last())
    }
}

/// A view of split pieces.
pub open spec fn pieces_view(v: Seq<Vec<char>>) -> Seq<Seq<char>> {
    v.map_values(|x: Vec<char>| x@)
}

/// The components of a path.
pub fn path_components(path: &str) -> (r: Vec<Vec<char>>)
    ensures
        pieces_view(r@) == components(path@),
{
    let v = to_chars(path);
    let mut out: Vec<Vec<char>> = Vec::new();
    let mut cur: Vec<char> = Vec::new();
    let mut i: usize = 0;
    proof {
        lemma_split_len(v@.take(0), '/');
        assert(v@.take(0) =~= Seq::<char>::empty());
        assert(split(Seq::<char>::empty(), '/').drop_last() =~= Seq::<Seq<char>>::empty());
        assert(pieces_view(out@) =~= Seq::<Seq<char>>::empty());
    }
    while i < v.len()
        invariant
            i <= v.len(),
            split(v@.take(i as int), '/').len() >= 1,
            pieces_view(out@) == keep_components(split(v@.take(i as int), '/').drop_last()),
            cur@ == split(v@.take(i as int), '/').last(),
        decreases v.len() - i,
    {
        let c = v[i];
        let ghost pre = v@.take(i as int);
        proof {
            assert(v@.take(i + 1) =~= pre.push(c));
            lemma_split_push(pre, c, '/');
        }
        let ghost parts = split(pre, '/');
        if c == '/' {
            proof {
                assert(parts.push(Seq::<char>::empty()).drop_last() =~= parts);
            }
            if cur.len() > 0 && !(cur.len() == 1 && cur[0] == '.') {
                assert(cur@ != seq!['.']) by {
                    if cur@ == seq!['.'] {
                        assert(cur@.len() == 1 && cur@[0] == '.');
                    }
                }
                let ghost before = out@;
                out.push(cur);
                assert(pieces_view(out@) =~= pieces_view(before).push(parts.last()));
            } else {
                assert(cur@.len() == 0 || cur@ == seq!['.']) by {
                    if cur@.len() == 1 && cur@[0] == '.' {
                        assert(cur@ =~= seq!['.']);
                    }
                }
            }
            cur = Vec::new();
        } else {
            proof {
                assert(parts.update(parts.len() - 1, parts.last().push(c)).drop_last()
                    =~= parts.drop_last());
            }
            cur.push(c);
        }
        i += 1;
    }
    assert(v@.take(v.len() as int) =~= v@);
    let ghost parts = split(v@, '/');
    if cur.len() > 0 && !(cur.len() == 1 && cur[0] == '.') {
        assert(cur@ != seq!['.']) by {
            if cur@ == seq!['.'] {
                assert(cur@.len() == 1 && cur@[0] == '.');
            }
        }
        let ghost before = out@;
        out.push(cur);
        assert(pieces_view(out@) =~= pieces_view(before).push(parts.last()));
    } else {
        assert(cur@.len() == 0 || cur@ == seq!['.']) by {
            if cur@.len() == 1 && cur@[0] == '.' {
                assert(cur@ =~= seq!['.']);
            }
        }
    }
    out
}

/// Whether the views of `b` end the views of `a`.
fn pieces_end_with(a: &Vec<Vec<char>>, b: &Vec<Vec<char>>) -> (r: bool)
    ensures
        r == (pieces_view(b@).len() <= pieces_view(a@).len() && pieces_view(a@).subrange(
            pieces_view(a@).len() - pieces_view(b@).len(),
            pieces_view(a@).len() as int,
        ) == pieces_view(b@)),
{
    let ghost va = pieces_view(a@);
    let ghost vb = pieces_view(b@);
    if b.len() > a.len() {
        return false;
    }
    let off = a.len() - b.len();
    let mut i: usize = 0;
    while i < b.len()
        invariant
            off == a.len() - b.len(),
            i <= b.len() <= a.len(),
            va == pieces_view(a@),
            vb == pieces_view(b@),
            forall|j: int| 0 <= j < i ==> va[off + j] == vb[j],
        decreases b.len() - i,
    {
        if !chars_eq(&a[off + i], &b[i]) {
            assert(va.subrange(off as int, va.len() as int)[i as int] != vb[i as int]);
            return false;
        }
        i += 1;
    }
    assert(va.subrange(off as int, va.len() as int) =~= vb);
    true
}

/// Whether the components of `suffix` end the components of `path`.
pub fn path_has_suffix(path: &str, suffix: &str) -> (r: bool)
    ensures
        r == path_ends_with(path@, suffix@),
{
    let a = path_components(path);
    let b = path_components(suffix);
    pieces_end_with(&a, &b)
}

/// Whether two paths have the same components.
pub fn is_same_path(a: &str, b: &str) -> (r: bool)
    ensures
        r == same_path(a@, b@),
{
    let ca = path_components(a);
    let cb = path_components(b);
    if ca.len() != cb.len() {
        return false;
    }
    let r = pieces_end_with(&ca, &cb);
    proof {
        let va = pieces_view(ca@);
        let vb = pieces_view(cb@);
        assert(va.subrange(0, va.len() as int) =~= va);
    }
    r
}

pub proof fn lemma_insert_absent_append(
    m: Seq<(Seq<char>, Seq<char>)>,
    a: Seq<(Seq<char>, Seq<char>)>,
    b: Seq<(Seq<char>, Seq<char>)>,
)
    ensures
        insert_absent(m, a + b) == insert_absent(insert_absent(m, a), b),
    decreases b.len(),
{
    if b.len() == 0 {
        assert(a + b =~= a);
    } else {
        assert((a + b).drop_last() =~= a + b.drop_last());
        assert((a + b).last() == b.last());
        lemma_insert_absent_append(m, a, b.drop_last());
    }
}

/// Adds `(key, label)` unless a pair with that key is there already.
fn insert_if_absent(labels: &mut Vec<(String, String)>, key: String, label: String)
    ensures
        labels_view(final(labels)@) == (if has_key(labels_view(old(labels)@), key@) {
            labels_view(old(labels)@)
        } else {
            labels_view(old(labels)@).push((key@, label@))
        }),
{
    let ghost m = labels_view(labels@);
    let mut i: usize = 0;
    while i < labels.len()
        invariant
            i <= labels.len(),
            m == labels_view(labels@),
            forall|j: int| 0 <= j < i ==> (#[trigger] m[j]).0 != key@,
        decreases labels.len() - i,
    {
        if str_eq(labels[i].0.as_str(), key.as_str()) {
            assert(m[i as int].0 == key@);
            return;
        }
        i += 1;
    }
    labels.push((key, label));
    assert(labels_view(labels@) =~= m.push((key@, label@)));
}

impl EpubService {
    /// The navigation target without its `#fragment`.
    pub fn normalize_nav_path(path: &str) -> (r: String)
        ensures
            r@ == strip_fragment(path@),
    {
        let v = to_chars(path);
        let mut i: usize = 0;
        assert(v@.subrange(0, 0) =~= Seq::<char>::empty());
        assert(v@.subrange(0, v.len() as int) =~= v@);
        while i < v.len() && v[i] != '#'
            invariant
                i <= v.len(),
                before_char(v@, '#') == v@.subrange(0, i as int) + before_char(
                    v@.subrange(i as int, v.len() as int),
                    '#',
                ),
            decreases v.len() - i,
        {
            let ghost rest = v@.subrange(i as int, v.len() as int);
            assert(rest.drop_first() =~= v@.subrange(i + 1, v.len() as int));
            assert(v@.subrange(0, i + 1) =~= v@.subrange(0, i as int) + seq![v@[i as int]]);
            i += 1;
        }
        assert(v@.subrange(0, v.len() as int) =~= v@);
        string_from_range(&v, 0, i)
    }

    /// The label lookup of a navigation tree: each fragment-free target with the
    /// first label met for it in a depth-first walk.
    pub fn build_toc_label_map(nav: &[NavPoint]) -> (r: Vec<(String, String)>)
        ensures
            labels_view(r@) == toc_labels(nav@),
    {
        let mut labels: Vec<(String, String)> = Vec::new();
        let mut i: usize = 0;
        while i < nav.len()
            invariant
                i <= nav.len(),
                labels_view(labels@) == insert_absent(Seq::empty(), nav_pairs(nav@.take(i as int))),
            decreases nav.len() - i,
        {
            proof {
                assert(nav@.take(i + 1).drop_last() =~= nav@.take(i as int));
                lemma_insert_absent_append(
                    Seq::empty(),
                    nav_pairs(nav@.take(i as int)),
                    node_pairs(nav@[i as int]),
                );
            }
            Self::collect_nav_labels(&nav[i], &mut labels);
            i += 1;
        }
        assert(nav@.take(nav.len() as int) =~= nav@);
        labels
    }

    /// Adds the labels of a node and its subtree, depth first, keeping the first
    /// label of each target.
    pub fn collect_nav_labels(nav_point: &NavPoint, labels: &mut Vec<(String, String)>)
        ensures
            labels_view(final(labels)@) == insert_absent(labels_view(old(labels)@), node_pairs(*nav_point)),
        decreases nav_point,
    {
        let ghost start = labels_view(labels@);
        let ghost head = seq![(strip_fragment(nav_point.content@), nav_point.label@)];
        let key = Self::normalize_nav_path(nav_point.content.as_str());
        insert_if_absent(labels, key, nav_point.label.clone());
        proof {
            assert(nav_pairs(nav_point.children@.take(0)) =~= Seq::<(Seq<char>, Seq<char>)>::empty());
            assert(head + nav_pairs(nav_point.children@.take(0)) =~= head);
            assert(head.drop_last() =~= Seq::<(Seq<char>, Seq<char>)>::empty());
            assert(insert_absent(start, head.drop_last()) == start);
            assert(labels_view(labels@) == insert_absent(start, head));
        }
        let mut i: usize = 0;
        while i < nav_point.children.len()
            invariant
                i <= nav_point.children.len(),
                labels_view(labels@) == insert_absent(
                    start,
                    head + nav_pairs(nav_point.children@.take(i as int)),
                ),
            decreases nav_point.children.len() - i,
        {
            let ghost ch = nav_point.children@;
            proof {
                assert(ch.take(i + 1).drop_last() =~= ch.take(i as int));
                assert(head + nav_pairs(ch.take(i + 1)) =~= (head + nav_pairs(ch.take(i as int)))
                    + node_pairs(ch[i as int]));
                lemma_insert_absent_append(
                    start,
                    head + nav_pairs(ch.take(i as int)),
                    node_pairs(ch[i as int]),
                );
            }
            assert(decreases_to!(nav_point => nav_point.children@[i as int]));
            Self::collect_nav_labels(&nav_point.children[i], labels);
            i += 1;
        }
        assert(nav_point.children@.take(nav_point.children.len() as int) =~= nav_point.children@);
    }

    /// The label of the first lookup key that is a path suffix of `resource_path`.
    pub fn match_toc_label(toc_labels: &[(String, String)], resource_path: &str) -> (r: Option<
        String,
    >)
        ensures
            match r {
                Some(l) => suffix_label(labels_view(toc_labels@), resource_path@) == Some(l@),
                None => suffix_label(labels_view(toc_labels@), resource_path@) is None,
            },
    {
        let mut i: usize = 0;
        while i < toc_labels.len()
            invariant
                i <= toc_labels.len(),
                suffix_label(labels_view(toc_labels@.take(i as int)), resource_path@) is None,
            decreases toc_labels.len() - i,
        {
            assert(labels_view(toc_labels@.take(i + 1)).drop_last() =~= labels_view(
                toc_labels@.take(i as int),
            ));
            if path_has_suffix(resource_path, toc_labels[i].0.as_str()) {
                proof { lemma_suffix_label_prefix(labels_view(toc_labels@), resource_path@, i + 1); }
                assert(labels_view(toc_labels@.take(i + 1)) =~= labels_view(toc_labels@).take(i + 1));
                return Some(toc_labels[i].1.clone());
            }
            i += 1;
        }
        assert(toc_labels@.take(toc_labels.len() as int) =~= toc_labels@);
        None
    }

    /// The entry tree of a navigation tree: same shape and labels, targets
    /// stripped of fragments.
    pub fn build_toc_entries(nav: &[NavPoint]) -> (r: Vec<TocEntry>)
        ensures
            entries_mirror(r@, nav@),
        decreases nav@,
    {
        let mut out: Vec<TocEntry> = Vec::new();
        let mut i: usize = 0;
        assert(nav@.take(0).len() == 0);
        while i < nav.len()
            invariant
                i <= nav.len(),
                entries_mirror(out@, nav@.take(i as int)),
            decreases nav.len() - i,
        {
            let point = &nav[i];
            assert(decreases_to!(nav@ => nav@[i as int]));
            assert(decreases_to!(nav@[i as int] => nav@[i as int].children@));
            let children = Self::build_toc_entries(point.children.as_slice());
            let e = TocEntry {
                label: point.label.clone(),
                href: Self::normalize_nav_path(point.content.as_str()),
                children,
            };
            let ghost before = out@;
            out.push(e);
            assert(out@.drop_last() =~= before);
            assert(nav@.take(i + 1).drop_last() =~= nav@.take(i as int));
            assert(nav@.take(i + 1).last() == nav@[i as int]);
            assert(entry_mirrors(out@.last(), nav@[i as int]));
            i += 1;
        }
        assert(nav@.take(nav.len() as int) =~= nav@);
        out
    }
}

/// A first match among a prefix is the first match of the whole.
pub proof fn lemma_suffix_label_prefix(labels: Seq<(Seq<char>, Seq<char>)>, path: Seq<char>, k: int)
    requires
        0 <= k <= labels.len(),
        suffix_label(labels.take(k), path) is Some,
    ensures
        suffix_label(labels, path) == suffix_label(labels.take(k), path),
    decreases labels.len() - k,
{
    if k < labels.len() {
        assert(labels.take(k + 1).drop_last() =~= labels.take(k));
        lemma_suffix_label_prefix(labels, path, k + 1);
    } else {
        assert(labels.take(k) =~= labels);
    }
}

} // verus!
