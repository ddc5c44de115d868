//! The metadata normalizer: reduces raw, inconsistently prefixed property/value
//! pairs to a fixed record.
use vstd::prelude::*;

use crate::service::EpubService;
use crate::text::{string_from_range, to_chars, trim, trim_bounds};

verus! {

/// One raw metadata pair as the package declares it, e.g. `dc:creator`.
#[derive(Debug, Clone)]
pub struct MetadataItem {
    pub property: String,
    pub value: String,
}

/// A character's code with ASCII upper case folded to lower case.
pub open spec fn fold_ascii(c: char) -> u32 {
    if 'A' <= c && c <= 'Z' {
        (c as u32 + 32) as u32
    } else {
        c as u32
    }
}

/// Equality up to ASCII case, as `str::eq_ignore_ascii_case`.
pub open spec fn eq_ignore_case(a: Seq<char>, b: Seq<char>) -> bool {
    a.len() == b.len() && forall|i: int| 0 <= i < a.len() ==> fold_ascii(#[trigger] a[i]) == fold_ascii(b[i])
}

/// Whether a property names `key`: it equals the key, or ends with `:` and the key,
/// ignoring ASCII case.
pub open spec fn key_matches(property: Seq<char>, key: Seq<char>) -> bool {
    ||| eq_ignore_case(property, key)
    ||| (property.len() > key.len() && property[property.len() - key.len() - 1] == ':'
        && eq_ignore_case(property.subrange(property.len() - key.len(), property.len() as int), key))
}

/// Whether a property names one of the keys.
pub open spec fn matches_any(property: Seq<char>, keys: Seq<Seq<char>>) -> bool {
    exists|k: int| 0 <= k < keys.len() && key_matches(property, #[trigger] keys[k])
}

/// The views of the keys.
pub open spec fn keys_view(keys: Seq<&str>) -> Seq<Seq<char>> {
    keys.map_values(|k: &str| k@)
}

/// The views of raw pairs, as (property, value).
pub open spec fn items_view(items: Seq<MetadataItem>) -> Seq<(Seq<char>, Seq<char>)> {
    items.map_values(|m: MetadataItem| (m.property@, m.value@))
}

/// The value of the first pair whose property names one of the keys.
pub open spec fn first_value(items: Seq<(Seq<char>, Seq<char>)>, keys: Seq<Seq<char>>) -> Option<
    Seq<char>,
>
    decreases items.len(),
{
    if items.len() == 0 {
        None
    } else {
        match first_value(items.drop_last(), keys) {
            Some(v) => Some(v),
            None => if matches_any(items.last().0, keys) {
                Some(items.last().1)
            } else {
                None
            },
        }
    }
}

/// Whether some value of `vs` equals `v` up to ASCII case.
pub open spec fn has_ci(vs: Seq<Seq<char>>, v: Seq<char>) -> bool {
    exists|j: int| 0 <= j < vs.len() && eq_ignore_case(#[trigger] vs[j], v)
}

/// The trimmed values of all pairs whose property names one of the keys, without
/// empty values, keeping only the first of values equal up to ASCII case.
pub open spec fn all_values(items: Seq<(Seq<char>, Seq<char>)>, keys: Seq<Seq<char>>) -> Seq<
    Seq<char>,
>
    decreases items.len(),
{
    if items.len() == 0 {
        Seq::empty()
    } else {
        let r = all_values(items.drop_last(), keys);
        let v = trim(items.last().1);
        if matches_any(items.last().0, keys) && v.len() > 0 && !has_ci(r, v) {
            r.push(v)
        } else {
            r
        }
    }
}

/// The views of a vector of strings.
pub open spec fn strings_view(v: Seq<String>) -> Seq<Seq<char>> {
    v.map_values(|s: String| s@)
}

fn fold_char(c: char) -> (r: u32)
    ensures
        r == fold_ascii(c),
{
    if 'A' <= c && c <= 'Z' {
        c as u32 + 32
    } else {
        c as u32
    }
}

/// Whether `a[alo..ahi]` equals `b` up to ASCII case.
fn range_eq_ignore_case(a: &Vec<char>, alo: usize, ahi: usize, b: &Vec<char>) -> (r: bool)
    requires
        alo <= ahi <= a.len(),
    ensures
        r == eq_ignore_case(a@.subrange(alo as int, ahi as int), b@),
{
    let ghost sa = a@.subrange(alo as int, ahi as int);
    if ahi - alo != b.len() {
        return false;
    }
    let mut i: usize = 0;
    while i < b.len()
        invariant
            ahi - alo == b.len(),
            alo <= ahi <= a.len(),
            i <= b.len(),
            sa == a@.subrange(alo as int, ahi as int),
            forall|j: int| 0 <= j < i ==> fold_ascii(#[trigger] sa[j]) == fold_ascii(b@[j]),
        decreases b.len() - i,
    {
        if fold_char(a[alo + i]) != fold_char(b[i]) {
            assert(fold_ascii(sa[i as int]) != fold_ascii(b@[i as int]));
            return false;
        }
        i += 1;
    }
    true
}

/// Whether a property names `key`.
fn property_matches(property: &Vec<char>, key: &Vec<char>) -> (r: bool)
    ensures
        r == key_matches(property@, key@),
{
    if range_eq_ignore_case(property, 0, property.len(), key) {
        assert(property@.subrange(0, property@.len() as int) =~= property@);
        return true;
    }
    assert(property@.subrange(0, property@.len() as int) =~= property@);
    if property.len() > key.len() {
        let cut = property.len() - key.len();
        property[cut - 1] == ':' && range_eq_ignore_case(property, cut, property.len(), key)
    } else {
        false
    }
}

/// Whether a property names one of the keys.
fn property_matches_any(property: &str, keys: &[&str]) -> (r: bool)
    ensures
        r == matches_any(property@, keys_view(keys@)),
{
    let p = to_chars(property);
    let mut k: usize = 0;
    while k < keys.len()
        invariant
            k <= keys.len(),
            p@ == property@,
            forall|j: int| 0 <= j < k ==> !key_matches(property@, #[trigger] keys_view(keys@)[j]),
        decreases keys.len() - k,
    {
        let key = to_chars(keys[k]);
        if property_matches(&p, &key) {
            assert(key_matches(property@, keys_view(keys@)[k as int]));
            return true;
        }
        k += 1;
    }
    false
}

/// Whether some string of `vs` equals `v[lo..hi]` up to ASCII case.
fn contains_ignore_case(vs: &Vec<String>, v: &Vec<char>, lo: usize, hi: usize) -> (r: bool)
    requires
        lo <= hi <= v.len(),
    ensures
        r == has_ci(strings_view(vs@), v@.subrange(lo as int, hi as int)),
{
    let ghost target = v@.subrange(lo as int, hi as int);
    let mut j: usize = 0;
    while j < vs.len()
        invariant
            j <= vs.len(),
            lo <= hi <= v.len(),
            target == v@.subrange(lo as int, hi as int),
            forall|i: int| 0 <= i < j ==> !eq_ignore_case(#[trigger] strings_view(vs@)[i], target),
        decreases vs.len() - j,
    {
        let w = to_chars(vs[j].as_str());
        let same = range_eq_ignore_case(v, lo, hi, &w);
        proof {
            // equality up to case is symmetric
            if same {
                assert(eq_ignore_case(w@, target));
            } else {
                if eq_ignore_case(w@, target) {
                    assert forall|i: int| 0 <= i < target.len() implies fold_ascii(
                        #[trigger] target[i],
                    ) == fold_ascii(w@[i]) by {
                        assert(fold_ascii(w@[i]) == fold_ascii(target[i]));
                    }
                }
            }
        }
        if same {
            assert(eq_ignore_case(strings_view(vs@)[j as int], target));
            return true;
        }
        j += 1;
    }
    false
}

impl EpubService {
    /// The value of the first pair whose property names one of the keys.
    pub fn metadata_value(items: &[MetadataItem], keys: &[&str]) -> (r: Option<String>)
        ensures
            match r {
                Some(v) => first_value(items_view(items@), keys_view(keys@)) == Some(v@),
                None => first_value(items_view(items@), keys_view(keys@)) is None,
            },
    {
        let mut i: usize = 0;
        while i < items.len()
            invariant
                i <= items.len(),
                first_value(items_view(items@.take(i as int)), keys_view(keys@)) is None,
            decreases items.len() - i,
        {
            assert(items_view(items@.take(i + 1)).drop_last() =~= items_view(items@.take(i as int)));
            if property_matches_any(items[i].property.as_str(), keys) {
                proof {
                    lemma_first_value_prefix(items_view(items@), keys_view(keys@), i + 1);
                    assert(items_view(items@.take(i + 1)) =~= items_view(items@).take(i + 1));
                }
                return Some(items[i].value.clone());
            }
            i += 1;
        }
        assert(items@.take(items.len() as int) =~= items@);
        None
    }

    /// The trimmed, non-empty values of all pairs whose property names one of the
    /// keys, in order, keeping only the first of values equal up to ASCII case.
    pub fn collect_metadata_values(items: &[MetadataItem], keys: &[&str]) -> (r: Vec<String>)
        ensures
            strings_view(r@) == all_values(items_view(items@), keys_view(keys@)),
    {
        let mut values: Vec<String> = Vec::new();
        let mut i: usize = 0;
        while i < items.len()
            invariant
                i <= items.len(),
                strings_view(values@) == all_values(items_view(items@.take(i as int)), keys_view(keys@)),
            decreases items.len() - i,
        {
            assert(items_view(items@.take(i + 1)).drop_last() =~= items_view(items@.take(i as int)));
            if property_matches_any(items[i].property.as_str(), keys) {
                let v = to_chars(items[i].value.as_str());
                let (lo, hi) = trim_bounds(&v);
                if lo < hi && !contains_ignore_case(&values, &v, lo, hi) {
                    let ghost before = values@;
                    values.push(string_from_range(&v, lo, hi));
                    assert(strings_view(values@) =~= strings_view(before).push(
                        v@.subrange(lo as int, hi as int),
                    ));
                }
            }
            i += 1;
        }
        assert(items@.take(items.len() as int) =~= items@);
        values
    }
}

/// A first match among a prefix is the first match of the whole.
pub proof fn lemma_first_value_prefix(
    items: Seq<(Seq<char>, Seq<char>)>,
    keys: Seq<Seq<char>>,
    k: int,
)
    requires
        0 <= k <= items.len(),
        first_value(items.take(k), keys) is Some,
    ensures
        first_value(items, keys) == first_value(items.take(k), keys),
    decreases items.len() - k,
{
    if k < items.len() {
        assert(items.take(k + 1).drop_last() =~= items.take(k));
        lemma_first_value_prefix(items, keys, k + 1);
    } else {
        assert(items.take(k) =~= items);
    }
}

} // verus!
