//! Annotated text lines, as a markup renderer produces them, and the
//! recognisers that read structure from their shape.
use vstd::prelude::*;

use crate::model::{SpanModel, TextSpan};
use crate::service::EpubService;
use crate::text::{
    is_whitespace_char, is_ws, join, lemma_join_push, string_from_chars, string_from_range,
    to_chars, trim,
    trim_range, trim_start,
};

verus! {

/// An inline annotation of a piece of rendered text.
#[derive(Debug, Clone, Copy, PartialEq, Eq, Structural)]
pub enum Mark {
    Strong,
    Emphasis,
    Other,
}

/// A piece of a rendered line with its annotations, outermost first.
#[derive(Debug, Clone)]
pub struct TaggedText {
    pub text: String,
    pub marks: Vec<Mark>,
}

/// One rendered line: its pieces in order.
#[derive(Debug, Clone)]
pub struct RenderedLine {
    pub pieces: Vec<TaggedText>,
}

/// What a piece stands for.
pub struct PieceModel {
    pub text: Seq<char>,
    pub marks: Seq<Mark>,
}

impl View for TaggedText {
    type V = PieceModel;

    open spec fn view(&self) -> PieceModel {
        PieceModel { text: self.text@, marks: self.marks@ }
    }
}

/// The pieces of a line.
pub open spec fn line_model(line: RenderedLine) -> Seq<PieceModel> {
    line.pieces@.map_values(|p: TaggedText| p@)
}

/// The lines as sequences of pieces.
pub open spec fn lines_model(lines: Seq<RenderedLine>) -> Seq<Seq<PieceModel>> {
    lines.map_values(|l: RenderedLine| line_model(l))
}

/// The text of a line: its pieces' texts, concatenated.
pub open spec fn line_text(pieces: Seq<PieceModel>) -> Seq<char>
    decreases pieces.len(),
{
    if pieces.len() == 0 {
        Seq::empty()
    } else {
        line_text(pieces.drop_last()) + pieces.last().text
    }
}

/// Whether every character of `s` is `c`.
pub open spec fn all_chars(s: Seq<char>, c: char) -> bool {
    forall|i: int| 0 <= i < s.len() ==> s[i] == c
}

/// The heading level that an underline below a line gives it: `===` for 1, `---` for 2.
pub open spec fn underline_level(next: Option<Seq<char>>) -> Option<u8> {
    match next {
        None => None,
        Some(l) => {
            let t = trim(l);
            if t.len() == 0 {
                None
            } else if all_chars(t, '=') {
                Some(1u8)
            } else if all_chars(t, '-') {
                Some(2u8)
            } else {
                None
            }
        },
    }
}

/// The number of leading characters equal to `c`.
pub open spec fn leading_count(s: Seq<char>, c: char) -> nat
    decreases s.len(),
{
    if s.len() > 0 && s[0] == c {
        1 + leading_count(s.drop_first(), c)
    } else {
        0
    }
}

/// A `#`-prefixed heading: its level (the number of `#`, at most 6) and its
/// trimmed text, when that is not empty.
pub open spec fn hash_heading(line: Seq<char>) -> Option<(u8, Seq<char>)> {
    if line.len() > 0 && line[0] == '#' {
        let n = leading_count(line, '#');
        let level: nat = if n < 6 {
            n
        } else {
            6
        };
        let text = trim(line.subrange(level as int, line.len() as int));
        if text.len() == 0 {
            None
        } else {
            Some((level as u8, text))
        }
    } else {
        None
    }
}

/// Whether the character is an ASCII digit.
pub open spec fn is_digit(c: char) -> bool {
    '0' <= c && c <= '9'
}

/// The number of leading ASCII digits.
pub open spec fn leading_digits(s: Seq<char>) -> nat
    decreases s.len(),
{
    if s.len() > 0 && is_digit(s[0]) {
        1 + leading_digits(s.drop_first())
    } else {
        0
    }
}

/// The text of a list item after its marker: `* `, `- ` or `+ `, or digits and a dot.
pub open spec fn list_item(line: Seq<char>) -> Option<Seq<char>> {
    let t = trim_start(line);
    if t.len() >= 2 && (t[0] == '*' || t[0] == '-' || t[0] == '+') && t[1] == ' ' {
        Some(t.subrange(2, t.len() as int))
    } else {
        let d = leading_digits(t);
        if d > 0 && d < t.len() && t[d as int] == '.' {
            Some(trim_start(t.subrange(d as int + 1, t.len() as int)))
        } else {
            None
        }
    }
}

/// Emphasis markers that a renderer may leave around styled text.
pub open spec fn is_emph_mark(c: char) -> bool {
    c == '*' || c == '_'
}

/// The text without leading emphasis markers.
pub open spec fn strip_marks_start(s: Seq<char>) -> Seq<char>
    decreases s.len(),
{
    if s.len() > 0 && is_emph_mark(s[0]) {
        strip_marks_start(s.subrange(1, s.len() as int))
    } else {
        s
    }
}

/// The text without trailing emphasis markers.
pub open spec fn strip_marks_end(s: Seq<char>) -> Seq<char>
    decreases s.len(),
{
    if s.len() > 0 && is_emph_mark(s.last()) {
        strip_marks_end(s.drop_last())
    } else {
        s
    }
}

/// The text without leading and trailing emphasis markers.
pub open spec fn strip_marks(s: Seq<char>) -> Seq<char> {
    strip_marks_end(strip_marks_start(s))
}

/// Whether the annotations hold `m`.
pub open spec fn has_mark(marks: Seq<Mark>, m: Mark) -> bool {
    exists|i: int| 0 <= i < marks.len() && marks[i] == m
}

/// The span of a piece: trimmed text (styled text also loses its emphasis
/// markers), bold for a strong annotation, italic for an emphasis one; none when
/// no text is left.
pub open spec fn piece_span(p: PieceModel) -> Option<SpanModel> {
    let bold = has_mark(p.marks, Mark::Strong);
    let italic = has_mark(p.marks, Mark::Emphasis);
    let t = trim(p.text);
    let text = if bold || italic {
        trim(strip_marks(t))
    } else {
        t
    };
    if text.len() == 0 {
        None
    } else {
        Some(SpanModel { text, bold, italic })
    }
}

/// The spans of a line's pieces.
pub open spec fn line_spans(pieces: Seq<PieceModel>) -> Seq<SpanModel>
    decreases pieces.len(),
{
    if pieces.len() == 0 {
        Seq::empty()
    } else {
        let r = line_spans(pieces.drop_last());
        match piece_span(pieces.last()) {
            Some(sp) => r.push(sp),
            None => r,
        }
    }
}

/// The maximal runs of non-whitespace characters.
pub open spec fn ws_words(s: Seq<char>) -> Seq<Seq<char>>
    decreases s.len(),
{
    if s.len() == 0 {
        Seq::empty()
    } else {
        let r = ws_words(s.drop_last());
        let c = s.last();
        if is_ws(c) {
            r
        } else if s.len() >= 2 && !is_ws(s[s.len() - 2]) && r.len() > 0 {
            r.update(r.len() - 1, r.last().push(c))
        } else {
            r.push(seq![c])
        }
    }
}

/// The words of the text joined by single spaces.
pub open spec fn normalize_ws(s: Seq<char>) -> Seq<char> {
    join(ws_words(s), seq![' '])
}

pub proof fn lemma_join_extend_last(parts: Seq<Seq<char>>, sep: Seq<char>, c: char)
    requires
        parts.len() > 0,
    ensures
        join(parts.update(parts.len() - 1, parts.last().push(c)), sep) == join(parts, sep).push(c),
{
    let q = parts.update(parts.len() - 1, parts.last().push(c));
    if parts.len() > 1 {
        assert(q.drop_last() =~= parts.drop_last());
        assert((join(parts.drop_last(), sep) + sep + parts.last()).push(c) =~= join(
            parts.drop_last(),
            sep,
        ) + sep + parts.last().push(c));
    }
}

pub proof fn lemma_leading_count_split(s: Seq<char>, c: char, k: int)
    requires
        0 <= k <= s.len(),
        forall|j: int| 0 <= j < k ==> s[j] == c,
    ensures
        leading_count(s, c) == k + leading_count(s.subrange(k, s.len() as int), c),
    decreases k,
{
    if k > 0 {
        let t = s.drop_first();
        assert forall|j: int| 0 <= j < k - 1 implies t[j] == c by {
            assert(s[j + 1] == c);
        }
        lemma_leading_count_split(t, c, k - 1);
        assert(t.subrange(k - 1, t.len() as int) =~= s.subrange(k, s.len() as int));
    } else {
        assert(s.subrange(0, s.len() as int) =~= s);
    }
}

pub proof fn lemma_leading_digits_split(s: Seq<char>, k: int)
    requires
        0 <= k <= s.len(),
        forall|j: int| 0 <= j < k ==> is_digit(s[j]),
    ensures
        leading_digits(s) == k + leading_digits(s.subrange(k, s.len() as int)),
    decreases k,
{
    if k > 0 {
        let t = s.drop_first();
        assert forall|j: int| 0 <= j < k - 1 implies is_digit(t[j]) by {
            assert(is_digit(s[j + 1]));
        }
        lemma_leading_digits_split(t, k - 1);
        assert(t.subrange(k - 1, t.len() as int) =~= s.subrange(k, s.len() as int));
    } else {
        assert(s.subrange(0, s.len() as int) =~= s);
    }
}

/// The bounds `(a, b)` such that `v[a..b]` is `v[lo..hi]` without leading and
/// trailing emphasis markers.
fn strip_marks_range(v: &Vec<char>, lo: usize, hi: usize) -> (r: (usize, usize))
    requires
        lo <= hi <= v.len(),
    ensures
        lo <= r.0 <= r.1 <= hi,
        v@.subrange(r.0 as int, r.1 as int) == strip_marks(v@.subrange(lo as int, hi as int)),
{
    let ghost s = v@.subrange(lo as int, hi as int);
    let mut a: usize = lo;
    while a < hi && (v[a] == '*' || v[a] == '_')
        invariant
            lo <= a <= hi <= v.len(),
            s == v@.subrange(lo as int, hi as int),
            strip_marks_start(s) == strip_marks_start(v@.subrange(a as int, hi as int)),
        decreases hi - a,
    {
        assert(v@.subrange(a as int, hi as int).subrange(1, (hi - a) as int) == v@.subrange(
            a + 1,
            hi as int,
        ));
        a += 1;
    }
    let mut b: usize = hi;
    while b > a && (v[b - 1] == '*' || v[b - 1] == '_')
        invariant
            lo <= a <= b <= hi <= v.len(),
            strip_marks_start(s) == v@.subrange(a as int, hi as int),
            strip_marks(s) == strip_marks_end(v@.subrange(a as int, b as int)),
        decreases b - a,
    {
        assert(v@.subrange(a as int, b as int).drop_last() == v@.subrange(a as int, b - 1));
        b -= 1;
    }
    (a, b)
}

fn contains_mark(marks: &Vec<Mark>, m: Mark) -> (r: bool)
    ensures
        r == has_mark(marks@, m),
{
    let mut i: usize = 0;
    while i < marks.len()
        invariant
            i <= marks.len(),
            forall|j: int| 0 <= j < i ==> marks@[j] != m,
        decreases marks.len() - i,
    {
        if marks[i] == m {
            return true;
        }
        i += 1;
    }
    false
}

/// The concatenated text of a line's pieces.
pub fn line_string(line: &RenderedLine) -> (r: Vec<char>)
    ensures
        r@ == line_text(line_model(*line)),
{
    let ghost pm = line_model(*line);
    let mut out: Vec<char> = Vec::new();
    let mut i: usize = 0;
    while i < line.pieces.len()
        invariant
            i <= line.pieces.len(),
            pm == line_model(*line),
            out@ == line_text(pm.take(i as int)),
        decreases line.pieces.len() - i,
    {
        assert(pm.take(i + 1).drop_last() =~= pm.take(i as int));
        let piece = to_chars(line.pieces[i].text.as_str());
        crate::text::extend_all(&mut out, &piece);
        i += 1;
    }
    assert(pm.take(line.pieces.len() as int) =~= pm);
    out
}

impl EpubService {
    /// The heading level that the line below gives: 1 for `===`, 2 for `---`.
    pub fn underline_heading_level(next_line: Option<&str>) -> (r: Option<u8>)
        ensures
            r == underline_level(match next_line {
                Some(l) => Some(l@),
                None => None,
            }),
    {
        let line = match next_line {
            Some(l) => l,
            None => return None,
        };
        let v = to_chars(line);
        let (lo, hi) = trim_range(&v, 0, v.len());
        assert(v@.subrange(0, v.len() as int) =~= v@);
        let ghost t = v@.subrange(lo as int, hi as int);
        if lo == hi {
            return None;
        }
        let mut all_eq = true;
        let mut all_dash = true;
        let mut i: usize = lo;
        while i < hi
            invariant
                lo <= i <= hi <= v.len(),
                t == v@.subrange(lo as int, hi as int),
                all_eq == (forall|j: int| lo <= j < i ==> v@[j] == '='),
                all_dash == (forall|j: int| lo <= j < i ==> v@[j] == '-'),
            decreases hi - i,
        {
            if v[i] != '=' {
                all_eq = false;
            }
            if v[i] != '-' {
                all_dash = false;
            }
            i += 1;
        }
        assert(all_eq == all_chars(t, '=')) by {
            if all_eq {
                assert forall|j: int| 0 <= j < t.len() implies t[j] == '=' by {
                    assert(v@[lo + j] == '=');
                }
            } else {
                let j = choose|j: int| lo <= j < hi && v@[j] != '=';
                assert(t[j - lo] != '=');
            }
        }
        assert(all_dash == all_chars(t, '-')) by {
            if all_dash {
                assert forall|j: int| 0 <= j < t.len() implies t[j] == '-' by {
                    assert(v@[lo + j] == '-');
                }
            } else {
                let j = choose|j: int| lo <= j < hi && v@[j] != '-';
                assert(t[j - lo] != '-');
            }
        }
        if all_eq {
            Some(1)
        } else if all_dash {
            Some(2)
        } else {
            None
        }
    }

    /// A `#`-prefixed heading: its level (at most 6) and its trimmed text, when
    /// that is not empty.
    pub fn parse_hash_heading(line: &str) -> (r: Option<(u8, String)>)
        ensures
            match r {
                Some((level, text)) => hash_heading(line@) == Some((level, text@)),
                None => hash_heading(line@) is None,
            },
    {
        let v = to_chars(line);
        if v.len() == 0 || v[0] != '#' {
            return None;
        }
        let mut k: usize = 0;
        while k < v.len() && k < 6 && v[k] == '#'
            invariant
                k <= v.len(),
                k <= 6,
                forall|j: int| 0 <= j < k ==> v@[j] == '#',
            decreases v.len() - k,
        {
            k += 1;
        }
        proof {
            lemma_leading_count_split(v@, '#', k as int);
            if k < 6 {
                assert(leading_count(v@.subrange(k as int, v.len() as int), '#') == 0);
            }
        }
        let (lo, hi) = trim_range(&v, k, v.len());
        if lo == hi {
            None
        } else {
            Some((k as u8, string_from_range(&v, lo, hi)))
        }
    }

    /// The marker and the text of a list item: `* `, `- ` or `+ `, or digits and a dot.
    pub fn parse_list_item(line: &str) -> (r: Option<(&'static str, String)>)
        ensures
            match r {
                Some((marker, text)) => marker@ == "• "@ && list_item(line@) == Some(text@),
                None => list_item(line@) is None,
            },
    {
        let v = to_chars(line);
        let mut s: usize = 0;
        assert(v@.subrange(0, v.len() as int) =~= v@);
        while s < v.len() && is_whitespace_char(v[s])
            invariant
                s <= v.len(),
                trim_start(v@) == trim_start(v@.subrange(s as int, v.len() as int)),
            decreases v.len() - s,
        {
            assert(v@.subrange(s as int, v.len() as int).subrange(1, (v.len() - s) as int)
                =~= v@.subrange(s + 1, v.len() as int));
            s += 1;
        }
        let ghost t = v@.subrange(s as int, v.len() as int);
        assert(trim_start(v@) == t);
        let n = v.len();
        if n - s >= 2 && (v[s] == '*' || v[s] == '-' || v[s] == '+') && v[s + 1] == ' ' {
            assert(t.subrange(2, t.len() as int) =~= v@.subrange(s + 2, n as int));
            return Some(("• ", string_from_range(&v, s + 2, n)));
        }
        let mut d: usize = s;
        while d < n && '0' <= v[d] && v[d] <= '9'
            invariant
                s <= d <= n == v.len(),
                t == v@.subrange(s as int, n as int),
                forall|j: int| 0 <= j < d - s ==> is_digit(t[j]),
            decreases n - d,
        {
            d += 1;
        }
        proof {
            lemma_leading_digits_split(t, (d - s) as int);
            assert(t.subrange(d - s, t.len() as int) =~= v@.subrange(d as int, n as int));
        }
        if d > s && d < n && v[d] == '.' {
            let mut b: usize = d + 1;
            assert(t.subrange(d - s + 1, t.len() as int) =~= v@.subrange(b as int, n as int));
            while b < n && is_whitespace_char(v[b])
                invariant
                    d + 1 <= b <= n == v.len(),
                    trim_start(v@.subrange(d + 1, n as int)) == trim_start(v@.subrange(b as int, n as int)),
                decreases n - b,
            {
                assert(v@.subrange(b as int, n as int).subrange(1, (n - b) as int)
                    =~= v@.subrange(b + 1, n as int));
                b += 1;
            }
            return Some(("• ", string_from_range(&v, b, n)));
        }
        None
    }

    /// The spans of a rendered line: one per piece with text left after trimming,
    /// bold for a strong annotation and italic for an emphasis one.
    pub fn spans_from_line(line: &RenderedLine) -> (r: Vec<TextSpan>)
        ensures
            crate::model::spans_view(r@) == line_spans(line_model(*line)),
    {
        let ghost pm = line_model(*line);
        let mut spans: Vec<TextSpan> = Vec::new();
        let mut i: usize = 0;
        while i < line.pieces.len()
            invariant
                i <= line.pieces.len(),
                pm == line_model(*line),
                crate::model::spans_view(spans@) == line_spans(pm.take(i as int)),
            decreases line.pieces.len() - i,
        {
            assert(pm.take(i + 1).drop_last() =~= pm.take(i as int));
            assert(pm.take(i + 1).last() == line.pieces@[i as int]@);
            let piece = &line.pieces[i];
            let bold = contains_mark(&piece.marks, Mark::Strong);
            let italic = contains_mark(&piece.marks, Mark::Emphasis);
            let v = to_chars(piece.text.as_str());
            let (a, b) = trim_range(&v, 0, v.len());
            assert(v@.subrange(0, v.len() as int) =~= v@);
            let (lo, hi) = if bold || italic {
                let (c, d) = strip_marks_range(&v, a, b);
                trim_range(&v, c, d)
            } else {
                (a, b)
            };
            if lo < hi {
                let ghost before = spans@;
                spans.push(TextSpan::styled(string_from_range(&v, lo, hi), bold, italic));
                assert(crate::model::spans_view(spans@) =~= crate::model::spans_view(before).push(
                    piece_span(pm[i as int])->0,
                ));
            }
            i += 1;
        }
        assert(pm.take(line.pieces.len() as int) =~= pm);
        spans
    }

    /// The words of the text joined by single spaces.
    pub fn normalize_whitespace(text: &str) -> (r: String)
        ensures
            r@ == normalize_ws(text@),
    {
        let v = to_chars(text);
        let out = normalize_chars(&v);
        string_from_chars(&out)
    }
}

/// The words of `v` joined by single spaces.
pub fn normalize_chars(v: &Vec<char>) -> (out: Vec<char>)
    ensures
        out@ == normalize_ws(v@),
{
    let mut out: Vec<char> = Vec::new();
    let mut i: usize = 0;
    while i < v.len()
        invariant
            i <= v.len(),
            out@ == join(ws_words(v@.take(i as int)), seq![' ']),
            (out@.len() > 0) == (ws_words(v@.take(i as int)).len() > 0),
        decreases v.len() - i,
    {
        let ghost pre = v@.take(i as int);
        let ghost w = ws_words(pre);
        let c = v[i];
        assert(v@.take(i + 1).drop_last() =~= pre);
        assert(v@.take(i + 1).last() == c);
        if !is_whitespace_char(c) {
            if i > 0 && !is_whitespace_char(v[i - 1]) && out.len() > 0 {
                assert(v@.take(i + 1)[i - 1] == v@[i - 1]);
                proof {
                    lemma_join_extend_last(w, seq![' '], c);
                }
                out.push(c);
            } else {
                proof {
                    lemma_join_push(w, seq![' '], seq![c]);
                    if i > 0 {
                        assert(v@.take(i + 1)[i - 1] == v@[i - 1]);
                    }
                }
                if out.len() > 0 {
                    out.push(' ');
                }
                out.push(c);
                assert(out@.len() > 0);
            }
        }
        i += 1;
        proof {
            if !is_ws(c) {
                assert(out@ =~= join(ws_words(v@.take(i as int)), seq![' ']));
            }
        }
    }
    assert(v@.take(v.len() as int) =~= v@);
    out
}

} // verus!
