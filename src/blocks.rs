//! Chapter blocks: flattening to text, and reconstruction from annotated lines.
use vstd::prelude::*;

use crate::model::{blocks_view, spans_view, BlockModel, ChapterBlock, SpanModel, TextSpan};
use crate::service::EpubService;
use crate::text::{
    extend_all, extend_chars, join, lemma_join_push, string_from_chars, to_chars, trim,
    trim_bounds,
};

verus! {

/// The trimmed texts of the spans, leaving out those that trim to nothing.
pub open spec fn span_words(spans: Seq<SpanModel>) -> Seq<Seq<char>>
    decreases spans.len(),
{
    if spans.len() == 0 {
        Seq::empty()
    } else {
        let rest = span_words(spans.drop_last());
        let t = trim(spans.last().text);
        if t.len() > 0 {
            rest.push(t)
        } else {
            rest
        }
    }
}

/// The text of a run of spans: their trimmed texts joined by single spaces.
pub open spec fn spans_text(spans: Seq<SpanModel>) -> Seq<char> {
    join(span_words(spans), seq![' '])
}

/// The texts of the blocks, leaving out blocks whose text is blank.
pub open spec fn block_texts(blocks: Seq<BlockModel>) -> Seq<Seq<char>>
    decreases blocks.len(),
{
    if blocks.len() == 0 {
        Seq::empty()
    } else {
        let rest = block_texts(blocks.drop_last());
        let t = spans_text(blocks.last().spans());
        if trim(t).len() > 0 {
            rest.push(t)
        } else {
            rest
        }
    }
}

/// The plain text of a chapter: its block texts separated by blank lines.
pub open spec fn plain_text(blocks: Seq<BlockModel>) -> Seq<char> {
    join(block_texts(blocks), seq!['\n', '\n'])
}

/// Whether the text ends with a space.
pub open spec fn ends_with_space(s: Seq<char>) -> bool {
    s.len() > 0 && s.last() == ' '
}

/// Whether the text starts with a space.
pub open spec fn starts_with_space(s: Seq<char>) -> bool {
    s.len() > 0 && s[0] == ' '
}

/// Adds a span at the end of a run: an empty span is dropped; a span styled like
/// the last one is merged into it, with a space between unless one is there already.
pub open spec fn push_span_model(target: Seq<SpanModel>, span: SpanModel) -> Seq<SpanModel> {
    if span.text.len() == 0 {
        target
    } else if target.len() > 0 && target.last().bold == span.bold && target.last().italic
        == span.italic {
        let last = target.last();
        let sep = if !ends_with_space(last.text) && !starts_with_space(span.text) {
            seq![' ']
        } else {
            Seq::empty()
        };
        target.update(
            target.len() - 1,
            SpanModel { text: last.text + sep + span.text, bold: last.bold, italic: last.italic },
        )
    } else {
        target.push(span)
    }
}

/// Adds the spans one by one, as `push_span_model`.
pub open spec fn push_all(target: Seq<SpanModel>, spans: Seq<SpanModel>) -> Seq<SpanModel>
    decreases spans.len(),
{
    if spans.len() == 0 {
        target
    } else {
        push_span_model(push_all(target, spans.drop_last()), spans.last())
    }
}

/// A run of spans with adjacent spans of the same style merged and empty ones dropped.
pub open spec fn merged(spans: Seq<SpanModel>) -> Seq<SpanModel> {
    push_all(Seq::empty(), spans)
}

/// Whether some span has text.
pub open spec fn has_text(spans: Seq<SpanModel>) -> bool {
    exists|i: int| 0 <= i < spans.len() && (#[trigger] spans[i]).text.len() > 0
}

/// The run with a space added to its last span, unless it ends with one.
pub open spec fn space_after(target: Seq<SpanModel>) -> Seq<SpanModel> {
    if target.len() > 0 && !ends_with_space(target.last().text) {
        let last = target.last();
        target.update(
            target.len() - 1,
            SpanModel { text: last.text.push(' '), bold: last.bold, italic: last.italic },
        )
    } else {
        target
    }
}

/// Appends the spans of a line to a paragraph run; with `insert_space`, the run
/// first gets a separating space when the line brings any text.
pub open spec fn append_model(target: Seq<SpanModel>, spans: Seq<SpanModel>, insert_space: bool) -> Seq<
    SpanModel,
> {
    if !has_text(spans) {
        target
    } else if insert_space {
        push_all(space_after(target), spans)
    } else {
        push_all(target, spans)
    }
}

/// Closes a paragraph run: its merged spans become a paragraph block when their
/// text is not blank.
pub open spec fn flush_model(par: Seq<SpanModel>, blocks: Seq<BlockModel>) -> Seq<BlockModel> {
    if par.len() == 0 {
        blocks
    } else {
        let m = merged(par);
        if trim(spans_text(m)).len() > 0 {
            blocks.push(BlockModel::Paragraph { spans: m })
        } else {
            blocks
        }
    }
}

pub proof fn lemma_push_all_no_text(target: Seq<SpanModel>, spans: Seq<SpanModel>)
    requires
        !has_text(spans),
    ensures
        push_all(target, spans) == target,
    decreases spans.len(),
{
    if spans.len() > 0 {
        assert(!has_text(spans.drop_last())) by {
            if has_text(spans.drop_last()) {
                let i = choose|i: int| 0 <= i < spans.drop_last().len() && (#[trigger] spans.drop_last()[i]).text.len() > 0;
                assert(spans[i].text.len() > 0);
            }
        }
        assert(spans.last().text.len() == 0) by {
            if spans.last().text.len() > 0 {
                assert(spans[spans.len() - 1].text.len() > 0);
            }
        }
        lemma_push_all_no_text(target, spans.drop_last());
    }
}

impl EpubService {
    /// Adds a span at the end of a run: an empty span is dropped; a span styled like
    /// the last one is merged into it, with a space between unless one is there already.
    pub fn push_span(target: &mut Vec<TextSpan>, span: TextSpan)
        ensures
            spans_view(final(target)@) == push_span_model(spans_view(old(target)@), span@),
    {
        let ghost before = spans_view(target@);
        if span.text.unicode_len() == 0 {
            return;
        }
        match target.pop() {
            Some(mut last) => {
                assert(before.drop_last() =~= spans_view(target@));
                assert(before.last() == last@);
                if last.bold == span.bold && last.italic == span.italic {
                    let n = last.text.unicode_len();
                    let ends_space = n > 0 && last.text.as_str().get_char(n - 1) == ' ';
                    let starts_space = span.text.as_str().get_char(0) == ' ';
                    let ghost t0 = last.text@;
                    proof {
                        reveal_strlit(" ");
                        assert(" "@ =~= seq![' ']);
                    }
                    if !ends_space && !starts_space {
                        last.text.append(" ");
                    }
                    last.text.append(span.text.as_str());
                    assert(last.text@ =~= t0 + (if !ends_space && !starts_space { seq![' '] } else { Seq::empty() }) + span.text@);
                    target.push(last);
                    assert(spans_view(target@) =~= push_span_model(before, span@));
                } else {
                    target.push(last);
                    target.push(span);
                    assert(spans_view(target@) =~= push_span_model(before, span@));
                }
            },
            None => {
                target.push(span);
                assert(spans_view(target@) =~= push_span_model(before, span@));
            },
        }
    }

    /// Merges adjacent spans of the same style and drops empty ones.
    pub fn merge_spans(spans: Vec<TextSpan>) -> (r: Vec<TextSpan>)
        ensures
            spans_view(r@) == merged(spans_view(spans@)),
    {
        let mut out: Vec<TextSpan> = Vec::new();
        let ghost all = spans_view(spans@);
        let mut i: usize = 0;
        while i < spans.len()
            invariant
                i <= spans.len(),
                all == spans_view(spans@),
                spans_view(out@) == push_all(Seq::empty(), all.take(i as int)),
            decreases spans.len() - i,
        {
            assert(all.take(i + 1).drop_last() =~= all.take(i as int));
            assert(all.take(i + 1).last() == all[i as int]);
            let span = TextSpan { text: spans[i].text.clone(), bold: spans[i].bold, italic: spans[i].italic };
            Self::push_span(&mut out, span);
            i += 1;
        }
        assert(all.take(all.len() as int) =~= all);
        out
    }

    /// Appends the spans of a line to a paragraph run; with `insert_space` the run
    /// first gets a separating space when the line brings any text.
    pub fn append_spans(target: &mut Vec<TextSpan>, spans: Vec<TextSpan>, insert_space: bool)
        ensures
            spans_view(final(target)@) == append_model(spans_view(old(target)@), spans_view(spans@), insert_space),
    {
        let ghost t0 = spans_view(target@);
        let ghost sv = spans_view(spans@);
        let mut first = true;
        let mut i: usize = 0;
        while i < spans.len()
            invariant
                i <= spans.len(),
                sv == spans_view(spans@),
                first == !has_text(sv.take(i as int)),
                first ==> spans_view(target@) == t0,
                !first ==> spans_view(target@) == push_all(
                    if insert_space { space_after(t0) } else { t0 },
                    sv.take(i as int),
                ),
            decreases spans.len() - i,
        {
            let ghost start = if insert_space { space_after(t0) } else { t0 };
            assert(sv.take(i + 1).drop_last() =~= sv.take(i as int));
            assert(sv.take(i + 1).last() == sv[i as int]);
            let span = TextSpan { text: spans[i].text.clone(), bold: spans[i].bold, italic: spans[i].italic };
            assert(span@ == sv[i as int]);
            if span.text.unicode_len() > 0 {
                if insert_space && first && target.len() > 0 {
                    let ghost tb = spans_view(target@);
                    match target.pop() {
                        Some(mut last) => {
                            assert(tb.drop_last() =~= spans_view(target@));
                            assert(tb.last() == last@);
                            let m = last.text.unicode_len();
                            proof {
                                reveal_strlit(" ");
                                assert(" "@ =~= seq![' ']);
                            }
                            let ghost t0 = last.text@;
                            if !(m > 0 && last.text.as_str().get_char(m - 1) == ' ') {
                                last.text.append(" ");
                                assert(last.text@ =~= t0.push(' '));
                            }
                            target.push(last);
                            assert(spans_view(target@) =~= space_after(tb));
                        },
                        None => {},
                    }
                }
                proof {
                    if first {
                        lemma_push_all_no_text(start, sv.take(i as int));
                        assert(insert_space ==> spans_view(target@) == space_after(t0));
                    }
                    assert(has_text(sv.take(i + 1))) by {
                        assert(sv.take(i + 1)[i as int].text.len() > 0);
                    }
                }
                Self::push_span(target, span);
                first = false;
            } else {
                proof {
                    assert(!has_text(sv.take(i + 1)) == !has_text(sv.take(i as int))) by {
                        if has_text(sv.take(i + 1)) {
                            let j = choose|j: int| 0 <= j < sv.take(i + 1).len() && (#[trigger] sv.take(i + 1)[j]).text.len() > 0;
                            assert(j != i);
                            assert(sv.take(i as int)[j].text.len() > 0);
                        }
                        if has_text(sv.take(i as int)) {
                            let j = choose|j: int| 0 <= j < sv.take(i as int).len() && (#[trigger] sv.take(i as int)[j]).text.len() > 0;
                            assert(sv.take(i + 1)[j].text.len() > 0);
                        }
                    }
                }
            }
            i += 1;
        }
        assert(sv.take(spans.len() as int) =~= sv);
        proof {
            if first {
                assert(!has_text(sv));
            }
        }
    }

    /// Closes a paragraph run: its merged spans become a paragraph block when their
    /// text is not blank; the run is left empty.
    pub fn flush_paragraph_spans(paragraph: &mut Vec<TextSpan>, blocks: &mut Vec<ChapterBlock>)
        ensures
            final(paragraph)@.len() == 0,
            blocks_view(final(blocks)@) == flush_model(spans_view(old(paragraph)@), blocks_view(old(blocks)@)),
    {
        if paragraph.len() == 0 {
            return;
        }
        let mut taken: Vec<TextSpan> = Vec::new();
        core::mem::swap(paragraph, &mut taken);
        let m = Self::merge_spans(taken);
        let text = Self::spans_to_text(m.as_slice());
        let v = to_chars(text.as_str());
        let (lo, hi) = trim_bounds(&v);
        if lo < hi {
            let ghost before = blocks_view(blocks@);
            let ghost mv = spans_view(m@);
            blocks.push(ChapterBlock::Paragraph { spans: m });
            assert(blocks_view(blocks@) =~= before.push(BlockModel::Paragraph { spans: mv }));
        }
    }

    /// Joins the trimmed, non-empty span texts with single spaces.
    pub fn spans_to_text(spans: &[TextSpan]) -> (r: String)
        ensures
            r@ == spans_text(spans_view(spans@)),
    {
        let mut out: Vec<char> = Vec::new();
        let mut any = false;
        let mut i: usize = 0;
        while i < spans.len()
            invariant
                i <= spans.len(),
                any == (span_words(spans_view(spans@.take(i as int))).len() > 0),
                out@ == join(span_words(spans_view(spans@.take(i as int))), seq![' ']),
            decreases spans.len() - i,
        {
            let v = to_chars(spans[i].text.as_str());
            let (lo, hi) = trim_bounds(&v);
            let ghost prev = span_words(spans_view(spans@.take(i as int)));
            assert(spans_view(spans@.take(i + 1)).drop_last() =~= spans_view(spans@.take(i as int)));
            if lo < hi {
                if any {
                    out.push(' ');
                }
                extend_chars(&mut out, &v, lo, hi);
                proof {
                    lemma_join_push(prev, seq![' '], v@.subrange(lo as int, hi as int));
                }
                any = true;
            }
            i += 1;
        }
        assert(spans@.take(spans.len() as int) =~= spans@);
        string_from_chars(&out)
    }

    /// Joins the texts of the non-blank blocks with a blank line between each two.
    pub fn blocks_to_plain_text(blocks: &[ChapterBlock]) -> (r: String)
        ensures
            r@ == plain_text(blocks_view(blocks@)),
    {
        let mut out: Vec<char> = Vec::new();
        let mut any = false;
        let mut i: usize = 0;
        while i < blocks.len()
            invariant
                i <= blocks.len(),
                any == (block_texts(blocks_view(blocks@.take(i as int))).len() > 0),
                out@ == join(block_texts(blocks_view(blocks@.take(i as int))), seq!['\n', '\n']),
            decreases blocks.len() - i,
        {
            let text = Self::spans_to_text(blocks[i].spans().as_slice());
            let v = to_chars(text.as_str());
            let (lo, hi) = trim_bounds(&v);
            let ghost prev = block_texts(blocks_view(blocks@.take(i as int)));
            assert(blocks_view(blocks@.take(i + 1)).drop_last() =~= blocks_view(blocks@.take(i as int)));
            if lo < hi {
                if any {
                    out.push('\n');
                    out.push('\n');
                }
                proof {
                    lemma_join_push(prev, seq!['\n', '\n'], v@);
                }
                extend_all(&mut out, &v);
                any = true;
            }
            i += 1;
        }
        assert(blocks@.take(blocks.len() as int) =~= blocks@);
        string_from_chars(&out)
    }
}

} // verus!
