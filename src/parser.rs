//! The markup block parser. A fragment's markup is rendered to lines of text
//! whose pieces carry strong/emphasis annotations; blocks are then rebuilt from
//! the shape of the lines (underlines, `#` prefixes, list markers, blank lines)
//! and paragraph spans keep the inline bold and italic styling.
use html2text::render::RichAnnotation;
use vstd::prelude::*;

use crate::blocks::{append_model, flush_model};
use crate::lines::{
    hash_heading, line_model, line_string, line_spans, line_text, lines_model, list_item,
    normalize_chars, normalize_ws, underline_level, Mark, PieceModel, RenderedLine, TaggedText,
};
use crate::model::{blocks_view, spans_view, BlockModel, ChapterBlock, SpanModel, TextSpan};
use crate::service::EpubService;
use crate::text::{
    extend_all, join, lemma_join_push, string_from_chars, string_from_range, trim, trim_range,
};

verus! {

/// An unstyled span.
pub open spec fn plain_span(text: Seq<char>) -> SpanModel {
    SpanModel { text, bold: false, italic: false }
}

/// The bullet put before the text of a list item.
pub open spec fn bullet() -> Seq<char> {
    seq!['•', ' ']
}

/// The text of the line after line `i`, if there is one.
pub open spec fn next_text(lines: Seq<Seq<PieceModel>>, i: int) -> Option<Seq<char>> {
    if 0 <= i && i + 1 < lines.len() {
        Some(line_text(lines[i + 1]))
    } else {
        None
    }
}

/// The blocks built from line `i` on, given the open paragraph run and the blocks
/// so far. A blank line closes the run; a line underlined by `===` or `---`, a
/// `#` heading and a list item each close the run and make a block of their own;
/// any other line adds its spans to the run.
pub open spec fn scan(
    lines: Seq<Seq<PieceModel>>,
    i: int,
    par: Seq<SpanModel>,
    blocks: Seq<BlockModel>,
) -> Seq<BlockModel>
    decreases lines.len() - i,
{
    if i < 0 || i >= lines.len() {
        flush_model(par, blocks)
    } else {
        let t = trim(line_text(lines[i]));
        let closed = flush_model(par, blocks);
        if t.len() == 0 {
            scan(lines, i + 1, Seq::empty(), closed)
        } else {
            match underline_level(next_text(lines, i)) {
                Some(level) => scan(
                    lines,
                    i + 2,
                    Seq::empty(),
                    closed.push(BlockModel::Heading { level, spans: seq![plain_span(t)] }),
                ),
                None => match hash_heading(t) {
                    Some((level, text)) => scan(
                        lines,
                        i + 1,
                        Seq::empty(),
                        closed.push(BlockModel::Heading { level, spans: seq![plain_span(text)] }),
                    ),
                    None => match list_item(t) {
                        Some(rest) => scan(
                            lines,
                            i + 1,
                            Seq::empty(),
                            closed.push(
                                BlockModel::Paragraph { spans: seq![plain_span(bullet() + trim(rest))] },
                            ),
                        ),
                        None => scan(
                            lines,
                            i + 1,
                            append_model(par, line_spans(lines[i]), par.len() > 0),
                            blocks,
                        ),
                    },
                },
            }
        }
    }
}

/// The texts of the lines.
pub open spec fn line_texts(lines: Seq<Seq<PieceModel>>) -> Seq<Seq<char>> {
    lines.map_values(|l: Seq<PieceModel>| line_text(l))
}

/// The blocks of a rendered fragment; when the lines give none, the whole text
/// with its whitespace normalized becomes one paragraph, unless it is blank.
pub open spec fn blocks_from_lines(lines: Seq<Seq<PieceModel>>) -> Seq<BlockModel> {
    let b = scan(lines, 0, Seq::empty(), Seq::empty());
    if b.len() > 0 {
        b
    } else {
        let c = trim(normalize_ws(join(line_texts(lines), seq!['\n'])));
        if c.len() > 0 {
            seq![BlockModel::Paragraph { spans: seq![plain_span(c)] }]
        } else {
            Seq::empty()
        }
    }
}

/// What the renderer makes of a fragment: its annotated lines, or nothing when it fails.
pub uninterp spec fn rich_lines_of(html: Seq<char>) -> Option<Seq<Seq<PieceModel>>>;

/// What the plain-text renderer makes of a fragment, or nothing when it fails.
pub uninterp spec fn plain_render_of(html: Seq<char>) -> Option<Seq<char>>;

/// The annotated lines of a fragment, none when the renderer fails.
pub open spec fn rendered_lines(html: Seq<char>) -> Seq<Seq<PieceModel>> {
    match rich_lines_of(html) {
        Some(lines) => lines,
        None => Seq::empty(),
    }
}

/// The plain text of a fragment, trimmed; empty when the renderer fails.
pub open spec fn fragment_text(html: Seq<char>) -> Seq<char> {
    match plain_render_of(html) {
        Some(t) => trim(t),
        None => Seq::empty(),
    }
}

/// Relies on `html2text::from_read_rich`: the markup rendered 4096 columns wide
/// to lines of annotated strings, which are copied piece by piece.
#[verifier::external_body]
fn render_rich_lines(html: &str) -> (r: Option<Vec<RenderedLine>>)
    ensures
        match r {
            Some(lines) => rich_lines_of(html@) == Some(lines_model(lines@)),
            None => rich_lines_of(html@) is None,
        },
{
    match html2text::from_read_rich(html.as_bytes(), 4096) {
        Ok(lines) => Some(lines.iter().map(|l| RenderedLine {
            pieces: l.tagged_strings().map(|t| TaggedText {
                text: t.s.clone(),
                marks: t.tag.iter().map(|a| match a {
                    RichAnnotation::Strong => Mark::Strong,
                    RichAnnotation::Emphasis => Mark::Emphasis,
                    _ => Mark::Other,
                }).collect(),
            }).collect(),
        }).collect()),
        Err(_) => None,
    }
}

/// Relies on `html2text::from_read`: the markup rendered as plain text 80 columns wide.
#[verifier::external_body]
fn render_plain_text(html: &str) -> (r: Option<String>)
    ensures
        match r {
            Some(t) => plain_render_of(html@) == Some(t@),
            None => plain_render_of(html@) is None,
        },
{
    html2text::from_read(html.as_bytes(), 80).ok()
}

impl EpubService {
    /// The blocks of a fragment's markup.
    pub fn html_to_blocks(html: &str) -> (r: Vec<ChapterBlock>)
        ensures
            blocks_view(r@) == blocks_from_lines(rendered_lines(html@)),
    {
        match render_rich_lines(html) {
            Some(lines) => Self::blocks_from_tagged_lines(lines),
            None => {
                let r = Self::blocks_from_tagged_lines(Vec::new());
                assert(lines_model(Seq::<RenderedLine>::empty()) =~= Seq::<Seq<PieceModel>>::empty());
                r
            },
        }
    }

    /// The plain text of a fragment's markup, trimmed.
    pub fn html_to_plain_text(html: &str) -> (r: String)
        ensures
            r@ == fragment_text(html@),
    {
        match render_plain_text(html) {
            Some(t) => crate::text::trim_str(t.as_str()),
            None => String::new(),
        }
    }

    /// Rebuilds blocks from rendered lines: headings from `#` prefixes and
    /// underlines, list items from bullet or number markers, and paragraphs from
    /// runs of other lines, with their styled spans merged.
    pub fn blocks_from_tagged_lines(lines: Vec<RenderedLine>) -> (r: Vec<ChapterBlock>)
        ensures
            blocks_view(r@) == blocks_from_lines(lines_model(lines@)),
    {
        let ghost lm = lines_model(lines@);
        let mut blocks: Vec<ChapterBlock> = Vec::new();
        let mut par: Vec<TextSpan> = Vec::new();
        let n = lines.len();
        let mut i: usize = 0;
        proof {
            assert(blocks_view(blocks@) =~= Seq::<BlockModel>::empty());
            assert(spans_view(par@) =~= Seq::<SpanModel>::empty());
        }
        while i < n
            invariant
                n == lines.len(),
                lm == lines_model(lines@),
                i <= n,
                scan(lm, 0, Seq::empty(), Seq::empty()) == scan(lm, i as int, spans_view(par@), blocks_view(blocks@)),
            decreases n - i,
        {
            let raw = line_string(&lines[i]);
            assert(line_model(lines@[i as int]) == lm[i as int]);
            let (lo, hi) = trim_range(&raw, 0, raw.len());
            assert(raw@.subrange(0, raw.len() as int) =~= raw@);
            if lo == hi {
                Self::flush_paragraph_spans(&mut par, &mut blocks);
                assert(spans_view(par@) =~= Seq::<SpanModel>::empty());
                i += 1;
                continue;
            }
            let trimmed = string_from_range(&raw, lo, hi);
            let next: Option<String> = if i + 1 < n {
                assert(line_model(lines@[i + 1]) == lm[i + 1]);
                Some(string_from_chars(&line_string(&lines[i + 1])))
            } else {
                None
            };
            let level = Self::underline_heading_level(
                match &next {
                    Some(s) => Some(s.as_str()),
                    None => None,
                },
            );
            if let Some(level) = level {
                Self::flush_paragraph_spans(&mut par, &mut blocks);
                let ghost before = blocks_view(blocks@);
                let ghost tv = trimmed@;
                let sp = vec![TextSpan::plain(trimmed)];
                assert(spans_view(sp@) =~= seq![plain_span(tv)]);
                blocks.push(ChapterBlock::Heading { level, spans: sp });
                assert(blocks_view(blocks@) =~= before.push(
                    BlockModel::Heading { level, spans: seq![plain_span(tv)] },
                ));
                assert(spans_view(par@) =~= Seq::<SpanModel>::empty());
                i += 2;
                continue;
            }
            if let Some((hl, text)) = Self::parse_hash_heading(trimmed.as_str()) {
                Self::flush_paragraph_spans(&mut par, &mut blocks);
                let ghost before = blocks_view(blocks@);
                let ghost tv = text@;
                let sp = vec![TextSpan::plain(text)];
                assert(spans_view(sp@) =~= seq![plain_span(tv)]);
                blocks.push(ChapterBlock::Heading { level: hl, spans: sp });
                assert(blocks_view(blocks@) =~= before.push(
                    BlockModel::Heading { level: hl, spans: seq![plain_span(tv)] },
                ));
                assert(spans_view(par@) =~= Seq::<SpanModel>::empty());
                i += 1;
                continue;
            }
            if let Some((marker, text)) = Self::parse_list_item(trimmed.as_str()) {
                Self::flush_paragraph_spans(&mut par, &mut blocks);
                let mut item = String::from_str(marker);
                let rest = crate::text::trim_str(text.as_str());
                item.append(rest.as_str());
                proof {
                    reveal_strlit("• ");
                    assert("• "@ =~= bullet());
                }
                let ghost before = blocks_view(blocks@);
                let ghost iv = item@;
                let sp = vec![TextSpan::plain(item)];
                assert(spans_view(sp@) =~= seq![plain_span(iv)]);
                blocks.push(ChapterBlock::Paragraph { spans: sp });
                assert(blocks_view(blocks@) =~= before.push(
                    BlockModel::Paragraph { spans: seq![plain_span(iv)] },
                ));
                assert(spans_view(par@) =~= Seq::<SpanModel>::empty());
                i += 1;
                continue;
            }
            let spans = Self::spans_from_line(&lines[i]);
            let needs_space = par.len() > 0;
            Self::append_spans(&mut par, spans, needs_space);
            i += 1;
        }
        Self::flush_paragraph_spans(&mut par, &mut blocks);
        if blocks.len() == 0 {
            let mut joined: Vec<char> = Vec::new();
            let ghost texts = crate::parser::line_texts(lm);
            let mut k: usize = 0;
            while k < n
                invariant
                    n == lines.len(),
                    lm == lines_model(lines@),
                    texts == line_texts(lm),
                    k <= n,
                    joined@ == join(texts.take(k as int), seq!['\n']),
                decreases n - k,
            {
                let t = line_string(&lines[k]);
                assert(line_model(lines@[k as int]) == lm[k as int]);
                proof {
                    assert(texts.take(k + 1) =~= texts.take(k as int).push(t@));
                    lemma_join_push(texts.take(k as int), seq!['\n'], t@);
                }
                if k > 0 {
                    joined.push('\n');
                }
                extend_all(&mut joined, &t);
                k += 1;
            }
            assert(texts.take(n as int) =~= texts);
            let condensed = normalize_chars(&joined);
            let (lo, hi) = trim_range(&condensed, 0, condensed.len());
            assert(condensed@.subrange(0, condensed.len() as int) =~= condensed@);
            if lo < hi {
                let text = string_from_range(&condensed, lo, hi);
                let ghost tv = text@;
                let sp = vec![TextSpan::plain(text)];
                assert(spans_view(sp@) =~= seq![plain_span(tv)]);
                blocks.push(ChapterBlock::Paragraph { spans: sp });
                assert(blocks_view(blocks@) =~= seq![BlockModel::Paragraph { spans: seq![plain_span(tv)] }]);
            }
        }
        blocks
    }
}

} // verus!
