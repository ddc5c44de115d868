use epub_reader::{ChapterBlock, EpubService, TextSpan};

fn spans_text(spans: &[TextSpan]) -> Vec<(String, bool, bool)> {
    spans
        .iter()
        .map(|span| (span.text.clone(), span.bold, span.italic))
        .collect()
}

#[test]
fn html_to_blocks_extracts_headings_and_paragraphs() {
    let html = r#"
            <h1>Title</h1>
            <p>Hello <strong>world</strong> and <em>friends</em>.</p>
        "#;

    let blocks = EpubService::html_to_blocks(html);
    assert_eq!(blocks.len(), 2);

    match &blocks[0] {
        ChapterBlock::Heading { level, spans } => {
            assert_eq!(*level, 1);
            assert_eq!(spans_text(spans), vec![("Title".to_string(), false, false)]);
        }
        other => panic!("expected heading block, got {other:?}"),
    }

    match &blocks[1] {
        ChapterBlock::Paragraph { spans } => {
            assert_eq!(
                spans_text(spans),
                vec![
                    ("Hello".to_string(), false, false),
                    ("world".to_string(), true, false),
                    ("and".to_string(), false, false),
                    ("friends".to_string(), false, true),
                    (".".to_string(), false, false)
                ]
            );
        }
        other => panic!("expected paragraph block, got {other:?}"),
    }
}

#[test]
fn blocks_to_plain_text_preserves_separation() {
    let blocks = vec![
        ChapterBlock::Heading {
            level: 1,
            spans: vec![TextSpan::plain("Title".to_string())],
        },
        ChapterBlock::Paragraph {
            spans: vec![
                TextSpan::plain("First paragraph".to_string()),
                TextSpan::plain("continued".to_string()),
            ],
        },
        ChapterBlock::Paragraph {
            spans: vec![TextSpan::plain("Second paragraph".to_string())],
        },
    ];

    let text = EpubService::blocks_to_plain_text(&blocks);
    assert_eq!(text, "Title\n\nFirst paragraph continued\n\nSecond paragraph");
}

#[test]
fn derive_chapter_title_prefers_toc_labels() {
    let toc_labels = vec![("chapter1.xhtml".to_string(), "Chapter One".to_string())];

    let blocks = vec![ChapterBlock::Paragraph {
        spans: vec![TextSpan::plain("Fallback paragraph".to_string())],
    }];

    let title =
        EpubService::derive_chapter_title(&toc_labels, "chapter1.xhtml", &blocks, "", "chapter-1");

    assert_eq!(title.as_deref(), Some("Chapter One"));
}

#[test]
fn derive_chapter_title_falls_back_to_text_and_id() {
    let toc_labels: Vec<(String, String)> = Vec::new();
    let blocks = vec![
        ChapterBlock::Paragraph {
            spans: vec![TextSpan::plain("   ".to_string())],
        },
        ChapterBlock::Paragraph {
            spans: vec![TextSpan::plain("Some intro text".to_string())],
        },
    ];

    let title = EpubService::derive_chapter_title(
        &toc_labels,
        "content/chapter2.xhtml",
        &blocks,
        "",
        "chapter-2",
    );

    assert_eq!(title.as_deref(), Some("Some intro text"));

    let empty_blocks: Vec<ChapterBlock> = vec![];
    let title_from_plain = EpubService::derive_chapter_title(
        &toc_labels,
        "content/chapter3.xhtml",
        &empty_blocks,
        "Plain text fallback",
        "chapter-3",
    );
    assert_eq!(title_from_plain.as_deref(), Some("Plain text fallback"));

    let title_from_id = EpubService::derive_chapter_title(
        &toc_labels,
        "content/chapter4.xhtml",
        &empty_blocks,
        "",
        "chapter-4",
    );
    assert_eq!(title_from_id.as_deref(), Some("chapter-4"));
}
