use epub_reader::{
    Book, ChapterBlock, EpubService, ManifestItem, Mark, MetadataItem, NavPoint, PackageData,
    RenderedLine, TaggedText, TextSpan,
};

fn item(property: &str, value: &str) -> MetadataItem {
    MetadataItem {
        property: property.to_string(),
        value: value.to_string(),
    }
}

fn nav(label: &str, content: &str, children: Vec<NavPoint>) -> NavPoint {
    NavPoint {
        label: label.to_string(),
        content: content.to_string(),
        children,
    }
}

fn resource(id: &str, href: &str, media: &str) -> ManifestItem {
    ManifestItem {
        id: id.to_string(),
        href: href.to_string(),
        media_type: media.to_string(),
    }
}

fn piece(text: &str, marks: Vec<Mark>) -> TaggedText {
    TaggedText {
        text: text.to_string(),
        marks,
    }
}

fn line(pieces: Vec<TaggedText>) -> RenderedLine {
    RenderedLine { pieces }
}

fn spans_of(block: &ChapterBlock) -> Vec<(String, bool, bool)> {
    let spans = match block {
        ChapterBlock::Heading { spans, .. } | ChapterBlock::Paragraph { spans } => spans,
    };
    spans
        .iter()
        .map(|s| (s.text.clone(), s.bold, s.italic))
        .collect()
}

fn sample_package(identifier: Option<&str>) -> PackageData {
    let mut metadata = vec![
        item("dc:title", "A Book"),
        item("dc:creator", "Jane Doe"),
        item("language", "en"),
    ];
    if let Some(id) = identifier {
        metadata.push(item("dc:identifier", id));
    }
    PackageData {
        metadata,
        title: None,
        release_identifier: None,
        resources: vec![
            resource("c1", "OEBPS/chapter1.xhtml", "application/xhtml+xml"),
            resource("img", "OEBPS/cover.png", "image/png"),
            resource("c2", "OEBPS/chapter2.xhtml", "application/xhtml+xml"),
        ],
        spine: vec![
            "c1".to_string(),
            "img".to_string(),
            "missing".to_string(),
            "c2".to_string(),
        ],
        toc: vec![nav("Opening", "chapter1.xhtml#start", vec![])],
        fragments: vec![
            Some("<h1>One</h1><p>First text</p>".to_string()),
            None,
            None,
            Some("<p>Second text</p>".to_string()),
        ],
    }
}

#[test]
fn metadata_key_variants_resolve_alike() {
    for property in ["title", "dc:title", "OPF:TITLE"] {
        let items = vec![item("dc:creator", "Someone"), item(property, "The Title")];
        assert_eq!(
            EpubService::metadata_value(&items, &["title"]),
            Some("The Title".to_string())
        );
    }
    let items = vec![item("subtitle", "No"), item("title:extra", "No")];
    assert_eq!(EpubService::metadata_value(&items, &["title"]), None);
}

#[test]
fn metadata_value_takes_first_match() {
    let items = vec![item("dc:description", "first"), item("abstract", "second")];
    assert_eq!(
        EpubService::metadata_value(&items, &["description", "abstract"]),
        Some("first".to_string())
    );
    let none: Vec<MetadataItem> = Vec::new();
    assert_eq!(EpubService::metadata_value(&none, &["description"]), None);
}

#[test]
fn authors_deduplicate_ignoring_case() {
    let items = vec![
        item("dc:creator", "Jane Doe"),
        item("creator", "JANE DOE"),
        item("dc:creator", "John Roe"),
    ];
    assert_eq!(
        EpubService::collect_metadata_values(&items, &["creator", "author"]),
        vec!["Jane Doe".to_string(), "John Roe".to_string()]
    );
}

#[test]
fn authors_are_trimmed_and_empty_values_dropped() {
    let items = vec![
        item("AUTHOR", "  Ann  "),
        item("dc:creator", "   "),
        item("dc:title", "Not an author"),
        item("creator", "ann"),
    ];
    assert_eq!(
        EpubService::collect_metadata_values(&items, &["creator", "author"]),
        vec!["Ann".to_string()]
    );
}

#[test]
fn extract_metadata_uses_fallbacks() {
    let mut package = sample_package(None);
    package.release_identifier = Some("release-7".to_string());
    package.title = Some("Accessor Title".to_string());
    let metadata = EpubService::extract_metadata(&package);
    assert_eq!(metadata.identifier.as_deref(), Some("release-7"));
    assert_eq!(metadata.title.as_deref(), Some("Accessor Title"));
    assert_eq!(metadata.authors, vec!["Jane Doe".to_string()]);
    assert_eq!(metadata.language.as_deref(), Some("en"));
    assert_eq!(metadata.description, None);

    let declared = sample_package(Some("urn:isbn:1"));
    let metadata = EpubService::extract_metadata(&declared);
    assert_eq!(metadata.identifier.as_deref(), Some("urn:isbn:1"));
    assert_eq!(metadata.title.as_deref(), Some("A Book"));
}

#[test]
fn toc_label_lookup_strips_fragment_and_matches_suffix() {
    let toc = vec![nav("Chapter 1", "chapter1.xhtml#sec2", vec![])];
    let labels = EpubService::build_toc_label_map(&toc);
    assert_eq!(
        labels,
        vec![("chapter1.xhtml".to_string(), "Chapter 1".to_string())]
    );
    assert_eq!(
        EpubService::match_toc_label(&labels, "content/chapter1.xhtml"),
        Some("Chapter 1".to_string())
    );
    assert_eq!(
        EpubService::match_toc_label(&labels, "content/xchapter1.xhtml"),
        None
    );
}

#[test]
fn toc_label_map_keeps_first_label_at_any_depth() {
    let toc = vec![
        nav(
            "Part",
            "part.xhtml",
            vec![nav("Inner", "ch.xhtml#a", vec![]), nav("Again", "part.xhtml#z", vec![])],
        ),
        nav("Later", "ch.xhtml", vec![]),
    ];
    let labels = EpubService::build_toc_label_map(&toc);
    assert_eq!(
        labels,
        vec![
            ("part.xhtml".to_string(), "Part".to_string()),
            ("ch.xhtml".to_string(), "Inner".to_string()),
        ]
    );
}

#[test]
fn toc_entries_mirror_navigation_without_fragments() {
    let toc = vec![
        nav("Part", "part.xhtml#top", vec![nav("Inner", "ch.xhtml#a", vec![])]),
        nav("End", "end.xhtml", vec![]),
    ];
    let entries = EpubService::build_toc_entries(&toc);
    assert_eq!(entries.len(), 2);
    assert_eq!(entries[0].label, "Part");
    assert_eq!(entries[0].href, "part.xhtml");
    assert_eq!(entries[0].children.len(), 1);
    assert_eq!(entries[0].children[0].href, "ch.xhtml");
    assert_eq!(entries[1].href, "end.xhtml");
    assert!(entries[1].children.is_empty());
    assert!(EpubService::build_toc_entries(&[]).is_empty());
}

#[test]
fn normalize_nav_path_cuts_at_first_hash() {
    assert_eq!(EpubService::normalize_nav_path("a/b.xhtml#x#y"), "a/b.xhtml");
    assert_eq!(EpubService::normalize_nav_path("plain.xhtml"), "plain.xhtml");
    assert_eq!(EpubService::normalize_nav_path("#only"), "");
}

#[test]
fn styled_markup_yields_heading_and_styled_spans() {
    let blocks = EpubService::html_to_blocks("<h1>Title</h1><p>Hello <strong>world</strong></p>");
    assert_eq!(blocks.len(), 2);
    match &blocks[0] {
        ChapterBlock::Heading { level, .. } => assert_eq!(*level, 1),
        other => panic!("expected heading block, got {other:?}"),
    }
    assert_eq!(spans_of(&blocks[0]), vec![("Title".to_string(), false, false)]);
    assert!(matches!(&blocks[1], ChapterBlock::Paragraph { .. }));
    assert_eq!(
        spans_of(&blocks[1]),
        vec![
            ("Hello".to_string(), false, false),
            ("world".to_string(), true, false)
        ]
    );
}

#[test]
fn plain_text_flattening_is_exact() {
    let blocks = vec![
        ChapterBlock::Heading {
            level: 1,
            spans: vec![TextSpan::plain("Title".to_string())],
        },
        ChapterBlock::Paragraph {
            spans: vec![TextSpan::plain("First paragraph".to_string())],
        },
        ChapterBlock::Paragraph {
            spans: vec![TextSpan::plain("   ".to_string())],
        },
        ChapterBlock::Paragraph {
            spans: vec![TextSpan::plain("Second paragraph".to_string())],
        },
    ];
    assert_eq!(
        EpubService::blocks_to_plain_text(&blocks),
        "Title\n\nFirst paragraph\n\nSecond paragraph"
    );
    assert_eq!(EpubService::blocks_to_plain_text(&[]), "");
}

#[test]
fn spans_to_text_trims_and_skips_empty() {
    let spans = vec![
        TextSpan::plain("  a ".to_string()),
        TextSpan::styled("".to_string(), true, false),
        TextSpan::styled(" b".to_string(), false, true),
    ];
    assert_eq!(EpubService::spans_to_text(&spans), "a b");
}

#[test]
fn exact_toc_label_wins_over_paragraph_text() {
    let labels = vec![
        ("other.xhtml".to_string(), "Other".to_string()),
        ("text/ch.xhtml".to_string(), "Exact".to_string()),
    ];
    let blocks = vec![ChapterBlock::Paragraph {
        spans: vec![TextSpan::plain("Different text".to_string())],
    }];
    let title = EpubService::derive_chapter_title(&labels, "text/ch.xhtml", &blocks, "Line", "id");
    assert_eq!(title.as_deref(), Some("Exact"));
}

#[test]
fn title_without_signals_is_id_or_none() {
    let labels: Vec<(String, String)> = Vec::new();
    let blank = vec![ChapterBlock::Paragraph {
        spans: vec![TextSpan::plain(" ".to_string())],
    }];
    assert_eq!(
        EpubService::derive_chapter_title(&labels, "a.xhtml", &blank, " \n \t", "ch-9").as_deref(),
        Some("ch-9")
    );
    assert_eq!(
        EpubService::derive_chapter_title(&labels, "a.xhtml", &blank, "", ""),
        None
    );
    assert_eq!(
        EpubService::derive_chapter_title(&labels, "a.xhtml", &[], "\n  \n  Third line  \nx", "")
            .as_deref(),
        Some("Third line")
    );
}

#[test]
fn suffix_label_matches_whole_components() {
    let labels = vec![("chapter1.xhtml".to_string(), "One".to_string())];
    assert_eq!(
        EpubService::derive_chapter_title(&labels, "OEBPS/text/chapter1.xhtml", &[], "", "x")
            .as_deref(),
        Some("One")
    );
    assert_eq!(
        EpubService::derive_chapter_title(&labels, "OEBPS/mychapter1.xhtml", &[], "", "x")
            .as_deref(),
        Some("x")
    );
}

#[test]
fn hash_headings_are_parsed() {
    assert_eq!(
        EpubService::parse_hash_heading("### Deep"),
        Some((3, "Deep".to_string()))
    );
    assert_eq!(
        EpubService::parse_hash_heading("####### Seven"),
        Some((6, "# Seven".to_string()))
    );
    assert_eq!(EpubService::parse_hash_heading("##"), None);
    assert_eq!(EpubService::parse_hash_heading("Plain"), None);
}

#[test]
fn list_items_are_parsed() {
    assert_eq!(
        EpubService::parse_list_item("* item"),
        Some(("• ", "item".to_string()))
    );
    assert_eq!(
        EpubService::parse_list_item("  + other"),
        Some(("• ", "other".to_string()))
    );
    assert_eq!(
        EpubService::parse_list_item("12.   step"),
        Some(("• ", "step".to_string()))
    );
    assert_eq!(EpubService::parse_list_item("12 step"), None);
    assert_eq!(EpubService::parse_list_item("*bold*"), None);
    assert_eq!(EpubService::parse_list_item(""), None);
}

#[test]
fn underlines_give_heading_levels() {
    assert_eq!(EpubService::underline_heading_level(Some("  ====  ")), Some(1));
    assert_eq!(EpubService::underline_heading_level(Some("---")), Some(2));
    assert_eq!(EpubService::underline_heading_level(Some("-=-")), None);
    assert_eq!(EpubService::underline_heading_level(Some("   ")), None);
    assert_eq!(EpubService::underline_heading_level(None), None);
}

#[test]
fn whitespace_is_normalized() {
    assert_eq!(
        EpubService::normalize_whitespace("  a \n b\t\u{A0} c  "),
        "a b c"
    );
    assert_eq!(EpubService::normalize_whitespace(" \n "), "");
}

#[test]
fn same_style_spans_merge() {
    let merged = EpubService::merge_spans(vec![
        TextSpan::plain("a".to_string()),
        TextSpan::plain("b ".to_string()),
        TextSpan::plain("c".to_string()),
        TextSpan::plain("".to_string()),
        TextSpan::styled("d".to_string(), true, false),
        TextSpan::plain(" e".to_string()),
    ]);
    let view: Vec<(String, bool, bool)> =
        merged.iter().map(|s| (s.text.clone(), s.bold, s.italic)).collect();
    assert_eq!(
        view,
        vec![
            ("a b c".to_string(), false, false),
            ("d".to_string(), true, false),
            (" e".to_string(), false, false)
        ]
    );
}

#[test]
fn append_spans_separates_lines() {
    let mut target = vec![TextSpan::styled("x".to_string(), true, false)];
    EpubService::append_spans(
        &mut target,
        vec![
            TextSpan::plain("".to_string()),
            TextSpan::plain("y".to_string()),
        ],
        true,
    );
    let view: Vec<(String, bool, bool)> =
        target.iter().map(|s| (s.text.clone(), s.bold, s.italic)).collect();
    assert_eq!(
        view,
        vec![("x ".to_string(), true, false), ("y".to_string(), false, false)]
    );

    let mut unchanged = vec![TextSpan::plain("x".to_string())];
    EpubService::append_spans(&mut unchanged, vec![TextSpan::plain("".to_string())], true);
    assert_eq!(unchanged[0].text, "x");
}

#[test]
fn flush_drops_blank_paragraphs() {
    let mut blocks = Vec::new();
    let mut paragraph = vec![TextSpan::plain("  ".to_string())];
    EpubService::flush_paragraph_spans(&mut paragraph, &mut blocks);
    assert!(paragraph.is_empty());
    assert!(blocks.is_empty());

    let mut paragraph = vec![
        TextSpan::plain("a".to_string()),
        TextSpan::plain("b".to_string()),
    ];
    EpubService::flush_paragraph_spans(&mut paragraph, &mut blocks);
    assert_eq!(blocks.len(), 1);
    assert_eq!(spans_of(&blocks[0]), vec![("a b".to_string(), false, false)]);
}

#[test]
fn lines_become_blocks() {
    let lines = vec![
        line(vec![piece("Heading", vec![])]),
        line(vec![piece("=======", vec![])]),
        line(vec![piece("Some ", vec![]), piece("**strong**", vec![Mark::Strong])]),
        line(vec![piece("more text", vec![Mark::Other])]),
        line(vec![]),
        line(vec![piece("## Sub", vec![])]),
        line(vec![piece("* bullet", vec![])]),
    ];
    let blocks = EpubService::blocks_from_tagged_lines(lines);
    assert_eq!(blocks.len(), 4);
    assert!(matches!(&blocks[0], ChapterBlock::Heading { level: 1, .. }));
    assert_eq!(spans_of(&blocks[0]), vec![("Heading".to_string(), false, false)]);
    assert_eq!(
        spans_of(&blocks[1]),
        vec![
            ("Some".to_string(), false, false),
            ("strong ".to_string(), true, false),
            ("more text".to_string(), false, false)
        ]
    );
    assert!(matches!(&blocks[2], ChapterBlock::Heading { level: 2, .. }));
    assert_eq!(spans_of(&blocks[2]), vec![("Sub".to_string(), false, false)]);
    assert_eq!(spans_of(&blocks[3]), vec![("• bullet".to_string(), false, false)]);
}

#[test]
fn blank_lines_give_no_blocks() {
    let blocks =
        EpubService::blocks_from_tagged_lines(vec![line(vec![piece("   ", vec![])]), line(vec![])]);
    assert!(blocks.is_empty());
    assert!(EpubService::blocks_from_tagged_lines(Vec::new()).is_empty());
}

#[test]
fn spans_from_line_strips_emphasis_markers() {
    let spans = EpubService::spans_from_line(&line(vec![
        piece(" *word* ", vec![Mark::Emphasis]),
        piece("", vec![Mark::Strong]),
        piece("__", vec![Mark::Strong]),
        piece(" *plain* ", vec![]),
    ]));
    let view: Vec<(String, bool, bool)> =
        spans.iter().map(|s| (s.text.clone(), s.bold, s.italic)).collect();
    assert_eq!(
        view,
        vec![
            ("word".to_string(), false, true),
            ("*plain*".to_string(), false, false)
        ]
    );
}

#[test]
fn plain_text_rendering_is_trimmed() {
    let text = EpubService::html_to_plain_text("<p>  Hello   there </p>");
    assert_eq!(text, "Hello there");
    assert_ne!(text, "<p>  Hello   there </p>");
}

#[test]
fn chapters_follow_reading_order_and_skip_unusable_entries() {
    let package = sample_package(None);
    let labels = EpubService::build_toc_label_map(&package.toc);
    let chapters = EpubService::collect_chapters(
        &package.resources,
        &package.spine,
        &package.fragments,
        &labels,
    );
    assert_eq!(chapters.len(), 2);
    assert_eq!(chapters[0].id, "c1");
    assert_eq!(chapters[0].href, "OEBPS/chapter1.xhtml");
    assert_eq!(chapters[0].title.as_deref(), Some("Opening"));
    assert_eq!(chapters[0].plain_text, "One\n\nFirst text");
    assert_eq!(chapters[1].id, "c2");
    assert_eq!(chapters[1].title.as_deref(), Some("Second text"));
    assert_eq!(chapters[1].plain_text, "Second text");
}

#[test]
fn chapter_without_blocks_falls_back_to_rendered_text() {
    let chapter = EpubService::build_chapter("c9", "c9.xhtml", "<div><img src=\"x.png\"/></div>", &[]);
    assert!(chapter.blocks.is_empty());
    assert_eq!(chapter.title.as_deref(), Some("c9"));
}

#[test]
fn markup_media_types_are_recognised() {
    assert!(epub_reader::chapters::is_markup_media_type("application/XHTML+xml"));
    assert!(epub_reader::chapters::is_markup_media_type("text/html"));
    assert!(!epub_reader::chapters::is_markup_media_type("image/png"));
    assert!(!epub_reader::chapters::is_markup_media_type("htm"));
}

#[test]
fn assembling_twice_agrees_except_generated_id() {
    let package = sample_package(None);
    let a = EpubService::assemble_book(&package, "book.epub".to_string(), "gen-1".to_string());
    let b = EpubService::assemble_book(&package, "book.epub".to_string(), "gen-2".to_string());
    assert_eq!(a.id.0, "gen-1");
    assert_eq!(b.id.0, "gen-2");
    assert_eq!(format!("{:?}", a.metadata), format!("{:?}", b.metadata));
    assert_eq!(format!("{:?}", a.content), format!("{:?}", b.content));
    assert_eq!(a.source_path, b.source_path);
    assert_eq!(a.content.spine.items.len(), 4);
    assert_eq!(a.content.manifest.len(), 3);
    assert_eq!(a.content.toc[0].href, "chapter1.xhtml");
}

#[test]
fn declared_identifier_becomes_the_id() {
    let package = sample_package(Some("urn:uuid:fixed"));
    let service = EpubService::default();
    let a = service.open_package(&package, "x.epub".to_string());
    let b = service.open_package(&package, "x.epub".to_string());
    assert_eq!(a.id.0, "urn:uuid:fixed");
    assert_eq!(a.id.0, b.id.0);
    assert_eq!(format!("{:?}", a.content), format!("{:?}", b.content));
}

#[test]
fn generated_ids_are_fresh() {
    let package = sample_package(None);
    let service = EpubService::default();
    let a = service.open_package(&package, "x.epub".to_string());
    let b = service.open_package(&package, "x.epub".to_string());
    assert_ne!(a.id.0, b.id.0);
    assert_eq!(a.id.0.len(), 36);
}

#[test]
fn empty_book_has_unknown_id() {
    let book = Book::empty();
    assert_eq!(book.id.0, "unknown");
    assert!(book.content.chapters.is_empty());
    assert!(book.metadata.authors.is_empty());
}
