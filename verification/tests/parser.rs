use rslides::builder::slide_from_events;
use rslides::markdown::{MdEnd, MdEvent, MdTag};
use rslides::model::{Block, CodeData, ColumnAlign, ImageMode};
use rslides::parser::{parse_presentation_from_str, split_slides, SlideConfig};

#[test]
fn splits_on_delimiter_outside_fences() {
    let input = "# A\n---\n# B\n";
    let chunks = split_slides(input);
    assert_eq!(chunks.len(), 2);
    assert_eq!(chunks[0].content, "# A");
    assert_eq!(chunks[1].content, "# B");
}

#[test]
fn does_not_split_inside_fenced_code() {
    let input = "```\n---\n```\n---\n# Slide\n";
    let chunks = split_slides(input);
    assert_eq!(chunks.len(), 2);
    assert!(chunks[0].content.contains("---"));
}

#[test]
fn emits_empty_slide_when_delimiter_has_title_config() {
    let input = "--- {title: \"Only Title\"}\n---\n# Next\n";
    let chunks = split_slides(input);
    assert_eq!(chunks.len(), 2);
    assert_eq!(chunks[0].content, "");
    assert_eq!(chunks[0].config.title.as_deref(), Some("Only Title"));
    assert_eq!(chunks[1].content, "# Next");
}

#[test]
fn maps_h1_to_bigtext_and_captures_first_image() {
    let md = "# Hello\n\n![a](one.png)\n![b](two.png)\n";
    let presentation =
        parse_presentation_from_str(md, "deck.md").expect("presentation should parse");
    let slide = &presentation.slides[0];

    assert!(matches!(slide.blocks.first(), Some(Block::BigText(_))));
    let image = slide.image.as_ref().expect("image should exist");
    assert_eq!(image.path, "one.png");
    assert_eq!(slide.warnings.len(), 1);
}

#[test]
fn parses_table_and_fenced_code_language() {
    let md = "| A | B |\n| - | - |\n| 1 | 2 |\n\n```rust\nfn main() {}\n```\n";
    let presentation =
        parse_presentation_from_str(md, "deck.md").expect("presentation should parse");
    let slide = &presentation.slides[0];

    assert!(slide.blocks.iter().any(|b| matches!(b, Block::Table(_))));
    assert!(slide.blocks.iter().any(|b| {
        matches!(
            b,
            Block::Code(CodeData {
                lang: Some(lang), ..
            }) if lang == "rust"
        )
    }));
}

#[test]
fn parses_callout_quote_list_and_reveal() {
    let md = "<!-- reveal: on -->\n[!NOTE] remember this\n\n> quoted\n\n- one\n- two\n";
    let presentation = parse_presentation_from_str(md, "deck.md").expect("parse ok");
    let slide = &presentation.slides[0];
    assert!(slide.reveal_fragments);
    assert!(slide.blocks.iter().any(|b| matches!(b, Block::Callout(_))));
    assert!(slide.blocks.iter().any(|b| matches!(b, Block::Quote(_))));
    assert!(slide.blocks.iter().any(|b| matches!(b, Block::List(_))));
}

#[test]
fn parses_cover_first_slide() {
    let md = "title: Demo\nsub_title: Hello\nauthor: Me\nimage: assets/demo.png\n---\n# Next\n";
    let presentation = parse_presentation_from_str(md, "deck.md").expect("parse ok");
    let first = &presentation.slides[0];
    assert!(first.cover.is_some());
    assert!(first.image.is_some());
}

#[test]
fn parses_quoted_cover_values() {
    let md = "title: \"The future is LOVABLE.\"\nsub_title: \"This is super cool\"\nauthor: \"Me\"\nimage: \"./assets/lovable.svg\"\n---\n# Next\n";
    let presentation = parse_presentation_from_str(md, "deck.md").expect("parse ok");
    let slide = &presentation.slides[0];
    let first = slide.cover.as_ref().expect("cover exists");
    assert_eq!(first.title, "The future is LOVABLE.");
    assert_eq!(first.subtitle.as_deref(), Some("This is super cool"));
    assert_eq!(first.author.as_deref(), Some("Me"));
    assert_eq!(
        slide.image.as_ref().map(|img| img.path.clone()),
        Some("./assets/lovable.svg".to_string())
    );
}

#[test]
fn leading_delimiter_config_applies_to_cover_slide() {
    let md = "--- {columns: [1,3], image-mode: native}\ntitle: Demo\nsub_title: Hello\nauthor: Me\n---\n# Next\n";
    let presentation = parse_presentation_from_str(md, "deck.md").expect("parse ok");
    let first = &presentation.slides[0];
    assert!(first.cover.is_some());
    assert_eq!(first.column_ratios, Some(vec![1, 3]));
    assert_eq!(first.image_mode, Some(ImageMode::Native));
}

#[test]
fn delimiter_config_applies_to_next_slide() {
    let md = "# One\n--- {columns: [1,3], image-mode: native, title: \"Slide Title\"}\n# Two\n";
    let presentation = parse_presentation_from_str(md, "deck.md").expect("parse ok");
    assert_eq!(presentation.slides.len(), 2);
    assert!(presentation.slides[0].column_ratios.is_none());
    assert_eq!(presentation.slides[1].column_ratios, Some(vec![1, 3]));
    assert_eq!(presentation.slides[1].image_mode, Some(ImageMode::Native));
    assert_eq!(presentation.slides[1].title.as_deref(), Some("Slide Title"));
}

#[test]
fn inline_line_spacing_inserts_spacer_block() {
    let md = "# A\n\nBefore\n\n<!-- line-spacing: 10 -->\n\nAfter\n";
    let presentation = parse_presentation_from_str(md, "deck.md").expect("parse ok");
    let slide = &presentation.slides[0];
    assert!(slide.blocks.iter().any(|b| matches!(b, Block::Spacer(10))));
}

#[test]
fn parses_column_and_align_directives() {
    let md = "# A\n<!-- column: 1 -->\ntext\n<!-- align: center -->\nmore\n";
    let presentation = parse_presentation_from_str(md, "deck.md").expect("parse ok");
    let slide = &presentation.slides[0];
    assert!(slide.blocks.iter().any(|b| matches!(b, Block::ColumnBreak(1))));
    assert!(slide
        .blocks
        .iter()
        .any(|b| matches!(b, Block::ColumnAlign(ColumnAlign::Center))));
}

#[test]
fn maps_h2_h3_to_section_heading_blocks() {
    let md = "## One\nBody\n### Two\nBody\n";
    let presentation = parse_presentation_from_str(md, "deck.md").expect("parse ok");
    let slide = &presentation.slides[0];
    assert!(slide
        .blocks
        .iter()
        .any(|b| matches!(b, Block::SectionHeading { level: 1, .. })));
    assert!(slide
        .blocks
        .iter()
        .any(|b| matches!(b, Block::SectionHeading { level: 2, .. })));
}

#[test]
fn empty_deck_is_refused() {
    let err = parse_presentation_from_str("", "deck.md").err().expect("must fail");
    assert_eq!(err, "no slides found in markdown");
}

#[test]
fn source_path_is_kept() {
    let p = parse_presentation_from_str("# A\n", "slides/deck.md").expect("parse ok");
    assert_eq!(p.source_path, "slides/deck.md");
    assert_eq!(p.slides.len(), 1);
}

#[test]
fn directives_are_removed_and_read() {
    let md = "<!-- reveal: on -->\n<!-- line_spacing: 9 -->\nText\n";
    let p = parse_presentation_from_str(md, "deck.md").expect("parse ok");
    let slide = &p.slides[0];
    assert!(slide.reveal_fragments);
    assert_eq!(slide.line_spacing, Some(6));
    assert_eq!(slide.blocks.len(), 1);
    assert!(matches!(&slide.blocks[0], Block::Paragraph(t) if t == "Text"));
}

#[test]
fn second_h1_is_a_paragraph_and_h4_is_level_three() {
    let md = "# One\n\n# Two\n\n#### Deep\n";
    let p = parse_presentation_from_str(md, "deck.md").expect("parse ok");
    let blocks = &p.slides[0].blocks;
    assert!(matches!(&blocks[0], Block::BigText(t) if t == "One"));
    assert!(matches!(&blocks[1], Block::Paragraph(t) if t == "Two"));
    assert!(matches!(&blocks[2], Block::SectionHeading { level: 3, text } if text == "Deep"));
}

#[test]
fn image_alt_settings_are_read() {
    let md = "![[valign: bottom, halign: left, alt: \"A cat\"]](cat.png)\n";
    let p = parse_presentation_from_str(md, "deck.md").expect("parse ok");
    let img = p.slides[0].image.as_ref().expect("image");
    assert_eq!(img.path, "cat.png");
    assert_eq!(img.alt.as_deref(), Some("A cat"));
    assert_eq!(img.valign, rslides::model::VerticalAlign::Bottom);
    assert_eq!(img.halign, rslides::model::HorizontalAlign::Left);
}

#[test]
fn warning_callout_and_nested_list() {
    let md = "> [!warning] careful\n\n1. one\n   - inner\n2. two\n";
    let p = parse_presentation_from_str(md, "deck.md").expect("parse ok");
    let blocks = &p.slides[0].blocks;
    assert!(blocks.iter().any(|b| matches!(b, Block::Callout(c) if c.text == "careful" && c.kind == rslides::model::CalloutKind::Warn)));
    let list = blocks
        .iter()
        .find_map(|b| match b {
            Block::List(l) => Some(l),
            _ => None,
        })
        .expect("list");
    assert!(list.ordered);
    assert_eq!(list.items, vec!["inner".to_string(), "two".to_string()]);
}

#[test]
fn events_build_a_slide() {
    let events = vec![
        MdEvent::Start(MdTag::Heading(1)),
        MdEvent::Text("Title".to_string()),
        MdEvent::End(MdEnd::Heading(1)),
        MdEvent::Start(MdTag::Paragraph),
        MdEvent::Text("a".to_string()),
        MdEvent::Break,
        MdEvent::Code("b".to_string()),
        MdEvent::End(MdEnd::Paragraph),
        MdEvent::Html("<!-- column: 2 -->".to_string()),
        MdEvent::Start(MdTag::CodeBlock(Some(" rust ".to_string()))),
        MdEvent::Text("x\n\n".to_string()),
        MdEvent::End(MdEnd::CodeBlock),
    ];
    let config = SlideConfig { column_ratios: Some(vec![2, 1]), image_mode: None, title: None };
    let slide = slide_from_events(&events, &config, true, Some(3));
    assert_eq!(slide.blocks.len(), 4);
    assert!(matches!(&slide.blocks[0], Block::BigText(t) if t == "Title"));
    assert!(matches!(&slide.blocks[1], Block::Paragraph(t) if t == "a `b`"));
    assert!(matches!(&slide.blocks[2], Block::ColumnBreak(2)));
    assert!(matches!(&slide.blocks[3], Block::Code(c) if c.source == "x" && c.lang.as_deref() == Some("rust")));
    assert!(slide.reveal_fragments);
    assert_eq!(slide.line_spacing, Some(3));
    assert_eq!(slide.column_ratios, Some(vec![2, 1]));
}

#[test]
fn second_image_gives_a_warning() {
    let events = vec![
        MdEvent::Start(MdTag::Image("a.png".to_string())),
        MdEvent::End(MdEnd::Image),
        MdEvent::Start(MdTag::Image("b.png".to_string())),
        MdEvent::End(MdEnd::Image),
    ];
    let slide = slide_from_events(&events, &SlideConfig::default(), false, None);
    assert_eq!(slide.image.as_ref().map(|i| i.path.as_str()), Some("a.png"));
    assert_eq!(
        slide.warnings,
        vec!["only one image per slide is supported; additional image ignored".to_string()]
    );
}

#[test]
fn only_exact_or_configured_delimiters_split() {
    let chunks = split_slides("A\n----\nB\n");
    assert_eq!(chunks.len(), 1);
    assert_eq!(chunks[0].content, "A\n----\nB");
    let chunks = split_slides("A\n--- not a config\nB\n  ---  \nC\n");
    assert_eq!(chunks.len(), 2);
    assert_eq!(chunks[0].content, "A\n--- not a config\nB");
    assert_eq!(chunks[1].content, "C");
}
