use std::time::Duration;

use rslides::model::{
    AsciiFrame, Block, CodeData, ColumnAlign, HorizontalAlign, ImageAsset, Slide, VerticalAlign,
};
use rslides::parser::parse_presentation_from_str;
use rslides::render::bigtext::render_big_text;
use rslides::render::code::CodeHighlighter;
use rslides::render::image_ascii::{
    ascii_frames_needed, current_frame, ensure_ascii_frames, frame_index_at, frame_interval_ms,
    ascii_gif_frames, gif_delay_ms, load_ascii_frames, luma_to_ascii, GifFrame,
};
use rslides::render::layout::{column_split_ok, compute_column_widths};
use rslides::render::text::pad_to_width;
use rslides::render::style::{
    align_to_width, build_footer, centered_line, gradient_color, overlay_text_at, parse_rgb,
};
use rslides::render::{
    compute_native_image_rect, rect_is_defined, render_is_defined, render_slide, RenderParams, Theme,
};

fn chars(s: &str) -> Vec<char> {
    s.chars().collect()
}

fn text(v: &[char]) -> String {
    v.iter().collect()
}

fn plain_slide(blocks: Vec<Block>) -> Slide {
    Slide {
        blocks,
        title: None,
        image: None,
        warnings: vec![],
        reveal_fragments: false,
        line_spacing: None,
        column_ratios: None,
        image_mode: None,
        cover: None,
    }
}

fn image(path: &str) -> ImageAsset {
    ImageAsset {
        path: path.to_string(),
        alt: None,
        valign: VerticalAlign::Middle,
        halign: HorizontalAlign::Center,
        frames: vec![],
        delays_ms: vec![],
        cached_for: None,
        load_error: None,
    }
}

#[test]
fn renders_ascii_title() {
    let lines = render_big_text("AB", 80);
    assert!(lines.len() >= 6);
    assert!(lines[0].contains('█') || lines[0].contains('▓'));
}

#[test]
fn falls_back_for_unsupported_chars() {
    let lines = render_big_text("@Hi", 40);
    assert_eq!(lines.len(), 1);
    assert_eq!(lines[0], "@Hi");
}

#[test]
fn computes_custom_split() {
    let cols = compute_column_widths(100, &[2, 8]);
    assert_eq!(cols.len(), 2);
    assert_eq!(cols[0] + cols[1] + 1, 100);
}

#[test]
fn supports_three_columns() {
    let cols = compute_column_widths(90, &[2, 3, 5]);
    assert_eq!(cols.len(), 3);
    assert_eq!(cols[0] + cols[1] + cols[2] + 2, 90);
}

#[test]
fn gif_frame_clock_progression_works() {
    let frame_a = AsciiFrame {
        lines: vec!["A".to_string()],
        width: 1,
        height: 1,
    };
    let frame_b = AsciiFrame {
        lines: vec!["B".to_string()],
        width: 1,
        height: 1,
    };

    let image = ImageAsset {
        path: "demo.gif".to_string(),
        alt: None,
        valign: VerticalAlign::Middle,
        halign: HorizontalAlign::Center,
        frames: vec![frame_a, frame_b],
        delays_ms: vec![100, 100],
        cached_for: Some((1, 1)),
        load_error: None,
    };

    let first = current_frame(&image, Duration::from_millis(50)).expect("frame expected");
    let second = current_frame(&image, Duration::from_millis(150)).expect("frame expected");

    assert_eq!(first.lines[0], "A");
    assert_eq!(second.lines[0], "B");
}

#[test]
fn parse_and_render_smoke_test() {
    let markdown = "# Title\n\nParagraph text here.\n---\n# Two\n\n```rust\nfn main() {}\n```\n";
    let presentation =
        parse_presentation_from_str(markdown, "deck.md").expect("presentation should parse");
    assert_eq!(presentation.slides.len(), 2);
    let total_slides = presentation.slides.len();

    let highlighter = CodeHighlighter::new();
    let frame = render_slide(RenderParams {
        slide: &presentation.slides[0],
        slide_number: 0,
        total_slides,
        term_width: 80,
        term_height: 24,
        ansi: false,
        slide_elapsed: Duration::ZERO,
        highlighter: &highlighter,
        prefer_real_images: false,
        visible_blocks: None,
        theme: &Theme::default(),
        line_spacing: 1,
        column_ratios: &[6, 4],
    });

    assert!(!frame.lines.is_empty());
}

#[test]
fn footer_counter_is_rendered() {
    let markdown = "# One\n---\n# Two\n---\n# Three\n";
    let presentation =
        parse_presentation_from_str(markdown, "deck.md").expect("presentation should parse");
    let highlighter = CodeHighlighter::new();

    let frame = render_slide(RenderParams {
        slide: &presentation.slides[1],
        slide_number: 1,
        total_slides: 3,
        term_width: 40,
        term_height: 10,
        ansi: false,
        slide_elapsed: Duration::ZERO,
        highlighter: &highlighter,
        prefer_real_images: false,
        visible_blocks: None,
        theme: &Theme::default(),
        line_spacing: 1,
        column_ratios: &[6, 4],
    });

    let footer = frame.lines.last().expect("footer must exist");
    assert!(footer.ends_with("2/3"));
}

#[test]
fn non_image_slide_does_not_apply_multi_column_split() {
    let slide = plain_slide(vec![Block::Code(CodeData {
        lang: Some("rust".to_string()),
        source: "fn fade_steps(total_ms: u64) -> Duration {".to_string(),
    })]);

    let highlighter = CodeHighlighter::new();
    let frame = render_slide(RenderParams {
        slide: &slide,
        slide_number: 0,
        total_slides: 1,
        term_width: 80,
        term_height: 20,
        ansi: false,
        slide_elapsed: Duration::ZERO,
        highlighter: &highlighter,
        prefer_real_images: false,
        visible_blocks: None,
        theme: &Theme::default(),
        line_spacing: 1,
        column_ratios: &[2, 8],
    });

    let joined = frame.lines.join("\n");
    assert!(joined.contains("fn fade_steps(total_ms: u64) -> Duration {"));
}

#[test]
fn ansi_code_line_keeps_full_visible_text() {
    let slide = plain_slide(vec![Block::Code(CodeData {
        lang: Some("rust".to_string()),
        source: "fn fade_steps(total_ms: u64) -> Duration::from_millis(total_ms / 12)".to_string(),
    })]);

    let highlighter = CodeHighlighter::new();
    let frame = render_slide(RenderParams {
        slide: &slide,
        slide_number: 0,
        total_slides: 1,
        term_width: 120,
        term_height: 20,
        ansi: true,
        slide_elapsed: Duration::ZERO,
        highlighter: &highlighter,
        prefer_real_images: false,
        visible_blocks: None,
        theme: &Theme::default(),
        line_spacing: 1,
        column_ratios: &[2, 8],
    });

    let stripped = strip_ansi(&frame.lines.join("\n"));
    assert!(stripped.contains("fade_steps(total_ms: u64)"));
    assert!(stripped.contains("from_millis(total_ms / 12)"));
}

#[test]
fn bigtext_only_slide_is_vertically_centered() {
    let markdown = "# Center me\n";
    let presentation =
        parse_presentation_from_str(markdown, "deck.md").expect("presentation should parse");
    let highlighter = CodeHighlighter::new();

    let frame = render_slide(RenderParams {
        slide: &presentation.slides[0],
        slide_number: 0,
        total_slides: 1,
        term_width: 80,
        term_height: 24,
        ansi: false,
        slide_elapsed: Duration::ZERO,
        highlighter: &highlighter,
        prefer_real_images: false,
        visible_blocks: None,
        theme: &Theme::default(),
        line_spacing: 1,
        column_ratios: &[6, 4],
    });

    let body = &frame.lines[..frame.lines.len().saturating_sub(1)];
    let first_non_empty = body
        .iter()
        .position(|line| !line.trim().is_empty())
        .expect("bigtext should render");
    assert!(first_non_empty > 0, "bigtext should not render at top row");
}

fn strip_ansi(input: &str) -> String {
    let bytes = input.as_bytes();
    let mut i = 0usize;
    let mut out = String::with_capacity(input.len());
    while i < bytes.len() {
        if bytes[i] == 0x1b {
            i += 1;
            if i < bytes.len() && bytes[i] == b'[' {
                i += 1;
                while i < bytes.len() {
                    let b = bytes[i];
                    i += 1;
                    if (b as char).is_ascii_alphabetic() {
                        break;
                    }
                }
            }
            continue;
        }
        let ch = input[i..].chars().next().unwrap_or('\0');
        out.push(ch);
        i += ch.len_utf8();
    }
    out
}

fn render_plain(slide: &Slide, width: u16, height: u16, number: usize, total: usize) -> Vec<String> {
    let highlighter = CodeHighlighter::new();
    render_slide(RenderParams {
        slide,
        slide_number: number,
        total_slides: total,
        term_width: width,
        term_height: height,
        ansi: false,
        slide_elapsed: Duration::ZERO,
        highlighter: &highlighter,
        prefer_real_images: false,
        visible_blocks: None,
        theme: &Theme::default(),
        line_spacing: 1,
        column_ratios: &[6, 4],
    })
    .lines
}

#[test]
fn frame_has_one_row_per_terminal_row() {
    let slide = plain_slide(vec![Block::Paragraph("hello".to_string())]);
    let lines = render_plain(&slide, 30, 8, 0, 1);
    assert_eq!(lines.len(), 8);
    for line in &lines[..7] {
        assert_eq!(line.chars().count(), 30);
    }
    assert_eq!(lines[0], format!("hello{}", " ".repeat(25)));
    assert_eq!(lines[7], format!("{}1/1", " ".repeat(27)));
}

#[test]
fn overflowing_text_is_marked_truncated() {
    let blocks = (0..10).map(|i| Block::Paragraph(format!("p{i}"))).collect();
    let slide = plain_slide(blocks);
    let highlighter = CodeHighlighter::new();
    let out = render_slide(RenderParams {
        slide: &slide,
        slide_number: 0,
        total_slides: 2,
        term_width: 40,
        term_height: 6,
        ansi: false,
        slide_elapsed: Duration::ZERO,
        highlighter: &highlighter,
        prefer_real_images: false,
        visible_blocks: None,
        theme: &Theme::default(),
        line_spacing: 1,
        column_ratios: &[6, 4],
    });
    assert!(out.truncated);
    let footer = out.lines.last().unwrap();
    assert!(footer.starts_with("[truncated: adjust slide content]"));
    assert!(footer.ends_with("1/2"));
}

#[test]
fn reveal_shows_only_the_first_blocks() {
    let slide = plain_slide(vec![
        Block::Paragraph("first".to_string()),
        Block::Paragraph("second".to_string()),
    ]);
    let highlighter = CodeHighlighter::new();
    let out = render_slide(RenderParams {
        slide: &slide,
        slide_number: 0,
        total_slides: 1,
        term_width: 30,
        term_height: 8,
        ansi: false,
        slide_elapsed: Duration::ZERO,
        highlighter: &highlighter,
        prefer_real_images: false,
        visible_blocks: Some(1),
        theme: &Theme::default(),
        line_spacing: 1,
        column_ratios: &[6, 4],
    });
    let joined = out.lines.join("\n");
    assert!(joined.contains("first"));
    assert!(!joined.contains("second"));
}

#[test]
fn cover_slide_places_title_subtitle_and_author() {
    let p = parse_presentation_from_str("title: Hi\nsub_title: Sub\nauthor: Me\n---\n# B\n", "d.md")
        .expect("parse ok");
    let lines = render_plain(&p.slides[0], 40, 20, 0, 2);
    assert_eq!(lines.len(), 20);
    assert!(lines[0].trim().is_empty());
    assert!(lines[1].contains('█'));
    assert_eq!(lines[10].trim(), "Sub");
    assert_eq!(lines[17].trim(), "Me");
    assert!(lines[19].ends_with("1/2"));
}

#[test]
fn text_columns_leave_room_for_image() {
    let mut slide = plain_slide(vec![Block::Paragraph("words".to_string())]);
    let mut img = image("pic.png");
    img.frames = vec![AsciiFrame { lines: vec!["##".to_string(), "##".to_string()], width: 2, height: 2 }];
    img.delays_ms = vec![125];
    slide.image = Some(img);
    let lines = render_plain(&slide, 61, 12, 0, 1);
    assert!(lines[0].starts_with("words"));
    assert!(lines.iter().any(|l| l.contains("##")));
}

#[test]
fn image_rect_in_last_column() {
    let mut slide = plain_slide(vec![Block::Paragraph("x".to_string())]);
    slide.image = Some(image("a.png"));
    let rect = compute_native_image_rect(&slide, 101, 21, &[6, 4]).expect("rect");
    let cols = compute_column_widths(101, &[6, 4]);
    assert_eq!(cols, vec![60, 40]);
    assert_eq!(rect.width, 38);
    assert_eq!(rect.height, 18);
    assert_eq!(rect.x, 61 + 1);
    assert_eq!(rect.y, 1);
    slide.image = None;
    assert!(compute_native_image_rect(&slide, 101, 21, &[6, 4]).is_none());
}

#[test]
fn image_only_slide_rect_is_centered() {
    let mut slide = plain_slide(vec![]);
    slide.image = Some(image("a.png"));
    let rect = compute_native_image_rect(&slide, 80, 24, &[6, 4]).expect("rect");
    assert_eq!(rect.width, 78);
    assert_eq!(rect.height, 22);
    assert_eq!(rect.x, 1);
    assert_eq!(rect.y, 0);
}

#[test]
fn gradient_runs_from_start_to_end() {
    let a = (0, 100, 200);
    let b = (10, 50, 255);
    assert_eq!(gradient_color(0, 5, a, b), a);
    assert_eq!(gradient_color(4, 5, a, b), b);
    assert_eq!(gradient_color(1, 3, (0, 0, 0), (10, 9, 1)), (5, 5, 1));
    assert_eq!(gradient_color(3, 1, a, b), a);
}

#[test]
fn footer_layouts() {
    let theme = Theme::default();
    assert_eq!(text(&build_footer(10, 2, 3, false, false, &theme)), "       2/3");
    assert_eq!(text(&build_footer(0, 2, 3, false, false, &theme)), "");
    assert_eq!(text(&build_footer(3, 10, 30, false, false, &theme)), "10/");
    assert_eq!(text(&build_footer(12, 1, 2, true, false, &theme)), "[truncat 1/2");
    assert_eq!(
        text(&build_footer(6, 1, 2, false, true, &theme)),
        "   \u{1b}[1m\u{1b}[38;2;244;208;120m1/2\u{1b}[39m\u{1b}[22m"
    );
}

#[test]
fn centring_and_alignment() {
    assert_eq!(text(&centered_line(&chars("ab"), 7)), "  ab   ");
    assert_eq!(text(&centered_line(&chars("abcdef"), 3)), "abc");
    assert_eq!(text(&align_to_width(&chars("ab"), 5, ColumnAlign::Right)), "   ab");
    assert_eq!(text(&align_to_width(&chars("ab"), 5, ColumnAlign::Center)), " ab  ");
    assert_eq!(text(&align_to_width(&chars("ab"), 5, ColumnAlign::Left)), "ab   ");
}

#[test]
fn overlay_replaces_the_visible_width() {
    let mut row = chars("..........");
    overlay_text_at(&mut row, 2, &chars("\u{1b}[1mab\u{1b}[22m"));
    assert_eq!(text(&row), "..\u{1b}[1mab\u{1b}[22m......");
    let mut short = chars("abc");
    overlay_text_at(&mut short, 10, &chars("xy"));
    assert_eq!(text(&short), "abcxy");
}

#[test]
fn rgb_values_and_errors() {
    assert_eq!(parse_rgb("1, 2 ,3"), Ok((1, 2, 3)));
    assert_eq!(parse_rgb("1,2"), Err("invalid RGB value: 1,2".to_string()));
    assert_eq!(parse_rgb("x,2,3"), Err("invalid red component: x,2,3".to_string()));
    assert_eq!(parse_rgb("1,256,3"), Err("invalid green component: 1,256,3".to_string()));
    assert_eq!(parse_rgb("1,2,"), Err("invalid blue component: 1,2,".to_string()));
}

#[test]
fn theme_text_sets_colours() {
    let t = Theme::parse("# comment\ntext = 1,2,3\n\nnonsense\nunknown = 4,5,6\n").expect("ok");
    assert_eq!(t.text, (1, 2, 3));
    assert_eq!(t.quote, Theme::default().quote);
    let e = Theme::parse("quote = 1,2\n").err().expect("error");
    assert_eq!(e, "invalid RGB value: 1,2");
}

#[test]
fn frame_timing() {
    assert_eq!(frame_interval_ms(8), 125);
    assert_eq!(frame_interval_ms(0), 1000);
    assert_eq!(frame_interval_ms(100), 16);
    assert_eq!(gif_delay_ms(100, 1, 8), 125);
    assert_eq!(gif_delay_ms(5000, 2, 8), 1000);
    assert_eq!(gif_delay_ms(300, 0, 8), 300);
    assert_eq!(luma_to_ascii(0), '█');
    assert_eq!(luma_to_ascii(100), '▓');
    assert_eq!(luma_to_ascii(150), '▒');
    assert_eq!(luma_to_ascii(255), '░');
}

#[test]
fn frame_index_follows_delays() {
    let mut img = image("a.gif");
    img.frames = vec![
        AsciiFrame { lines: vec!["A".to_string()], width: 1, height: 1 },
        AsciiFrame { lines: vec!["B".to_string()], width: 1, height: 1 },
    ];
    img.delays_ms = vec![0, 10];
    assert_eq!(frame_index_at(&img, 0), Some(0));
    assert_eq!(frame_index_at(&img, 1), Some(1));
    assert_eq!(frame_index_at(&img, 11), Some(0));
    img.delays_ms = vec![];
    assert_eq!(frame_index_at(&img, 7), Some(0));
    img.frames.clear();
    assert_eq!(frame_index_at(&img, 7), None);
}

#[test]
fn frames_are_cached_per_size() {
    let mut img = image("a.png");
    assert!(ascii_frames_needed(&img, 4, 2));
    let frame = AsciiFrame { lines: vec!["xxxx".to_string(), "xxxx".to_string()], width: 4, height: 2 };
    ensure_ascii_frames(&mut img, 4, 2, Ok((vec![frame], vec![125])));
    assert_eq!(img.cached_for, Some((4, 2)));
    assert_eq!(img.frames.len(), 1);
    assert!(!ascii_frames_needed(&img, 4, 2));
    ensure_ascii_frames(&mut img, 4, 2, Err("ignored".to_string()));
    assert_eq!(img.frames.len(), 1);
    assert!(img.load_error.is_none());
    ensure_ascii_frames(&mut img, 5, 2, Err("boom".to_string()));
    assert_eq!(img.frames.len(), 0);
    assert_eq!(img.load_error.as_deref(), Some("boom"));
    ensure_ascii_frames(&mut img, 0, 2, Ok((vec![], vec![])));
    assert_eq!(img.load_error.as_deref(), Some("image area is too small"));
}

#[test]
fn loading_refuses_video_and_bad_data() {
    let e = load_ascii_frames("clip.MOV", &[], 4, 2, 8).err().expect("error");
    assert_eq!(e, "video files are not supported (clip.MOV).");
    let e = load_ascii_frames("x.png", &[1, 2, 3], 4, 2, 8).err().expect("error");
    assert!(e.starts_with("image decode failed (x.png): "));
}

#[test]
fn png_is_drawn_with_shades() {
    let mut bytes: Vec<u8> = Vec::new();
    let img = image::RgbaImage::from_pixel(4, 4, image::Rgba([0, 0, 0, 255]));
    img.write_to(&mut std::io::Cursor::new(&mut bytes), image::ImageFormat::Png)
        .expect("encode");
    let (frames, delays) = load_ascii_frames("black.png", &bytes, 3, 2, 8).expect("decoded");
    assert_eq!(delays, vec![125]);
    assert_eq!(frames.len(), 1);
    assert_eq!(frames[0].lines, vec!["███".to_string(), "███".to_string()]);
}

#[test]
fn svg_raster_needs_four_bytes_a_pixel() {
    let e = load_ascii_frames("logo.svg", &[0u8; 7], 2, 1, 8).err().expect("error");
    assert_eq!(e, "failed to materialize svg pixels (logo.svg)");
    let white = [255u8; 8];
    let (frames, delays) = load_ascii_frames("logo.svg", &white, 2, 1, 8).expect("drawn");
    assert_eq!(delays, vec![125]);
    assert_eq!(frames.len(), 1);
    assert_eq!(frames[0].lines.len(), 1);
    assert_eq!(frames[0].lines[0], "░░");
}

#[test]
fn gif_frames_become_shaded_frames_with_their_delays() {
    let e = ascii_gif_frames(&vec![], "demo.gif", 2, 1, 8).err().expect("error");
    assert_eq!(e, "gif has no frames (demo.gif)");
    let frames = vec![
        GifFrame { luma: vec![0, 0], delay_numer: 300, delay_denom: 1 },
        GifFrame { luma: vec![255, 100], delay_numer: 2500, delay_denom: 1 },
        GifFrame { luma: vec![150, 150], delay_numer: 7, delay_denom: 0 },
    ];
    let (out, delays) = ascii_gif_frames(&frames, "demo.gif", 2, 1, 8).expect("frames");
    assert_eq!(delays, vec![300, 1000, 125]);
    assert_eq!(out[0].lines, vec!["██".to_string()]);
    assert_eq!(out[1].lines, vec!["░▓".to_string()]);
    assert_eq!(out[2].lines, vec!["▒▒".to_string()]);
    let e = load_ascii_frames("demo.gif", &[1, 2, 3], 2, 1, 8).err().expect("error");
    assert!(e.starts_with("failed to create gif decoder (demo.gif): "));
}

#[test]
fn column_splits_that_end_are_recognised() {
    assert!(column_split_ok(100, &[6, 4]));
    assert!(column_split_ok(0, &[1, 2, 3]));
    assert!(!column_split_ok(4, &[1, 1, 1]));
    let mut s = plain_slide(vec![Block::Paragraph("x".to_string())]);
    s.image = Some(image("a.png"));
    assert!(rect_is_defined(&s, 80, 24, &[6, 4]));
    assert!(!rect_is_defined(&s, 4, 24, &[1, 1, 1]));
    let theme = Theme::default();
    let highlighter = CodeHighlighter::new();
    let params = RenderParams {
        slide: &s,
        slide_number: 0,
        total_slides: 1,
        term_width: 4,
        term_height: 10,
        ansi: false,
        slide_elapsed: Duration::ZERO,
        highlighter: &highlighter,
        prefer_real_images: false,
        visible_blocks: None,
        theme: &theme,
        line_spacing: 1,
        column_ratios: &[1, 1, 1],
    };
    assert!(!render_is_defined(&params));
}

#[test]
fn pictures_decode_by_their_extension() {
    let mut bytes: Vec<u8> = Vec::new();
    let img = image::RgbaImage::from_pixel(2, 2, image::Rgba([255, 255, 255, 255]));
    img.write_to(&mut std::io::Cursor::new(&mut bytes), image::ImageFormat::Png).expect("encode");
    let (frames, _) = load_ascii_frames("white.PNG", &bytes, 2, 1, 8).expect("decoded");
    assert_eq!(frames[0].lines, vec!["░░".to_string()]);
    let e = load_ascii_frames("white.jpg", &bytes, 2, 1, 8).err().expect("wrong format");
    assert!(e.starts_with("image decode failed (white.jpg): "));
    let e = load_ascii_frames("white", &bytes, 2, 1, 8).err().expect("no extension");
    assert!(e.starts_with("image decode failed (white): "));
    let e = load_ascii_frames("white.xyz", &bytes, 2, 1, 8).err().expect("unknown extension");
    assert!(e.starts_with("image decode failed (white.xyz): "));
}

#[test]
fn padding_plain_text_is_exact_and_stable() {
    let once = pad_to_width("abc", 6);
    assert_eq!(once, "abc   ");
    assert_eq!(pad_to_width(&once, 6), once);
    assert_eq!(pad_to_width("abcdefgh", 5), "abcde");
}
