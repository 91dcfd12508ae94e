use rslides::app::{
    animated_ascii, ansi_frame, base64_encode, compute_canvas_geometry, fnv1a_hash64,
    handle_tui_event, image_backend_for, iterm_image_command, key_action, kitty_image_command,
    media_kind_for_path, native_image_signature, plain_action, poll_timeout_ms, resolve_image_path,
    should_use_native, slide_columns, source_dir, transition_step_at, AppState, CanvasGeometry,
    ImageBackend, Key, KeyAction, MediaKind, TuiEvent, TuiFlags,
};
use rslides::cli::{parse_args, AppError};
use rslides::model::{Block, ImageMode, Presentation, Slide};

fn slide(blocks: Vec<Block>, reveal: bool) -> Slide {
    Slide {
        blocks,
        title: None,
        image: None,
        warnings: vec![],
        reveal_fragments: reveal,
        line_spacing: None,
        column_ratios: None,
        image_mode: None,
        cover: None,
    }
}

fn args(v: &[&str]) -> Vec<String> {
    v.iter().map(|s| s.to_string()).collect()
}

#[test]
fn app_state_navigation_respects_bounds() {
    let mut state = AppState::new(3, false, (80, 24), 8);
    let presentation = Presentation {
        slides: vec![slide(vec![], false), slide(vec![], false), slide(vec![], false)],
        source_path: String::new(),
    };
    assert_eq!(state.slide_counter(), (1, 3));
    assert!(state.advance_next(&presentation));
    assert_eq!(state.slide_counter(), (2, 3));
    assert!(state.advance_prev(&presentation));
    assert_eq!(state.slide_counter(), (1, 3));
}

#[test]
fn app_navigation_state_transitions() {
    let mut state = AppState::new(2, false, (80, 24), 8);
    let presentation = Presentation {
        slides: vec![
            slide(vec![Block::Paragraph("a".to_string())], false),
            slide(vec![Block::Paragraph("b".to_string())], false),
        ],
        source_path: "deck.md".to_string(),
    };
    assert_eq!(state.slide_counter(), (1, 2));
    assert!(state.advance_next(&presentation));
    assert_eq!(state.slide_counter(), (2, 2));
    assert!(state.advance_prev(&presentation));
    assert_eq!(state.slide_counter(), (1, 2));
}

#[test]
fn classifies_media_kinds() {
    assert_eq!(media_kind_for_path("demo.gif"), MediaKind::Gif);
    assert_eq!(media_kind_for_path("logo.svg"), MediaKind::Svg);
    assert_eq!(media_kind_for_path("clip.mov"), MediaKind::Video);
    assert_eq!(media_kind_for_path("photo.png"), MediaKind::StaticImage);
}

#[test]
fn navigation_stops_at_both_ends() {
    let presentation = Presentation {
        slides: vec![slide(vec![], false), slide(vec![], false)],
        source_path: String::new(),
    };
    let mut state = AppState::new(2, false, (80, 24), 8);
    assert!(!state.advance_prev(&presentation));
    assert_eq!(state.slide_counter(), (1, 2));
    assert!(state.advance_next(&presentation));
    assert!(!state.advance_next(&presentation));
    assert_eq!(state.slide_counter(), (2, 2));
}

#[test]
fn reveal_steps_through_blocks_and_back() {
    let presentation = Presentation {
        slides: vec![
            slide(
                vec![
                    Block::Paragraph("a".to_string()),
                    Block::Paragraph("b".to_string()),
                ],
                true,
            ),
            slide(vec![Block::Paragraph("c".to_string())], false),
        ],
        source_path: String::new(),
    };
    let mut state = AppState::new(2, false, (80, 24), 8);
    state.reset_reveal_for_slide(&presentation, false);
    assert_eq!(state.visible_blocks_for_current(&presentation), Some(1));
    assert!(state.advance_next(&presentation));
    assert_eq!(state.visible_blocks_for_current(&presentation), Some(2));
    assert!(state.advance_next(&presentation));
    assert_eq!(state.slide_counter(), (2, 2));
    assert_eq!(state.visible_blocks_for_current(&presentation), None);
    assert!(state.advance_prev(&presentation));
    assert_eq!(state.slide_counter(), (1, 2));
    assert_eq!(state.visible_blocks_for_current(&presentation), Some(2));
    assert!(state.advance_prev(&presentation));
    assert_eq!(state.visible_blocks_for_current(&presentation), Some(1));
}

#[test]
fn fade_steps_follow_the_clock() {
    assert_eq!(transition_step_at(0), Some(1));
    assert_eq!(transition_step_at(130_000_000), Some(6));
    assert_eq!(transition_step_at(130_000_001), Some(7));
    assert_eq!(transition_step_at(259_999_999), Some(12));
    assert_eq!(transition_step_at(260_000_000), None);
}

#[test]
fn base64_matches_known_values() {
    assert_eq!(base64_encode(b""), "");
    assert_eq!(base64_encode(b"f"), "Zg==");
    assert_eq!(base64_encode(b"fo"), "Zm8=");
    assert_eq!(base64_encode(b"foo"), "Zm9v");
    assert_eq!(base64_encode(b"foobar"), "Zm9vYmFy");
    assert_eq!(base64_encode(&[0xff, 0xfe, 0x3e]), "//4+");
}

#[test]
fn fnv1a_matches_known_values() {
    assert_eq!(fnv1a_hash64(b""), 0xcbf29ce484222325);
    assert_eq!(fnv1a_hash64(b"a"), 0xaf63dc4c8601ec8c);
    assert_eq!(fnv1a_hash64(b"foobar"), 0x85944171f73967e8);
}

#[test]
fn canvas_leaves_gutters() {
    assert_eq!(
        compute_canvas_geometry(80, 24),
        CanvasGeometry { origin_x: 6, origin_y: 2, width: 68, height: 20 }
    );
    assert_eq!(
        compute_canvas_geometry(5, 3),
        CanvasGeometry { origin_x: 4, origin_y: 2, width: 1, height: 1 }
    );
    assert_eq!(
        compute_canvas_geometry(0, 0),
        CanvasGeometry { origin_x: 0, origin_y: 0, width: 1, height: 1 }
    );
}

#[test]
fn frames_rewrite_only_changed_rows() {
    let a = vec!["one".to_string(), "two".to_string()];
    let full = ansi_frame(&a, &vec![], 6, 2);
    assert_eq!(full, "\u{1b}[3;7H\u{1b}[2Kone\u{1b}[4;7H\u{1b}[2Ktwo");
    let b = vec!["one".to_string()];
    let diff = ansi_frame(&b, &a, 0, 0);
    assert_eq!(diff, "\u{1b}[2;1H\u{1b}[2K");
    assert_eq!(ansi_frame(&a, &a, 0, 0), "");
}

#[test]
fn terminal_image_commands() {
    assert_eq!(
        kitty_image_command("/a.png", 2, 3, 10, 5),
        "\u{1b}[4;3H\u{1b}_Ga=T,t=f,f=100,c=10,r=5;L2EucG5n\u{1b}\\"
    );
    assert_eq!(
        iterm_image_command("QUJD", 0, 0, 4, 2),
        "\u{1b}[1;1H\u{1b}]1337;File=inline=1;width=4;height=2;preserveAspectRatio=1:QUJD\u{7}"
    );
}

#[test]
fn backends_from_environment() {
    assert_eq!(image_backend_for("xterm", "iTerm.app", false, false), ImageBackend::ItermInline);
    assert_eq!(image_backend_for("xterm", "", true, false), ImageBackend::ItermInline);
    assert_eq!(image_backend_for("xterm-kitty", "", false, false), ImageBackend::KittyGraphics);
    assert_eq!(image_backend_for("xterm", "ghostty", false, false), ImageBackend::KittyGraphics);
    assert_eq!(image_backend_for("xterm", "", false, true), ImageBackend::KittyGraphics);
    assert_eq!(image_backend_for("xterm", "", false, false), ImageBackend::Ascii);
    assert!(ImageBackend::KittyGraphics.is_native());
    assert!(!ImageBackend::Ascii.is_native());
    assert!(should_use_native(ImageMode::Auto));
    assert!(!should_use_native(ImageMode::Ascii));
}

#[test]
fn image_paths_resolve_against_the_deck() {
    assert_eq!(resolve_image_path("slides", "a.png"), "slides/a.png");
    assert_eq!(resolve_image_path("slides/", "a.png"), "slides/a.png");
    assert_eq!(resolve_image_path("", "a.png"), "a.png");
    assert_eq!(resolve_image_path("slides", "/abs/a.png"), "/abs/a.png");
    assert_eq!(source_dir("slides/deck.md"), "slides");
    assert_eq!(source_dir("deck.md"), "");
    assert_eq!(source_dir("/"), ".");
}

#[test]
fn keys_and_input_lines() {
    assert_eq!(key_action(Key::Char('q')), KeyAction::Quit);
    assert_eq!(key_action(Key::Esc), KeyAction::Quit);
    assert_eq!(key_action(Key::Char('L')), KeyAction::Next);
    assert_eq!(key_action(Key::Down), KeyAction::Next);
    assert_eq!(key_action(Key::Up), KeyAction::Prev);
    assert_eq!(key_action(Key::Char('x')), KeyAction::Ignore);
    assert_eq!(plain_action("  N\n"), KeyAction::Next);
    assert_eq!(plain_action("quit"), KeyAction::Quit);
    assert_eq!(plain_action("k"), KeyAction::Prev);
    assert_eq!(plain_action("\n"), KeyAction::Ignore);
}

#[test]
fn tui_events_update_flags() {
    let presentation = Presentation {
        slides: vec![slide(vec![], false), slide(vec![], false)],
        source_path: String::new(),
    };
    let mut state = AppState::new(2, false, (80, 24), 8);
    let mut flags = TuiFlags {
        dirty: false,
        native_image_active: true,
        last_native_signature: Some("sig".to_string()),
    };
    let r = handle_tui_event(&mut flags, &mut state, &presentation, TuiEvent::Key(Key::Right), false);
    assert!(!r.quit && r.clear_native && r.clear_previous);
    assert!(flags.dirty && !flags.native_image_active && flags.last_native_signature.is_none());
    assert_eq!(state.slide_counter(), (2, 2));
    flags.dirty = false;
    let r = handle_tui_event(&mut flags, &mut state, &presentation, TuiEvent::Key(Key::Right), false);
    assert!(!r.clear_previous && !flags.dirty);
    let r = handle_tui_event(&mut flags, &mut state, &presentation, TuiEvent::Resize(100, 30), false);
    assert!(r.clear_previous && flags.dirty);
    assert_eq!(state.terminal_size, (100, 30));
    flags.dirty = false;
    handle_tui_event(&mut flags, &mut state, &presentation, TuiEvent::Idle, true);
    assert!(flags.dirty);
    let r = handle_tui_event(&mut flags, &mut state, &presentation, TuiEvent::Key(Key::Char('q')), false);
    assert!(r.quit);
    assert!(flags.native_redraw_needed("x"));
    flags.dirty = false;
    flags.last_native_signature = Some("x".to_string());
    assert!(!flags.native_redraw_needed("x"));
    assert!(flags.begin_frame(false) == false);
}

#[test]
fn frame_plan_pieces() {
    let mut s = slide(vec![], false);
    assert_eq!(slide_columns(&s, &None), vec![6, 4]);
    s.column_ratios = Some(vec![1, 2, 3]);
    assert_eq!(slide_columns(&s, &None), vec![1, 2, 3]);
    assert!(!animated_ascii(&s, false));
    assert_eq!(poll_timeout_ms(true, false), 16);
    assert_eq!(poll_timeout_ms(false, false), 120);
    let g = CanvasGeometry { origin_x: 6, origin_y: 2, width: 68, height: 20 };
    assert_eq!(native_image_signature(3, g, Some(2)), "3:68:20:6:2");
    assert_eq!(
        native_image_signature(0, g, None),
        format!("0:68:20:6:{}", usize::MAX)
    );
}

#[test]
fn command_line_forms() {
    let plan = parse_args(args(&["deck.md"]));
    assert!(plan.themes.is_empty());
    assert_eq!(plan.outcome.as_ref().ok().map(|s| s.as_str()), Some("deck.md"));

    let plan = parse_args(args(&["--theme", "a.theme", "--theme=b.theme", "deck.md"]));
    assert_eq!(plan.themes, args(&["a.theme", "b.theme"]));
    assert!(plan.outcome.is_ok());

    let plan = parse_args(args(&[]));
    let e: AppError = plan.outcome.err().expect("usage");
    assert_eq!(e.code, 2);
    assert_eq!(e.message, "usage: rslides [--theme <file>] <file.md>");

    let plan = parse_args(args(&["--theme"]));
    assert_eq!(plan.outcome.err().unwrap().message, "missing value for --theme");

    let plan = parse_args(args(&["--theme", "t", "-x", "deck.md"]));
    assert_eq!(plan.themes, args(&["t"]));
    assert_eq!(plan.outcome.err().unwrap().message, "unknown flag: -x");

    let plan = parse_args(args(&["a.md", "b.md"]));
    assert_eq!(plan.outcome.err().unwrap().message, "only one markdown file can be provided");

    assert_eq!(AppError::runtime("x".to_string()).code, 1);
    assert_eq!(AppError::input("x".to_string()).code, 2);
}

#[test]
fn command_line_flags_set_the_run() {
    let plan = parse_args(args(&[
        "--no-ansi", "--fps", "12", "--line-spacing", "2", "--columns", "3,0,7", "--image-mode",
        "ascii", "--gif-mode", "auto", "deck.md",
    ]));
    assert_eq!(plan.outcome.as_ref().ok().map(|s| s.as_str()), Some("deck.md"));
    let o = plan.options;
    assert!(o.no_ansi);
    assert_eq!(o.fps, 12);
    assert_eq!(o.line_spacing, 2);
    assert_eq!(o.columns, Some(vec![3, 7]));
    assert_eq!(o.image_mode, ImageMode::Ascii);
    assert_eq!(o.gif_mode, ImageMode::Auto);

    let o = parse_args(args(&["deck.md"])).options;
    assert!(!o.no_ansi);
    assert_eq!(o.fps, 8);
    assert_eq!(o.line_spacing, 1);
    assert_eq!(o.columns, None);
    assert_eq!(o.image_mode, ImageMode::Native);
    assert_eq!(o.gif_mode, ImageMode::Native);

    let plan = parse_args(args(&["--fps", "fast", "deck.md"]));
    assert_eq!(plan.outcome.err().unwrap().message, "invalid value for --fps: fast");
    let plan = parse_args(args(&["deck.md", "--columns"]));
    assert_eq!(plan.outcome.err().unwrap().message, "missing value for --columns");
    let plan = parse_args(args(&["--image-mode", "pixels", "deck.md"]));
    assert_eq!(plan.outcome.err().unwrap().message, "invalid value for --image-mode: pixels");

    let mut s = slide(vec![], false);
    s.column_ratios = None;
    assert_eq!(slide_columns(&s, &Some(vec![2, 8])), vec![2, 8]);
}

#[test]
fn a_new_or_changed_slide_starts_its_clock_at_zero() {
    let p = Presentation {
        slides: vec![slide(vec![], false), slide(vec![], false)],
        source_path: "deck.md".to_string(),
    };
    let mut state = AppState::new(2, false, (80, 24), 8);
    assert_eq!(state.slide_elapsed(), std::time::Duration::ZERO);
    let t0 = std::time::Instant::now();
    while t0.elapsed() < std::time::Duration::from_millis(2) {}
    state.tick_animation();
    assert!(state.slide_elapsed() > std::time::Duration::ZERO);
    assert!(state.advance_next(&p));
    assert_eq!(state.slide_elapsed(), std::time::Duration::ZERO);
}
