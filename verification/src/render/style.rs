//! Colours and the placing of text on a row: the ANSI colour codes of each kind of
//! line, the title gradient, centring, alignment, overlaying and the footer.
use vstd::prelude::*;

use crate::model::{CalloutKind, ColumnAlign};
use crate::render::text::{clip, clip_chars, spaces, spaces_vec, visible, visible_width_chars};
use crate::strings::{
    chars_of, eq_chars, find, find_chars, lines, parse_uint, parse_uint_chars, push_chars, seqs_of,
    slice_to_vec, split, split_chars, split_lines, string_of, trim, trim_chars,
};

verus! {

/// The colours of a presentation, as red, green and blue.
#[derive(Debug, Clone, Copy)]
pub struct Theme {
    pub title_start: (u8, u8, u8),
    pub title_end: (u8, u8, u8),
    pub text: (u8, u8, u8),
    pub quote: (u8, u8, u8),
    pub table: (u8, u8, u8),
    pub code_bg: (u8, u8, u8),
    pub callout_note_bg: (u8, u8, u8),
    pub callout_tip_bg: (u8, u8, u8),
    pub callout_warn_bg: (u8, u8, u8),
    pub footer_muted: (u8, u8, u8),
    pub footer_accent: (u8, u8, u8),
    pub footer_warn: (u8, u8, u8),
    pub cover_subtitle: (u8, u8, u8),
    pub cover_author: (u8, u8, u8),
    pub image_caption: (u8, u8, u8),
}

/// What a rendered line is, which decides its colours.
#[derive(Debug, Clone, Copy, PartialEq, Eq, Structural)]
pub enum LineRole {
    /// Row `row` of a title `total` rows high.
    Title { row: usize, total: usize },
    SectionHeading(u8),
    CoverSubtitle,
    CoverAuthor,
    ImageCaption,
    Paragraph,
    Quote,
    Table,
    Code,
    Callout(CalloutKind),
    Empty,
}

/// The decimal digit `d`.
pub open spec fn digit_char(d: nat) -> char {
    (48 + d) as char
}

/// The decimal notation of `n`.
pub open spec fn dec(n: nat) -> Seq<char>
    decreases n,
{
    if n < 10 {
        seq![digit_char(n)]
    } else {
        dec(n / 10).push(digit_char(n % 10))
    }
}

fn digit(d: u128) -> (c: char)
    requires
        d < 10,
    ensures
        c == digit_char(d as nat),
{
    let b: u8 = 48u8 + (d as u8);
    b as char
}

/// Appends the decimal notation of `n`.
pub fn push_dec(out: &mut Vec<char>, n: u128)
    ensures
        final(out)@ == old(out)@ + dec(n as nat),
    decreases n,
{
    if n >= 10 {
        push_dec(out, n / 10);
    }
    out.push(digit(n % 10));
    assert(final(out)@ =~= old(out)@ + dec(n as nat));
}

pub open spec fn reset_color() -> Seq<char> {
    "\x1b[39m"@
}

pub open spec fn bold_on() -> Seq<char> {
    "\x1b[1m"@
}

pub open spec fn bold_off() -> Seq<char> {
    "\x1b[22m"@
}

pub open spec fn bg_off() -> Seq<char> {
    "\x1b[49m"@
}

/// `ESC [ 38;2;r;g;b m` (foreground) or `ESC [ 48;2;r;g;b m` (background).
pub open spec fn rgb_code(lead: Seq<char>, c: (u8, u8, u8)) -> Seq<char> {
    lead + dec(c.0 as nat) + ";"@ + dec(c.1 as nat) + ";"@ + dec(c.2 as nat) + "m"@
}

pub open spec fn fg(c: (u8, u8, u8)) -> Seq<char> {
    rgb_code("\x1b[38;2;"@, c)
}

pub open spec fn bg(c: (u8, u8, u8)) -> Seq<char> {
    rgb_code("\x1b[48;2;"@, c)
}

fn push_rgb(out: &mut Vec<char>, lead: &str, c: (u8, u8, u8))
    ensures
        final(out)@ == old(out)@ + rgb_code(lead@, c),
{
    push_chars(out, &chars_of(lead));
    push_dec(out, c.0 as u128);
    out.push(';');
    push_dec(out, c.1 as u128);
    out.push(';');
    push_dec(out, c.2 as u128);
    out.push('m');
    proof {
        reveal_strlit(";");
        reveal_strlit("m");
    }
    assert(final(out)@ =~= old(out)@ + rgb_code(lead@, c));
}

/// One channel of the title gradient: `a` moved towards `b` by `index / span`, rounded
/// half up; below zero it is 0 and above 255 it is 255.
pub open spec fn lerp_channel(a: u8, b: u8, index: int, span: int) -> u8 {
    let num = a * span + (b - a) * index;
    if num <= 0 {
        0
    } else {
        let v = (2 * num + span) / (2 * span);
        if v > 255 {
            255
        } else {
            v as u8
        }
    }
}

/// The colour of row `index` of a title `total` rows high: from `start` on the
/// first row to `end` on the last.
pub open spec fn gradient(index: nat, total: nat, start: (u8, u8, u8), end: (u8, u8, u8)) -> (
    u8,
    u8,
    u8,
) {
    if total <= 1 {
        start
    } else {
        let span = total - 1;
        (
            lerp_channel(start.0, end.0, index as int, span),
            lerp_channel(start.1, end.1, index as int, span),
            lerp_channel(start.2, end.2, index as int, span),
        )
    }
}

fn lerp(a: u8, b: u8, index: usize, span: usize) -> (r: u8)
    requires
        span >= 1,
    ensures
        r == lerp_channel(a, b, index as int, span as int),
{
    let ai: i128 = a as i128;
    let si: i128 = span as i128;
    let di: i128 = (b as i128) - ai;
    let ii: i128 = index as i128;
    assert(0 <= ai * si <= 255 * 0x1_0000_0000_0000_0000) by (nonlinear_arith)
        requires
            0 <= ai <= 255,
            0 <= si <= 0xffff_ffff_ffff_ffff,
    ;
    assert(-255 * 0x1_0000_0000_0000_0000 <= di * ii <= 255 * 0x1_0000_0000_0000_0000) by (nonlinear_arith)
        requires
            -255 <= di <= 255,
            0 <= ii <= 0xffff_ffff_ffff_ffff,
    ;
    let num: i128 = ai * si + di * ii;
    if num <= 0 {
        0
    } else {
        let two_span: i128 = 2 * (span as i128);
        let v: i128 = (2 * num + (span as i128)) / two_span;
        if v > 255 {
            255
        } else {
            v as u8
        }
    }
}

/// The title colour of row `index` of `total`.
pub fn gradient_color(index: usize, total: usize, start: (u8, u8, u8), end: (u8, u8, u8)) -> (r: (
    u8,
    u8,
    u8,
))
    ensures
        r == gradient(index as nat, total as nat, start, end),
{
    if total <= 1 {
        return start;
    }
    let span = total - 1;
    (lerp(start.0, end.0, index, span), lerp(start.1, end.1, index, span), lerp(start.2, end.2, index, span))
}

/// The background and foreground of a section heading of `level`.
pub open spec fn heading_colors(level: u8) -> ((u8, u8, u8), (u8, u8, u8)) {
    if level == 1 {
        ((54, 22, 36), (255, 146, 125))
    } else if level == 2 {
        ((58, 30, 22), (255, 174, 96))
    } else {
        ((50, 24, 46), (255, 124, 204))
    }
}

pub open spec fn callout_color(kind: CalloutKind, theme: Theme) -> (u8, u8, u8) {
    match kind {
        CalloutKind::Note => theme.callout_note_bg,
        CalloutKind::Tip => theme.callout_tip_bg,
        CalloutKind::Warn => theme.callout_warn_bg,
    }
}

/// A rendered line with the colours of its role; plain when colours are off or the
/// line is empty. A code line is shaded only on its frame rows.
pub open spec fn styled(line: Seq<char>, role: LineRole, ansi: bool, theme: Theme) -> Seq<char> {
    if !ansi || line.len() == 0 {
        line
    } else {
        match role {
            LineRole::Title { row, total } => bold_on() + fg(
                gradient(row as nat, total as nat, theme.title_start, theme.title_end),
            ) + line + reset_color() + bold_off(),
            LineRole::SectionHeading(level) => bg(heading_colors(level).0) + fg(
                heading_colors(level).1,
            ) + line + reset_color() + bg_off(),
            LineRole::Paragraph => fg(theme.text) + line + reset_color(),
            LineRole::CoverSubtitle => fg(theme.cover_subtitle) + line + reset_color(),
            LineRole::CoverAuthor => bold_on() + fg(theme.cover_author) + line + reset_color()
                + bold_off(),
            LineRole::ImageCaption => "\x1b[3m"@ + fg(theme.image_caption) + line + reset_color()
                + "\x1b[23m"@,
            LineRole::Quote => fg(theme.quote) + line + reset_color(),
            LineRole::Table => fg(theme.table) + line + reset_color(),
            LineRole::Code => if line[0] == '╭' || line[0] == '│' || line[0] == '╰' {
                bg(theme.code_bg) + line + bg_off()
            } else {
                line
            },
            LineRole::Callout(kind) => bg(callout_color(kind, theme)) + line + bg_off(),
            LineRole::Empty => line,
        }
    }
}

/// `line` in the colours of `role`.
pub fn style_chars(line: &Vec<char>, role: LineRole, ansi: bool, theme: &Theme) -> (r: Vec<char>)
    ensures
        r@ == styled(line@, role, ansi, *theme),
{
    if !ansi || line.len() == 0 {
        return line.clone();
    }
    let mut out: Vec<char> = Vec::new();
    match role {
        LineRole::Title { row, total } => {
            let c = gradient_color(row, total, theme.title_start, theme.title_end);
            push_chars(&mut out, &chars_of("\x1b[1m"));
            push_rgb(&mut out, "\x1b[38;2;", c);
            push_chars(&mut out, line);
            push_chars(&mut out, &chars_of("\x1b[39m"));
            push_chars(&mut out, &chars_of("\x1b[22m"));
        },
        LineRole::SectionHeading(level) => {
            let (b, f) = if level == 1 {
                ((54u8, 22u8, 36u8), (255u8, 146u8, 125u8))
            } else if level == 2 {
                ((58u8, 30u8, 22u8), (255u8, 174u8, 96u8))
            } else {
                ((50u8, 24u8, 46u8), (255u8, 124u8, 204u8))
            };
            push_rgb(&mut out, "\x1b[48;2;", b);
            push_rgb(&mut out, "\x1b[38;2;", f);
            push_chars(&mut out, line);
            push_chars(&mut out, &chars_of("\x1b[39m"));
            push_chars(&mut out, &chars_of("\x1b[49m"));
        },
        LineRole::CoverAuthor => {
            push_chars(&mut out, &chars_of("\x1b[1m"));
            push_rgb(&mut out, "\x1b[38;2;", theme.cover_author);
            push_chars(&mut out, line);
            push_chars(&mut out, &chars_of("\x1b[39m"));
            push_chars(&mut out, &chars_of("\x1b[22m"));
        },
        LineRole::ImageCaption => {
            push_chars(&mut out, &chars_of("\x1b[3m"));
            push_rgb(&mut out, "\x1b[38;2;", theme.image_caption);
            push_chars(&mut out, line);
            push_chars(&mut out, &chars_of("\x1b[39m"));
            push_chars(&mut out, &chars_of("\x1b[23m"));
        },
        LineRole::Code => {
            let c0 = line[0];
            if c0 == '╭' || c0 == '│' || c0 == '╰' {
                push_rgb(&mut out, "\x1b[48;2;", theme.code_bg);
                push_chars(&mut out, line);
                push_chars(&mut out, &chars_of("\x1b[49m"));
            } else {
                push_chars(&mut out, line);
            }
        },
        LineRole::Callout(kind) => {
            let c = match kind {
                CalloutKind::Note => theme.callout_note_bg,
                CalloutKind::Tip => theme.callout_tip_bg,
                CalloutKind::Warn => theme.callout_warn_bg,
            };
            push_rgb(&mut out, "\x1b[48;2;", c);
            push_chars(&mut out, line);
            push_chars(&mut out, &chars_of("\x1b[49m"));
        },
        LineRole::Empty => {
            push_chars(&mut out, line);
        },
        _ => {
            let c = match role {
                LineRole::Paragraph => theme.text,
                LineRole::CoverSubtitle => theme.cover_subtitle,
                LineRole::Quote => theme.quote,
                _ => theme.table,
            };
            push_rgb(&mut out, "\x1b[38;2;", c);
            push_chars(&mut out, line);
            push_chars(&mut out, &chars_of("\x1b[39m"));
        },
    }
    assert(out@ =~= styled(line@, role, ansi, *theme));
    out
}

/// `input` clipped to `width` characters and centred with spaces.
pub open spec fn centered(input: Seq<char>, width: nat) -> Seq<char> {
    let c = clip(input, width);
    if c.len() >= width {
        c
    } else {
        let left = (width - c.len()) / 2;
        let right = (width - c.len() - left) as nat;
        spaces(left as nat) + c + spaces(right)
    }
}

pub fn centered_line(input: &Vec<char>, width: usize) -> (r: Vec<char>)
    ensures
        r@ == centered(input@, width as nat),
{
    let c = clip_chars(input, width);
    let len = c.len();
    if len >= width {
        return c;
    }
    let left = (width - len) / 2;
    let right = width - len - left;
    let mut out = spaces_vec(left);
    push_chars(&mut out, &c);
    push_chars(&mut out, &spaces_vec(right));
    out
}

/// `input` clipped to `width` characters and filled with spaces to `width` visible
/// characters, on the side that `align` says.
pub open spec fn aligned(input: Seq<char>, width: nat, align: ColumnAlign) -> Seq<char> {
    let c = clip(input, width);
    let v = visible(c);
    if v >= width {
        c
    } else {
        let gap = (width - v) as nat;
        match align {
            ColumnAlign::Left => c + spaces(gap),
            ColumnAlign::Center => spaces(gap / 2) + c + spaces((gap - gap / 2) as nat),
            ColumnAlign::Right => spaces(gap) + c,
        }
    }
}

pub fn align_to_width(input: &Vec<char>, width: usize, align: ColumnAlign) -> (r: Vec<char>)
    ensures
        r@ == aligned(input@, width as nat, align),
{
    let c = clip_chars(input, width);
    let v = visible_width_chars(&c);
    if v >= width {
        return c;
    }
    let gap = width - v;
    match align {
        ColumnAlign::Left => {
            let mut out = c;
            push_chars(&mut out, &spaces_vec(gap));
            out
        },
        ColumnAlign::Center => {
            let left = gap / 2;
            let mut out = spaces_vec(left);
            push_chars(&mut out, &c);
            push_chars(&mut out, &spaces_vec(gap - left));
            out
        },
        ColumnAlign::Right => {
            let mut out = spaces_vec(gap);
            push_chars(&mut out, &c);
            out
        },
    }
}

/// `text` written over `target` from column `start`: it replaces as many characters
/// of `target` as it shows.
pub open spec fn overlay(target: Seq<char>, start: nat, text: Seq<char>) -> Seq<char> {
    let pe = if start <= target.len() {
        start
    } else {
        target.len()
    };
    let se = if pe + visible(text) <= target.len() {
        pe + visible(text)
    } else {
        target.len() as nat
    };
    target.take(pe as int) + text + target.skip(se as int)
}

pub fn overlay_text_at(target: &mut Vec<char>, start_col: usize, text: &Vec<char>)
    ensures
        final(target)@ == overlay(old(target)@, start_col as nat, text@),
{
    let n = target.len();
    let pe = if start_col <= n {
        start_col
    } else {
        n
    };
    let tw = visible_width_chars(text);
    let se = if tw <= n - pe {
        pe + tw
    } else {
        n
    };
    let mut out = slice_to_vec(target, 0, pe);
    push_chars(&mut out, text);
    push_chars(&mut out, &slice_to_vec(target, se, n));
    assert(out@ =~= overlay(old(target)@, start_col as nat, text@));
    *target = out;
}

pub open spec fn truncated_note() -> Seq<char> {
    "[truncated: adjust slide content]"@
}

/// The bottom row: the slide counter `current/total` at the right, and a note at the
/// left when the slide did not fit.
pub open spec fn footer(
    width: nat,
    current: nat,
    total: nat,
    truncated: bool,
    ansi: bool,
    theme: Theme,
) -> Seq<char> {
    let counter = dec(current) + "/"@ + dec(total);
    if width == 0 {
        seq![]
    } else if counter.len() >= width {
        clip(counter, width)
    } else {
        let left0 = if truncated {
            truncated_note()
        } else {
            seq![]
        };
        let left = if left0.len() + counter.len() > width {
            clip(left0, (width - (counter.len() + 1)) as nat)
        } else {
            left0
        };
        let gap = if left.len() + counter.len() <= width {
            (width - (left.len() + counter.len())) as nat
        } else {
            0
        };
        if ansi {
            let lc = if left.len() == 0 {
                seq![]
            } else if truncated {
                fg(theme.footer_warn) + left + reset_color()
            } else {
                fg(theme.footer_muted) + left + reset_color()
            };
            lc + spaces(gap) + bold_on() + fg(theme.footer_accent) + counter + reset_color()
                + bold_off()
        } else {
            left + spaces(gap) + counter
        }
    }
}

pub fn build_footer(
    width: usize,
    current: usize,
    total: usize,
    truncated: bool,
    ansi: bool,
    theme: &Theme,
) -> (r: Vec<char>)
    ensures
        r@ == footer(width as nat, current as nat, total as nat, truncated, ansi, *theme),
{
    if width == 0 {
        return Vec::new();
    }
    let mut counter: Vec<char> = Vec::new();
    push_dec(&mut counter, current as u128);
    counter.push('/');
    push_dec(&mut counter, total as u128);
    proof {
        reveal_strlit("/");
    }
    assert(counter@ =~= dec(current as nat) + "/"@ + dec(total as nat));
    if counter.len() >= width {
        return clip_chars(&counter, width);
    }
    let mut left = if truncated {
        chars_of("[truncated: adjust slide content]")
    } else {
        Vec::new()
    };
    let cw = counter.len();
    if left.len() > width - cw {
        left = clip_chars(&left, width - (cw + 1));
    }
    let gap = if left.len() <= width - cw {
        width - (left.len() + cw)
    } else {
        0
    };
    let mut out: Vec<char> = Vec::new();
    if ansi {
        if left.len() > 0 {
            if truncated {
                push_rgb(&mut out, "\x1b[38;2;", theme.footer_warn);
            } else {
                push_rgb(&mut out, "\x1b[38;2;", theme.footer_muted);
            }
            push_chars(&mut out, &left);
            push_chars(&mut out, &chars_of("\x1b[39m"));
        }
        push_chars(&mut out, &spaces_vec(gap));
        push_chars(&mut out, &chars_of("\x1b[1m"));
        push_rgb(&mut out, "\x1b[38;2;", theme.footer_accent);
        push_chars(&mut out, &counter);
        push_chars(&mut out, &chars_of("\x1b[39m"));
        push_chars(&mut out, &chars_of("\x1b[22m"));
    } else {
        push_chars(&mut out, &left);
        push_chars(&mut out, &spaces_vec(gap));
        push_chars(&mut out, &counter);
    }
    assert(out@ =~= footer(width as nat, current as nat, total as nat, truncated, ansi, *theme));
    out
}

/// The colours used when no theme file is given.
pub open spec fn default_theme() -> Theme {
    Theme {
        title_start: (178, 102, 255),
        title_end: (102, 245, 255),
        text: (236, 240, 246),
        quote: (206, 214, 228),
        table: (182, 224, 192),
        code_bg: (34, 38, 54),
        callout_note_bg: (37, 64, 104),
        callout_tip_bg: (30, 85, 73),
        callout_warn_bg: (96, 57, 36),
        footer_muted: (170, 177, 191),
        footer_accent: (244, 208, 120),
        footer_warn: (255, 170, 170),
        cover_subtitle: (255, 170, 142),
        cover_author: (255, 210, 158),
        image_caption: (255, 195, 120),
    }
}

impl Default for Theme {
    fn default() -> (r: Self)
        ensures
            r == default_theme(),
    {
        Theme {
            title_start: (178, 102, 255),
            title_end: (102, 245, 255),
            text: (236, 240, 246),
            quote: (206, 214, 228),
            table: (182, 224, 192),
            code_bg: (34, 38, 54),
            callout_note_bg: (37, 64, 104),
            callout_tip_bg: (30, 85, 73),
            callout_warn_bg: (96, 57, 36),
            footer_muted: (170, 177, 191),
            footer_accent: (244, 208, 120),
            footer_warn: (255, 170, 170),
            cover_subtitle: (255, 170, 142),
            cover_author: (255, 210, 158),
            image_caption: (255, 195, 120),
        }
    }
}

/// `r,g,b` with three numbers from 0 to 255 (white space around each allowed); the
/// error names the first part that is wrong.
pub open spec fn rgb_of(value: Seq<char>) -> Result<(u8, u8, u8), Seq<char>> {
    let parts = split(value, ',');
    if parts.len() != 3 {
        Err("invalid RGB value: "@ + value)
    } else {
        match parse_uint(trim(parts[0]), 255) {
            None => Err("invalid red component: "@ + value),
            Some(r) => match parse_uint(trim(parts[1]), 255) {
                None => Err("invalid green component: "@ + value),
                Some(g) => match parse_uint(trim(parts[2]), 255) {
                    None => Err("invalid blue component: "@ + value),
                    Some(b) => Ok((r as u8, g as u8, b as u8)),
                },
            },
        }
    }
}

fn error_text(prefix: &str, value: &Vec<char>) -> (r: String)
    ensures
        r@ == prefix@ + value@,
{
    let mut m = chars_of(prefix);
    push_chars(&mut m, value);
    string_of(&m)
}

pub fn parse_rgb(value: &str) -> (r: Result<(u8, u8, u8), String>)
    ensures
        match r {
            Ok(c) => rgb_of(value@) == Ok::<(u8, u8, u8), Seq<char>>(c),
            Err(e) => rgb_of(value@) == Err::<(u8, u8, u8), Seq<char>>(e@),
        },
{
    let v = chars_of(value);
    let parts = split_chars(&v, ',');
    if parts.len() != 3 {
        return Err(error_text("invalid RGB value: ", &v));
    }
    let r = match parse_uint_chars(&trim_chars(&parts[0]), 255) {
        Some(x) => x as u8,
        None => {
            return Err(error_text("invalid red component: ", &v));
        },
    };
    let g = match parse_uint_chars(&trim_chars(&parts[1]), 255) {
        Some(x) => x as u8,
        None => {
            return Err(error_text("invalid green component: ", &v));
        },
    };
    let b = match parse_uint_chars(&trim_chars(&parts[2]), 255) {
        Some(x) => x as u8,
        None => {
            return Err(error_text("invalid blue component: ", &v));
        },
    };
    Ok((r, g, b))
}

/// The theme with the colour of `key` set (an unknown key sets nothing).
pub open spec fn set_color(t: Theme, key: Seq<char>, c: (u8, u8, u8)) -> Theme {
    if key == "title_start"@ {
        Theme { title_start: c, ..t }
    } else if key == "title_end"@ {
        Theme { title_end: c, ..t }
    } else if key == "text"@ {
        Theme { text: c, ..t }
    } else if key == "quote"@ {
        Theme { quote: c, ..t }
    } else if key == "table"@ {
        Theme { table: c, ..t }
    } else if key == "code_bg"@ {
        Theme { code_bg: c, ..t }
    } else if key == "callout_note_bg"@ {
        Theme { callout_note_bg: c, ..t }
    } else if key == "callout_tip_bg"@ {
        Theme { callout_tip_bg: c, ..t }
    } else if key == "callout_warn_bg"@ {
        Theme { callout_warn_bg: c, ..t }
    } else if key == "footer_muted"@ {
        Theme { footer_muted: c, ..t }
    } else if key == "footer_accent"@ {
        Theme { footer_accent: c, ..t }
    } else if key == "footer_warn"@ {
        Theme { footer_warn: c, ..t }
    } else if key == "cover_subtitle"@ {
        Theme { cover_subtitle: c, ..t }
    } else if key == "cover_author"@ {
        Theme { cover_author: c, ..t }
    } else if key == "image_caption"@ {
        Theme { image_caption: c, ..t }
    } else {
        t
    }
}

/// One line of a theme file: blank lines, `#` comments and lines without `=` are
/// skipped; `key = r,g,b` sets a colour, and a bad colour is an error even for an
/// unknown key.
pub open spec fn theme_step(acc: Result<Theme, Seq<char>>, line: Seq<char>) -> Result<Theme, Seq<char>> {
    match acc {
        Err(e) => Err(e),
        Ok(t) => {
            let l = trim(line);
            if l.len() == 0 || l[0] == '#' {
                Ok(t)
            } else {
                match find(l, seq!['=']) {
                    None => Ok(t),
                    Some(k) => match rgb_of(trim(l.skip(k + 1))) {
                        Err(e) => Err(e),
                        Ok(c) => Ok(set_color(t, trim(l.take(k)), c)),
                    },
                }
            }
        },
    }
}

pub open spec fn theme_fold(ls: Seq<Seq<char>>) -> Result<Theme, Seq<char>>
    decreases ls.len(),
{
    if ls.len() == 0 {
        Ok(default_theme())
    } else {
        theme_step(theme_fold(ls.drop_last()), ls.last())
    }
}

/// The theme a theme file's text gives: the default colours, changed line by line.
pub open spec fn theme_of(content: Seq<char>) -> Result<Theme, Seq<char>> {
    theme_fold(lines(content))
}

fn set_theme_color(t: &mut Theme, key: &Vec<char>, c: (u8, u8, u8))
    ensures
        *final(t) == set_color(*old(t), key@, c),
{
    if eq_chars(key, &chars_of("title_start")) {
        t.title_start = c;
    } else if eq_chars(key, &chars_of("title_end")) {
        t.title_end = c;
    } else if eq_chars(key, &chars_of("text")) {
        t.text = c;
    } else if eq_chars(key, &chars_of("quote")) {
        t.quote = c;
    } else if eq_chars(key, &chars_of("table")) {
        t.table = c;
    } else if eq_chars(key, &chars_of("code_bg")) {
        t.code_bg = c;
    } else if eq_chars(key, &chars_of("callout_note_bg")) {
        t.callout_note_bg = c;
    } else if eq_chars(key, &chars_of("callout_tip_bg")) {
        t.callout_tip_bg = c;
    } else if eq_chars(key, &chars_of("callout_warn_bg")) {
        t.callout_warn_bg = c;
    } else if eq_chars(key, &chars_of("footer_muted")) {
        t.footer_muted = c;
    } else if eq_chars(key, &chars_of("footer_accent")) {
        t.footer_accent = c;
    } else if eq_chars(key, &chars_of("footer_warn")) {
        t.footer_warn = c;
    } else if eq_chars(key, &chars_of("cover_subtitle")) {
        t.cover_subtitle = c;
    } else if eq_chars(key, &chars_of("cover_author")) {
        t.cover_author = c;
    } else if eq_chars(key, &chars_of("image_caption")) {
        t.image_caption = c;
    }
}

impl Theme {
    /// The theme that the text of a theme file gives (see `theme_of`).
    pub fn parse(content: &str) -> (r: Result<Theme, String>)
        ensures
            match r {
                Ok(t) => theme_of(content@) == Ok::<Theme, Seq<char>>(t),
                Err(e) => theme_of(content@) == Err::<Theme, Seq<char>>(e@),
            },
    {
        let ls = split_lines(&chars_of(content));
        let ghost lsv = seqs_of(ls@);
        let mut theme = Theme::default();
        let mut eq: Vec<char> = Vec::new();
        eq.push('=');
        assert(eq@ =~= seq!['=']);
        let mut i: usize = 0;
        assert(lsv.take(0) =~= Seq::<Seq<char>>::empty());
        while i < ls.len()
            invariant
                i <= ls@.len(),
                lsv == seqs_of(ls@),
                lsv == lines(content@),
                eq@ == seq!['='],
                theme_fold(lsv.take(i as int)) == Ok::<Theme, Seq<char>>(theme),
            decreases ls@.len() - i,
        {
            assert(lsv.take(i + 1).drop_last() =~= lsv.take(i as int));
            assert(lsv.take(i + 1).last() == ls@[i as int]@);
            let l = trim_chars(&ls[i]);
            if l.len() > 0 && l[0] != '#' {
                match find_chars(&l, &eq) {
                    None => {},
                    Some(k) => {
                        let n = l.len();
                        let value = trim_chars(&slice_to_vec(&l, k + 1, n));
                        assert(l@.subrange(k + 1, n as int) =~= l@.skip(k + 1));
                        let key = trim_chars(&slice_to_vec(&l, 0, k));
                        assert(l@.subrange(0, k as int) =~= l@.take(k as int));
                        match parse_rgb(string_of(&value).as_str()) {
                            Ok(c) => set_theme_color(&mut theme, &key, c),
                            Err(e) => {
                                proof {
                                    lemma_theme_error_stays(lsv, i as int + 1, e@);
                                }
                                assert(lsv.take(lsv.len() as int) =~= lsv);
                                return Err(e);
                            },
                        }
                    },
                }
            }
            i = i + 1;
        }
        assert(lsv.take(ls@.len() as int) =~= lsv);
        Ok(theme)
    }
}

proof fn lemma_theme_error_stays(ls: Seq<Seq<char>>, k: int, e: Seq<char>)
    requires
        0 <= k <= ls.len(),
        theme_fold(ls.take(k)) == Err::<Theme, Seq<char>>(e),
    ensures
        theme_fold(ls) == Err::<Theme, Seq<char>>(e),
    decreases ls.len() - k,
{
    if k < ls.len() {
        assert(ls.take(k + 1).drop_last() =~= ls.take(k));
        lemma_theme_error_stays(ls, k + 1, e);
    } else {
        assert(ls.take(k) =~= ls);
    }
}

/// Without colours, a footer wide enough for the counter ends with `current/total`,
/// and is exactly `width` characters wide.
pub proof fn lemma_footer_ends_with_counter(width: nat, current: nat, total: nat, truncated: bool, theme: Theme)
    requires
        (dec(current) + "/"@ + dec(total)).len() < width,
    ensures
        ({
            let f = footer(width, current, total, truncated, false, theme);
            let c = dec(current) + "/"@ + dec(total);
            &&& f.len() == width
            &&& f.skip(f.len() - c.len()) == c
        }),
{
    let f = footer(width, current, total, truncated, false, theme);
    let c = dec(current) + "/"@ + dec(total);
    assert(f.skip(f.len() - c.len()) =~= c);
}

} // verus!
