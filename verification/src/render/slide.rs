//! Drawing a whole slide: where the title, the text columns and the image go, and the
//! footer.
use std::time::Duration;

use vstd::prelude::*;

use crate::model::{
    Block, BlockModel, ColumnAlign, CoverData, HorizontalAlign, ImageAsset, ImageAssetModel, Slide,
    SlideModel, VerticalAlign,
};
use crate::render::bigtext::{big_text, big_text_chars};
use crate::render::body::{
    copy_line, lines_model, render_body_tokens, BodyToken, RenderLine, TokenModel,
};
use crate::render::body::{raws_ok, shown_blocks, body_tokens};
use crate::render::code::CodeHighlighter;
use crate::render::style::{aligned, centered, footer, overlay, styled, LineRole, Theme};
use crate::render::text::{clip, clip_chars, spaces, spaces_vec};
use crate::render::style::{align_to_width, build_footer, centered_line, overlay_text_at, style_chars};
use crate::strings::trim;
use crate::render::layout::{column_split_defined, column_split_ok, column_widths, compute_column_widths};
use crate::strings::{chars_of, seqs_of};

verus! {

/// Where an image goes on the screen, in cells.
#[derive(Debug, Clone, Copy, PartialEq, Eq, Structural)]
pub struct NativeImageRect {
    pub x: u16,
    pub y: u16,
    pub width: u16,
    pub height: u16,
}

pub open spec fn sub16(a: u16, b: u16) -> u16 {
    if a >= b {
        (a - b) as u16
    } else {
        0
    }
}

pub open spec fn add16(a: u16, b: u16) -> u16 {
    if a + b <= 65535 {
        (a + b) as u16
    } else {
        65535
    }
}

pub open spec fn min16(a: u16, b: u16) -> u16 {
    if a <= b {
        a
    } else {
        b
    }
}

pub open spec fn max16(a: u16, b: u16) -> u16 {
    if a >= b {
        a
    } else {
        b
    }
}

/// The positive ratios; with none, `6:4` for a slide with an image and `1` without;
/// a slide with an image and a single ratio gets a second column of 4.
pub open spec fn positives(s: Seq<u16>) -> Seq<u16>
    decreases s.len(),
{
    if s.len() == 0 {
        seq![]
    } else if s.last() > 0 {
        positives(s.drop_last()).push(s.last())
    } else {
        positives(s.drop_last())
    }
}

pub open spec fn eff_ratios(input: Seq<u16>, has_image: bool) -> Seq<u16> {
    let p = positives(input);
    if p.len() == 0 {
        if has_image {
            seq![6u16, 4u16]
        } else {
            seq![1u16]
        }
    } else if has_image && p.len() < 2 {
        p.push(4u16)
    } else {
        p
    }
}

pub fn effective_ratios(input: &[u16], has_image: bool) -> (r: Vec<u16>)
    ensures
        r@ == eff_ratios(input@, has_image),
{
    let mut out: Vec<u16> = Vec::new();
    let mut i: usize = 0;
    assert(input@.take(0) =~= Seq::<u16>::empty());
    while i < input.len()
        invariant
            i <= input@.len(),
            out@ == positives(input@.take(i as int)),
        decreases input@.len() - i,
    {
        assert(input@.take(i + 1).drop_last() =~= input@.take(i as int));
        if input[i] > 0 {
            out.push(input[i]);
        }
        i = i + 1;
    }
    assert(input@.take(input@.len() as int) =~= input@);
    if out.len() == 0 {
        let mut v: Vec<u16> = Vec::new();
        if has_image {
            v.push(6);
            v.push(4);
            assert(v@ =~= seq![6u16, 4u16]);
        } else {
            v.push(1);
            assert(v@ =~= seq![1u16]);
        }
        return v;
    }
    if has_image && out.len() < 2 {
        out.push(4);
    }
    out
}

/// A slide is all image when it has one and no block but big titles.
pub open spec fn image_focus(s: SlideModel) -> bool {
    s.image is Some && forall|i: int| 0 <= i < s.blocks.len() ==> #[trigger] s.blocks[i] is BigText
}

pub fn slide_image_focus_mode(slide: &Slide) -> (r: bool)
    ensures
        r == image_focus(slide@),
{
    if slide.image.is_none() {
        return false;
    }
    let mut i: usize = 0;
    while i < slide.blocks.len()
        invariant
            i <= slide.blocks@.len(),
            forall|k: int| 0 <= k < i ==> #[trigger] slide@.blocks[k] is BigText,
        decreases slide.blocks@.len() - i,
    {
        match &slide.blocks[i] {
            Block::BigText(_) => {},
            _ => {
                assert(!(slide@.blocks[i as int] is BigText));
                return false;
            },
        }
        i = i + 1;
    }
    true
}

/// A slide of one big title and nothing else.
pub open spec fn single_bigtext(s: SlideModel) -> bool {
    s.title is None && s.image is None && s.blocks.len() == 1 && s.blocks[0] is BigText
}

pub fn is_single_bigtext_slide(slide: &Slide) -> (r: bool)
    ensures
        r == single_bigtext(slide@),
{
    if slide.title.is_some() {
        return false;
    }
    slide.image.is_none() && slide.blocks.len() == 1 && match &slide.blocks[0] {
        Block::BigText(_) => true,
        _ => false,
    }
}

pub open spec fn sat(n: nat) -> nat {
    if n <= usize::MAX {
        n
    } else {
        usize::MAX as nat
    }
}

/// The rows of the big titles among the blocks.
pub open spec fn bigtext_rows(blocks: Seq<BlockModel>, width: nat) -> nat
    decreases blocks.len(),
{
    if blocks.len() == 0 {
        0
    } else {
        bigtext_rows(blocks.drop_last(), width) + match blocks.last() {
            BlockModel::BigText(t) => big_text(t, width).len(),
            _ => 0,
        }
    }
}

/// The rows kept for the title above an image: the configured title, else the big
/// titles among the blocks, and a gap of two rows; none when there is no title.
pub open spec fn title_rows_of(s: SlideModel, width: nat) -> nat {
    match s.title {
        Some(t) => sat(big_text(t, width).len() + 2),
        None => {
            let r = sat(bigtext_rows(s.blocks, width));
            if r == 0 {
                0
            } else {
                sat(r + 2)
            }
        },
    }
}

pub fn title_reserved_rows(slide: &Slide, term_width: u16) -> (r: usize)
    ensures
        r == title_rows_of(slide@, term_width as nat),
{
    match &slide.title {
        Some(t) => {
            let rows = big_text_chars(&chars_of(t.as_str()), term_width as usize);
            return rows.len().saturating_add(2);
        },
        None => {},
    }
    let mut total: usize = 0;
    let mut i: usize = 0;
    let ghost bs = slide@.blocks;
    assert(bs.take(0) =~= Seq::<BlockModel>::empty());
    while i < slide.blocks.len()
        invariant
            i <= slide.blocks@.len(),
            bs == slide@.blocks,
            total == sat(bigtext_rows(bs.take(i as int), term_width as nat)),
        decreases slide.blocks@.len() - i,
    {
        assert(bs.take(i + 1).drop_last() =~= bs.take(i as int));
        match &slide.blocks[i] {
            Block::BigText(t) => {
                let rows = big_text_chars(&chars_of(t.as_str()), term_width as usize);
                total = total.saturating_add(rows.len());
            },
            _ => {},
        }
        i = i + 1;
    }
    assert(bs.take(slide.blocks@.len() as int) =~= bs);
    if total == 0 {
        0
    } else {
        total.saturating_add(2)
    }
}

/// `v * 96 / 100` and `v * 9 / 10`, rounded half up: the share of a column an image
/// takes across and down.
pub open spec fn pct96(v: u16) -> u16 {
    ((96 * v + 50) / 100) as u16
}

pub open spec fn pct90(v: u16) -> u16 {
    ((9 * v + 5) / 10) as u16
}

/// The left edge of column `k`: the widths of the columns before it and one gap
/// after each.
pub open spec fn col_x(ws: Seq<u16>, k: int) -> nat
    decreases k,
{
    if k <= 0 {
        0
    } else {
        col_x(ws, k - 1) + ws[k - 1] as nat + 1
    }
}

pub open spec fn h_offset(a: HorizontalAlign, room: u16, w: u16) -> u16 {
    match a {
        HorizontalAlign::Left => 0,
        HorizontalAlign::Center => sub16(room, w) / 2,
        HorizontalAlign::Right => sub16(room, w),
    }
}

pub open spec fn v_offset(a: VerticalAlign, room: u16, h: u16) -> u16 {
    match a {
        VerticalAlign::Top => 0,
        VerticalAlign::Middle => sub16(room, h) / 2,
        VerticalAlign::Bottom => sub16(room, h),
    }
}

/// Where a slide's image goes on a screen of `tw` x `th` cells (the last row is the
/// footer): below the title of a cover; under the title of an all-image slide; else
/// in the last column, at 96% of its width and 90% of the height under the title, in
/// the image's alignment. No image, or no room, gives none.
pub open spec fn native_rect(s: SlideModel, tw: u16, th: u16, ratios: Seq<u16>) -> Option<
    NativeImageRect,
> {
    if s.image is None || tw == 0 || th <= 1 {
        None
    } else {
        let img = s.image->0;
        let body_h = (th - 1) as u16;
        match s.cover {
            Some(cover) => {
                let title_rows = big_text(cover.title, tw as nat).len() as u16;
                let y1 = add16(1, title_rows);
                let y2 = if cover.subtitle is Some {
                    add16(y1, 2)
                } else {
                    y1
                };
                let y = min16(add16(y2, 3), sub16(body_h, 1));
                let author_rows: u16 = if cover.author is Some {
                    2
                } else {
                    0
                };
                let h = max16(sub16(sub16(sub16(body_h, y), 1), author_rows), 1);
                Some(NativeImageRect { x: 0, y, width: tw, height: h })
            },
            None => if image_focus(s) {
                let title_rows = title_rows_of(s, tw as nat) as u16;
                let image_y = min16(title_rows, sub16(body_h, 1));
                let avail = sub16(body_h, image_y);
                let width = min16(max16(sub16(tw, 2), 8), tw);
                let height = min16(max16(sub16(avail, 1), 6), max16(avail, 1));
                let va = if s.title is None && s.blocks.len() == 0 {
                    VerticalAlign::Middle
                } else {
                    img.valign
                };
                Some(
                    NativeImageRect {
                        x: h_offset(img.halign, tw, width),
                        y: (image_y + v_offset(va, avail, height)) as u16,
                        width,
                        height,
                    },
                )
            } else {
                let ws = column_widths(tw, eff_ratios(ratios, true));
                if ws.len() < 2 {
                    let width = min16(max16(sub16(tw, 4), 8), tw);
                    let height = min16(max16(sub16(body_h, 2), 6), max16(body_h, 1));
                    Some(
                        NativeImageRect {
                            x: sub16(tw, width) / 2,
                            y: sub16(body_h, height) / 2,
                            width,
                            height,
                        },
                    )
                } else {
                    let ic = ws.len() - 1;
                    let icx = col_x(ws, ic) as u16;
                    let icw = ws[ic];
                    let top = min16(title_rows_of(s, tw as nat) as u16, sub16(body_h, 1));
                    let ch = sub16(body_h, top);
                    let width = min16(max16(pct96(icw), 8), icw);
                    let height = min16(max16(pct90(ch), 6), max16(ch, 1));
                    Some(
                        NativeImageRect {
                            x: (icx + h_offset(img.halign, icw, width)) as u16,
                            y: (top + v_offset(img.valign, ch, height)) as u16,
                            width,
                            height,
                        },
                    )
                }
            },
        }
    }
}

/// The inputs on which the column split of an image slide ends (see
/// `column_split_defined`).
pub open spec fn rect_defined(s: SlideModel, tw: u16, th: u16, ratios: Seq<u16>) -> bool {
    (s.image is Some && tw > 0 && th > 1 && s.cover is None && !image_focus(s)) ==> column_split_defined(
        tw,
        eff_ratios(ratios, true),
    )
}

proof fn lemma_col_x_sum(ws: Seq<u16>, k: int)
    requires
        0 <= k <= ws.len(),
    ensures
        col_x(ws, k) == crate::render::layout::seq_sum(ws.take(k)) + k,
    decreases k,
{
    if k > 0 {
        lemma_col_x_sum(ws, k - 1);
        assert(ws.take(k).drop_last() =~= ws.take(k - 1));
    }
}

/// The image's last-column place stays within the width.
proof fn lemma_image_column(tw: u16, ratios: Seq<u16>)
    requires
        column_split_defined(tw, eff_ratios(ratios, true)),
        tw > 0,
        column_widths(tw, eff_ratios(ratios, true)).len() >= 2,
    ensures
        ({
            let ws = column_widths(tw, eff_ratios(ratios, true));
            let ic = ws.len() - 1;
            (col_x(ws, ic) + ws[ic] <= tw) || (ws[ic] == 1 && col_x(ws, ic) <= 2 * ic)
        }),
{
    let r = eff_ratios(ratios, true);
    let ws = column_widths(tw, r);
    let ic = ws.len() - 1;
    let c = crate::render::layout::col_content(tw, r.len());
    lemma_col_x_sum(ws, ic);
    if c > 0 {
        crate::render::layout::lemma_columns_fill_width(tw, r);
        assert(ws.take(ic).push(ws[ic]) =~= ws);
        crate::render::layout::lemma_sum_push(ws.take(ic), ws[ic]);
    } else {
        assert(ws[ic] == 1);
        assert forall|j: int| 0 <= j < ws.take(ic).len() implies ws.take(ic)[j] <= 1 by {}
        crate::render::layout::lemma_sum_small(ws.take(ic));
    }
}

fn h_off(a: HorizontalAlign, room: u16, w: u16) -> (r: u16)
    ensures
        r == h_offset(a, room, w),
{
    match a {
        HorizontalAlign::Left => 0,
        HorizontalAlign::Center => room.saturating_sub(w) / 2,
        HorizontalAlign::Right => room.saturating_sub(w),
    }
}

fn v_off(a: VerticalAlign, room: u16, h: u16) -> (r: u16)
    ensures
        r == v_offset(a, room, h),
{
    match a {
        VerticalAlign::Top => 0,
        VerticalAlign::Middle => room.saturating_sub(h) / 2,
        VerticalAlign::Bottom => room.saturating_sub(h),
    }
}

/// Whether `compute_native_image_rect` can place the image (see `rect_defined`).
pub fn rect_is_defined(slide: &Slide, term_width: u16, term_height: u16, column_ratios: &[u16]) -> (r: bool)
    ensures
        r == rect_defined(slide@, term_width, term_height, column_ratios@),
{
    if slide.image.is_some() && term_width > 0 && term_height > 1 && slide.cover.is_none()
        && !slide_image_focus_mode(slide) {
        let eff = effective_ratios(column_ratios, true);
        column_split_ok(term_width, &eff)
    } else {
        true
    }
}

pub fn compute_native_image_rect(slide: &Slide, term_width: u16, term_height: u16, column_ratios: &[u16]) -> (r:
    Option<NativeImageRect>)
    requires
        rect_defined(slide@, term_width, term_height, column_ratios@),
    ensures
        r == native_rect(slide@, term_width, term_height, column_ratios@),
{
    if slide.image.is_none() || term_width == 0 || term_height <= 1 {
        return None;
    }
    let image = match &slide.image {
        Some(i) => i,
        None => {
            return None;
        },
    };
    let body_h = term_height - 1;
    match &slide.cover {
        Some(cover) => {
            let title_rows = big_text_chars(&chars_of(cover.title.as_str()), term_width as usize).len() as u16;
            let y1 = 1u16.saturating_add(title_rows);
            let y2 = if cover.subtitle.is_some() {
                y1.saturating_add(2)
            } else {
                y1
            };
            let y3 = y2.saturating_add(3);
            let lim = body_h.saturating_sub(1);
            let y = if y3 <= lim {
                y3
            } else {
                lim
            };
            let author_rows: u16 = if cover.author.is_some() {
                2
            } else {
                0
            };
            let h0 = body_h.saturating_sub(y).saturating_sub(1).saturating_sub(author_rows);
            let h = if h0 >= 1 {
                h0
            } else {
                1
            };
            return Some(NativeImageRect { x: 0, y, width: term_width, height: h });
        },
        None => {},
    }
    if slide_image_focus_mode(slide) {
        let title_rows = title_reserved_rows(slide, term_width) as u16;
        let lim = body_h.saturating_sub(1);
        let image_y = if title_rows <= lim {
            title_rows
        } else {
            lim
        };
        let avail = body_h.saturating_sub(image_y);
        let w0 = term_width.saturating_sub(2);
        let w1 = if w0 >= 8 {
            w0
        } else {
            8
        };
        let width = if w1 <= term_width {
            w1
        } else {
            term_width
        };
        let h0 = avail.saturating_sub(1);
        let h1 = if h0 >= 6 {
            h0
        } else {
            6
        };
        let amax = if avail >= 1 {
            avail
        } else {
            1
        };
        let height = if h1 <= amax {
            h1
        } else {
            amax
        };
        let va = if slide.title.is_none() && slide.blocks.len() == 0 {
            VerticalAlign::Middle
        } else {
            image.valign
        };
        let x = h_off(image.halign, term_width, width);
        let dy = v_off(va, avail, height);
        return Some(NativeImageRect { x, y: image_y + dy, width, height });
    }
    let ratios = effective_ratios(column_ratios, true);
    let widths = compute_column_widths(term_width, &ratios);
    if widths.len() < 2 {
        let w0 = term_width.saturating_sub(4);
        let w1 = if w0 >= 8 {
            w0
        } else {
            8
        };
        let width = if w1 <= term_width {
            w1
        } else {
            term_width
        };
        let h0 = body_h.saturating_sub(2);
        let h1 = if h0 >= 6 {
            h0
        } else {
            6
        };
        let bmax = if body_h >= 1 {
            body_h
        } else {
            1
        };
        let height = if h1 <= bmax {
            h1
        } else {
            bmax
        };
        return Some(
            NativeImageRect {
                x: term_width.saturating_sub(width) / 2,
                y: body_h.saturating_sub(height) / 2,
                width,
                height,
            },
        );
    }
    let ic = widths.len() - 1;
    let mut sum: u128 = 0;
    let mut k: usize = 0;
    while k < ic
        invariant
            k <= ic,
            ic < widths@.len(),
            sum == col_x(widths@, k as int),
            sum <= k * 65536,
        decreases ic - k,
    {
        sum = sum + widths[k] as u128 + 1;
        k = k + 1;
    }
    let icx = sum as u16;
    let icw = widths[ic];
    proof {
        lemma_image_column(term_width, column_ratios@);
    }
    let title_rows = title_reserved_rows(slide, term_width) as u16;
    let lim = body_h.saturating_sub(1);
    let top = if title_rows <= lim {
        title_rows
    } else {
        lim
    };
    let ch = body_h.saturating_sub(top);
    let p96: u16 = ((96 * (icw as u32) + 50) / 100) as u16;
    let w1 = if p96 >= 8 {
        p96
    } else {
        8
    };
    let width = if w1 <= icw {
        w1
    } else {
        icw
    };
    let p90: u16 = ((9 * (ch as u32) + 5) / 10) as u16;
    let h1 = if p90 >= 6 {
        p90
    } else {
        6
    };
    let cmax = if ch >= 1 {
        ch
    } else {
        1
    };
    let height = if h1 <= cmax {
        h1
    } else {
        cmax
    };
    let dx = h_off(image.halign, icw, width);
    let dy = v_off(image.valign, ch, height);
    assert(dx <= icw);
    Some(NativeImageRect { x: icx + dx, y: top + dy, width, height })
}

/// The rendered lines among the tokens, in order.
pub open spec fn token_lines(ts: Seq<TokenModel>) -> Seq<(Seq<char>, LineRole)>
    decreases ts.len(),
{
    if ts.len() == 0 {
        seq![]
    } else {
        let rest = token_lines(ts.drop_last());
        match ts.last() {
            TokenModel::Line(t, r) => rest.push((t, r)),
            _ => rest,
        }
    }
}

fn lines_of_tokens(tokens: &Vec<BodyToken>) -> (r: Vec<RenderLine>)
    ensures
        lines_model(r@) == token_lines(crate::render::body::tokens_model(tokens@)),
{
    let ghost tm = crate::render::body::tokens_model(tokens@);
    let mut out: Vec<RenderLine> = Vec::new();
    let mut i: usize = 0;
    assert(tm.take(0) =~= Seq::<TokenModel>::empty());
    while i < tokens.len()
        invariant
            i <= tokens@.len(),
            tm == crate::render::body::tokens_model(tokens@),
            lines_model(out@) == token_lines(tm.take(i as int)),
        decreases tokens@.len() - i,
    {
        assert(tm.take(i + 1).drop_last() =~= tm.take(i as int));
        assert(tm.take(i + 1).last() == tokens@[i as int]@);
        match &tokens[i] {
            BodyToken::Line(l) => {
                let c = copy_line(l);
                let ghost before = out@;
                out.push(c);
                assert(lines_model(out@) =~= lines_model(before).push((l.text@, l.role)));
            },
            _ => {},
        }
        i = i + 1;
    }
    assert(tm.take(tokens@.len() as int) =~= tm);
    out
}

/// How many lines at the start are title rows.
pub open spec fn leading_titles(ls: Seq<(Seq<char>, LineRole)>) -> nat
    decreases ls.len(),
{
    if ls.len() > 0 && ls[0].1 is Title {
        1 + leading_titles(ls.drop_first())
    } else {
        0
    }
}

pub fn leading_title_rows(lines: &Vec<RenderLine>) -> (r: usize)
    ensures
        r == leading_titles(lines_model(lines@)),
        r <= lines@.len(),
{
    let ghost lm = lines_model(lines@);
    let mut rows: usize = 0;
    assert(lm.skip(0) =~= lm);
    while rows < lines.len()
        invariant
            rows <= lines@.len(),
            lm == lines_model(lines@),
            leading_titles(lm) == rows + leading_titles(lm.skip(rows as int)),
        decreases lines@.len() - rows,
    {
        assert(lm.skip(rows as int).drop_first() =~= lm.skip(rows + 1));
        match lines[rows].role {
            LineRole::Title { .. } => {},
            _ => {
                return rows;
            },
        }
        rows = rows + 1;
    }
    assert(lm.skip(rows as int) =~= Seq::<(Seq<char>, LineRole)>::empty());
    rows
}

fn is_empty_role(r: LineRole) -> (b: bool)
    ensures
        b == r is Empty,
{
    match r {
        LineRole::Empty => true,
        _ => false,
    }
}

/// The first line at or after `i` that is not an empty spacing line.
pub open spec fn skip_empty(ls: Seq<(Seq<char>, LineRole)>, i: nat) -> nat
    decreases ls.len() - i,
{
    if i < ls.len() && ls[i as int].1 is Empty {
        skip_empty(ls, i + 1)
    } else {
        i
    }
}

/// The title lines of a slide, where its body starts among its lines, and whether
/// the title stands alone in the middle: a configured title is drawn big (and
/// centred when the slide has nothing else); else the big title rows the body starts
/// with, and the empty lines after them skipped.
pub open spec fn title_info(s: SlideModel, tl: Seq<(Seq<char>, LineRole)>, width: nat) -> (
    Seq<(Seq<char>, LineRole)>,
    nat,
    bool,
) {
    match s.title {
        Some(t) => {
            let rows = big_text(t, width);
            let total: nat = if rows.len() >= 1 {
                rows.len()
            } else {
                1
            };
            (
                Seq::new(
                    rows.len(),
                    |i: int| (rows[i], LineRole::Title { row: i as usize, total: total as usize }),
                ),
                0,
                s.image is None && s.blocks.len() == 0,
            )
        },
        None => {
            let tr = leading_titles(tl);
            (tl.take(tr as int), skip_empty(tl, tr), single_bigtext(s))
        },
    }
}

pub fn configured_or_leading_title_lines(slide: &Slide, text_lines: &Vec<RenderLine>, width: usize) -> (r: (
    Vec<RenderLine>,
    usize,
    bool,
))
    ensures
        (lines_model(r.0@), r.1 as nat, r.2) == title_info(slide@, lines_model(text_lines@), width as nat),
        r.1 <= text_lines@.len(),
{
    match &slide.title {
        Some(t) => {
            let rows = big_text_chars(&chars_of(t.as_str()), width);
            let ghost rs = seqs_of(rows@);
            let total = if rows.len() >= 1 {
                rows.len()
            } else {
                1
            };
            let mut out: Vec<RenderLine> = Vec::new();
            let mut i: usize = 0;
            while i < rows.len()
                invariant
                    i <= rows@.len(),
                    rs == seqs_of(rows@),
                    total == (if rows@.len() >= 1 { rows@.len() } else { 1 }),
                    lines_model(out@) =~= Seq::new(
                        i as nat,
                        |k: int| (rs[k], LineRole::Title { row: k as usize, total: total }),
                    ),
                decreases rows@.len() - i,
            {
                let l = RenderLine { text: rows[i].clone(), role: LineRole::Title { row: i, total } };
                assert(l.text@ =~= rs[i as int]);
                let ghost before = out@;
                out.push(l);
                assert(lines_model(out@) =~= lines_model(before).push((l.text@, l.role)));
                i = i + 1;
            }
            let center = slide.image.is_none() && slide.blocks.len() == 0;
            (out, 0, center)
        },
        None => {
            let ghost lm = lines_model(text_lines@);
            let title_rows = leading_title_rows(text_lines);
            let mut body_start = title_rows;
            while body_start < text_lines.len() && is_empty_role(text_lines[body_start].role)
                invariant
                    title_rows <= body_start <= text_lines@.len(),
                    lm == lines_model(text_lines@),
                    skip_empty(lm, title_rows as nat) == skip_empty(lm, body_start as nat),
                decreases text_lines@.len() - body_start,
            {
                body_start = body_start + 1;
            }
            let mut out: Vec<RenderLine> = Vec::new();
            let mut i: usize = 0;
            while i < title_rows
                invariant
                    i <= title_rows,
                    title_rows <= text_lines@.len(),
                    lm == lines_model(text_lines@),
                    lines_model(out@) =~= lm.take(i as int),
                decreases title_rows - i,
            {
                let c = copy_line(&text_lines[i]);
                let ghost before = out@;
                out.push(c);
                assert(lines_model(out@) =~= lines_model(before).push((c.text@, c.role)));
                i = i + 1;
            }
            (out, body_start, is_single_bigtext_slide(slide))
        },
    }
}

/// A slide to draw and everything that decides how.
pub struct RenderParams<'a> {
    pub slide: &'a Slide,
    pub slide_number: usize,
    pub total_slides: usize,
    pub term_width: u16,
    pub term_height: u16,
    pub ansi: bool,
    pub slide_elapsed: Duration,
    pub highlighter: &'a CodeHighlighter,
    pub prefer_real_images: bool,
    pub visible_blocks: Option<usize>,
    pub theme: &'a Theme,
    pub line_spacing: u8,
    pub column_ratios: &'a [u16],
}

/// The rows of a drawn slide, the footer last, and whether its text did not fit.
pub struct RenderOutput {
    pub lines: Vec<String>,
    pub truncated: bool,
}

/// What a drawing depends on, as values.
pub struct ParamsModel {
    pub slide: SlideModel,
    pub slide_number: nat,
    pub total_slides: nat,
    pub tw: u16,
    pub th: u16,
    pub ansi: bool,
    pub prefer: bool,
    pub visible: Option<usize>,
    pub theme: Theme,
    pub spacing: u8,
    pub ratios: Seq<u16>,
}

pub open spec fn params_model(p: RenderParams) -> ParamsModel {
    ParamsModel {
        slide: p.slide@,
        slide_number: p.slide_number as nat,
        total_slides: p.total_slides as nat,
        tw: p.term_width,
        th: p.term_height,
        ansi: p.ansi,
        prefer: p.prefer_real_images,
        visible: p.visible_blocks,
        theme: *p.theme,
        spacing: p.line_spacing,
        ratios: p.column_ratios@,
    }
}

/// The rows above the footer.
pub open spec fn body_rows(th: u16) -> nat {
    if th >= 1 {
        (th - 1) as nat
    } else {
        0
    }
}

pub open spec fn blank_screen(tw: nat, bh: nat) -> Seq<Seq<char>> {
    Seq::new(bh, |_r: int| spaces(tw))
}

/// What an image shows: its load error, else the frame chosen (nothing when none is).
pub open spec fn image_lines(img: ImageAssetModel, frame: Option<nat>) -> Seq<Seq<char>> {
    match img.load_error {
        Some(err) => seq!["[image load error: "@ + err + "]"@],
        None => match frame {
            Some(k) => img.frames[k as int].lines,
            None => seq![],
        },
    }
}

/// A frame index that the animation clock can give for an image.
pub open spec fn frame_ok(img: Option<ImageAssetModel>, frame: Option<nat>, ms: nat) -> bool {
    match img {
        Some(i) => frame == crate::render::image_ascii::frame_at(i.frames.len(), i.delays_ms, ms),
        None => frame is None,
    }
}

/// The ratios of the text and image columns.
pub open spec fn slide_ratios(s: SlideModel, ratios: Seq<u16>) -> Seq<u16> {
    if s.image is Some {
        eff_ratios(ratios, true)
    } else {
        seq![1u16]
    }
}

/// The number of text columns: all but the image column.
pub open spec fn text_cols(s: SlideModel, ws: Seq<u16>) -> nat {
    if s.image is Some {
        if ws.len() >= 2 {
            (ws.len() - 1) as nat
        } else {
            1
        }
    } else {
        1
    }
}

pub open spec fn max_width(ws: Seq<u16>) -> nat
    decreases ws.len(),
{
    if ws.len() == 0 {
        0
    } else {
        let m = max_width(ws.drop_last());
        if m >= ws.last() {
            m
        } else {
            ws.last() as nat
        }
    }
}

/// The width text is wrapped to: the widest text column, the screen width when there
/// is none.
pub open spec fn text_width(s: SlideModel, tw: u16, ratios: Seq<u16>) -> nat {
    let ws = column_widths(tw, slide_ratios(s, ratios));
    let k = text_cols(s, ws);
    if k <= ws.len() && k > 0 && ws.len() > 0 {
        max_width(ws.take(k as int))
    } else if ws.len() > 0 {
        max_width(ws)
    } else {
        tw as nat
    }
}

/// Where the text columns stand while the body is placed.
pub struct Layout {
    pub screen: Seq<Seq<char>>,
    pub rows: Seq<nat>,
    pub col: nat,
    pub aligns: Seq<ColumnAlign>,
    pub cursor: nat,
    pub truncated: bool,
}

/// One token placed: a column break moves to a text column (the last one at most),
/// an alignment sets the current column's, and a line past the title goes on the
/// next free row of its column, clipped and aligned to it (code lines as they are);
/// a line below the last row marks the slide truncated.
pub open spec fn place_step(
    st: Layout,
    t: TokenModel,
    ws: Seq<u16>,
    ncols: nat,
    start: nat,
    bh: nat,
    ansi: bool,
    theme: Theme,
) -> Layout {
    match t {
        TokenModel::ColumnBreak(target) => Layout {
            col: if target < ncols {
                target as nat
            } else {
                (ncols - 1) as nat
            },
            ..st
        },
        TokenModel::Align(a) => Layout { aligns: st.aligns.update(st.col as int, a), ..st },
        TokenModel::Line(text, role) => if st.cursor < start || st.col >= ws.len() {
            Layout { cursor: st.cursor + 1, ..st }
        } else {
            let row = st.rows[st.col as int];
            if row >= bh {
                Layout { cursor: st.cursor + 1, truncated: true, ..st }
            } else {
                let w = ws[st.col as int] as nat;
                let al = if role is Code {
                    text
                } else {
                    aligned(clip(text, w), w, st.aligns[st.col as int])
                };
                Layout {
                    cursor: st.cursor + 1,
                    screen: st.screen.update(
                        row as int,
                        overlay(st.screen[row as int], sat(col_x(ws, st.col as int)), styled(al, role, ansi, theme)),
                    ),
                    rows: st.rows.update(st.col as int, row + 1),
                    ..st
                }
            }
        },
    }
}

pub open spec fn place_fold(
    init: Layout,
    ts: Seq<TokenModel>,
    ws: Seq<u16>,
    ncols: nat,
    start: nat,
    bh: nat,
    ansi: bool,
    theme: Theme,
) -> Layout
    decreases ts.len(),
{
    if ts.len() == 0 {
        init
    } else {
        place_step(place_fold(init, ts.drop_last(), ws, ncols, start, bh, ansi, theme), ts.last(), ws, ncols, start, bh, ansi, theme)
    }
}

/// The title rows written over the screen from row `top`, each centred and coloured.
pub open spec fn place_titles(
    screen: Seq<Seq<char>>,
    titles: Seq<(Seq<char>, LineRole)>,
    top: nat,
    count: nat,
    tw: nat,
    ansi: bool,
    theme: Theme,
) -> Seq<Seq<char>> {
    Seq::new(
        screen.len(),
        |r: int|
            if top <= r < top + count {
                styled(centered(titles[r - top].0, tw), titles[r - top].1, ansi, theme)
            } else {
                screen[r]
            },
    )
}

/// The image lines written over the screen from row `y`, column `x`, clipped to
/// `width`, as far as the screen goes.
pub open spec fn place_image(screen: Seq<Seq<char>>, img: Seq<Seq<char>>, x: nat, y: nat, width: nat) -> Seq<
    Seq<char>,
> {
    Seq::new(
        screen.len(),
        |r: int|
            if y <= r && r - y < img.len() {
                overlay(screen[r], x, clip(img[r - y], width))
            } else {
                screen[r]
            },
    )
}

/// The image's caption under it, centred on it, when it has one and there is a row.
pub open spec fn place_caption(
    screen: Seq<Seq<char>>,
    img: ImageAssetModel,
    rect: NativeImageRect,
    ansi: bool,
    theme: Theme,
) -> Seq<Seq<char>> {
    match img.alt {
        Some(c) => {
            let row = rect.y + rect.height;
            if trim(c).len() > 0 && row < screen.len() {
                screen.update(
                    row,
                    overlay(
                        screen[row],
                        rect.x as nat,
                        styled(centered(c, rect.width as nat), LineRole::ImageCaption, ansi, theme),
                    ),
                )
            } else {
                screen
            }
        },
        None => screen,
    }
}

pub open spec fn layout_model(
    screen: Seq<Vec<char>>,
    rows: Seq<usize>,
    col: usize,
    aligns: Seq<ColumnAlign>,
    cursor: usize,
    truncated: bool,
) -> Layout {
    Layout {
        screen: seqs_of(screen),
        rows: rows.map_values(|r: usize| r as nat),
        col: col as nat,
        aligns,
        cursor: cursor as nat,
        truncated,
    }
}

/// The drawing of a slide in text columns, with its image in the last column, given
/// what the highlighter gave for each block and the animation frame chosen.
pub open spec fn columns_render(p: ParamsModel, raws: Seq<Seq<Seq<char>>>, frame: Option<nat>) -> (
    Seq<Seq<char>>,
    bool,
) {
    let s = p.slide;
    let tw = p.tw as nat;
    let bh = body_rows(p.th);
    let ws = column_widths(p.tw, slide_ratios(s, p.ratios));
    let ncols = text_cols(s, ws);
    let ts = body_tokens(s, text_width(s, p.tw, p.ratios), p.visible, p.spacing, raws);
    let tl = token_lines(ts);
    let rect = native_rect(s, p.tw, p.th, p.ratios);
    let imgl = if s.image is Some && !p.prefer && rect is Some {
        image_lines(s.image->0, frame)
    } else {
        seq![]
    };
    let info = title_info(s, tl, tw);
    let titles = info.0;
    let start = info.1;
    let center = info.2;
    let nt = titles.len();
    let body_count: nat = if tl.len() >= start {
        (tl.len() - start) as nat
    } else {
        0
    };
    let gap: nat = if nt > 0 && !center {
        2
    } else {
        0
    };
    let truncated0 = nt + gap + body_count > bh || (imgl.len() > 0 && imgl.len() > bh);
    let top: nat = if center {
        (if bh >= nt {
            (bh - nt) as nat
        } else {
            0
        }) / 2
    } else {
        0
    };
    let room: nat = if bh >= top {
        (bh - top) as nat
    } else {
        0
    };
    let count = if nt <= room {
        nt
    } else {
        room
    };
    let screen1 = place_titles(blank_screen(tw, bh), titles, top, count, tw, p.ansi, p.theme);
    let below = sat(sat(top + nt) + gap);
    let text_start = if center {
        bh
    } else if below <= bh {
        below
    } else {
        bh
    };
    let init = Layout {
        screen: screen1,
        rows: Seq::new(ncols, |_i: int| text_start),
        col: 0,
        aligns: Seq::new(ncols, |_i: int| ColumnAlign::Left),
        cursor: 0,
        truncated: truncated0,
    };
    let lay = place_fold(init, ts, ws, ncols, start, bh, p.ansi, p.theme);
    let screen3 = match rect {
        Some(rc) => place_caption(
            place_image(lay.screen, imgl, rc.x as nat, rc.y as nat, rc.width as nat),
            s.image->0,
            rc,
            p.ansi,
            p.theme,
        ),
        None => lay.screen,
    };
    (
        screen3.push(footer(tw, p.slide_number + 1, p.total_slides, lay.truncated, p.ansi, p.theme)),
        lay.truncated,
    )
}

/// The column widths of a slide, how many are text columns, and the text width.
fn text_layout(slide: &Slide, tw: u16, ratios: &[u16]) -> (r: (Vec<u16>, usize, usize))
    requires
        column_split_defined(tw, slide_ratios(slide@, ratios@)),
    ensures
        r.0@ == column_widths(tw, slide_ratios(slide@, ratios@)),
        r.1 == text_cols(slide@, r.0@),
        r.2 == text_width(slide@, tw, ratios@),
        r.1 >= 1,
        tw > 0 ==> r.1 <= r.0@.len(),
{
    let has_image = slide.image.is_some();
    let rs = if has_image {
        effective_ratios(ratios, true)
    } else {
        let mut v: Vec<u16> = Vec::new();
        v.push(1);
        assert(v@ =~= seq![1u16]);
        v
    };
    let ws = compute_column_widths(tw, &rs);
    proof {
        if tw > 0 && rs@.len() > 0 && crate::render::layout::col_content(tw, rs@.len()) > 0 {
            crate::render::layout::lemma_columns_fill_width(tw, rs@);
        }
    }
    let ncols: usize = if has_image {
        if ws.len() >= 2 {
            ws.len() - 1
        } else {
            1
        }
    } else {
        1
    };
    let k = if ncols <= ws.len() {
        ncols
    } else {
        ws.len()
    };
    let mut m: u16 = 0;
    let mut i: usize = 0;
    assert(ws@.take(0) =~= Seq::<u16>::empty());
    while i < k
        invariant
            i <= k,
            k <= ws@.len(),
            m == max_width(ws@.take(i as int)),
        decreases k - i,
    {
        assert(ws@.take(i + 1).drop_last() =~= ws@.take(i as int));
        if ws[i] > m {
            m = ws[i];
        }
        i = i + 1;
    }
    let width: usize = if ws.len() == 0 {
        tw as usize
    } else {
        proof {
            if k == ws@.len() {
                assert(ws@.take(k as int) =~= ws@);
            }
        }
        m as usize
    };
    (ws, ncols, width)
}

/// The left edges of the columns, in cells (at most `usize::MAX`).
fn column_xs(ws: &Vec<u16>) -> (r: Vec<usize>)
    ensures
        r@.len() == ws@.len(),
        forall|k: int| 0 <= k < ws@.len() ==> r@[k] == sat(#[trigger] col_x(ws@, k)),
{
    let mut out: Vec<usize> = Vec::new();
    let mut x: u128 = 0;
    let mut i: usize = 0;
    while i < ws.len()
        invariant
            i <= ws@.len(),
            out@.len() == i,
            x == col_x(ws@, i as int),
            x <= i * 65536,
            forall|k: int| 0 <= k < i ==> out@[k] == sat(#[trigger] col_x(ws@, k)),
        decreases ws@.len() - i,
    {
        let v: usize = if x <= usize::MAX as u128 {
            x as usize
        } else {
            usize::MAX
        };
        out.push(v);
        x = x + ws[i] as u128 + 1;
        i = i + 1;
    }
    out
}

/// The lines that an image shows on a slide, and the animation frame they come from.
fn image_lines_exec(slide: &Slide, elapsed: &Duration, shown: bool) -> (r: (Vec<Vec<char>>, Ghost<Option<nat>>))
    ensures
        frame_ok(crate::model::opt_image(slide.image), r.1@, crate::render::image_ascii::whole_millis(*elapsed)),
        seqs_of(r.0@) == (if shown && slide.image is Some {
            image_lines(slide@.image->0, r.1@)
        } else {
            Seq::<Seq<char>>::empty()
        }),
{
    match &slide.image {
        None => {
            let none: Ghost<Option<nat>> = Ghost(None);
            (Vec::new(), none)
        },
        Some(img) => {
            let ms = crate::render::image_ascii::millis_of(elapsed);
            let k = crate::render::image_ascii::frame_index_at(img, ms);
            let fr: Ghost<Option<nat>> = Ghost(
                crate::render::image_ascii::frame_at(img.frames@.len(), img.delays_ms@, ms as nat),
            );
            assert(frame_ok(crate::model::opt_image(slide.image), fr@, crate::render::image_ascii::whole_millis(*elapsed)));
            let mut out: Vec<Vec<char>> = Vec::new();
            if !shown {
                return (out, fr);
            }
            match &img.load_error {
                Some(err) => {
                    let mut l = chars_of("[image load error: ");
                    crate::strings::push_chars(&mut l, &chars_of(err.as_str()));
                    crate::strings::push_chars(&mut l, &chars_of("]"));
                    out.push(l);
                    assert(seqs_of(out@) =~= seq!["[image load error: "@ + err@ + "]"@]);
                },
                None => match k {
                    Some(k) => {
                        let f = &img.frames[k];
                        let mut i: usize = 0;
                        while i < f.lines.len()
                            invariant
                                i <= f.lines@.len(),
                                seqs_of(out@) =~= crate::model::strs(f.lines@).take(i as int),
                            decreases f.lines@.len() - i,
                        {
                            let l = chars_of(f.lines[i].as_str());
                            proof { crate::strings::lemma_seqs_of_push(out@, l); }
                            out.push(l);
                            i = i + 1;
                        }
                        assert(crate::model::strs(f.lines@).take(f.lines@.len() as int) =~= crate::model::strs(f.lines@));
                    },
                    None => {
                        assert(seqs_of(out@) =~= Seq::<Seq<char>>::empty());
                    },
                },
            }
            (out, fr)
        },
    }
}

/// A screen of `bh` rows of `tw` spaces.
fn blank_rows(tw: usize, bh: usize) -> (r: Vec<Vec<char>>)
    ensures
        seqs_of(r@) == blank_screen(tw as nat, bh as nat),
{
    let mut out: Vec<Vec<char>> = Vec::new();
    let mut i: usize = 0;
    while i < bh
        invariant
            i <= bh,
            seqs_of(out@) =~= blank_screen(tw as nat, i as nat),
        decreases bh - i,
    {
        let l = spaces_vec(tw);
        proof { crate::strings::lemma_seqs_of_push(out@, l); }
        out.push(l);
        i = i + 1;
    }
    out
}

fn place_titles_exec(
    screen: &mut Vec<Vec<char>>,
    titles: &Vec<RenderLine>,
    top: usize,
    count: usize,
    tw: usize,
    ansi: bool,
    theme: &Theme,
)
    requires
        top + count <= old(screen)@.len(),
        count <= titles@.len(),
    ensures
        seqs_of(final(screen)@) == place_titles(
            seqs_of(old(screen)@),
            lines_model(titles@),
            top as nat,
            count as nat,
            tw as nat,
            ansi,
            *theme,
        ),
{
    let ghost s0 = seqs_of(screen@);
    let ghost tl = lines_model(titles@);
    let n = screen.len();
    let mut i: usize = 0;
    while i < count
        invariant
            i <= count,
            n == screen@.len(),
            top + count <= screen@.len(),
            count <= titles@.len(),
            s0.len() == screen@.len(),
            tl == lines_model(titles@),
            seqs_of(screen@) =~= Seq::new(
                s0.len(),
                |r: int|
                    if top <= r < top + i {
                        styled(centered(tl[r - top].0, tw as nat), tl[r - top].1, ansi, *theme)
                    } else {
                        s0[r]
                    },
            ),
        decreases count - i,
    {
        let t = &titles[i];
        let l = style_chars(&centered_line(&t.text, tw), t.role, ansi, theme);
        proof { crate::strings::lemma_seqs_of_update(screen@, top + i, l); }
        screen.set(top + i, l);
        i = i + 1;
    }
}

/// A screen with lines written over it from row `y`, column `x`.
fn place_image_exec(screen: &mut Vec<Vec<char>>, img: &Vec<Vec<char>>, x: usize, y: usize, width: usize)
    ensures
        seqs_of(final(screen)@) == place_image(seqs_of(old(screen)@), seqs_of(img@), x as nat, y as nat, width as nat),
{
    let ghost s0 = seqs_of(screen@);
    let ghost im = seqs_of(img@);
    let mut i: usize = 0;
    while i < img.len()
        invariant
            i <= img@.len(),
            s0.len() == screen@.len(),
            im == seqs_of(img@),
            seqs_of(screen@) =~= Seq::new(
                s0.len(),
                |r: int|
                    if y <= r && r - y < i {
                        overlay(s0[r], x as nat, clip(im[r - y], width as nat))
                    } else {
                        s0[r]
                    },
            ),
        ensures
            i >= img@.len() || y + i >= s0.len(),
            seqs_of(screen@) =~= Seq::new(
                s0.len(),
                |r: int|
                    if y <= r && r - y < i {
                        overlay(s0[r], x as nat, clip(im[r - y], width as nat))
                    } else {
                        s0[r]
                    },
            ),
        decreases img@.len() - i,
    {
        if y >= screen.len() || i >= screen.len() - y {
            break;
        }
        let row = y + i;
        let mut l = screen[row].clone();
        assert(seqs_of(screen@)[row as int] == s0[row as int]);
        assert(l@ =~= s0[row as int]);
        overlay_text_at(&mut l, x, &clip_chars(&img[i], width));
        proof { crate::strings::lemma_seqs_of_update(screen@, row as int, l); }
        screen.set(row, l);
        i = i + 1;
    }
    assert(seqs_of(screen@) =~= place_image(s0, im, x as nat, y as nat, width as nat));
}

/// The text columns while the body is placed.
struct LayoutState {
    screen: Vec<Vec<char>>,
    rows: Vec<usize>,
    col: usize,
    aligns: Vec<ColumnAlign>,
    cursor: usize,
    truncated: bool,
}

impl LayoutState {
    spec fn model(&self) -> Layout {
        layout_model(self.screen@, self.rows@, self.col, self.aligns@, self.cursor, self.truncated)
    }

    spec fn wf(&self, ncols: nat, bh: nat) -> bool {
        &&& self.rows@.len() == ncols
        &&& self.aligns@.len() == ncols
        &&& self.col < ncols
        &&& self.screen@.len() == bh
        &&& forall|k: int| 0 <= k < ncols ==> #[trigger] self.rows@[k] <= bh
    }

    fn place(
        &mut self,
        t: &BodyToken,
        ws: &Vec<u16>,
        xs: &Vec<usize>,
        ncols: usize,
        start: usize,
        bh: usize,
        ansi: bool,
        theme: &Theme,
    )
        requires
            old(self).wf(ncols as nat, bh as nat),
            old(self).cursor < usize::MAX,
            xs@.len() == ws@.len(),
            forall|k: int| 0 <= k < ws@.len() ==> xs@[k] == sat(#[trigger] col_x(ws@, k)),
        ensures
            final(self).wf(ncols as nat, bh as nat),
            final(self).cursor <= old(self).cursor + 1,
            final(self).model() == place_step(old(self).model(), t@, ws@, ncols as nat, start as nat, bh as nat, ansi, *theme),
    {
        let ghost m0 = self.model();
        match t {
            BodyToken::ColumnBreak(target) => {
                self.col = if *target < ncols {
                    *target
                } else {
                    ncols - 1
                };
            },
            BodyToken::Align(a) => {
                self.aligns.set(self.col, *a);
            },
            BodyToken::Line(entry) => {
                if self.cursor < start || self.col >= ws.len() {
                    self.cursor = self.cursor + 1;
                } else {
                    let row = self.rows[self.col];
                    if row >= bh {
                        self.cursor = self.cursor + 1;
                        self.truncated = true;
                    } else {
                        self.cursor = self.cursor + 1;
                        let w = ws[self.col] as usize;
                        let al = match entry.role {
                            LineRole::Code => entry.text.clone(),
                            _ => align_to_width(&clip_chars(&entry.text, w), w, self.aligns[self.col]),
                        };
                        assert(al@ =~= (if entry.role is Code {
                            entry.text@
                        } else {
                            aligned(clip(entry.text@, w as nat), w as nat, self.aligns@[self.col as int])
                        }));
                        let styled_line = style_chars(&al, entry.role, ansi, theme);
                        let mut l = self.screen[row].clone();
                        assert(l@ =~= m0.screen[row as int]);
                        overlay_text_at(&mut l, xs[self.col], &styled_line);
                        proof { crate::strings::lemma_seqs_of_update(self.screen@, row as int, l); }
                        self.screen.set(row, l);
                        self.rows.set(self.col, row + 1);
                    }
                }
            },
        }
        assert(self.model().rows =~= place_step(m0, t@, ws@, ncols as nat, start as nat, bh as nat, ansi, *theme).rows);
        assert(self.model() =~= place_step(m0, t@, ws@, ncols as nat, start as nat, bh as nat, ansi, *theme));
    }
}

fn place_caption_exec(screen: &mut Vec<Vec<char>>, img: &ImageAsset, rect: NativeImageRect, ansi: bool, theme: &Theme)
    ensures
        seqs_of(final(screen)@) == place_caption(seqs_of(old(screen)@), img@, rect, ansi, *theme),
{
    match &img.alt {
        Some(c) => {
            let cs = chars_of(c.as_str());
            let row = rect.y as usize + rect.height as usize;
            if crate::strings::trim_chars(&cs).len() > 0 && row < screen.len() {
                let cap = style_chars(&centered_line(&cs, rect.width as usize), LineRole::ImageCaption, ansi, theme);
                let mut l = screen[row].clone();
                assert(l@ =~= seqs_of(old(screen)@)[row as int]);
                overlay_text_at(&mut l, rect.x as usize, &cap);
                proof { crate::strings::lemma_seqs_of_update(screen@, row as int, l); }
                screen.set(row, l);
            }
        },
        None => {},
    }
}

/// The drawing of a slide in text columns (see `columns_render`), with what the
/// highlighter gave and the animation frame chosen.
#[verifier::rlimit(30)]
fn render_columns(p: &RenderParams) -> (r: (Vec<Vec<char>>, bool, Ghost<Seq<Seq<Seq<char>>>>, Ghost<Option<nat>>))
    requires
        column_split_defined(p.term_width, slide_ratios(p.slide@, p.column_ratios@)),
        rect_defined(p.slide@, p.term_width, p.term_height, p.column_ratios@),
        p.slide_number < usize::MAX,
    ensures
        raws_ok(
            shown_blocks(p.slide@, p.visible_blocks),
            text_width(p.slide@, p.term_width, p.column_ratios@),
            p.ansi,
            p.highlighter.theme_name(),
            r.2@,
        ),
        frame_ok(crate::model::opt_image(p.slide.image), r.3@, crate::render::image_ascii::whole_millis(p.slide_elapsed)),
        (seqs_of(r.0@), r.1) == columns_render(params_model(*p), r.2@, r.3@),
{
    let slide = p.slide;
    let tw = p.term_width as usize;
    let bh: usize = if p.term_height >= 1 {
        (p.term_height - 1) as usize
    } else {
        0
    };
    let (ws, ncols, width) = text_layout(slide, p.term_width, p.column_ratios);
    let (tokens, raws) = render_body_tokens(slide, width, p.highlighter, p.ansi, p.visible_blocks, p.line_spacing);
    let tl = lines_of_tokens(&tokens);
    let rect = compute_native_image_rect(slide, p.term_width, p.term_height, p.column_ratios);
    let shown = slide.image.is_some() && !p.prefer_real_images && rect.is_some();
    let (imgl, frame) = image_lines_exec(slide, &p.slide_elapsed, shown);
    let (titles, start, center) = configured_or_leading_title_lines(slide, &tl, tw);
    let nt = titles.len();
    let body_count = tl.len() - start;
    let gap: usize = if nt > 0 && !center {
        2
    } else {
        0
    };
    let mut truncated = (nt as u128 + gap as u128 + body_count as u128 > bh as u128) || (imgl.len() > 0 && imgl.len() > bh);
    let top: usize = if center {
        (if bh >= nt {
            bh - nt
        } else {
            0
        }) / 2
    } else {
        0
    };
    let room: usize = bh - top;
    let count = if nt <= room {
        nt
    } else {
        room
    };
    let mut screen = blank_rows(tw, bh);
    place_titles_exec(&mut screen, &titles, top, count, tw, p.ansi, p.theme);
    let below = top.saturating_add(nt).saturating_add(gap);
    let text_start = if center {
        bh
    } else if below <= bh {
        below
    } else {
        bh
    };
    let xs = column_xs(&ws);
    let mut rows: Vec<usize> = Vec::new();
    let mut aligns: Vec<ColumnAlign> = Vec::new();
    let mut k: usize = 0;
    while k < ncols
        invariant
            k <= ncols,
            text_start <= bh,
            rows@ =~= Seq::new(k as nat, |_i: int| text_start),
            aligns@ =~= Seq::new(k as nat, |_i: int| ColumnAlign::Left),
        decreases ncols - k,
    {
        rows.push(text_start);
        aligns.push(ColumnAlign::Left);
        k = k + 1;
    }
    let ghost ts = crate::render::body::tokens_model(tokens@);
    assert(seqs_of(screen@).len() == bh);
    assert(screen@.len() == bh);
    let mut st = LayoutState { screen, rows, col: 0, aligns, cursor: 0, truncated };
    assert(st.rows@.len() == ncols);
    assert(forall|k: int| 0 <= k < ncols ==> #[trigger] st.rows@[k] <= bh);
    let ghost init = st.model();
    assert(init.rows =~= Seq::new(ncols as nat, |_i: int| text_start as nat));
    let mut i: usize = 0;
    assert(ts.take(0) =~= Seq::<TokenModel>::empty());
    while i < tokens.len()
        invariant
            i <= tokens@.len(),
            ts == crate::render::body::tokens_model(tokens@),
            st.wf(ncols as nat, bh as nat),
            st.cursor <= i,
            xs@.len() == ws@.len(),
            forall|k: int| 0 <= k < ws@.len() ==> xs@[k] == sat(#[trigger] col_x(ws@, k)),
            st.model() == place_fold(init, ts.take(i as int), ws@, ncols as nat, start as nat, bh as nat, p.ansi, *p.theme),
        decreases tokens@.len() - i,
    {
        assert(ts.take(i + 1).drop_last() =~= ts.take(i as int));
        assert(ts.take(i + 1).last() == tokens@[i as int]@);
        st.place(&tokens[i], &ws, &xs, ncols, start, bh, p.ansi, p.theme);
        i = i + 1;
    }
    assert(ts.take(tokens@.len() as int) =~= ts);
    let mut screen = st.screen;
    match rect {
        Some(rc) => {
            place_image_exec(&mut screen, &imgl, rc.x as usize, rc.y as usize, rc.width as usize);
            match &slide.image {
                Some(img) => place_caption_exec(&mut screen, img, rc, p.ansi, p.theme),
                None => {},
            }
        },
        None => {},
    }
    let f = build_footer(tw, p.slide_number + 1, p.total_slides, st.truncated, p.ansi, p.theme);
    proof { crate::strings::lemma_seqs_of_push(screen@, f); }
    screen.push(f);
    (screen, st.truncated, raws, frame)
}

/// Lines written over the screen from row `y`, each replacing its row, clipped to
/// `width`, as far as the screen goes.
pub open spec fn paint_rows(screen: Seq<Seq<char>>, ls: Seq<Seq<char>>, y: nat, width: nat) -> Seq<Seq<char>> {
    Seq::new(
        screen.len(),
        |r: int|
            if y <= r && r - y < ls.len() {
                clip(ls[r - y], width)
            } else {
                screen[r]
            },
    )
}

/// `text` written into `row` from column `x`, one character for one, as far as the
/// row goes.
pub open spec fn paint(row: Seq<char>, x: nat, text: Seq<char>) -> Seq<char> {
    Seq::new(
        row.len(),
        |i: int|
            if x <= i && i - x < text.len() {
                text[i - x]
            } else {
                row[i]
            },
    )
}

pub open spec fn paint_at(screen: Seq<Seq<char>>, ls: Seq<Seq<char>>, x: nat, y: nat) -> Seq<Seq<char>> {
    Seq::new(
        screen.len(),
        |r: int|
            if y <= r && r - y < ls.len() {
                paint(screen[r], x, ls[r - y])
            } else {
                screen[r]
            },
    )
}

/// The drawing of a cover: its big title from the second row, its subtitle two rows
/// below, its image under them (when it is drawn as text and there are more than
/// three rows for it), its author two rows above the footer.
pub open spec fn cover_render(p: ParamsModel, cover: crate::model::CoverModel, frame: Option<nat>) -> Seq<
    Seq<char>,
> {
    let tw = p.tw as nat;
    let bh = body_rows(p.th);
    let title = big_text(cover.title, tw);
    let total: nat = if title.len() >= 1 {
        title.len()
    } else {
        1
    };
    let placed: nat = if bh >= 1 {
        if title.len() <= bh - 1 {
            title.len()
        } else {
            (bh - 1) as nat
        }
    } else {
        0
    };
    let s1 = Seq::new(
        bh,
        |r: int|
            if 1 <= r < 1 + placed {
                styled(
                    centered(title[r - 1], tw),
                    LineRole::Title { row: (r - 1) as usize, total: total as usize },
                    p.ansi,
                    p.theme,
                )
            } else {
                spaces(tw)
            },
    );
    let y1 = 1 + placed;
    let s2 = match cover.subtitle {
        Some(sub) => if y1 + 2 < bh {
            s1.update((y1 + 2) as int, styled(centered(sub, tw), LineRole::CoverSubtitle, p.ansi, p.theme))
        } else {
            s1
        },
        None => s1,
    };
    let y2 = match cover.subtitle {
        Some(_) => if y1 + 2 < bh {
            y1 + 2
        } else {
            y1
        },
        None => y1,
    };
    let s3 = if !p.prefer && p.slide.image is Some {
        let img = p.slide.image->0;
        let zone = sat(y2 + 3) as u16;
        let author_rows: u16 = if cover.author is Some {
            2
        } else {
            0
        };
        let available = sub16(sub16(sub16(p.th, 1), zone), author_rows);
        if available > 3 {
            match frame {
                Some(k) => paint_rows(s2, img.frames[k as int].lines, zone as nat, tw),
                None => s2,
            }
        } else {
            s2
        }
    } else {
        s2
    };
    let s4 = match cover.author {
        Some(a) => if bh >= 2 {
            s3.update(bh - 2, styled(centered(a, tw), LineRole::CoverAuthor, p.ansi, p.theme))
        } else {
            s3
        },
        None => s3,
    };
    s4.push(footer(tw, p.slide_number + 1, p.total_slides, false, p.ansi, p.theme))
}

fn paint_rows_exec(screen: &mut Vec<Vec<char>>, ls: &Vec<String>, y: usize, width: usize)
    ensures
        final(screen)@.len() == old(screen)@.len(),
        seqs_of(final(screen)@) == paint_rows(seqs_of(old(screen)@), crate::model::strs(ls@), y as nat, width as nat),
{
    let ghost s0 = seqs_of(screen@);
    let ghost im = crate::model::strs(ls@);
    let mut i: usize = 0;
    while i < ls.len()
        invariant
            i <= ls@.len(),
            s0.len() == screen@.len(),
            im == crate::model::strs(ls@),
            seqs_of(screen@) =~= Seq::new(
                s0.len(),
                |r: int|
                    if y <= r && r - y < i {
                        clip(im[r - y], width as nat)
                    } else {
                        s0[r]
                    },
            ),
        ensures
            i >= ls@.len() || y + i >= s0.len(),
            seqs_of(screen@) =~= Seq::new(
                s0.len(),
                |r: int|
                    if y <= r && r - y < i {
                        clip(im[r - y], width as nat)
                    } else {
                        s0[r]
                    },
            ),
        decreases ls@.len() - i,
    {
        if y >= screen.len() || i >= screen.len() - y {
            break;
        }
        let row = y + i;
        let l = clip_chars(&chars_of(ls[i].as_str()), width);
        proof { crate::strings::lemma_seqs_of_update(screen@, row as int, l); }
        screen.set(row, l);
        i = i + 1;
    }
    assert(seqs_of(screen@) =~= paint_rows(s0, im, y as nat, width as nat));
}

fn render_cover_slide(p: &RenderParams, cover: &CoverData) -> (r: (Vec<Vec<char>>, Ghost<Option<nat>>))
    requires
        p.slide_number < usize::MAX,
    ensures
        frame_ok(crate::model::opt_image(p.slide.image), r.1@, crate::render::image_ascii::whole_millis(p.slide_elapsed)),
        seqs_of(r.0@) == cover_render(params_model(*p), cover@, r.1@),
{
    let tw = p.term_width as usize;
    let bh: usize = if p.term_height >= 1 {
        (p.term_height - 1) as usize
    } else {
        0
    };
    let mut lines = blank_rows(tw, bh);
    assert(seqs_of(lines@).len() == lines@.len());
    let title = big_text_chars(&chars_of(cover.title.as_str()), tw);
    let ghost tt = seqs_of(title@);
    let total = if title.len() >= 1 {
        title.len()
    } else {
        1
    };
    let mut y: usize = 1;
    let mut i: usize = 0;
    let ghost s0 = seqs_of(lines@);
    while i < title.len()
        invariant
            i <= title@.len(),
            y == 1 + i,
            tt == seqs_of(title@),
            total == (if title@.len() >= 1 { title@.len() } else { 1 }),
            s0 == blank_screen(tw as nat, bh as nat),
            lines@.len() == bh,
            i > 0 ==> i <= bh - 1,
            seqs_of(lines@) =~= Seq::new(
                bh as nat,
                |r: int|
                    if 1 <= r < 1 + i {
                        styled(centered(tt[r - 1], tw as nat), LineRole::Title { row: (r - 1) as usize, total: total }, p.ansi, *p.theme)
                    } else {
                        spaces(tw as nat)
                    },
            ),
        ensures
            i == title@.len() || y >= bh,
            seqs_of(lines@) =~= Seq::new(
                bh as nat,
                |r: int|
                    if 1 <= r < 1 + i {
                        styled(centered(tt[r - 1], tw as nat), LineRole::Title { row: (r - 1) as usize, total: total }, p.ansi, *p.theme)
                    } else {
                        spaces(tw as nat)
                    },
            ),
        decreases title@.len() - i,
    {
        if y >= bh {
            break;
        }
        let l = style_chars(&centered_line(&title[i], tw), LineRole::Title { row: i, total }, p.ansi, p.theme);
        proof { crate::strings::lemma_seqs_of_update(lines@, y as int, l); }
        lines.set(y, l);
        y = y + 1;
        i = i + 1;
    }
    match &cover.subtitle {
        Some(sub) => {
            if y < bh && 2 < bh - y {
                y = y + 2;
                let l = style_chars(&centered_line(&chars_of(sub.as_str()), tw), LineRole::CoverSubtitle, p.ansi, p.theme);
                proof { crate::strings::lemma_seqs_of_update(lines@, y as int, l); }
                lines.set(y, l);
            }
        },
        None => {},
    }
    let none: Ghost<Option<nat>> = Ghost(None);
    let mut fr = none;
    match &p.slide.image {
        Some(image) => {
            let ms = crate::render::image_ascii::millis_of(&p.slide_elapsed);
            let k = crate::render::image_ascii::frame_index_at(image, ms);
            fr = Ghost(crate::render::image_ascii::frame_at(image.frames@.len(), image.delays_ms@, ms as nat));
            assert(frame_ok(crate::model::opt_image(p.slide.image), fr@, crate::render::image_ascii::whole_millis(p.slide_elapsed)));
            if !p.prefer_real_images {
                let zone = #[verifier::truncate] (y.saturating_add(3) as u16);
                let author_rows: u16 = if cover.author.is_some() {
                    2
                } else {
                    0
                };
                let available = p.term_height.saturating_sub(1).saturating_sub(zone).saturating_sub(author_rows);
                if available > 3 {
                    match k {
                        Some(k) => paint_rows_exec(&mut lines, &image.frames[k].lines, zone as usize, tw),
                        None => {},
                    }
                }
            }
        },
        None => {},
    }
    assert(seqs_of(lines@).len() == lines@.len());
    match &cover.author {
        Some(a) => {
            if bh >= 2 {
                let l = style_chars(&centered_line(&chars_of(a.as_str()), tw), LineRole::CoverAuthor, p.ansi, p.theme);
                proof { crate::strings::lemma_seqs_of_update(lines@, bh - 2, l); }
                lines.set(bh - 2, l);
            }
        },
        None => {},
    }
    let f = build_footer(tw, p.slide_number + 1, p.total_slides, false, p.ansi, p.theme);
    proof { crate::strings::lemma_seqs_of_push(lines@, f); }
    lines.push(f);
    (lines, fr)
}

/// The drawing of an all-image slide: its title rows (and a gap of two) at the top,
/// centred; the image, or its load error, in its place; the caption under it.
pub open spec fn focus_render(p: ParamsModel, raws: Seq<Seq<Seq<char>>>, frame: Option<nat>) -> Seq<
    Seq<char>,
> {
    let s = p.slide;
    let tw = p.tw as nat;
    let bh = body_rows(p.th);
    let ts = body_tokens(s, tw, p.visible, p.spacing, raws);
    let titles = title_info(s, token_lines(ts), tw).0;
    let title_rows: nat = if titles.len() == 0 {
        0
    } else if sat(titles.len() + 2) <= bh {
        sat(titles.len() + 2)
    } else {
        bh
    };
    let s1 = Seq::new(
        bh,
        |r: int|
            if r < title_rows {
                if r < titles.len() {
                    styled(centered(titles[r].0, tw), titles[r].1, p.ansi, p.theme)
                } else {
                    styled(centered(seq![], tw), LineRole::Empty, p.ansi, p.theme)
                }
            } else {
                spaces(tw)
            },
    );
    let rect = native_rect(s, p.tw, p.th, p.ratios);
    let s2 = match rect {
        Some(rc) => if !p.prefer && s.image is Some {
            let img = s.image->0;
            match img.load_error {
                Some(err) => if (rc.y as nat) < bh {
                    s1.update(rc.y as int, centered("[image load error: "@ + err + "]"@, tw))
                } else {
                    s1
                },
                None => match frame {
                    Some(k) => paint_at(s1, img.frames[k as int].lines, rc.x as nat, rc.y as nat),
                    None => s1,
                },
            }
        } else {
            s1
        },
        None => s1,
    };
    let s3 = match rect {
        Some(rc) => if s.image is Some {
            place_caption(s2, s.image->0, rc, p.ansi, p.theme)
        } else {
            s2
        },
        None => s2,
    };
    s3.push(footer(tw, p.slide_number + 1, p.total_slides, false, p.ansi, p.theme))
}

fn paint_exec(row: &Vec<char>, x: usize, text: &Vec<char>) -> (r: Vec<char>)
    ensures
        r@ == paint(row@, x as nat, text@),
{
    let mut out = row.clone();
    assert(out@ =~= row@);
    let mut i: usize = 0;
    while i < text.len()
        invariant
            i <= text@.len(),
            out@.len() == row@.len(),
            out@ =~= Seq::new(
                row@.len(),
                |k: int|
                    if x <= k && k - x < i {
                        text@[k - x]
                    } else {
                        row@[k]
                    },
            ),
        ensures
            i >= text@.len() || x + i >= row@.len(),
            out@ =~= Seq::new(
                row@.len(),
                |k: int|
                    if x <= k && k - x < i {
                        text@[k - x]
                    } else {
                        row@[k]
                    },
            ),
        decreases text@.len() - i,
    {
        if x >= out.len() || i >= out.len() - x {
            break;
        }
        out.set(x + i, text[i]);
        i = i + 1;
    }
    assert(out@ =~= paint(row@, x as nat, text@));
    out
}

fn paint_at_exec(screen: &mut Vec<Vec<char>>, ls: &Vec<String>, x: usize, y: usize)
    ensures
        final(screen)@.len() == old(screen)@.len(),
        seqs_of(final(screen)@) == paint_at(seqs_of(old(screen)@), crate::model::strs(ls@), x as nat, y as nat),
{
    let ghost s0 = seqs_of(screen@);
    let ghost im = crate::model::strs(ls@);
    let mut i: usize = 0;
    while i < ls.len()
        invariant
            i <= ls@.len(),
            s0.len() == screen@.len(),
            im == crate::model::strs(ls@),
            seqs_of(screen@) =~= Seq::new(
                s0.len(),
                |r: int|
                    if y <= r && r - y < i {
                        paint(s0[r], x as nat, im[r - y])
                    } else {
                        s0[r]
                    },
            ),
        ensures
            i >= ls@.len() || y + i >= s0.len(),
            seqs_of(screen@) =~= Seq::new(
                s0.len(),
                |r: int|
                    if y <= r && r - y < i {
                        paint(s0[r], x as nat, im[r - y])
                    } else {
                        s0[r]
                    },
            ),
        decreases ls@.len() - i,
    {
        if y >= screen.len() || i >= screen.len() - y {
            break;
        }
        let row = y + i;
        assert(seqs_of(screen@)[row as int] == s0[row as int]);
        let l = paint_exec(&screen[row], x, &chars_of(ls[i].as_str()));
        proof { crate::strings::lemma_seqs_of_update(screen@, row as int, l); }
        screen.set(row, l);
        i = i + 1;
    }
    assert(seqs_of(screen@) =~= paint_at(s0, im, x as nat, y as nat));
}

fn render_image_focus_slide(p: &RenderParams) -> (r: (Vec<Vec<char>>, Ghost<Seq<Seq<Seq<char>>>>, Ghost<Option<nat>>))
    requires
        p.slide_number < usize::MAX,
        rect_defined(p.slide@, p.term_width, p.term_height, p.column_ratios@),
    ensures
        raws_ok(shown_blocks(p.slide@, p.visible_blocks), p.term_width as nat, p.ansi, p.highlighter.theme_name(), r.1@),
        frame_ok(crate::model::opt_image(p.slide.image), r.2@, crate::render::image_ascii::whole_millis(p.slide_elapsed)),
        seqs_of(r.0@) == focus_render(params_model(*p), r.1@, r.2@),
{
    let slide = p.slide;
    let tw = p.term_width as usize;
    let bh: usize = if p.term_height >= 1 {
        (p.term_height - 1) as usize
    } else {
        0
    };
    let (tokens, raws) = render_body_tokens(slide, tw, p.highlighter, p.ansi, p.visible_blocks, p.line_spacing);
    let tl = lines_of_tokens(&tokens);
    let (titles, _start, _center) = configured_or_leading_title_lines(slide, &tl, tw);
    let title_rows: usize = if titles.len() == 0 {
        0
    } else {
        let t = titles.len().saturating_add(2);
        if t <= bh {
            t
        } else {
            bh
        }
    };
    let ghost tm = lines_model(titles@);
    let mut lines: Vec<Vec<char>> = Vec::new();
    let mut r: usize = 0;
    while r < bh
        invariant
            r <= bh,
            title_rows <= bh,
            tm == lines_model(titles@),
            seqs_of(lines@) =~= Seq::new(
                r as nat,
                |q: int|
                    if q < title_rows {
                        if q < tm.len() {
                            styled(centered(tm[q].0, tw as nat), tm[q].1, p.ansi, *p.theme)
                        } else {
                            styled(centered(seq![], tw as nat), LineRole::Empty, p.ansi, *p.theme)
                        }
                    } else {
                        spaces(tw as nat)
                    },
            ),
        decreases bh - r,
    {
        let l = if r < title_rows {
            if r < titles.len() {
                style_chars(&centered_line(&titles[r].text, tw), titles[r].role, p.ansi, p.theme)
            } else {
                style_chars(&centered_line(&Vec::new(), tw), LineRole::Empty, p.ansi, p.theme)
            }
        } else {
            spaces_vec(tw)
        };
        proof { crate::strings::lemma_seqs_of_push(lines@, l); }
        lines.push(l);
        r = r + 1;
    }
    let rect = compute_native_image_rect(slide, p.term_width, p.term_height, p.column_ratios);
    let none: Ghost<Option<nat>> = Ghost(None);
    let mut fr = none;
    match &slide.image {
        Some(image) => {
            let ms = crate::render::image_ascii::millis_of(&p.slide_elapsed);
            let k = crate::render::image_ascii::frame_index_at(image, ms);
            fr = Ghost(crate::render::image_ascii::frame_at(image.frames@.len(), image.delays_ms@, ms as nat));
            assert(frame_ok(crate::model::opt_image(p.slide.image), fr@, crate::render::image_ascii::whole_millis(p.slide_elapsed)));
            match rect {
                Some(rc) => {
                    if !p.prefer_real_images {
                        match &image.load_error {
                            Some(err) => {
                                let row = rc.y as usize;
                                if row < lines.len() {
                                    let mut m = chars_of("[image load error: ");
                                    crate::strings::push_chars(&mut m, &chars_of(err.as_str()));
                                    crate::strings::push_chars(&mut m, &chars_of("]"));
                                    let l = centered_line(&m, tw);
                                    proof { crate::strings::lemma_seqs_of_update(lines@, row as int, l); }
                                    lines.set(row, l);
                                }
                            },
                            None => match k {
                                Some(k) => paint_at_exec(&mut lines, &image.frames[k].lines, rc.x as usize, rc.y as usize),
                                None => {},
                            },
                        }
                    }
                    place_caption_exec(&mut lines, image, rc, p.ansi, p.theme);
                },
                None => {},
            }
        },
        None => {},
    }
    let f = build_footer(tw, p.slide_number + 1, p.total_slides, false, p.ansi, p.theme);
    proof { crate::strings::lemma_seqs_of_push(lines@, f); }
    lines.push(f);
    (lines, raws, fr)
}

/// The lines of each code block among `blocks`: what the highlighter gives for it.
pub open spec fn given_raws(blocks: Seq<BlockModel>, width: nat, ansi: bool, theme: Option<Seq<char>>) -> Seq<
    Seq<Seq<char>>,
> {
    Seq::new(
        blocks.len(),
        |i: int|
            match blocks[i] {
                BlockModel::Code(lang, src) => crate::render::code::code_block_lines(
                    lang,
                    src,
                    crate::render::body::code_room(
                        crate::render::body::content_width(width, crate::render::body::indent_after(blocks.take(i))),
                    ),
                    crate::render::code::block_colour(ansi, theme, lang),
                ),
                _ => Seq::<Seq<char>>::empty(),
            },
    )
}

/// The width a slide's body is laid out at.
pub open spec fn body_width(p: ParamsModel) -> nat {
    if image_focus(p.slide) {
        p.tw as nat
    } else {
        text_width(p.slide, p.tw, p.ratios)
    }
}

/// A drawn slide and whether its text was cut: a cover, an all-image slide, or text
/// columns with the image in the last, as the slide is.
pub open spec fn render_spec(p: ParamsModel, raws: Seq<Seq<Seq<char>>>, frame: Option<nat>) -> (
    Seq<Seq<char>>,
    bool,
) {
    match p.slide.cover {
        Some(c) => (cover_render(p, c, frame), false),
        None => if image_focus(p.slide) {
            (focus_render(p, raws, frame), false)
        } else {
            columns_render(p, raws, frame)
        },
    }
}

/// The inputs on which drawing ends: the counter after the last slide number fits,
/// and the column split of a text-and-image slide ends.
pub open spec fn render_defined(p: ParamsModel) -> bool {
    &&& p.slide_number < usize::MAX
    &&& (p.slide.cover is None && !image_focus(p.slide) && p.slide.image is Some) ==> column_split_defined(
        p.tw,
        eff_ratios(p.ratios, true),
    )
}

/// Whether `render_slide` can draw with these settings (see `render_defined`).
pub fn render_is_defined(params: &RenderParams) -> (r: bool)
    ensures
        r == render_defined(params_model(*params)),
{
    if params.slide_number == usize::MAX {
        return false;
    }
    if params.slide.cover.is_none() && !slide_image_focus_mode(params.slide) && params.slide.image.is_some() {
        let eff = effective_ratios(params.column_ratios, true);
        column_split_ok(params.term_width, &eff)
    } else {
        true
    }
}

/// Draws a slide: `term_height - 1` rows, blank where nothing is drawn, and the
/// footer. What `syntect` makes of code in colour, and which frame an animation shows
/// at `slide_elapsed`, are chosen by the outside code; the drawing is exact for them.
/// An image is drawn from the frames it holds; loading them is the caller's (see
/// `ascii_image_area`).
#[verifier::spinoff_prover]
#[verifier::rlimit(60)]
pub fn render_slide(params: RenderParams) -> (r: RenderOutput)
    requires
        render_defined(params_model(params)),
    ensures
        exists|raws: Seq<Seq<Seq<char>>>, frame: Option<nat>|
            #![trigger render_spec(params_model(params), raws, frame)]
            raws_ok(
                shown_blocks(params.slide@, params.visible_blocks),
                body_width(params_model(params)),
                params.ansi,
                params.highlighter.theme_name(),
                raws,
            ) && frame_ok(
                crate::model::opt_image(params.slide.image),
                frame,
                crate::render::image_ascii::whole_millis(params.slide_elapsed),
            ) && (
            crate::model::strs(r.lines@),
            r.truncated,
        ) == render_spec(params_model(params), raws, frame),
{
    let ghost pm = params_model(params);
    match &params.slide.cover {
        Some(cover) => {
            let (lines, fr) = render_cover_slide(&params, cover);
            let out = crate::render::text::to_strings(&lines);
            let ghost raws = given_raws(
                shown_blocks(params.slide@, params.visible_blocks),
                body_width(pm),
                params.ansi,
                params.highlighter.theme_name(),
            );
            assert(raws_ok(shown_blocks(params.slide@, params.visible_blocks), body_width(pm), params.ansi, params.highlighter.theme_name(), raws));
            let r = RenderOutput { lines: out, truncated: false };
            assert((crate::model::strs(r.lines@), r.truncated) == render_spec(pm, raws, fr@));
            return r;
        },
        None => {},
    }
    if slide_image_focus_mode(params.slide) {
        let (lines, raws, fr) = render_image_focus_slide(&params);
        let out = crate::render::text::to_strings(&lines);
        let r = RenderOutput { lines: out, truncated: false };
        assert((crate::model::strs(r.lines@), r.truncated) == render_spec(pm, raws@, fr@));
        return r;
    }
    let (lines, truncated, raws, fr) = render_columns(&params);
    let out = crate::render::text::to_strings(&lines);
    let r = RenderOutput { lines: out, truncated };
    assert((crate::model::strs(r.lines@), r.truncated) == render_spec(pm, raws@, fr@));
    r
}

/// The row under a cover's title and subtitle.
pub open spec fn cover_text_end(tw: u16, th: u16, cover: crate::model::CoverModel) -> nat {
    let bh = body_rows(th);
    let n = big_text(cover.title, tw as nat).len();
    let placed: nat = if bh >= 1 {
        if n <= bh - 1 {
            n
        } else {
            (bh - 1) as nat
        }
    } else {
        0
    };
    let y1 = 1 + placed;
    match cover.subtitle {
        Some(_) => if y1 + 2 < bh {
            y1 + 2
        } else {
            y1
        },
        None => y1,
    }
}

/// The size in cells at which `render_slide` draws a slide's image as text, if it
/// does: the frames of the image must be loaded for that size beforehand.
pub open spec fn ascii_area(s: SlideModel, tw: u16, th: u16, ratios: Seq<u16>, prefer: bool) -> Option<(u16, u16)> {
    if prefer || s.image is None {
        None
    } else {
        match s.cover {
            Some(cover) => {
                let zone = sat(cover_text_end(tw, th, cover) + 3) as u16;
                let author_rows: u16 = if cover.author is Some {
                    2
                } else {
                    0
                };
                let available = sub16(sub16(sub16(th, 1), zone), author_rows);
                if available > 3 {
                    Some((tw, available))
                } else {
                    None
                }
            },
            None => match native_rect(s, tw, th, ratios) {
                Some(rc) => Some((rc.width, rc.height)),
                None => None,
            },
        }
    }
}

pub fn ascii_image_area(
    slide: &Slide,
    term_width: u16,
    term_height: u16,
    column_ratios: &[u16],
    prefer_real_images: bool,
) -> (r: Option<(u16, u16)>)
    requires
        rect_defined(slide@, term_width, term_height, column_ratios@),
    ensures
        r == ascii_area(slide@, term_width, term_height, column_ratios@, prefer_real_images),
{
    if prefer_real_images || slide.image.is_none() {
        return None;
    }
    match &slide.cover {
        Some(cover) => {
            let bh: usize = if term_height >= 1 {
                (term_height - 1) as usize
            } else {
                0
            };
            let n = big_text_chars(&chars_of(cover.title.as_str()), term_width as usize).len();
            let placed: usize = if bh >= 1 {
                if n <= bh - 1 {
                    n
                } else {
                    bh - 1
                }
            } else {
                0
            };
            let y1 = 1 + placed;
            let y2 = match &cover.subtitle {
                Some(_) => if y1 < bh && 2 < bh - y1 {
                    y1 + 2
                } else {
                    y1
                },
                None => y1,
            };
            let zone = #[verifier::truncate] (y2.saturating_add(3) as u16);
            let author_rows: u16 = if cover.author.is_some() {
                2
            } else {
                0
            };
            let available = term_height.saturating_sub(1).saturating_sub(zone).saturating_sub(author_rows);
            if available > 3 {
                Some((term_width, available))
            } else {
                None
            }
        },
        None => match compute_native_image_rect(slide, term_width, term_height, column_ratios) {
            Some(rc) => Some((rc.width, rc.height)),
            None => None,
        },
    }
}

proof fn lemma_place_fold_len(
    init: Layout,
    ts: Seq<TokenModel>,
    ws: Seq<u16>,
    ncols: nat,
    start: nat,
    bh: nat,
    ansi: bool,
    theme: Theme,
)
    requires
        init.screen.len() == bh,
    ensures
        place_fold(init, ts, ws, ncols, start, bh, ansi, theme).screen.len() == bh,
    decreases ts.len(),
{
    if ts.len() > 0 {
        lemma_place_fold_len(init, ts.drop_last(), ws, ncols, start, bh, ansi, theme);
    }
}

/// A drawn slide fills the screen: one row per terminal row, the footer last.
#[verifier::spinoff_prover]
#[verifier::rlimit(40)]
pub proof fn lemma_render_fills_screen(p: ParamsModel, raws: Seq<Seq<Seq<char>>>, frame: Option<nat>)
    ensures
        render_spec(p, raws, frame).0.len() == body_rows(p.th) + 1,
        render_spec(p, raws, frame).0.last() == footer(
            p.tw as nat,
            p.slide_number + 1,
            p.total_slides,
            render_spec(p, raws, frame).1,
            p.ansi,
            p.theme,
        ),
{
    match p.slide.cover {
        Some(c) => {},
        None => if !image_focus(p.slide) {
            let s = p.slide;
            let tw = p.tw as nat;
            let bh = body_rows(p.th);
            let ws = column_widths(p.tw, slide_ratios(s, p.ratios));
            let ncols = text_cols(s, ws);
            let ts = body_tokens(s, text_width(s, p.tw, p.ratios), p.visible, p.spacing, raws);
            let tl = token_lines(ts);
            let info = title_info(s, tl, tw);
            let titles = info.0;
            let start = info.1;
            let center = info.2;
            let nt = titles.len();
            let body_count: nat = if tl.len() >= start {
                (tl.len() - start) as nat
            } else {
                0
            };
            let gap: nat = if nt > 0 && !center {
                2
            } else {
                0
            };
            let rect = native_rect(s, p.tw, p.th, p.ratios);
            let imgl = if s.image is Some && !p.prefer && rect is Some {
                image_lines(s.image->0, frame)
            } else {
                seq![]
            };
            let truncated0 = nt + gap + body_count > bh || (imgl.len() > 0 && imgl.len() > bh);
            let top: nat = if center {
                (if bh >= nt {
                    (bh - nt) as nat
                } else {
                    0
                }) / 2
            } else {
                0
            };
            let room: nat = if bh >= top {
                (bh - top) as nat
            } else {
                0
            };
            let count = if nt <= room {
                nt
            } else {
                room
            };
            let screen1 = place_titles(blank_screen(tw, bh), titles, top, count, tw, p.ansi, p.theme);
            let below = sat(sat(top + nt) + gap);
            let text_start = if center {
                bh
            } else if below <= bh {
                below
            } else {
                bh
            };
            let init = Layout {
                screen: screen1,
                rows: Seq::new(ncols, |_i: int| text_start),
                col: 0,
                aligns: Seq::new(ncols, |_i: int| ColumnAlign::Left),
                cursor: 0,
                truncated: truncated0,
            };
            lemma_place_fold_len(init, ts, ws, ncols, start, bh, p.ansi, p.theme);
        },
    }
}

} // verus!
