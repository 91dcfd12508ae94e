//! The body of a slide as a sequence of tokens: rendered lines with their roles, and
//! the column breaks and alignments that place them.
use vstd::prelude::*;

use crate::model::{
    Block, BlockModel, CalloutData, CalloutKind, ColumnAlign, ListData, Slide, SlideModel, strs,
};
use crate::render::bigtext::{big_text, big_text_chars};
use crate::render::code::{block_colour, code_block_lines, plain_code_lines, CodeHighlighter};
use crate::render::style::{dec, push_dec, LineRole};
use crate::render::table::{render_table_chars, repeat_char, table_rows};
use crate::render::text::{spaces, spaces_vec, visible, visible_width_chars, wrap, wrap_chars};
use crate::strings::{chars_of, lemma_seqs_of_push, push_chars, seqs_of};

verus! {

/// A rendered line and what it is.
pub struct RenderLine {
    pub text: Vec<char>,
    pub role: LineRole,
}

/// A piece of a slide's body.
pub enum BodyToken {
    Line(RenderLine),
    /// Move to the text column of that number.
    ColumnBreak(usize),
    /// Align the current column.
    Align(ColumnAlign),
}

pub enum TokenModel {
    Line(Seq<char>, LineRole),
    ColumnBreak(usize),
    Align(ColumnAlign),
}

impl View for BodyToken {
    type V = TokenModel;

    open spec fn view(&self) -> TokenModel {
        match self {
            BodyToken::Line(l) => TokenModel::Line(l.text@, l.role),
            BodyToken::ColumnBreak(c) => TokenModel::ColumnBreak(*c),
            BodyToken::Align(a) => TokenModel::Align(*a),
        }
    }
}

pub open spec fn tokens_model(v: Seq<BodyToken>) -> Seq<TokenModel> {
    v.map_values(|t: BodyToken| t@)
}

pub open spec fn lines_model(v: Seq<RenderLine>) -> Seq<(Seq<char>, LineRole)> {
    v.map_values(|l: RenderLine| (l.text@, l.role))
}

/// A copy of a rendered line.
pub fn copy_line(l: &RenderLine) -> (r: RenderLine)
    ensures
        r.text@ == l.text@,
        r.role == l.role,
{
    RenderLine { text: l.text.clone(), role: l.role }
}

/// `1. ` (counting from one) before the items of an ordered list, `- ` before others.
pub open spec fn item_prefix(ordered: bool, i: nat) -> Seq<char> {
    if ordered {
        dec(i + 1) + ". "@
    } else {
        "- "@
    }
}

/// One list item: its text wrapped to the width left after the prefix, the prefix on
/// the first line and as many spaces before the others.
pub open spec fn item_lines(prefix: Seq<char>, item: Seq<char>, width: nat) -> Seq<Seq<char>> {
    let w = wrap(
        item,
        if width >= prefix.len() {
            (width - prefix.len()) as nat
        } else {
            0
        },
    );
    if w.len() == 0 {
        seq![prefix]
    } else {
        Seq::new(
            w.len(),
            |j: int|
                if j == 0 {
                    prefix + w[0]
                } else {
                    spaces(prefix.len()) + w[j]
                },
        )
    }
}

pub open spec fn list_lines(ordered: bool, items: Seq<Seq<char>>, width: nat) -> Seq<Seq<char>>
    decreases items.len(),
{
    if items.len() == 0 {
        seq![]
    } else {
        list_lines(ordered, items.drop_last(), width) + item_lines(
            item_prefix(ordered, (items.len() - 1) as nat),
            items.last(),
            width,
        )
    }
}

proof fn lemma_list_prefix(ordered: bool, items: Seq<Seq<char>>, width: nat, j: int)
    requires
        0 <= j <= items.len(),
    ensures
        list_lines(ordered, items.take(j), width).len() <= list_lines(ordered, items, width).len(),
        list_lines(ordered, items, width).take(list_lines(ordered, items.take(j), width).len() as int)
            == list_lines(ordered, items.take(j), width),
    decreases items.len(),
{
    if j < items.len() {
        lemma_list_prefix(ordered, items.drop_last(), width, j);
        assert(items.drop_last().take(j) =~= items.take(j));
        let a = list_lines(ordered, items.take(j), width);
        let b = list_lines(ordered, items.drop_last(), width);
        assert(b.take(a.len() as int) == a);
        assert(list_lines(ordered, items, width).take(b.len() as int) =~= b);
        assert(list_lines(ordered, items, width).take(a.len() as int) =~= b.take(a.len() as int));
    } else {
        assert(items.take(j) =~= items);
    }
}

/// Each item of a list starts a line of its own, in order: item `i` (counting from
/// zero) begins, after the lines of the items before it, with `i + 1` in decimal and
/// `. ` when the list is ordered, with `- ` otherwise.
pub proof fn lemma_list_item_numbers(ordered: bool, items: Seq<Seq<char>>, width: nat, i: int)
    requires
        0 <= i < items.len(),
    ensures
        ({
            let out = list_lines(ordered, items, width);
            let at = list_lines(ordered, items.take(i), width).len();
            let mark = if ordered {
                dec((i + 1) as nat) + ". "@
            } else {
                "- "@
            };
            &&& at < out.len()
            &&& mark.len() <= out[at as int].len()
            &&& out[at as int].take(mark.len() as int) == mark
        }),
{
    lemma_list_prefix(ordered, items, width, i + 1);
    let out = list_lines(ordered, items, width);
    let before = list_lines(ordered, items.take(i), width);
    let upto = list_lines(ordered, items.take(i + 1), width);
    assert(items.take(i + 1).drop_last() =~= items.take(i));
    assert(items.take(i + 1).last() == items[i]);
    let p = item_prefix(ordered, i as nat);
    let il = item_lines(p, items[i], width);
    assert(upto == before + il);
    assert(il.len() >= 1);
    assert(il[0].take(p.len() as int) =~= p);
    assert(upto[before.len() as int] == il[0]);
    assert(out.take(upto.len() as int)[before.len() as int] == out[before.len() as int]);
}

fn item_lines_exec(prefix: &Vec<char>, item: &Vec<char>, width: usize) -> (r: Vec<Vec<char>>)
    ensures
        seqs_of(r@) == item_lines(prefix@, item@, width as nat),
{
    let pw = prefix.len();
    let inner = if width >= pw {
        width - pw
    } else {
        0
    };
    let wrapped = wrap_chars(item, inner);
    let ghost w = seqs_of(wrapped@);
    let mut out: Vec<Vec<char>> = Vec::new();
    if wrapped.len() == 0 {
        out.push(prefix.clone());
        assert(seqs_of(out@) =~= seq![prefix@]);
        return out;
    }
    let pad = spaces_vec(pw);
    let mut j: usize = 0;
    while j < wrapped.len()
        invariant
            j <= wrapped@.len(),
            w == seqs_of(wrapped@),
            w == wrap(item@, inner as nat),
            pad@ == spaces(pw as nat),
            pw == prefix@.len(),
            seqs_of(out@) =~= Seq::new(
                j as nat,
                |k: int|
                    if k == 0 {
                        prefix@ + w[0]
                    } else {
                        spaces(prefix@.len()) + w[k]
                    },
            ),
        decreases wrapped@.len() - j,
    {
        let mut l = if j == 0 {
            prefix.clone()
        } else {
            pad.clone()
        };
        assert(l@ =~= (if j == 0 { prefix@ } else { pad@ }));
        push_chars(&mut l, &wrapped[j]);
        assert(w[j as int] == wrapped@[j as int]@);
        proof { lemma_seqs_of_push(out@, l); }
        out.push(l);
        j = j + 1;
    }
    out
}

pub fn render_list(list: &ListData, width: usize) -> (r: Vec<Vec<char>>)
    ensures
        seqs_of(r@) == list_lines(list.ordered, strs(list.items@), width as nat),
{
    let ghost items = strs(list.items@);
    let mut out: Vec<Vec<char>> = Vec::new();
    let mut i: usize = 0;
    assert(items.take(0) =~= Seq::<Seq<char>>::empty());
    while i < list.items.len()
        invariant
            i <= list.items@.len(),
            items == strs(list.items@),
            seqs_of(out@) == list_lines(list.ordered, items.take(i as int), width as nat),
        decreases list.items@.len() - i,
    {
        let mut prefix: Vec<char> = Vec::new();
        if list.ordered {
            push_dec(&mut prefix, (i + 1) as u128);
            push_chars(&mut prefix, &chars_of(". "));
        } else {
            push_chars(&mut prefix, &chars_of("- "));
        }
        assert(prefix@ =~= item_prefix(list.ordered, i as nat));
        let lines = item_lines_exec(&prefix, &chars_of(list.items[i].as_str()), width);
        let ghost before = out@;
        let mut k: usize = 0;
        while k < lines.len()
            invariant
                k <= lines@.len(),
                seqs_of(out@) =~= seqs_of(before) + seqs_of(lines@).take(k as int),
            decreases lines@.len() - k,
        {
            let l = lines[k].clone();
            assert(l@ =~= lines@[k as int]@);
            proof { lemma_seqs_of_push(out@, l); }
            out.push(l);
            assert(seqs_of(lines@).take(k + 1) =~= seqs_of(lines@).take(k as int).push(lines@[k as int]@));
            k = k + 1;
        }
        proof {
            assert(seqs_of(lines@).take(lines@.len() as int) =~= seqs_of(lines@));
            assert(items.take(i + 1).drop_last() =~= items.take(i as int));
            assert(items.take(i + 1).last() == list.items@[i as int]@);
        }
        i = i + 1;
    }
    assert(items.take(list.items@.len() as int) =~= items);
    out
}

pub open spec fn callout_label(kind: CalloutKind) -> Seq<char> {
    match kind {
        CalloutKind::Note => "NOTE"@,
        CalloutKind::Tip => "TIP"@,
        CalloutKind::Warn => "WARN"@,
    }
}

/// `[NOTE] text`, wrapped.
pub open spec fn callout_lines(kind: CalloutKind, text: Seq<char>, width: nat) -> Seq<Seq<char>> {
    wrap("["@ + callout_label(kind) + "] "@ + text, width)
}

pub fn render_callout(callout: &CalloutData, width: usize) -> (r: Vec<Vec<char>>)
    ensures
        seqs_of(r@) == callout_lines(callout.kind, callout.text@, width as nat),
{
    let mut line = chars_of("[");
    let label = match callout.kind {
        CalloutKind::Note => chars_of("NOTE"),
        CalloutKind::Tip => chars_of("TIP"),
        CalloutKind::Warn => chars_of("WARN"),
    };
    push_chars(&mut line, &label);
    push_chars(&mut line, &chars_of("] "));
    push_chars(&mut line, &chars_of(callout.text.as_str()));
    assert(line@ =~= "["@ + callout_label(callout.kind) + "] "@ + callout.text@);
    wrap_chars(&line, width)
}

/// The widest of the lines, as a terminal shows them.
pub open spec fn max_visible(raw: Seq<Seq<char>>) -> nat
    decreases raw.len(),
{
    if raw.len() == 0 {
        0
    } else {
        let m = max_visible(raw.drop_last());
        let v = visible(raw.last());
        if m >= v {
            m
        } else {
            v
        }
    }
}

/// The room for code inside a window `width` wide: two border and two padding
/// columns less, at least one.
pub open spec fn code_room(width: nat) -> nat {
    if width >= 5 {
        (width - 4) as nat
    } else {
        1
    }
}

/// The inner width of a code window: its widest line (within the room), at least 10.
pub open spec fn code_area(raw: Seq<Seq<char>>, width: nat) -> nat {
    let mv0 = if raw.len() == 0 {
        1
    } else {
        max_visible(raw)
    };
    let mv = if mv0 <= code_room(width) {
        mv0
    } else {
        code_room(width)
    };
    if mv >= 10 {
        mv
    } else {
        10
    }
}

pub open spec fn code_row(line: Seq<char>, area: nat) -> Seq<char> {
    let v = if visible(line) <= area {
        visible(line)
    } else {
        area
    };
    "│ "@ + line + spaces((area - v) as nat) + " │"@
}

/// Code lines in a rounded box, each padded to the widest.
pub open spec fn code_window(raw: Seq<Seq<char>>, width: nat) -> Seq<Seq<char>> {
    let area = code_area(raw, width);
    let bar = repeat_char('─', area + 2);
    seq!["╭"@ + bar + "╮"@] + raw.map_values(|l: Seq<char>| code_row(l, area)) + seq![
        "╰"@ + bar + "╯"@,
    ]
}

fn bar_chars(n: usize) -> (r: Vec<char>)
    ensures
        r@ == repeat_char('─', n as nat),
{
    let mut out: Vec<char> = Vec::new();
    let mut i: usize = 0;
    while i < n
        invariant
            i <= n,
            out@ =~= repeat_char('─', i as nat),
        decreases n - i,
    {
        out.push('─');
        i = i + 1;
    }
    out
}

/// The code lines that `CodeHighlighter::render_code` gave, framed in a box.
pub fn frame_code_lines(raw: &Vec<Vec<char>>, width: usize) -> (r: Vec<Vec<char>>)
    ensures
        seqs_of(r@) == code_window(seqs_of(raw@), width as nat),
{
    let ghost rs = seqs_of(raw@);
    let room: usize = if width >= 5 {
        width - 4
    } else {
        1
    };
    let mut mv: usize = 0;
    let mut i: usize = 0;
    assert(rs.take(0) =~= Seq::<Seq<char>>::empty());
    while i < raw.len()
        invariant
            i <= raw@.len(),
            rs == seqs_of(raw@),
            mv == max_visible(rs.take(i as int)),
        decreases raw@.len() - i,
    {
        let v = visible_width_chars(&raw[i]);
        assert(rs.take(i + 1).drop_last() =~= rs.take(i as int));
        if v > mv {
            mv = v;
        }
        i = i + 1;
    }
    assert(rs.take(raw@.len() as int) =~= rs);
    let mv0 = if raw.len() == 0 {
        1
    } else {
        mv
    };
    let mv1 = if mv0 <= room {
        mv0
    } else {
        room
    };
    let area: usize = if mv1 >= 10 {
        mv1
    } else {
        10
    };
    assert(area == code_area(rs, width as nat));
    let bar = bar_chars(area + 2);
    let mut out: Vec<Vec<char>> = Vec::new();
    let mut top = chars_of("╭");
    push_chars(&mut top, &bar);
    push_chars(&mut top, &chars_of("╮"));
    out.push(top);
    let mut j: usize = 0;
    while j < raw.len()
        invariant
            j <= raw@.len(),
            rs == seqs_of(raw@),
            area == code_area(rs, width as nat),
            area <= usize::MAX - 2,
            bar@ == repeat_char('─', (area + 2) as nat),
            seqs_of(out@) =~= seq!["╭"@ + bar@ + "╮"@] + rs.take(j as int).map_values(
                |l: Seq<char>| code_row(l, area as nat),
            ),
        decreases raw@.len() - j,
    {
        let line = &raw[j];
        let v0 = visible_width_chars(line);
        let v = if v0 <= area {
            v0
        } else {
            area
        };
        let mut row = chars_of("│ ");
        push_chars(&mut row, line);
        push_chars(&mut row, &spaces_vec(area - v));
        push_chars(&mut row, &chars_of(" │"));
        assert(row@ =~= code_row(rs[j as int], area as nat));
        proof { lemma_seqs_of_push(out@, row); }
        out.push(row);
        assert(rs.take(j + 1) =~= rs.take(j as int).push(rs[j as int]));
        j = j + 1;
    }
    let mut bottom = chars_of("╰");
    push_chars(&mut bottom, &bar);
    push_chars(&mut bottom, &chars_of("╯"));
    proof { lemma_seqs_of_push(out@, bottom); }
    out.push(bottom);
    assert(rs.take(raw@.len() as int) =~= rs);
    assert(seqs_of(out@) =~= code_window(rs, width as nat));
    out
}

pub open spec fn quote_lines(t: Seq<char>, cw: nat) -> Seq<Seq<char>> {
    wrap(
        t,
        if cw >= 2 {
            (cw - 2) as nat
        } else {
            0
        },
    ).map_values(|l: Seq<char>| "| "@ + l)
}

pub open spec fn level_cap(level: u8) -> u8 {
    if level <= 3 {
        level
    } else {
        3
    }
}

/// The lines of one block and their role. `cw` is the width left after the section
/// indentation; a big title takes the whole `width`. `raw` is what the highlighter
/// gave for a code block.
pub open spec fn block_lines(b: BlockModel, width: nat, cw: nat, raw: Seq<Seq<char>>) -> (
    Seq<Seq<char>>,
    LineRole,
) {
    match b {
        BlockModel::BigText(t) => (big_text(t, width), LineRole::Title { row: 0, total: 1 }),
        BlockModel::SectionHeading(level, t) => (
            seq!["▌ "@ + t],
            LineRole::SectionHeading(level_cap(level)),
        ),
        BlockModel::Paragraph(t) => (wrap(t, cw), LineRole::Paragraph),
        BlockModel::Spacer(n) => (
            Seq::new(n as nat, |_i: int| Seq::<char>::empty()),
            LineRole::Empty,
        ),
        BlockModel::Quote(t) => (quote_lines(t, cw), LineRole::Quote),
        BlockModel::List(o, items) => (list_lines(o, items, cw), LineRole::Paragraph),
        BlockModel::Callout(k, t) => (callout_lines(k, t, cw), LineRole::Callout(k)),
        BlockModel::Table(h, rows) => (table_rows(h, rows, cw), LineRole::Table),
        BlockModel::Code(_, _) => (code_window(raw, cw), LineRole::Code),
        _ => (seq![], LineRole::Empty),
    }
}

/// What the highlighter gives for a block: for a code block, its lines clipped to the
/// code room and coloured as `code_block_lines` says (`theme` is the highlighter's).
pub open spec fn code_raw_ok(b: BlockModel, cw: nat, ansi: bool, theme: Option<Seq<char>>, raw: Seq<Seq<char>>) -> bool {
    match b {
        BlockModel::Code(lang, src) => raw == code_block_lines(lang, src, code_room(cw), block_colour(ansi, theme, lang))
            && raw.len() == plain_code_lines(src, code_room(cw)).len(),
        _ => true,
    }
}

/// The section indentation after some blocks: a section heading indents what follows
/// by its level (at most 3), a big title resets it.
pub open spec fn indent_after(blocks: Seq<BlockModel>) -> nat
    decreases blocks.len(),
{
    if blocks.len() == 0 {
        0
    } else {
        match blocks.last() {
            BlockModel::BigText(_) => 0,
            BlockModel::SectionHeading(l, _) => level_cap(l) as nat,
            _ => indent_after(blocks.drop_last()),
        }
    }
}

/// The width left for a block indented `indent` levels of two spaces, at least one.
pub open spec fn content_width(width: nat, indent: nat) -> nat {
    if width >= 2 * indent + 1 {
        (width - 2 * indent) as nat
    } else {
        1
    }
}

/// Each row of a title knows its row and the title's height.
pub open spec fn row_role(role: LineRole, j: int, total: nat) -> LineRole {
    match role {
        LineRole::Title { .. } => LineRole::Title {
            row: j as usize,
            total: (if total >= 1 {
                total
            } else {
                1
            }) as usize,
        },
        _ => role,
    }
}

/// Lines of indented blocks get the indentation, empty lines and titles, headings
/// and spacers do not.
pub open spec fn indented(b: BlockModel, iw: nat, l: Seq<char>) -> Seq<char> {
    if b is BigText || b is SectionHeading || b is Spacer {
        l
    } else if iw > 0 && l.len() > 0 {
        spaces(iw) + l
    } else {
        l
    }
}

pub open spec fn empty_lines(n: nat) -> Seq<TokenModel> {
    Seq::new(n, |_i: int| TokenModel::Line(seq![], LineRole::Empty))
}

pub open spec fn block_body(b: BlockModel, iw: nat, ls: Seq<Seq<char>>, role: LineRole) -> Seq<
    TokenModel,
> {
    Seq::new(ls.len(), |j: int| TokenModel::Line(indented(b, iw, ls[j]), row_role(role, j, ls.len())))
}

/// The tokens of one block: a column break or alignment as it is; else its lines,
/// then `spacing` empty lines (none after a spacer). A block without lines gives one
/// empty line.
pub open spec fn block_tokens(b: BlockModel, indent: nat, width: nat, spacing: nat, raw: Seq<Seq<char>>) -> Seq<
    TokenModel,
> {
    match b {
        BlockModel::ColumnBreak(c) => seq![TokenModel::ColumnBreak(c)],
        BlockModel::ColumnAlign(a) => seq![TokenModel::Align(a)],
        _ => {
            let lr = block_lines(b, width, content_width(width, indent), raw);
            if lr.0.len() == 0 {
                seq![TokenModel::Line(seq![], LineRole::Empty)]
            } else if b is Spacer {
                block_body(b, 2 * indent, lr.0, lr.1)
            } else {
                block_body(b, 2 * indent, lr.0, lr.1) + empty_lines(spacing)
            }
        },
    }
}

pub open spec fn body_fold(blocks: Seq<BlockModel>, width: nat, spacing: nat, raws: Seq<Seq<Seq<char>>>) -> Seq<
    TokenModel,
>
    decreases blocks.len(),
{
    if blocks.len() == 0 {
        seq![]
    } else {
        body_fold(blocks.drop_last(), width, spacing, raws) + block_tokens(
            blocks.last(),
            indent_after(blocks.drop_last()),
            width,
            spacing,
            raws[blocks.len() - 1],
        )
    }
}

pub open spec fn is_blank_line(t: TokenModel) -> bool {
    t matches TokenModel::Line(text, _) && text.len() == 0
}

/// The tokens without the empty lines at their end.
pub open spec fn strip_trailing(ts: Seq<TokenModel>) -> Seq<TokenModel>
    decreases ts.len(),
{
    if ts.len() > 0 && is_blank_line(ts.last()) {
        strip_trailing(ts.drop_last())
    } else {
        ts
    }
}

/// The blocks a slide shows: all, or the first `visible` of them.
pub open spec fn shown_blocks(s: SlideModel, visible: Option<usize>) -> Seq<BlockModel> {
    match visible {
        Some(v) => if v <= s.blocks.len() {
            s.blocks.take(v as int)
        } else {
            s.blocks
        },
        None => s.blocks,
    }
}

/// The empty lines after a block: the slide's own spacing, else the deck's, at least one.
pub open spec fn block_spacing(s: SlideModel, base: u8) -> nat {
    let sp = match s.line_spacing {
        Some(x) => x,
        None => base,
    };
    if sp >= 1 {
        sp as nat
    } else {
        1
    }
}

/// The body of a slide, `width` wide, given what the highlighter made of each block.
pub open spec fn body_tokens(
    s: SlideModel,
    width: nat,
    visible: Option<usize>,
    base: u8,
    raws: Seq<Seq<Seq<char>>>,
) -> Seq<TokenModel> {
    strip_trailing(body_fold(shown_blocks(s, visible), width, block_spacing(s, base), raws))
}

/// The highlighter's lines for each shown block are ones it may give.
pub open spec fn raws_ok(
    blocks: Seq<BlockModel>,
    width: nat,
    ansi: bool,
    theme: Option<Seq<char>>,
    raws: Seq<Seq<Seq<char>>>,
) -> bool {
    &&& raws.len() == blocks.len()
    &&& forall|i: int|
        0 <= i < blocks.len() ==> #[trigger] code_raw_ok(
            blocks[i],
            content_width(width, indent_after(blocks.take(i))),
            ansi,
            theme,
            raws[i],
        )
}

/// The lines of one block, its role, and what the highlighter gave for it.
fn block_lines_exec(
    block: &Block,
    width: usize,
    cw: usize,
    highlighter: &CodeHighlighter,
    ansi: bool,
) -> (r: (Vec<Vec<char>>, LineRole, Ghost<Seq<Seq<char>>>))
    requires
        !(block is ColumnBreak),
        !(block is ColumnAlign),
    ensures
        seqs_of(r.0@) == block_lines(block@, width as nat, cw as nat, r.2@).0,
        r.1 == block_lines(block@, width as nat, cw as nat, r.2@).1,
        code_raw_ok(block@, cw as nat, ansi, highlighter.theme_name(), r.2@),
{
    let none: Ghost<Seq<Seq<char>>> = Ghost(Seq::<Seq<char>>::empty());
    match block {
        Block::BigText(t) => (big_text_chars(&chars_of(t.as_str()), width), LineRole::Title { row: 0, total: 1 }, none),
        Block::SectionHeading { level, text } => {
            let mut l = chars_of("▌ ");
            push_chars(&mut l, &chars_of(text.as_str()));
            let mut v: Vec<Vec<char>> = Vec::new();
            v.push(l);
            assert(seqs_of(v@) =~= seq!["▌ "@ + text@]);
            let cap: u8 = if *level <= 3 {
                *level
            } else {
                3
            };
            (v, LineRole::SectionHeading(cap), none)
        },
        Block::Paragraph(t) => (wrap_chars(&chars_of(t.as_str()), cw), LineRole::Paragraph, none),
        Block::Spacer(n) => {
            let mut v: Vec<Vec<char>> = Vec::new();
            let mut i: usize = 0;
            while i < *n
                invariant
                    i <= *n,
                    seqs_of(v@) =~= Seq::new(i as nat, |_i: int| Seq::<char>::empty()),
                decreases *n - i,
            {
                let e: Vec<char> = Vec::new();
                proof { lemma_seqs_of_push(v@, e); }
                v.push(e);
                i = i + 1;
            }
            (v, LineRole::Empty, none)
        },
        Block::Quote(t) => {
            let inner = if cw >= 2 {
                cw - 2
            } else {
                0
            };
            let w = wrap_chars(&chars_of(t.as_str()), inner);
            let mut v: Vec<Vec<char>> = Vec::new();
            let mut i: usize = 0;
            while i < w.len()
                invariant
                    i <= w@.len(),
                    seqs_of(v@) =~= seqs_of(w@).take(i as int).map_values(|l: Seq<char>| "| "@ + l),
                decreases w@.len() - i,
            {
                let mut l = chars_of("| ");
                push_chars(&mut l, &w[i]);
                proof { lemma_seqs_of_push(v@, l); }
                v.push(l);
                assert(seqs_of(w@).take(i + 1) =~= seqs_of(w@).take(i as int).push(w@[i as int]@));
                i = i + 1;
            }
            assert(seqs_of(w@).take(w@.len() as int) =~= seqs_of(w@));
            (v, LineRole::Quote, none)
        },
        Block::List(list) => (render_list(list, cw), LineRole::Paragraph, none),
        Block::Callout(c) => (render_callout(c, cw), LineRole::Callout(c.kind), none),
        Block::Table(t) => (render_table_chars(t, cw), LineRole::Table, none),
        Block::Code(c) => {
            let room: usize = if cw >= 5 {
                cw - 4
            } else {
                1
            };
            let raw = highlighter.render_code(c, room, ansi);
            let mut rc: Vec<Vec<char>> = Vec::new();
            let mut i: usize = 0;
            while i < raw.len()
                invariant
                    i <= raw@.len(),
                    seqs_of(rc@) =~= raw@.take(i as int).map_values(|s: String| s@),
                decreases raw@.len() - i,
            {
                let l = chars_of(raw[i].as_str());
                proof { lemma_seqs_of_push(rc@, l); }
                rc.push(l);
                assert(raw@.take(i + 1) =~= raw@.take(i as int).push(raw@[i as int]));
                i = i + 1;
            }
            assert(raw@.take(raw@.len() as int) =~= raw@);
            let g: Ghost<Seq<Seq<char>>> = Ghost(seqs_of(rc@));
            (frame_code_lines(&rc, cw), LineRole::Code, g)
        },
        _ => (Vec::new(), LineRole::Empty, none),
    }
}

proof fn lemma_tokens_push(v: Seq<BodyToken>, t: BodyToken)
    ensures
        tokens_model(v.push(t)) == tokens_model(v).push(t@),
{
    assert(tokens_model(v.push(t)) =~= tokens_model(v).push(t@));
}

/// Appends the lines of one block, then its spacing.
fn push_block_tokens(
    tokens: &mut Vec<BodyToken>,
    ls: &Vec<Vec<char>>,
    role: LineRole,
    b: Ghost<BlockModel>,
    plain: bool,
    spacer: bool,
    iw: usize,
    spacing: usize,
)
    requires
        plain == (b@ is BigText || b@ is SectionHeading || b@ is Spacer),
        spacer == b@ is Spacer,
    ensures
        tokens_model(final(tokens)@) == tokens_model(old(tokens)@) + (if spacer {
            block_body(b@, iw as nat, seqs_of(ls@), role)
        } else {
            block_body(b@, iw as nat, seqs_of(ls@), role) + empty_lines(spacing as nat)
        }),
{
    let ghost base = tokens_model(tokens@);
    let ghost body = block_body(b@, iw as nat, seqs_of(ls@), role);
    let total = ls.len();
    let mut j: usize = 0;
    while j < total
        invariant
            j <= total,
            total == ls@.len(),
            body == block_body(b@, iw as nat, seqs_of(ls@), role),
            plain == (b@ is BigText || b@ is SectionHeading || b@ is Spacer),
            tokens_model(tokens@) =~= base + body.take(j as int),
        decreases total - j,
    {
        let l = &ls[j];
        let text = if plain {
            l.clone()
        } else if iw > 0 && l.len() > 0 {
            let mut t = spaces_vec(iw);
            push_chars(&mut t, l);
            t
        } else {
            l.clone()
        };
        assert(text@ =~= indented(b@, iw as nat, seqs_of(ls@)[j as int]));
        let r = match role {
            LineRole::Title { .. } => LineRole::Title {
                row: j,
                total: if total >= 1 {
                    total
                } else {
                    1
                },
            },
            _ => role,
        };
        assert(r == row_role(role, j as int, total as nat));
        let t = BodyToken::Line(RenderLine { text, role: r });
        proof { lemma_tokens_push(tokens@, t); }
        tokens.push(t);
        assert(body.take(j + 1) =~= body.take(j as int).push(body[j as int]));
        j = j + 1;
    }
    assert(body.take(total as int) =~= body);
    if !spacer {
        let mut k: usize = 0;
        while k < spacing
            invariant
                k <= spacing,
                tokens_model(tokens@) =~= base + body + empty_lines(k as nat),
            decreases spacing - k,
        {
            let t = BodyToken::Line(RenderLine { text: Vec::new(), role: LineRole::Empty });
            proof { lemma_tokens_push(tokens@, t); }
            tokens.push(t);
            k = k + 1;
        }
    }
}

/// The tokens of the blocks a slide shows, `width` wide; the second part is what the
/// highlighter gave for each block.
pub(crate) fn render_body_tokens(
    slide: &Slide,
    width: usize,
    highlighter: &CodeHighlighter,
    ansi: bool,
    visible_blocks: Option<usize>,
    base_line_spacing: u8,
) -> (r: (Vec<BodyToken>, Ghost<Seq<Seq<Seq<char>>>>))
    ensures
        raws_ok(shown_blocks(slide@, visible_blocks), width as nat, ansi, highlighter.theme_name(), r.1@),
        tokens_model(r.0@) == body_tokens(slide@, width as nat, visible_blocks, base_line_spacing, r.1@),
{
    let ghost blocks = shown_blocks(slide@, visible_blocks);
    let n = slide.blocks.len();
    let m = match visible_blocks {
        Some(v) => if v <= n {
            v
        } else {
            n
        },
        None => n,
    };
    assert(blocks =~= slide@.blocks.take(m as int));
    let sp: u8 = match slide.line_spacing {
        Some(x) => x,
        None => base_line_spacing,
    };
    let spacing: usize = if sp >= 1 {
        sp as usize
    } else {
        1
    };
    let mut tokens: Vec<BodyToken> = Vec::new();
    let mut indent: usize = 0;
    let mut raws: Ghost<Seq<Seq<Seq<char>>>> = Ghost(Seq::<Seq<Seq<char>>>::empty());
    let mut i: usize = 0;
    assert(blocks.take(0) =~= Seq::<BlockModel>::empty());
    while i < m
        invariant
            i <= m,
            m <= slide.blocks@.len(),
            blocks =~= slide@.blocks.take(m as int),
            spacing == block_spacing(slide@, base_line_spacing),
            indent == indent_after(blocks.take(i as int)),
            indent <= 3,
            raws@.len() == i,
            forall|k: int|
                0 <= k < i ==> #[trigger] code_raw_ok(
                    blocks[k],
                    content_width(width as nat, indent_after(blocks.take(k))),
                    ansi,
                    highlighter.theme_name(),
                    raws@[k],
                ),
            tokens_model(tokens@) == body_fold(blocks.take(i as int), width as nat, spacing as nat, raws@),
        decreases m - i,
    {
        let block = &slide.blocks[i];
        assert(blocks[i as int] == block@);
        let ghost before = tokens_model(tokens@);
        let ghost prefix = blocks.take(i as int);
        let ghost raw_i: Seq<Seq<char>> = seq![];
        let ghost ind0 = indent as nat;
        match block {
            Block::ColumnBreak(c) => {
                let t = BodyToken::ColumnBreak(*c);
                proof { lemma_tokens_push(tokens@, t); }
                tokens.push(t);
            },
            Block::ColumnAlign(a) => {
                let t = BodyToken::Align(*a);
                proof { lemma_tokens_push(tokens@, t); }
                tokens.push(t);
            },
            _ => {
                let iw = 2 * indent;
                let cw = if width >= iw + 1 {
                    width - iw
                } else {
                    1
                };
                assert(cw == content_width(width as nat, indent as nat));
                let (ls, role, g) = block_lines_exec(block, width, cw, highlighter, ansi);
                proof { raw_i = g@; }
                let plain = match block {
                    Block::BigText(_) => true,
                    Block::SectionHeading { .. } => true,
                    Block::Spacer(_) => true,
                    _ => false,
                };
                let spacer = match block {
                    Block::Spacer(_) => true,
                    _ => false,
                };
                if ls.len() == 0 {
                    let t = BodyToken::Line(RenderLine { text: Vec::new(), role: LineRole::Empty });
                    proof { lemma_tokens_push(tokens@, t); }
                    tokens.push(t);
                    assert(tokens_model(tokens@) =~= before + seq![TokenModel::Line(seq![], LineRole::Empty)]);
                } else {
                    push_block_tokens(&mut tokens, &ls, role, Ghost(block@), plain, spacer, iw, spacing);
                }
                assert(tokens_model(tokens@) == before + block_tokens(block@, ind0, width as nat, spacing as nat, raw_i));
                match block {
                    Block::BigText(_) => {
                        indent = 0;
                    },
                    Block::SectionHeading { level, .. } => {
                        indent = if *level <= 3 {
                            *level as usize
                        } else {
                            3
                        };
                    },
                    _ => {},
                }
            },
        }
        proof {
            assert(blocks.take(i + 1).drop_last() =~= prefix);
            assert(blocks.take(i + 1).last() == block@);
        }
        assert(tokens_model(tokens@) == before + block_tokens(block@, ind0, width as nat, spacing as nat, raw_i));
        let ghost old_raws = raws@;
        raws = Ghost(raws@.push(raw_i));
        assert(tokens_model(tokens@) == body_fold(blocks.take(i + 1), width as nat, spacing as nat, raws@)) by {
            assert(raws@[i as int] == raw_i);
            assert(raws@.drop_last() =~= old_raws);
            lemma_body_fold_extend_raws(prefix, width as nat, spacing as nat, raws@);
            assert(ind0 == indent_after(prefix));
        }
        i = i + 1;
    }
    assert(blocks.take(m as int) =~= blocks);
    let ghost full = tokens_model(tokens@);
    while tokens.len() > 0 && is_blank_token(&tokens[tokens.len() - 1])
        invariant
            strip_trailing(tokens_model(tokens@)) == strip_trailing(full),
        decreases tokens@.len(),
    {
        let ghost before = tokens@;
        tokens.pop();
        assert(tokens_model(before).drop_last() =~= tokens_model(tokens@));
    }
    proof {
        assert forall|k: int| 0 <= k < blocks.len() implies #[trigger] code_raw_ok(
            blocks[k],
            content_width(width as nat, indent_after(blocks.take(k))),
            ansi,
            highlighter.theme_name(),
            raws@[k],
        ) by {}
    }
    (tokens, raws)
}

fn is_blank_token(t: &BodyToken) -> (r: bool)
    ensures
        r == is_blank_line(t@),
{
    match t {
        BodyToken::Line(l) => l.text.len() == 0,
        _ => false,
    }
}

/// Extra highlighter results after the blocks change nothing.
proof fn lemma_body_fold_extend_raws(
    blocks: Seq<BlockModel>,
    width: nat,
    spacing: nat,
    raws: Seq<Seq<Seq<char>>>,
)
    requires
        raws.len() == blocks.len() + 1,
    ensures
        body_fold(blocks, width, spacing, raws) == body_fold(blocks, width, spacing, raws.drop_last()),
    decreases blocks.len(),
{
    if blocks.len() > 0 {
        lemma_body_fold_extend_raws_gen(blocks, width, spacing, raws, raws.drop_last());
    }
}

proof fn lemma_body_fold_extend_raws_gen(
    blocks: Seq<BlockModel>,
    width: nat,
    spacing: nat,
    r1: Seq<Seq<Seq<char>>>,
    r2: Seq<Seq<Seq<char>>>,
)
    requires
        r1.len() >= blocks.len(),
        r2.len() >= blocks.len(),
        forall|k: int| 0 <= k < blocks.len() ==> r1[k] == r2[k],
    ensures
        body_fold(blocks, width, spacing, r1) == body_fold(blocks, width, spacing, r2),
    decreases blocks.len(),
{
    if blocks.len() > 0 {
        lemma_body_fold_extend_raws_gen(blocks.drop_last(), width, spacing, r1, r2);
    }
}

} // verus!
