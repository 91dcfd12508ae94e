//! Large block-letter titles drawn from a 5x6 glyph table, with a one-cell shadow.
use vstd::prelude::*;

use crate::render::text::{clip, clip_chars};
use crate::strings::{chars_of, string_of};

verus! {

/// The glyph of each character that big text can draw: six rows of five cells, where
/// a non-space cell is ink.
pub const GLYPHS: [(char, [&'static str; 6]); 44] = [
    ('A', ["  A  ", " A A ", "AAAAA", "A   A", "A   A", "A   A"]),
    ('B', ["BBBB ", "B   B", "BBBB ", "B   B", "B   B", "BBBB "]),
    ('C', [" CCC ", "C   C", "C    ", "C    ", "C   C", " CCC "]),
    ('D', ["DDD  ", "D  D ", "D   D", "D   D", "D  D ", "DDD  "]),
    ('E', ["EEEEE", "E    ", "EEE  ", "E    ", "E    ", "EEEEE"]),
    ('F', ["FFFFF", "F    ", "FFF  ", "F    ", "F    ", "F    "]),
    ('G', [" GGG ", "G    ", "G GG ", "G   G", "G   G", " GGG "]),
    ('H', ["H   H", "H   H", "HHHHH", "H   H", "H   H", "H   H"]),
    ('I', ["IIIII", "  I  ", "  I  ", "  I  ", "  I  ", "IIIII"]),
    ('J', ["JJJJJ", "   J ", "   J ", "   J ", "J  J ", " JJ  "]),
    ('K', ["K   K", "K  K ", "KKK  ", "K  K ", "K   K", "K   K"]),
    ('L', ["L    ", "L    ", "L    ", "L    ", "L    ", "LLLLL"]),
    ('M', ["M   M", "MM MM", "M M M", "M   M", "M   M", "M   M"]),
    ('N', ["N   N", "NN  N", "N N N", "N  NN", "N   N", "N   N"]),
    ('O', [" OOO ", "O   O", "O   O", "O   O", "O   O", " OOO "]),
    ('P', ["PPPP ", "P   P", "PPPP ", "P    ", "P    ", "P    "]),
    ('Q', [" QQQ ", "Q   Q", "Q   Q", "Q Q Q", "Q  QQ", " QQQQ"]),
    ('R', ["RRRR ", "R   R", "RRRR ", "R R  ", "R  R ", "R   R"]),
    ('S', [" SSS ", "S    ", " SSS ", "    S", "    S", " SSS "]),
    ('T', ["TTTTT", "  T  ", "  T  ", "  T  ", "  T  ", "  T  "]),
    ('U', ["U   U", "U   U", "U   U", "U   U", "U   U", " UUU "]),
    ('V', ["V   V", "V   V", "V   V", "V   V", " V V ", "  V  "]),
    ('W', ["W   W", "W   W", "W   W", "W W W", "WW WW", "W   W"]),
    ('X', ["X   X", " X X ", "  X  ", "  X  ", " X X ", "X   X"]),
    ('Y', ["Y   Y", " Y Y ", "  Y  ", "  Y  ", "  Y  ", "  Y  "]),
    ('Z', ["ZZZZZ", "   Z ", "  Z  ", " Z   ", "Z    ", "ZZZZZ"]),
    ('0', [" 000 ", "0   0", "0 0 0", "0 0 0", "0   0", " 000 "]),
    ('1', ["  1  ", " 11  ", "  1  ", "  1  ", "  1  ", "11111"]),
    ('2', [" 222 ", "2   2", "   2 ", "  2  ", " 2   ", "22222"]),
    ('3', ["3333 ", "    3", " 333 ", "    3", "    3", "3333 "]),
    ('4', ["4  4 ", "4  4 ", "44444", "   4 ", "   4 ", "   4 "]),
    ('5', ["55555", "5    ", "5555 ", "    5", "    5", "5555 "]),
    ('6', [" 666 ", "6    ", "6666 ", "6   6", "6   6", " 666 "]),
    ('7', ["77777", "   7 ", "  7  ", " 7   ", "7    ", "7    "]),
    ('8', [" 888 ", "8   8", " 888 ", "8   8", "8   8", " 888 "]),
    ('9', [" 999 ", "9   9", " 9999", "    9", "   9 ", " 99  "]),
    (' ', ["     ", "     ", "     ", "     ", "     ", "     "]),
    ('.', ["     ", "     ", "     ", "     ", "  .. ", "  .. "]),
    (',', ["     ", "     ", "     ", "  ,, ", "  ,, ", " ,,  "]),
    (':', ["     ", "  :: ", "  :: ", "     ", "  :: ", "  :: "]),
    ('-', ["     ", "     ", "-----", "     ", "     ", "     "]),
    ('!', ["  !  ", "  !  ", "  !  ", "  !  ", "     ", "  !  "]),
    ('?', [" ??? ", "?   ?", "   ? ", "  ?  ", "     ", "  ?  "]),
    ('/', ["    /", "   / ", "  /  ", " /   ", "/    ", "     "]),
];

/// The glyph of `c`: the first entry of the table at or after `i` that is for `c`.
pub open spec fn glyph_from(c: char, i: int) -> Option<[&'static str; 6]>
    decreases 44 - i,
{
    if i < 0 || i >= 44 {
        None
    } else if GLYPHS[i].0 == c {
        Some(GLYPHS[i].1)
    } else {
        glyph_from(c, i + 1)
    }
}

pub open spec fn glyph(c: char) -> Option<[&'static str; 6]> {
    glyph_from(c, 0)
}

/// Each character's glyph, when every character has one.
pub open spec fn glyphs_of(s: Seq<char>) -> Option<Seq<[&'static str; 6]>> {
    if forall|i: int| 0 <= i < s.len() ==> (#[trigger] glyph(s[i])) is Some {
        Some(s.map_values(|c: char| glyph(c)->0))
    } else {
        None
    }
}

/// Whether glyph cell `x` of row `y` of `g` holds ink (a missing cell is blank).
pub open spec fn ink(g: [&'static str; 6], y: int, x: int) -> bool {
    0 <= y < 6 && 0 <= x < g[y]@.len() && g[y]@[x] != ' '
}

/// Whether cell `(y, x)` of the canvas is the front face of a glyph: glyph `x / 7`
/// occupies columns `7k .. 7k+5` of rows `0 .. 6`.
pub open spec fn front(gs: Seq<[&'static str; 6]>, y: int, x: int) -> bool {
    0 <= x && x / 7 < gs.len() && x % 7 < 5 && ink(gs[x / 7], y, x % 7)
}

/// Front faces win; the shadow is the front face moved one cell down and right.
pub open spec fn big_cell(gs: Seq<[&'static str; 6]>, y: int, x: int) -> char {
    if front(gs, y, x) {
        '█'
    } else if front(gs, y - 1, x - 1) {
        '░'
    } else {
        ' '
    }
}

/// The seven canvas rows, `7 * glyphs + 1` cells wide, each clipped to `width`.
pub open spec fn big_rows(gs: Seq<[&'static str; 6]>, width: nat) -> Seq<Seq<char>> {
    Seq::new(7, |y: int| clip(Seq::new(gs.len() * 7 + 1, |x: int| big_cell(gs, y, x)), width))
}

/// `str::to_uppercase`: the Unicode upper case of a string.
pub uninterp spec fn unicode_upper(s: Seq<char>) -> Seq<char>;

/// The characters that fit at seven cells each (at least one), upper-cased; when one of
/// them has no glyph, the input clipped to the width in one line.
pub open spec fn big_text(input: Seq<char>, width: nat) -> Seq<Seq<char>> {
    if width == 0 {
        seq![]
    } else {
        let max_chars: nat = if width / 7 >= 1 {
            width / 7
        } else {
            1
        };
        let upper = unicode_upper(clip(input, max_chars));
        match glyphs_of(upper) {
            Some(gs) => big_rows(gs, width),
            None => seq![clip(input, width)],
        }
    }
}

/// How many characters big text draws at a width: one per seven cells, at least one.
pub open spec fn big_chars(width: nat) -> nat {
    if width / 7 >= 1 {
        width / 7
    } else {
        1
    }
}

/// Big text draws each character's glyph as it stands: when every upper-cased
/// character has a glyph and the width holds them, there are seven lines, and cell `x`
/// of line `y` (`y` < 6) in the seven-cell slot of character `k` is the front face `█`
/// exactly where row `y` of that character's glyph has ink at column `x`.
pub proof fn lemma_big_text_draws_glyphs(input: Seq<char>, width: nat, y: int, k: int, x: int)
    requires
        width > 0,
        forall|i: int|
            0 <= i < unicode_upper(clip(input, big_chars(width))).len() ==> (#[trigger] glyph(
                unicode_upper(clip(input, big_chars(width)))[i],
            )) is Some,
        7 * unicode_upper(clip(input, big_chars(width))).len() + 1 <= width,
        0 <= y < 6,
        0 <= k < unicode_upper(clip(input, big_chars(width))).len(),
        0 <= x < 5,
    ensures
        ({
            let up = unicode_upper(clip(input, big_chars(width)));
            let g = glyph(up[k])->0;
            let out = big_text(input, width);
            &&& out.len() == 7
            &&& out[y].len() == 7 * up.len() + 1
            &&& (out[y][7 * k + x] == '█' <==> (x < g[y]@.len() && g[y]@[x] != ' '))
        }),
{
    let up = unicode_upper(clip(input, big_chars(width)));
    assert(glyphs_of(up) is Some);
    let gs = up.map_values(|c: char| glyph(c)->0);
    assert(glyphs_of(up) == Some(gs));
    let c = 7 * k + x;
    assert(c / 7 == k && c % 7 == x) by (nonlinear_arith)
        requires
            c == 7 * k + x,
            0 <= x < 5,
            0 <= k,
    ;
    assert(c < 7 * up.len() + 1) by (nonlinear_arith)
        requires
            c == 7 * k + x,
            x < 5,
            k < up.len(),
    ;
    assert(gs[k] == glyph(up[k])->0);
    let row = Seq::new((gs.len() * 7 + 1) as nat, |xx: int| big_cell(gs, y, xx));
    assert(row.len() <= width);
    assert(big_rows(gs, width)[y] == clip(row, width));
    assert(clip(row, width) == row);
    assert(row[c] == big_cell(gs, y, c));
    assert(front(gs, y, c) == ink(gs[k], y, x));
}

/// The shadow of big text: in the slot of character `k`, cell `x` (1 to 5) of line `y`
/// (1 to 6) is the shadow `░` exactly where the glyph has ink one row up and one column
/// left and no front face covers the cell.
pub proof fn lemma_big_text_shadow(input: Seq<char>, width: nat, y: int, k: int, x: int)
    requires
        width > 0,
        forall|i: int|
            0 <= i < unicode_upper(clip(input, big_chars(width))).len() ==> (#[trigger] glyph(
                unicode_upper(clip(input, big_chars(width)))[i],
            )) is Some,
        7 * unicode_upper(clip(input, big_chars(width))).len() + 1 <= width,
        1 <= y < 7,
        0 <= k < unicode_upper(clip(input, big_chars(width))).len(),
        1 <= x <= 5,
    ensures
        ({
            let up = unicode_upper(clip(input, big_chars(width)));
            let g = glyph(up[k])->0;
            let out = big_text(input, width);
            let face = y < 6 && x < 5 && x < g[y]@.len() && g[y]@[x] != ' ';
            let above = x - 1 < g[y - 1]@.len() && g[y - 1]@[x - 1] != ' ';
            out[y][7 * k + x] == '░' <==> (!face && above)
        }),
{
    let up = unicode_upper(clip(input, big_chars(width)));
    assert(glyphs_of(up) is Some);
    let gs = up.map_values(|c: char| glyph(c)->0);
    assert(glyphs_of(up) == Some(gs));
    let c = 7 * k + x;
    assert(c / 7 == k && c % 7 == x) by (nonlinear_arith)
        requires
            c == 7 * k + x,
            0 <= x <= 5,
            0 <= k,
    ;
    assert((c - 1) / 7 == k && (c - 1) % 7 == x - 1) by (nonlinear_arith)
        requires
            c == 7 * k + x,
            1 <= x <= 5,
            0 <= k,
    ;
    assert(c < 7 * up.len() + 1) by (nonlinear_arith)
        requires
            c == 7 * k + x,
            x <= 5,
            k < up.len(),
    ;
    assert(gs[k] == glyph(up[k])->0);
    let row = Seq::new((gs.len() * 7 + 1) as nat, |xx: int| big_cell(gs, y, xx));
    assert(big_rows(gs, width)[y] == clip(row, width));
    assert(clip(row, width) == row);
    assert(row[c] == big_cell(gs, y, c));
    assert(front(gs, y, c) == (x < 5 && ink(gs[k], y, x)));
    assert(front(gs, y - 1, c - 1) == ink(gs[k], y - 1, x - 1));
}

/// `std`'s `str::to_uppercase`; its result is what `unicode_upper` names.
#[verifier::external_body]
fn to_uppercase(s: &str) -> (r: String)
    ensures
        r@ == unicode_upper(s@),
{
    s.to_uppercase()
}

/// The glyph of `ch`, if big text can draw it.
pub fn glyph_for(ch: char) -> (r: Option<[&'static str; 6]>)
    ensures
        r == glyph(ch),
{
    let mut i: usize = 0;
    while i < 44
        invariant
            i <= 44,
            glyph(ch) == glyph_from(ch, i as int),
        decreases 44 - i,
    {
        let entry = GLYPHS[i];
        if entry.0 == ch {
            return Some(entry.1);
        }
        i = i + 1;
    }
    None
}

/// Whether the mask rows `ms` (the characters of each glyph row) have ink at `(y, x)`.
fn ink_at(ms: &Vec<Vec<Vec<char>>>, y: usize, x: usize, Ghost(gs): Ghost<Seq<[&'static str; 6]>>) -> (r: bool)
    requires
        ms@.len() == gs.len(),
        forall|k: int| 0 <= k < gs.len() ==> (#[trigger] ms@[k])@.len() == 6,
        forall|k: int, j: int|
            0 <= k < gs.len() && 0 <= j < 6 ==> (#[trigger] ms@[k]@[j])@ == gs[k][j]@,
    ensures
        r == front(gs, y as int, x as int),
{
    if y >= 6 || x / 7 >= ms.len() || x % 7 >= 5 {
        return false;
    }
    let row = &ms[x / 7][y];
    let gx = x % 7;
    gx < row.len() && row[gx] != ' '
}

/// Renders `input` in large block letters, at most `width` cells wide; text with a
/// character that has no glyph comes back as one clipped line.
pub fn render_big_text(input: &str, width: usize) -> (r: Vec<String>)
    ensures
        r@.map_values(|x: String| x@) == big_text(input@, width as nat),
{
    let out = big_text_chars(&chars_of(input), width);
    crate::render::text::to_strings(&out)
}

pub fn big_text_chars(input: &Vec<char>, width: usize) -> (r: Vec<Vec<char>>)
    ensures
        crate::strings::seqs_of(r@) == big_text(input@, width as nat),
{
    let mut out: Vec<Vec<char>> = Vec::new();
    if width == 0 {
        assert(crate::strings::seqs_of(out@) =~= Seq::<Seq<char>>::empty());
        return out;
    }
    let max_chars = if width / 7 >= 1 {
        width / 7
    } else {
        1
    };
    let head = clip_chars(input, max_chars);
    let upper = chars_of(&to_uppercase(&string_of(&head)).as_str());
    let ghost up = upper@;
    let mut gs: Vec<[&'static str; 6]> = Vec::new();
    let mut ms: Vec<Vec<Vec<char>>> = Vec::new();
    let mut i: usize = 0;
    while i < upper.len()
        invariant
            i <= upper@.len(),
            up == upper@,
            out@.len() == 0,
            width > 0,
            max_chars == (if width / 7 >= 1 { width / 7 } else { 1 }),
            up == unicode_upper(clip(input@, max_chars as nat)),
            gs@.len() == i,
            ms@.len() == i,
            forall|k: int| 0 <= k < i ==> glyph(up[k]) == Some(#[trigger] gs@[k]),
            forall|k: int| 0 <= k < i ==> (#[trigger] ms@[k])@.len() == 6,
            forall|k: int, j: int|
                0 <= k < i && 0 <= j < 6 ==> (#[trigger] ms@[k]@[j])@ == gs@[k][j]@,
        decreases upper@.len() - i,
    {
        match glyph_for(upper[i]) {
            Some(g) => {
                let mut rows: Vec<Vec<char>> = Vec::new();
                let mut j: usize = 0;
                while j < 6
                    invariant
                        j <= 6,
                        rows@.len() == j,
                        forall|t: int| 0 <= t < j ==> (#[trigger] rows@[t])@ == g[t]@,
                    decreases 6 - j,
                {
                    rows.push(chars_of(g[j]));
                    j = j + 1;
                }
                gs.push(g);
                ms.push(rows);
            },
            None => {
                assert(glyph(up[i as int]) is None);
                assert(glyphs_of(up) is None);
                let line = clip_chars(input, width);
                out.push(line);
                assert(crate::strings::seqs_of(out@) =~= seq![clip(input@, width as nat)]);
                return out;
            },
        }
        i = i + 1;
    }
    let ghost gsv = up.map_values(|c: char| glyph(c)->0);
    assert forall|k: int| 0 <= k < up.len() implies (#[trigger] glyph(up[k])) is Some by {
        assert(glyph(up[k]) == Some(gs@[k]));
    }
    assert(glyphs_of(up) == Some(gsv));
    assert(crate::strings::seqs_of(out@) =~= Seq::<Seq<char>>::empty());
    assert(gs@ =~= gsv);
    let n = gs.len();
    let row_len: usize = if n <= (width - 1) / 7 {
        n * 7 + 1
    } else {
        width
    };
    assert(row_len == clip(Seq::new((n * 7 + 1) as nat, |x: int| big_cell(gsv, 0, x)), width as nat).len());
    let mut y: usize = 0;
    while y < 7
        invariant
            y <= 7,
            width > 0,
            gs@ == gsv,
            ms@.len() == gsv.len(),
            n == gsv.len(),
            row_len == (if n * 7 + 1 <= width { n * 7 + 1 } else { width as int }),
            forall|k: int| 0 <= k < gsv.len() ==> (#[trigger] ms@[k])@.len() == 6,
            forall|k: int, j: int|
                0 <= k < gsv.len() && 0 <= j < 6 ==> (#[trigger] ms@[k]@[j])@ == gsv[k][j]@,
            crate::strings::seqs_of(out@) =~= big_rows(gsv, width as nat).take(y as int),
        decreases 7 - y,
    {
        let mut row: Vec<char> = Vec::new();
        let mut x: usize = 0;
        while x < row_len
            invariant
                x <= row_len,
                y < 7,
                ms@.len() == gsv.len(),
                forall|k: int| 0 <= k < gsv.len() ==> (#[trigger] ms@[k])@.len() == 6,
                forall|k: int, j: int|
                    0 <= k < gsv.len() && 0 <= j < 6 ==> (#[trigger] ms@[k]@[j])@ == gsv[k][j]@,
                row@ =~= Seq::new(x as nat, |c: int| big_cell(gsv, y as int, c)),
            decreases row_len - x,
        {
            let c = if ink_at(&ms, y, x, Ghost(gsv)) {
                '█'
            } else if y >= 1 && x >= 1 && ink_at(&ms, y - 1, x - 1, Ghost(gsv)) {
                '░'
            } else {
                ' '
            };
            row.push(c);
            x = x + 1;
        }
        let ghost before = crate::strings::seqs_of(out@);
        out.push(row);
        assert(crate::strings::seqs_of(out@) =~= before.push(row@));
        assert(row@ =~= clip(Seq::new((n * 7 + 1) as nat, |c: int| big_cell(gsv, y as int, c)), width as nat));
        y = y + 1;
    }
    out
}

} // verus!
