//! Width-aware text helpers: clipping, padding, word wrapping and the width of
//! text that carries ANSI escape sequences.
use vstd::prelude::*;

use crate::strings::{
    char_is_ws, chars_of, is_ws, words_from, lines, seqs_of, split_lines, split_words, string_of, trim, trim_bounds,
    words,
};

verus! {

/// The first `w` characters of `s` (all of `s` when it is shorter).
pub open spec fn clip(s: Seq<char>, w: nat) -> Seq<char> {
    if s.len() <= w {
        s
    } else {
        s.take(w as int)
    }
}

/// `n` spaces.
pub open spec fn spaces(n: nat) -> Seq<char> {
    Seq::new(n, |_i: int| ' ')
}

pub open spec fn is_ascii_alpha(c: char) -> bool {
    ('A' <= c && c <= 'Z') || ('a' <= c && c <= 'z')
}

/// Number of characters shown on a terminal. State 0 is plain text, state 1 follows an
/// ESC, state 2 is inside a CSI sequence (`ESC [`), which an ASCII letter ends. An ESC
/// not followed by `[` hides only itself.
pub open spec fn visible_run(s: Seq<char>, st: nat) -> nat
    decreases s.len(), st,
{
    if s.len() == 0 {
        0
    } else if st == 0 {
        if s[0] == '\x1b' {
            visible_run(s.drop_first(), 1)
        } else {
            1 + visible_run(s.drop_first(), 0)
        }
    } else if st == 1 {
        if s[0] == '[' {
            visible_run(s.drop_first(), 2)
        } else {
            visible_run(s, 0)
        }
    } else {
        if is_ascii_alpha(s[0]) {
            visible_run(s.drop_first(), 0)
        } else {
            visible_run(s.drop_first(), 2)
        }
    }
}

pub open spec fn visible(s: Seq<char>) -> nat {
    visible_run(s, 0)
}

/// `s` clipped to `w` characters and filled with spaces up to a visible width of `w`.
pub open spec fn pad(s: Seq<char>, w: nat) -> Seq<char> {
    let c = clip(s, w);
    if visible(c) >= w {
        c
    } else {
        c + spaces((w - visible(c)) as nat)
    }
}

/// One step of the greedy word wrap: `acc` holds the finished lines and the line
/// being filled.
pub open spec fn wrap_step(acc: (Seq<Seq<char>>, Seq<char>), w: Seq<char>, width: nat) -> (
    Seq<Seq<char>>,
    Seq<char>,
) {
    let out = acc.0;
    let cur = acc.1;
    if cur.len() == 0 {
        if w.len() > width {
            (out.push(w.take(width as int)), cur)
        } else {
            (out, w)
        }
    } else if cur.len() + 1 + w.len() <= width {
        (out, cur + seq![' '] + w)
    } else if w.len() > width {
        (out.push(cur).push(w.take(width as int)), seq![])
    } else {
        (out.push(cur), w)
    }
}

pub open spec fn wrap_fold(ws: Seq<Seq<char>>, width: nat) -> (Seq<Seq<char>>, Seq<char>)
    decreases ws.len(),
{
    if ws.len() == 0 {
        (seq![], seq![])
    } else {
        wrap_step(wrap_fold(ws.drop_last(), width), ws.last(), width)
    }
}

/// The lines that the words of one source line wrap into.
pub open spec fn wrap_words(ws: Seq<Seq<char>>, width: nat) -> Seq<Seq<char>> {
    let r = wrap_fold(ws, width);
    if r.1.len() > 0 {
        r.0.push(r.1)
    } else {
        r.0
    }
}

/// A blank source line stays one empty line; any other is wrapped word by word.
pub open spec fn wrap_piece(line: Seq<char>, width: nat) -> Seq<Seq<char>> {
    if trim(line).len() == 0 {
        seq![seq![]]
    } else {
        wrap_words(words(line), width)
    }
}

pub open spec fn wrap_lines(ls: Seq<Seq<char>>, width: nat) -> Seq<Seq<char>>
    decreases ls.len(),
{
    if ls.len() == 0 {
        seq![]
    } else {
        wrap_lines(ls.drop_last(), width) + wrap_piece(ls.last(), width)
    }
}

/// `wrap_text` on a character sequence.
pub open spec fn wrap(s: Seq<char>, width: nat) -> Seq<Seq<char>> {
    if width == 0 {
        seq![]
    } else {
        wrap_lines(lines(s), width)
    }
}

/// Lines joined with one space between each two.
pub open spec fn joined(ls: Seq<Seq<char>>) -> Seq<char>
    decreases ls.len(),
{
    if ls.len() == 0 {
        seq![]
    } else if ls.len() == 1 {
        ls[0]
    } else {
        joined(ls.drop_last()) + seq![' '] + ls.last()
    }
}

/// The lines a wrap has finished, and the one it is filling when it has text.
pub open spec fn wrap_state_lines(acc: (Seq<Seq<char>>, Seq<char>)) -> Seq<Seq<char>> {
    if acc.1.len() > 0 {
        acc.0.push(acc.1)
    } else {
        acc.0
    }
}

proof fn lemma_joined_push(ls: Seq<Seq<char>>, x: Seq<char>)
    ensures
        joined(ls.push(x)) == (if ls.len() == 0 {
            x
        } else {
            joined(ls) + seq![' '] + x
        }),
{
    assert(ls.push(x).drop_last() =~= ls);
}

proof fn lemma_joined_empty(ls: Seq<Seq<char>>)
    requires
        forall|i: int| 0 <= i < ls.len() ==> (#[trigger] ls[i]).len() > 0,
    ensures
        joined(ls).len() == 0 <==> ls.len() == 0,
    decreases ls.len(),
{
    if ls.len() > 1 {
        lemma_joined_empty(ls.drop_last());
    }
}

proof fn lemma_wrap_fold_keeps_words(ws: Seq<Seq<char>>, width: nat)
    requires
        width > 0,
        forall|i: int| 0 <= i < ws.len() ==> (#[trigger] ws[i]).len() > 0,
    ensures
        joined(wrap_state_lines(wrap_fold(ws, width))) == joined(ws.map_values(|w: Seq<char>| clip(w, width))),
        forall|i: int|
            0 <= i < wrap_state_lines(wrap_fold(ws, width)).len() ==> (#[trigger] wrap_state_lines(
                wrap_fold(ws, width),
            )[i]).len() > 0 && wrap_state_lines(wrap_fold(ws, width))[i].len() <= width,
    decreases ws.len(),
{
    let cl = ws.map_values(|w: Seq<char>| clip(w, width));
    if ws.len() > 0 {
        let pre = ws.drop_last();
        lemma_wrap_fold_keeps_words(pre, width);
        let acc = wrap_fold(pre, width);
        let out = acc.0;
        let cur = acc.1;
        let w = ws.last();
        let c = clip(w, width);
        let l = wrap_state_lines(acc);
        let cpre = pre.map_values(|w: Seq<char>| clip(w, width));
        assert(cl =~= cpre.push(c));
        lemma_joined_push(cpre, c);
        assert forall|i: int| 0 <= i < cpre.len() implies (#[trigger] cpre[i]).len() > 0 by {
            assert(pre[i] == ws[i]);
        }
        lemma_joined_empty(cpre);
        lemma_joined_empty(l);
        assert(c.len() > 0);
        let acc2 = wrap_fold(ws, width);
        assert(acc2 == wrap_step(acc, w, width));
        if cur.len() == 0 {
            assert(l == out);
            if w.len() > width {
                assert(wrap_state_lines(acc2) == out.push(c));
                lemma_joined_push(out, c);
            } else {
                assert(c == w);
                assert(wrap_state_lines(acc2) == out.push(w));
                lemma_joined_push(out, w);
            }
        } else if cur.len() + 1 + w.len() <= width {
            assert(c == w);
            assert(l == out.push(cur));
            assert(wrap_state_lines(acc2) == out.push(cur + seq![' '] + w));
            lemma_joined_push(out, cur);
            lemma_joined_push(out, cur + seq![' '] + w);
            assert(joined(out.push(cur + seq![' '] + w)) =~= joined(l) + seq![' '] + w);
        } else if w.len() > width {
            assert(l == out.push(cur));
            assert(wrap_state_lines(acc2) == out.push(cur).push(c));
            lemma_joined_push(out.push(cur), c);
        } else {
            assert(c == w);
            assert(l == out.push(cur));
            assert(wrap_state_lines(acc2) == out.push(cur).push(w));
            lemma_joined_push(out.push(cur), w);
        }
        assert forall|i: int|
            0 <= i < wrap_state_lines(acc2).len() implies (#[trigger] wrap_state_lines(acc2)[i]).len() > 0
            && wrap_state_lines(acc2)[i].len() <= width by {
            if i < l.len() {
                assert(out.push(cur)[i] == l[i] || out[i] == l[i]);
            }
        }
    } else {
        assert(cl =~= Seq::<Seq<char>>::empty());
    }
}

proof fn lemma_words_from_nonempty(s: Seq<char>, cur: Seq<char>)
    ensures
        forall|i: int| 0 <= i < words_from(s, cur).len() ==> (#[trigger] words_from(s, cur)[i]).len() > 0,
    decreases s.len(),
{
    if s.len() > 0 {
        if is_ws(s[0]) {
            lemma_words_from_nonempty(s.drop_first(), seq![]);
            let rest = words_from(s.drop_first(), seq![]);
            if cur.len() > 0 {
                let all = seq![cur] + rest;
                assert(words_from(s, cur) == all);
                assert forall|i: int| 0 <= i < all.len() implies (#[trigger] all[i]).len() > 0 by {
                    if i > 0 {
                        assert(all[i] == rest[i - 1]);
                    }
                }
            } else {
                assert(words_from(s, cur) == rest);
            }
        } else {
            lemma_words_from_nonempty(s.drop_first(), cur.push(s[0]));
            assert(words_from(s, cur) == words_from(s.drop_first(), cur.push(s[0])));
        }
    } else {
        if cur.len() > 0 {
            assert(words_from(s, cur) == seq![cur]);
        } else {
            assert(words_from(s, cur) == Seq::<Seq<char>>::empty());
        }
    }
}

/// Wrapping a line loses no text: at a width above 0, the wrapped lines joined with
/// single spaces are the line's words, each clipped to the width, joined the same way;
/// no wrapped line is empty or wider than the width; a blank line stays one empty
/// line.
pub proof fn lemma_wrap_keeps_words(line: Seq<char>, width: nat)
    requires
        width > 0,
    ensures
        trim(line).len() > 0 ==> joined(wrap_piece(line, width)) == joined(
            words(line).map_values(|w: Seq<char>| clip(w, width)),
        ),
        trim(line).len() > 0 ==> forall|i: int|
            0 <= i < wrap_piece(line, width).len() ==> (#[trigger] wrap_piece(line, width)[i]).len() > 0
                && wrap_piece(line, width)[i].len() <= width,
        trim(line).len() == 0 ==> wrap_piece(line, width) == seq![Seq::<char>::empty()],
{
    lemma_words_from_nonempty(line, seq![]);
    lemma_wrap_fold_keeps_words(words(line), width);
}

pub fn clip_chars(s: &[char], width: usize) -> (r: Vec<char>)
    ensures
        r@ == clip(s@, width as nat),
{
    let n = if s.len() <= width {
        s.len()
    } else {
        width
    };
    crate::strings::slice_to_vec(s, 0, n)
}

pub fn spaces_vec(n: usize) -> (r: Vec<char>)
    ensures
        r@ == spaces(n as nat),
{
    let mut out: Vec<char> = Vec::new();
    let mut i: usize = 0;
    while i < n
        invariant
            i <= n,
            out@ =~= spaces(i as nat),
        decreases n - i,
    {
        out.push(' ');
        i = i + 1;
    }
    out
}

pub fn visible_width_chars(s: &[char]) -> (r: usize)
    ensures
        r == visible(s@),
        r <= s@.len(),
{
    let n = s.len();
    let mut i: usize = 0;
    let mut st: u8 = 0;
    let mut width: usize = 0;
    assert(s@.skip(0) =~= s@);
    while i < n
        invariant
            i <= n,
            n == s@.len(),
            st <= 2,
            width <= i,
            visible(s@) == width + visible_run(s@.skip(i as int), st as nat),
        decreases n - i, st,
    {
        let c = s[i];
        proof {
            assert(s@.skip(i as int).drop_first() =~= s@.skip(i + 1));
            assert(s@.skip(i as int)[0] == c);
        }
        if st == 0 {
            if c == '\x1b' {
                st = 1;
            } else {
                width = width + 1;
            }
            i = i + 1;
        } else if st == 1 {
            if c == '[' {
                st = 2;
                i = i + 1;
            } else {
                st = 0;
            }
        } else {
            if ('A' <= c && c <= 'Z') || ('a' <= c && c <= 'z') {
                st = 0;
            }
            i = i + 1;
        }
    }
    width
}

pub fn pad_chars(s: &[char], width: usize) -> (r: Vec<char>)
    ensures
        r@ == pad(s@, width as nat),
{
    let mut clipped = clip_chars(s, width);
    let visible = visible_width_chars(&clipped);
    if visible >= width {
        return clipped;
    }
    let mut fill = spaces_vec(width - visible);
    clipped.append(&mut fill);
    clipped
}

/// Wraps the words of one source line.
fn wrap_word_list(ws: &Vec<Vec<char>>, width: usize) -> (r: Vec<Vec<char>>)
    requires
        forall|k: int| 0 <= k < ws@.len() ==> (#[trigger] ws@[k])@.len() > 0,
    ensures
        seqs_of(r@) == wrap_words(seqs_of(ws@), width as nat),
{
    let ghost wsv = seqs_of(ws@);
    let mut out: Vec<Vec<char>> = Vec::new();
    let mut cur: Vec<char> = Vec::new();
    let mut k: usize = 0;
    assert(wsv.take(0) =~= Seq::<Seq<char>>::empty());
    assert(seqs_of(out@) =~= Seq::<Seq<char>>::empty());
    while k < ws.len()
        invariant
            k <= ws@.len(),
            wsv == seqs_of(ws@),
            cur@.len() <= width,
            (seqs_of(out@), cur@) == wrap_fold(wsv.take(k as int), width as nat),
        decreases ws@.len() - k,
    {
        let w = &ws[k];
        proof {
            assert(wsv.take(k + 1).drop_last() =~= wsv.take(k as int));
            assert(wsv.take(k + 1).last() == w@);
        }
        let ghost before = seqs_of(out@);
        if cur.len() == 0 {
            if w.len() > width {
                out.push(clip_chars(w, width));
                assert(seqs_of(out@) =~= before.push(w@.take(width as int)));
            } else {
                cur = w.clone();
                assert(cur@ =~= w@);
            }
        } else if cur.len() < width && w.len() <= width - cur.len() - 1 {
            cur.push(' ');
            let mut tail = w.clone();
            assert(tail@ =~= w@);
            cur.append(&mut tail);
        } else {
            let ghost cv = cur@;
            out.push(cur);
            assert(seqs_of(out@) =~= before.push(cv));
            if w.len() > width {
                let ghost mid = seqs_of(out@);
                out.push(clip_chars(w, width));
                assert(seqs_of(out@) =~= mid.push(w@.take(width as int)));
                cur = Vec::new();
                assert(cur@ =~= seq![]);
            } else {
                cur = w.clone();
                assert(cur@ =~= w@);
            }
        }
        k = k + 1;
    }
    assert(wsv.take(ws@.len() as int) =~= wsv);
    if cur.len() > 0 {
        let ghost before = seqs_of(out@);
        out.push(cur);
        assert(seqs_of(out@) =~= before.push(cur@));
    }
    out
}

pub fn wrap_chars(s: &[char], width: usize) -> (r: Vec<Vec<char>>)
    ensures
        seqs_of(r@) == wrap(s@, width as nat),
{
    let mut out: Vec<Vec<char>> = Vec::new();
    if width == 0 {
        assert(seqs_of(out@) =~= Seq::<Seq<char>>::empty());
        return out;
    }
    let ls = split_lines(s);
    let ghost lsv = seqs_of(ls@);
    let mut i: usize = 0;
    assert(lsv.take(0) =~= Seq::<Seq<char>>::empty());
    assert(seqs_of(out@) =~= Seq::<Seq<char>>::empty());
    while i < ls.len()
        invariant
            i <= ls@.len(),
            width > 0,
            lsv == seqs_of(ls@),
            lsv == lines(s@),
            seqs_of(out@) == wrap_lines(lsv.take(i as int), width as nat),
        decreases ls@.len() - i,
    {
        let line = &ls[i];
        proof {
            assert(lsv.take(i + 1).drop_last() =~= lsv.take(i as int));
            assert(lsv.take(i + 1).last() == line@);
        }
        let ghost before = seqs_of(out@);
        let (a, b) = trim_bounds(line);
        if a == b {
            out.push(Vec::new());
            assert(seqs_of(out@) =~= before + seq![Seq::<char>::empty()]);
        } else {
            let ws = split_words(line);
            let mut piece = wrap_word_list(&ws, width);
            let ghost pv = seqs_of(piece@);
            out.append(&mut piece);
            assert(seqs_of(out@) =~= before + pv);
        }
        i = i + 1;
    }
    assert(lsv.take(ls@.len() as int) =~= lsv);
    out
}

/// Word-wraps `input` to lines of at most `width` characters; a word longer than a
/// line is clipped.
pub fn wrap_text(input: &str, width: usize) -> (r: Vec<String>)
    ensures
        r@.map_values(|x: String| x@) == wrap(input@, width as nat),
{
    let cs = chars_of(input);
    let lines = wrap_chars(&cs, width);
    to_strings(&lines)
}

/// The strings made of the given character vectors.
pub fn to_strings(v: &Vec<Vec<char>>) -> (r: Vec<String>)
    ensures
        r@.map_values(|x: String| x@) == seqs_of(v@),
{
    let mut out: Vec<String> = Vec::new();
    let mut i: usize = 0;
    while i < v.len()
        invariant
            i <= v@.len(),
            out@.map_values(|x: String| x@) =~= seqs_of(v@).take(i as int),
        decreases v@.len() - i,
    {
        let ghost before = out@;
        let t = string_of(&v[i]);
        out.push(t);
        assert(out@ == before.push(t));
        assert(out@.map_values(|x: String| x@) =~= before.map_values(|x: String| x@).push(t@));
        assert(seqs_of(v@).take(i + 1) =~= seqs_of(v@).take(i as int).push(v@[i as int]@));
        i = i + 1;
    }
    out
}

/// The first `width` characters of `input`.
pub fn clip_to_width(input: &str, width: usize) -> (r: String)
    ensures
        r@ == clip(input@, width as nat),
{
    let cs = chars_of(input);
    string_of(&clip_chars(&cs, width))
}

/// Text without an escape character.
pub open spec fn no_escape(s: Seq<char>) -> bool {
    forall|i: int| 0 <= i < s.len() ==> s[i] != '\x1b'
}

proof fn lemma_plain_visible(s: Seq<char>)
    requires
        no_escape(s),
    ensures
        visible_run(s, 0) == s.len(),
    decreases s.len(),
{
    if s.len() > 0 {
        assert(no_escape(s.drop_first()));
        lemma_plain_visible(s.drop_first());
    }
}

/// Padding text without escapes gives exactly `w` characters, the text clipped then
/// filled with spaces, and padding that again changes nothing.
pub proof fn lemma_pad_plain(s: Seq<char>, w: nat)
    requires
        no_escape(s),
    ensures
        pad(s, w).len() == w,
        pad(s, w) == clip(s, w) + spaces((w - clip(s, w).len()) as nat),
        pad(pad(s, w), w) == pad(s, w),
{
    let c = clip(s, w);
    assert(no_escape(c));
    lemma_plain_visible(c);
    let p = pad(s, w);
    if c.len() >= w {
        assert(spaces(0) =~= Seq::<char>::empty());
        assert(p =~= c + spaces(0));
    }
    assert(p.len() == w);
    assert(no_escape(p));
    lemma_plain_visible(p);
    assert(clip(p, w) == p);
}

/// `input` clipped to `width` characters, then filled with spaces up to `width`
/// visible characters.
pub fn pad_to_width(input: &str, width: usize) -> (r: String)
    ensures
        r@ == pad(input@, width as nat),
{
    let cs = chars_of(input);
    string_of(&pad_chars(&cs, width))
}

/// The number of characters of `input` that a terminal shows: ANSI CSI escape
/// sequences count for nothing.
pub fn visible_width(input: &str) -> (r: usize)
    ensures
        r == visible(input@),
{
    let cs = chars_of(input);
    visible_width_chars(&cs)
}

} // verus!
