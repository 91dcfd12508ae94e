//! Code blocks: their lines clipped to the window, coloured by `syntect` when the
//! terminal takes colours.
use syntect::easy::HighlightLines;
use syntect::highlighting::ThemeSet;
use syntect::parsing::SyntaxSet;
use syntect::util::as_24_bit_terminal_escaped;
use vstd::prelude::*;

use crate::model::{opt_str, CodeData};
use crate::render::style::dec;
use crate::render::text::{clip, clip_chars};
use crate::strings::{chars_of, lines, seqs_of, split_lines, string_of};

verus! {

/// `syntect::parsing::SyntaxSet`.
#[verifier::external_type_specification]
#[verifier::external_body]
pub struct ExSyntaxSet(SyntaxSet);

/// `syntect::highlighting::ThemeSet`.
#[verifier::external_type_specification]
#[verifier::external_body]
pub struct ExThemeSet(ThemeSet);

/// `syntect::easy::HighlightLines`.
#[verifier::external_type_specification]
#[verifier::external_body]
pub struct ExHighlightLines<'a>(HighlightLines<'a>);

/// `SyntaxSet::load_defaults_newlines`: the syntaxes that `syntect` ships.
#[verifier::external_body]
fn default_syntaxes() -> SyntaxSet {
    SyntaxSet::load_defaults_newlines()
}

/// The names of the themes of a set: the keys of its `themes` map.
pub uninterp spec fn theme_names(ts: ThemeSet) -> Set<Seq<char>>;

/// `ThemeSet::load_defaults`: the themes that `syntect` ships, which its
/// documentation lists; `base16-ocean.dark` is among them.
#[verifier::external_body]
fn default_themes() -> (r: ThemeSet)
    ensures
        theme_names(r).contains("base16-ocean.dark"@),
{
    ThemeSet::load_defaults()
}

/// Whether the set has a theme of that name (`themes.contains_key(name)`).
#[verifier::external_body]
fn has_theme(ts: &ThemeSet, name: &str) -> (r: bool)
    ensures
        r == theme_names(*ts).contains(name@),
{
    ts.themes.contains_key(name)
}

/// The name of the first theme of the set, if there is one
/// (`themes.keys().next().cloned()`).
#[verifier::external_body]
fn first_theme_name(ts: &ThemeSet) -> (r: Option<String>)
    ensures
        match r {
            Some(n) => theme_names(*ts).contains(n@),
            None => theme_names(*ts) == Set::<Seq<char>>::empty(),
        },
{
    ts.themes.keys().next().cloned()
}

/// `ESC [ 38 ; 2 ; r ; g ; b m`: the 24-bit foreground colour `c`.
pub open spec fn fg_escape(c: (u8, u8, u8)) -> Seq<char> {
    "\x1b[38;2;"@ + dec(c.0 as nat) + ";"@ + dec(c.1 as nat) + ";"@ + dec(c.2 as nat) + "m"@
}

/// Each text after the escape of its colour, in order.
pub open spec fn escaped_pieces(cs: Seq<(u8, u8, u8)>, ts: Seq<Seq<char>>) -> Seq<char>
    decreases ts.len(),
{
    if ts.len() == 0 || cs.len() == 0 {
        seq![]
    } else {
        escaped_pieces(cs.drop_last(), ts.drop_last()) + fg_escape(cs.last()) + ts.last()
    }
}

/// `line` shows the text `text` coloured: pieces of it, in order, each after a
/// foreground colour escape.
pub open spec fn coloured(line: Seq<char>, text: Seq<char>) -> bool {
    exists|cs: Seq<(u8, u8, u8)>, ts: Seq<Seq<char>>|
        cs.len() == ts.len() && ts.flatten() == text && #[trigger] escaped_pieces(cs, ts) == line
}

/// `line` shows `text`: as it is, or coloured.
pub open spec fn shows_line(line: Seq<char>, text: Seq<char>) -> bool {
    line == text || coloured(line, text)
}

/// Whether syntect's default syntaxes give one for a block in language `lang`: the
/// syntax found by that token, else the plain-text one.
pub uninterp spec fn syntax_found(lang: Option<Seq<char>>) -> bool;

/// What syntect's default syntaxes and the default theme named `theme` give for the
/// last of `lines` when a block in language `lang` is highlighted line by line in that
/// order, as 24-bit terminal escapes; `None` when syntect fails on that line.
pub uninterp spec fn highlighted_line(lang: Option<Seq<char>>, theme: Seq<char>, lines: Seq<Seq<char>>) -> Option<
    Seq<char>,
>;

pub open spec fn opt_view(o: Option<&str>) -> Option<Seq<char>> {
    match o {
        Some(s) => Some(s@),
        None => None,
    }
}

/// A highlighter for one code block, with what it was started with and the lines it
/// has been given so far.
pub struct BlockHighlight<'a> {
    h: HighlightLines<'a>,
    ps: &'a SyntaxSet,
    lang: Ghost<Option<Seq<char>>>,
    theme: Ghost<Seq<char>>,
    fed: Ghost<Seq<Seq<char>>>,
}

/// `SyntaxSet::find_syntax_by_token` for the language (the plain-text syntax,
/// `find_syntax_by_name("Plain Text")`, when there is none or it is not found), the
/// theme of that name in the set, and `HighlightLines::new` with both; `None` when
/// either is missing. No line has been given to it yet.
#[verifier::external_body]
fn start_block<'a>(c: &'a CodeHighlighter, lang: Option<&str>, theme: &str) -> (r: Option<BlockHighlight<'a>>)
    ensures
        r is Some <==> (syntax_found(opt_view(lang)) && theme_names(c.themes).contains(theme@)),
        r matches Some(b) ==> b.lang@ == opt_view(lang) && b.theme@ == theme@ && b.fed@.len() == 0,
{
    let found = match lang {
        Some(l) => c.ps.find_syntax_by_token(l),
        None => None,
    };
    let syntax = match found {
        Some(s) => s,
        None => c.ps.find_syntax_by_name("Plain Text")?,
    };
    let t = c.themes.themes.get(theme)?;
    Some(BlockHighlight { h: HighlightLines::new(syntax, t), ps: &c.ps, lang: Ghost(opt_view(lang)), theme: Ghost(theme@), fed: Ghost(Seq::empty()) })
}

/// `HighlightLines::highlight_line` on the next line of the block, then
/// `as_24_bit_terminal_escaped` without backgrounds; `None` when syntect fails on the
/// line. The pieces' texts make up the line in order (as the documentation of
/// syntect's highlight iterator says), each after the escape of its foreground colour
/// (syntect's util.rs); the line joins the record of lines given.
#[verifier::external_body]
fn highlight_next(b: &mut BlockHighlight, line: &str) -> (r: Option<String>)
    ensures
        final(b).lang == old(b).lang,
        final(b).theme == old(b).theme,
        final(b).fed@ == old(b).fed@.push(line@),
        opt_string(r) == highlighted_line(old(b).lang@, old(b).theme@, old(b).fed@.push(line@)),
        r matches Some(t) ==> coloured(t@, line@),
{
    match b.h.highlight_line(line, b.ps) {
        Ok(v) => Some(as_24_bit_terminal_escaped(&v, false)),
        Err(_) => None,
    }
}

pub open spec fn opt_string(o: Option<String>) -> Option<Seq<char>> {
    match o {
        Some(s) => Some(s@),
        None => None,
    }
}

/// The lines of a code block clipped to `width`; one empty line when it has none.
pub open spec fn plain_code_lines(source: Seq<char>, width: nat) -> Seq<Seq<char>> {
    let ls = lines(source);
    if ls.len() == 0 {
        seq![seq![]]
    } else {
        ls.map_values(|l: Seq<char>| clip(l, width))
    }
}

/// Each line of a block shown by what syntect gives for it (the lines before it
/// given first), or as it is where syntect fails on it.
pub open spec fn highlighted_block(lang: Option<Seq<char>>, theme: Seq<char>, plain: Seq<Seq<char>>) -> Seq<
    Seq<char>,
> {
    Seq::new(
        plain.len(),
        |i: int|
            match highlighted_line(lang, theme, plain.take(i + 1)) {
                Some(x) => x,
                None => plain[i],
            },
    )
}

/// The theme a block is coloured with: the highlighter's, when the terminal takes
/// colours and a syntax is found for the block's language.
pub open spec fn block_colour(ansi: bool, theme: Option<Seq<char>>, lang: Option<Seq<char>>) -> Option<Seq<char>> {
    if ansi && syntax_found(lang) {
        theme
    } else {
        None
    }
}

/// The lines of a code block at `width`: clipped, and coloured with `colour` when
/// there is one (a block without lines gives one empty line).
pub open spec fn code_block_lines(lang: Option<Seq<char>>, source: Seq<char>, width: nat, colour: Option<Seq<char>>) -> Seq<
    Seq<char>,
> {
    let plain = plain_code_lines(source, width);
    match colour {
        Some(t) => if lines(source).len() == 0 {
            plain
        } else {
            highlighted_block(lang, t, plain)
        },
        None => plain,
    }
}

/// Colours code with the syntaxes and a theme of `syntect`.
pub struct CodeHighlighter {
    ps: SyntaxSet,
    themes: ThemeSet,
    theme: Option<String>,
}

impl CodeHighlighter {
    /// The theme chosen is one of the set.
    #[verifier::type_invariant]
    spec fn theme_in_set(self) -> bool {
        self.theme matches Some(n) ==> theme_names(self.themes).contains(n@)
    }

    /// Whether a colour theme was found.
    pub closed spec fn colors(&self) -> bool {
        self.theme is Some
    }

    /// The name of the colour theme, where one was found.
    pub closed spec fn theme_name(&self) -> Option<Seq<char>> {
        match &self.theme {
            Some(n) => Some(n@),
            None => None,
        }
    }

    /// The shipped syntaxes, and the theme `base16-ocean.dark` (else the first one);
    /// `syntect` ships that theme, so it is the one taken.
    pub fn new() -> (r: Self)
        ensures
            r.colors(),
            r.theme_name() == Some("base16-ocean.dark"@),
    {
        let ps = default_syntaxes();
        let themes = default_themes();
        let preferred = "base16-ocean.dark";
        let theme = if has_theme(&themes, preferred) {
            Some(preferred.to_owned())
        } else {
            first_theme_name(&themes)
        };
        CodeHighlighter { ps, themes, theme }
    }

    /// The lines of a code block, each clipped to `width` characters; coloured by the
    /// syntax of the block's language and the theme when `ansi` is set and both are
    /// found. A line that `syntect` fails on stays plain. A block without lines gives
    /// one empty line; a width of 0 gives none.
    pub fn render_code(&self, code: &CodeData, width: usize, ansi: bool) -> (r: Vec<String>)
        ensures
            width == 0 ==> r@.len() == 0,
            width > 0 ==> r@.map_values(|s: String| s@) == code_block_lines(
                opt_str(code.lang),
                code.source@,
                width as nat,
                block_colour(ansi, self.theme_name(), opt_str(code.lang)),
            ),
            width > 0 ==> forall|i: int|
                0 <= i < r@.len() ==> #[trigger] shows_line(
                    r@[i]@,
                    plain_code_lines(code.source@, width as nat)[i],
                ),
    {
        proof {
            use_type_invariant(self);
        }
        let mut out: Vec<String> = Vec::new();
        if width == 0 {
            return out;
        }
        let raw = split_lines(&chars_of(code.source.as_str()));
        let ghost ls = seqs_of(raw@);
        let ghost plain = plain_code_lines(code.source@, width as nat);
        let ghost lang = opt_str(code.lang);
        let mut i: usize = 0;
        let lang_str: Option<&str> = match &code.lang {
            Some(l) => Some(l.as_str()),
            None => None,
        };
        assert(opt_view(lang_str) == lang);
        let highlighter = if ansi {
            match &self.theme {
                Some(name) => start_block(self, lang_str, name.as_str()),
                None => None,
            }
        } else {
            None
        };
        let ghost colour = block_colour(ansi, self.theme_name(), lang);
        assert(highlighter is Some <==> colour is Some);
        match highlighter {
            Some(mut h) => {
                assert(h.fed@ =~= plain.take(0));
                while i < raw.len()
                    invariant
                        i <= raw@.len(),
                        ls == seqs_of(raw@),
                        ls == lines(code.source@),
                        ls.len() > 0 ==> plain == ls.map_values(|l: Seq<char>| clip(l, width as nat)),
                        plain == plain_code_lines(code.source@, width as nat),
                        ls.len() > 0 ==> plain.len() == ls.len(),
                        colour is Some,
                        h.lang@ == lang,
                        h.theme@ == colour->0,
                        h.fed@ == plain.take(i as int),
                        out@.map_values(|s: String| s@) == highlighted_block(lang, colour->0, plain).take(i as int),
                        forall|j: int| 0 <= j < i ==> #[trigger] shows_line(out@[j]@, plain[j]),
                    decreases raw@.len() - i,
                {
                    let clipped = string_of(&clip_chars(&raw[i], width));
                    assert(ls[i as int] == raw@[i as int]@);
                    assert(plain[i as int] == clipped@);
                    assert(plain.take(i as int).push(clipped@) =~= plain.take(i + 1));
                    let next = highlight_next(&mut h, clipped.as_str());
                    let line = match next {
                        Some(t) => t,
                        None => clipped.clone(),
                    };
                    assert(shows_line(line@, plain[i as int]));
                    assert(line@ == highlighted_block(lang, colour->0, plain)[i as int]);
                    let ghost before = out@;
                    out.push(line);
                    assert(out@.map_values(|s: String| s@) =~= before.map_values(|s: String| s@).push(line@));
                    assert(out@.map_values(|s: String| s@) =~= highlighted_block(lang, colour->0, plain).take(i + 1));
                    assert forall|j: int| 0 <= j < i + 1 implies #[trigger] shows_line(out@[j]@, plain[j]) by {
                        if j < i {
                            assert(out@[j] == before[j]);
                        }
                    }
                    i = i + 1;
                }
                if raw.len() > 0 {
                    assert(highlighted_block(lang, colour->0, plain).take(raw@.len() as int) =~= highlighted_block(
                        lang,
                        colour->0,
                        plain,
                    ));
                }
            },
            None => {
                while i < raw.len()
                    invariant
                        i <= raw@.len(),
                        ls == seqs_of(raw@),
                        ls == lines(code.source@),
                        out@.map_values(|s: String| s@) == ls.take(i as int).map_values(
                            |l: Seq<char>| clip(l, width as nat),
                        ),
                    decreases raw@.len() - i,
                {
                    let ghost before = out@;
                    let clipped = string_of(&clip_chars(&raw[i], width));
                    out.push(clipped);
                    assert(out@.map_values(|s: String| s@) =~= ls.take(i + 1).map_values(
                        |l: Seq<char>| clip(l, width as nat),
                    )) by {
                        assert(ls[i as int] == raw@[i as int]@);
                        assert(out@ == before.push(clipped));
                        assert(out@.map_values(|s: String| s@) =~= before.map_values(|s: String| s@).push(clipped@));
                        assert(ls.take(i + 1) =~= ls.take(i as int).push(ls[i as int]));
                    }
                    i = i + 1;
                }
                assert(ls.take(ls.len() as int) =~= ls);
            },
        }
        if out.len() == 0 {
            out.push(String::new());
            assert(out@.map_values(|s: String| s@) =~= seq![Seq::<char>::empty()]);
        }
        out
    }
}

} // verus!
