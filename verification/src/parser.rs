//! Markdown to slides: splitting the deck at `---` lines, the delimiter and cover
//! settings, the HTML-comment directives, and turning the Markdown events of a slide
//! into blocks.
use vstd::prelude::*;

use crate::app::opt_nat;
use crate::builder::{slide_from, slide_from_events};
use crate::markdown::{commonmark_events, markdown_events};
use crate::model::{
    copy_opt_string, copy_ratios, slides_model, BlockModel, Presentation, Slide, SlideModel, CalloutKind, ColumnAlign, opt_ratios, opt_str, AsciiFrameModel, CoverData, CoverModel, HorizontalAlign, ImageAsset,
    ImageAssetModel, ImageMode, VerticalAlign,
};
use crate::strings::{
    chars_of, ends_with, ends_with_chars, eq_chars, trim_matches, trim_matches_chars,
    upper_seq, to_upper, find, find_chars, lower_seq, parse_uint, parse_uint_chars, seqs_of,
    slice_to_vec, split, split_chars, starts_with, starts_with_chars, string_of, to_lower, trim,
    split_lines, trim_bounds, trim_chars, trim_end, trim_end_bounds, trim_start, lines,
};

verus! {

#[derive(Debug, Clone)]
pub struct SlideConfig {
    pub column_ratios: Option<Vec<u16>>,
    pub image_mode: Option<ImageMode>,
    pub title: Option<String>,
}

#[derive(Debug, Clone)]
pub struct SlideChunk {
    pub content: String,
    pub config: SlideConfig,
}

pub struct ConfigModel {
    pub column_ratios: Option<Seq<u16>>,
    pub image_mode: Option<ImageMode>,
    pub title: Option<Seq<char>>,
}

impl View for SlideConfig {
    type V = ConfigModel;

    open spec fn view(&self) -> ConfigModel {
        ConfigModel {
            column_ratios: opt_ratios(self.column_ratios),
            image_mode: self.image_mode,
            title: opt_str(self.title),
        }
    }
}

pub struct ChunkModel {
    pub content: Seq<char>,
    pub config: ConfigModel,
}

impl View for SlideChunk {
    type V = ChunkModel;

    open spec fn view(&self) -> ChunkModel {
        ChunkModel { content: self.content@, config: self.config@ }
    }
}

pub open spec fn default_config() -> ConfigModel {
    ConfigModel { column_ratios: None, image_mode: None, title: None }
}

impl Default for SlideConfig {
    fn default() -> (r: Self)
        ensures
            r@ == default_config(),
    {
        SlideConfig { column_ratios: None, image_mode: None, title: None }
    }
}

/// `auto`, `ascii` or `native`, in any ASCII case, around white space.
pub open spec fn image_mode_of(v: Seq<char>) -> Option<ImageMode> {
    let m = lower_seq(trim(v));
    if m == "auto"@ {
        Some(ImageMode::Auto)
    } else if m == "ascii"@ {
        Some(ImageMode::Ascii)
    } else if m == "native"@ {
        Some(ImageMode::Native)
    } else {
        None
    }
}

pub fn parse_image_mode(value: &[char]) -> (r: Option<ImageMode>)
    ensures
        r == image_mode_of(value@),
{
    let m = to_lower(&trim_chars(value));
    if eq_chars(&m, &chars_of("auto")) {
        Some(ImageMode::Auto)
    } else if eq_chars(&m, &chars_of("ascii")) {
        Some(ImageMode::Ascii)
    } else if eq_chars(&m, &chars_of("native")) {
        Some(ImageMode::Native)
    } else {
        None
    }
}

/// The positive `u16` values among the comma-separated pieces, in order.
pub open spec fn ratios_from(pieces: Seq<Seq<char>>) -> Seq<u16>
    decreases pieces.len(),
{
    if pieces.len() == 0 {
        seq![]
    } else {
        let rest = ratios_from(pieces.drop_last());
        match parse_uint(trim(pieces.last()), 65535) {
            Some(v) => if v > 0 {
                rest.push(v as u16)
            } else {
                rest
            },
            None => rest,
        }
    }
}

/// `columns: [a, b, ...]`: the ratios between the first `[` after the key and the next
/// `]`, when at least one is a positive number.
pub open spec fn columns_of(cfg: Seq<char>) -> Option<Seq<u16>> {
    match find(lower_seq(cfg), "columns:"@) {
        None => None,
        Some(p) => {
            let rest = cfg.skip(p + ("columns:"@).len());
            match find(rest, seq!['[']) {
                None => None,
                Some(st) => match find(rest.skip(st + 1), seq![']']) {
                    None => None,
                    Some(e) => {
                        let cols = ratios_from(split(rest.subrange(st + 1, st + 1 + e), ','));
                        if cols.len() > 0 {
                            Some(cols)
                        } else {
                            None
                        }
                    },
                },
            }
        },
    }
}

/// The text before the first `,` or `}`.
pub open spec fn until_comma_or_brace(s: Seq<char>) -> Seq<char>
    decreases s.len(),
{
    if s.len() == 0 || s[0] == ',' || s[0] == '}' {
        seq![]
    } else {
        seq![s[0]] + until_comma_or_brace(s.drop_first())
    }
}

/// `image-mode: m`: the mode named up to the next `,` or `}` (`None` for an unknown
/// name).
pub open spec fn image_mode_field(cfg: Seq<char>) -> Option<ImageMode> {
    match find(lower_seq(cfg), "image-mode:"@) {
        None => None,
        Some(p) => {
            let v = trim(until_comma_or_brace(cfg.skip(p + ("image-mode:"@).len())));
            if v.len() > 0 {
                image_mode_of(v)
            } else {
                None
            }
        },
    }
}

/// `key: value` or `key: "value"`: the value after the key (found in any ASCII
/// case), up to the closing quote or the next comma, trimmed; `None` when empty.
pub open spec fn string_value(cfg: Seq<char>, key: Seq<char>) -> Option<Seq<char>> {
    let needle = key.push(':');
    match find(lower_seq(cfg), needle) {
        None => None,
        Some(start) => {
            let rest = trim_start(cfg.skip(start + needle.len()));
            if rest.len() == 0 {
                None
            } else if rest[0] == '"' {
                let after = rest.drop_first();
                match find(after, seq!['"']) {
                    None => None,
                    Some(end) => {
                        let v = trim(after.take(end));
                        if v.len() > 0 {
                            Some(v)
                        } else {
                            None
                        }
                    },
                }
            } else {
                let end = match find(rest, seq![',']) {
                    Some(e) => e,
                    None => rest.len() as int,
                };
                let v = trim(rest.take(end));
                if v.len() > 0 {
                    Some(v)
                } else {
                    None
                }
            }
        },
    }
}

/// The settings of a `---` line: none for a bare `---`, those between `{` and `}`
/// after it, and `None` when the rest is not braced.
pub open spec fn delimiter_config(t: Seq<char>) -> Option<ConfigModel> {
    if t == "---"@ {
        Some(default_config())
    } else if !starts_with(t, "---"@) {
        None
    } else {
        let c0 = trim(t.skip(3));
        if c0.len() >= 2 && c0[0] == '{' && c0.last() == '}' {
            let cfg = c0.subrange(1, c0.len() - 1);
            Some(
                ConfigModel {
                    column_ratios: columns_of(cfg),
                    image_mode: image_mode_field(cfg),
                    title: string_value(cfg, "title"@),
                },
            )
        } else {
            None
        }
    }
}

pub(crate) fn ratios_of_pieces(pieces: &Vec<Vec<char>>) -> (r: Vec<u16>)
    ensures
        r@ == ratios_from(seqs_of(pieces@)),
{
    let ghost ps = seqs_of(pieces@);
    let mut out: Vec<u16> = Vec::new();
    let mut i: usize = 0;
    assert(ps.take(0) =~= Seq::<Seq<char>>::empty());
    while i < pieces.len()
        invariant
            i <= pieces@.len(),
            ps == seqs_of(pieces@),
            out@ == ratios_from(ps.take(i as int)),
        decreases pieces@.len() - i,
    {
        assert(ps.take(i + 1).drop_last() =~= ps.take(i as int));
        assert(ps.take(i + 1).last() == pieces@[i as int]@);
        match parse_uint_chars(&trim_chars(&pieces[i]), 65535) {
            Some(v) => {
                if v > 0 {
                    out.push(v as u16);
                }
            },
            None => {},
        }
        i = i + 1;
    }
    assert(ps.take(pieces@.len() as int) =~= ps);
    out
}

fn columns_field(cfg: &Vec<char>) -> (r: Option<Vec<u16>>)
    ensures
        opt_ratios(r) == columns_of(cfg@),
{
    let lc = to_lower(cfg);
    let key = chars_of("columns:");
    assert(lc@.len() == cfg@.len());
    let p = match find_chars(&lc, &key) {
        Some(p) => p,
        None => return None,
    };
    let n = cfg.len();
    let rest = slice_to_vec(cfg, p + key.len(), n);
    assert(rest@ =~= cfg@.skip(p + key@.len()));
    let mut open: Vec<char> = Vec::new();
    open.push('[');
    let mut close: Vec<char> = Vec::new();
    close.push(']');
    assert(open@ =~= seq!['[']);
    assert(close@ =~= seq![']']);
    let st = match find_chars(&rest, &open) {
        Some(st) => st,
        None => return None,
    };
    let after = slice_to_vec(&rest, st + 1, rest.len());
    assert(after@ =~= rest@.skip(st + 1));
    let e = match find_chars(&after, &close) {
        Some(e) => e,
        None => return None,
    };
    let inner = slice_to_vec(&rest, st + 1, st + 1 + e);
    let cols = ratios_of_pieces(&split_chars(&inner, ','));
    if cols.len() > 0 {
        Some(cols)
    } else {
        None
    }
}

fn until_comma_or_brace_chars(s: &[char]) -> (r: Vec<char>)
    ensures
        r@ == until_comma_or_brace(s@),
{
    let mut k: usize = 0;
    assert(s@.skip(0) =~= s@);
    assert(s@.take(0) + until_comma_or_brace(s@.skip(0)) =~= until_comma_or_brace(s@));
    while k < s.len() && s[k] != ',' && s[k] != '}'
        invariant
            k <= s@.len(),
            until_comma_or_brace(s@) == s@.take(k as int) + until_comma_or_brace(s@.skip(k as int)),
        decreases s@.len() - k,
    {
        assert(s@.skip(k as int)[0] == s@[k as int]);
        assert(s@.skip(k as int).drop_first() =~= s@.skip(k + 1));
        assert(s@.take(k + 1) =~= s@.take(k as int) + seq![s@[k as int]]);
        k = k + 1;
    }
    assert(k < s@.len() ==> s@.skip(k as int)[0] == s@[k as int]);
    assert(until_comma_or_brace(s@.skip(k as int)) =~= Seq::<char>::empty());
    assert(s@.take(k as int) + Seq::<char>::empty() =~= s@.take(k as int));
    slice_to_vec(s, 0, k)
}

fn image_mode_value(cfg: &Vec<char>) -> (r: Option<ImageMode>)
    ensures
        r == image_mode_field(cfg@),
{
    let lc = to_lower(cfg);
    let key = chars_of("image-mode:");
    assert(lc@.len() == cfg@.len());
    let p = match find_chars(&lc, &key) {
        Some(p) => p,
        None => return None,
    };
    let n = cfg.len();
    let rest = slice_to_vec(cfg, p + key.len(), n);
    assert(rest@ =~= cfg@.skip(p + key@.len()));
    let v = trim_chars(&until_comma_or_brace_chars(&rest));
    if v.len() > 0 {
        parse_image_mode(&v)
    } else {
        None
    }
}

pub fn string_value_chars(cfg: &Vec<char>, key: &Vec<char>) -> (r: Option<Vec<char>>)
    ensures
        match r {
            Some(v) => string_value(cfg@, key@) == Some(v@),
            None => string_value(cfg@, key@) is None,
        },
{
    let lc = to_lower(cfg);
    let mut needle = key.clone();
    needle.push(':');
    assert(needle@ =~= key@.push(':'));
    assert(lc@.len() == cfg@.len());
    let start = match find_chars(&lc, &needle) {
        Some(s) => s,
        None => return None,
    };
    let n = cfg.len();
    let tail = slice_to_vec(cfg, start + needle.len(), n);
    assert(tail@ =~= cfg@.skip(start + needle@.len()));
    let (a, _b) = trim_bounds(&tail);
    let rest = slice_to_vec(&tail, a, tail.len());
    assert(rest@ =~= tail@.skip(a as int));
    if rest.len() == 0 {
        return None;
    }
    if rest[0] == '"' {
        let after = slice_to_vec(&rest, 1, rest.len());
        assert(after@ =~= rest@.drop_first());
        let mut q: Vec<char> = Vec::new();
        q.push('"');
        assert(q@ =~= seq!['"']);
        let end = match find_chars(&after, &q) {
            Some(e) => e,
            None => return None,
        };
        let v = trim_chars(&slice_to_vec(&after, 0, end));
        assert(after@.subrange(0, end as int) =~= after@.take(end as int));
        if v.len() > 0 {
            Some(v)
        } else {
            None
        }
    } else {
        let mut comma: Vec<char> = Vec::new();
        comma.push(',');
        assert(comma@ =~= seq![',']);
        let end = match find_chars(&rest, &comma) {
            Some(e) => e,
            None => rest.len(),
        };
        let v = trim_chars(&slice_to_vec(&rest, 0, end));
        assert(rest@.subrange(0, end as int) =~= rest@.take(end as int));
        if v.len() > 0 {
            Some(v)
        } else {
            None
        }
    }
}

pub fn parse_delimiter_config(trimmed: &Vec<char>) -> (r: Option<SlideConfig>)
    ensures
        match r {
            Some(c) => delimiter_config(trimmed@) == Some(c@),
            None => delimiter_config(trimmed@) is None,
        },
{
    let dashes = chars_of("---");
    proof {
        reveal_strlit("---");
    }
    if eq_chars(trimmed, &dashes) {
        return Some(SlideConfig::default());
    }
    if !starts_with_chars(trimmed, &dashes) {
        return None;
    }
    let c0 = trim_chars(&slice_to_vec(trimmed, 3, trimmed.len()));
    assert(trimmed@.subrange(3, trimmed@.len() as int) =~= trimmed@.skip(3));
    if !(c0.len() >= 2 && c0[0] == '{' && c0[c0.len() - 1] == '}') {
        return None;
    }
    let cfg = slice_to_vec(&c0, 1, c0.len() - 1);
    let column_ratios = columns_field(&cfg);
    let image_mode = image_mode_value(&cfg);
    let title = match string_value_chars(&cfg, &chars_of("title")) {
        Some(v) => Some(string_of(&v)),
        None => None,
    };
    Some(SlideConfig { column_ratios, image_mode, title })
}

/// Whether a fence is open after line `t` (trimmed): 0 none, 1 backticks, 2 tildes.
/// A fence closes only with the same character it opened with.
pub open spec fn fence_after(fence: u8, t: Seq<char>) -> u8 {
    if fence == 0 {
        if starts_with(t, "```"@) {
            1
        } else if starts_with(t, "~~~"@) {
            2
        } else {
            0
        }
    } else if fence == 1 && starts_with(t, "```"@) {
        0
    } else if fence == 2 && starts_with(t, "~~~"@) {
        0
    } else {
        fence
    }
}

/// A slide with no content is kept when its settings give it a non-blank title.
pub open spec fn emit_empty(c: ConfigModel) -> bool {
    match c.title {
        Some(t) => trim(t).len() > 0,
        None => false,
    }
}

pub struct SplitState {
    pub chunks: Seq<ChunkModel>,
    pub current: Seq<char>,
    pub fence: u8,
    pub config: ConfigModel,
}

/// The chunks with the slide read so far closed, if it has content or a title.
pub open spec fn close_chunk(st: SplitState) -> Seq<ChunkModel> {
    if trim(st.current).len() > 0 || emit_empty(st.config) {
        st.chunks.push(ChunkModel { content: trim_end(st.current), config: st.config })
    } else {
        st.chunks
    }
}

/// One line of the deck: a delimiter outside fences (a line that is exactly `---`, or
/// `---` and a braced config) closes the slide and starts the next with its
/// settings; any other line joins the current slide.
pub open spec fn split_step(st: SplitState, line: Seq<char>) -> SplitState {
    let t = trim(line);
    let f = fence_after(st.fence, t);
    if f == 0 && delimiter_config(t) is Some {
        SplitState { chunks: close_chunk(st), current: seq![], fence: f, config: delimiter_config(t)->0 }
    } else {
        SplitState { current: st.current + line + seq!['\n'], fence: f, ..st }
    }
}

pub open spec fn split_fold(ls: Seq<Seq<char>>) -> SplitState
    decreases ls.len(),
{
    if ls.len() == 0 {
        SplitState { chunks: seq![], current: seq![], fence: 0, config: default_config() }
    } else {
        split_step(split_fold(ls.drop_last()), ls.last())
    }
}

/// The slides of a deck, in order.
pub open spec fn slide_chunks(markdown: Seq<char>) -> Seq<ChunkModel> {
    close_chunk(split_fold(lines(markdown)))
}

pub open spec fn chunks_model(v: Seq<SlideChunk>) -> Seq<ChunkModel> {
    v.map_values(|c: SlideChunk| c@)
}

fn emit_empty_slide(config: &SlideConfig) -> (r: bool)
    ensures
        r == emit_empty(config@),
{
    match &config.title {
        Some(t) => {
            let (a, b) = trim_bounds(&chars_of(t.as_str()));
            a < b
        },
        None => false,
    }
}

fn close_current(
    slides: &mut Vec<SlideChunk>,
    current: &Vec<char>,
    config: SlideConfig,
    Ghost(fence): Ghost<u8>,
)
    ensures
        chunks_model(final(slides)@) == close_chunk(
            SplitState { chunks: chunks_model(old(slides)@), current: current@, fence, config: config@ },
        ),
{
    let (a, b) = trim_bounds(current);
    if a < b || emit_empty_slide(&config) {
        let (_a2, b2) = trim_end_bounds(current);
        let content = string_of(&slice_to_vec(current, 0, b2));
        let ghost before = chunks_model(slides@);
        let chunk = SlideChunk { content, config };
        slides.push(chunk);
        assert(chunks_model(slides@) =~= before.push(chunk@));
    }
}

/// Splits a deck into slides at delimiter lines outside fenced code (exactly `---`,
/// or `---` and a braced config); the settings of a delimiter belong to the slide
/// after it.
pub fn split_slides(markdown: &str) -> (r: Vec<SlideChunk>)
    ensures
        chunks_model(r@) == slide_chunks(markdown@),
{
    let text = chars_of(markdown);
    let ls = split_lines(&text);
    let ghost lsv = seqs_of(ls@);
    let backticks = chars_of("```");
    let tildes = chars_of("~~~");
    let mut slides: Vec<SlideChunk> = Vec::new();
    let mut current: Vec<char> = Vec::new();
    let mut fence: u8 = 0;
    let mut config = SlideConfig::default();
    let mut i: usize = 0;
    assert(lsv.take(0) =~= Seq::<Seq<char>>::empty());
    assert(chunks_model(slides@) =~= Seq::<ChunkModel>::empty());
    while i < ls.len()
        invariant
            i <= ls@.len(),
            lsv == seqs_of(ls@),
            lsv == lines(markdown@),
            backticks@ == "```"@,
            tildes@ == "~~~"@,
            split_fold(lsv.take(i as int)) == (SplitState {
                chunks: chunks_model(slides@),
                current: current@,
                fence,
                config: config@,
            }),
        decreases ls@.len() - i,
    {
        let line = &ls[i];
        proof {
            assert(lsv.take(i + 1).drop_last() =~= lsv.take(i as int));
            assert(lsv.take(i + 1).last() == line@);
        }
        let t = trim_chars(line);
        let f: u8 = if fence == 0 {
            if starts_with_chars(&t, &backticks) {
                1
            } else if starts_with_chars(&t, &tildes) {
                2
            } else {
                0
            }
        } else if fence == 1 && starts_with_chars(&t, &backticks) {
            0
        } else if fence == 2 && starts_with_chars(&t, &tildes) {
            0
        } else {
            fence
        };
        let ghost st = split_fold(lsv.take(i as int));
        assert(f == fence_after(fence, trim(line@)));
        let delimiter = if f == 0 {
            parse_delimiter_config(&t)
        } else {
            None
        };
        if let Some(next) = delimiter {
            let cur_config = config;
            close_current(&mut slides, &current, cur_config, Ghost(fence));
            current = Vec::new();
            assert(current@ =~= seq![]);
            config = next;
            assert(split_step(st, line@).chunks == chunks_model(slides@));
            assert(split_step(st, line@).config == config@);
        } else {
            let mut l = line.clone();
            assert(l@ =~= line@);
            current.append(&mut l);
            current.push('\n');
            assert(split_step(st, line@).current =~= current@);
        }
        fence = f;
        i = i + 1;
    }
    assert(lsv.take(ls@.len() as int) =~= lsv);
    close_current(&mut slides, &current, config, Ghost(fence));
    slides
}

/// `"value"` loses its quotes (and the white space inside them).
pub open spec fn unquote(v: Seq<char>) -> Seq<char> {
    let t = trim(v);
    if t.len() >= 2 && t[0] == '"' && t.last() == '"' {
        trim(t.subrange(1, t.len() - 1))
    } else {
        t
    }
}

pub fn unquote_chars(input: &[char]) -> (r: Vec<char>)
    ensures
        r@ == unquote(input@),
{
    let t = trim_chars(input);
    if t.len() >= 2 && t[0] == '"' && t[t.len() - 1] == '"' {
        trim_chars(&slice_to_vec(&t, 1, t.len() - 1))
    } else {
        t
    }
}

/// Removes surrounding quotes from a setting's value.
pub fn unquote_value(input: &str) -> (r: String)
    ensures
        r@ == unquote(input@),
{
    string_of(&unquote_chars(&chars_of(input)))
}

pub struct CoverState {
    pub fail: bool,
    pub title: Option<Seq<char>>,
    pub subtitle: Option<Seq<char>>,
    pub author: Option<Seq<char>>,
    pub image: Option<Seq<char>>,
}

/// One line of a cover slide: blank lines are skipped, a `key: value` line sets the
/// key, and anything else means the slide is not a cover.
pub open spec fn cover_step(st: CoverState, line: Seq<char>) -> CoverState {
    let t = trim(line);
    if st.fail || t.len() == 0 {
        st
    } else {
        match find(t, seq![':']) {
            None => CoverState { fail: true, ..st },
            Some(k) => {
                let key = trim(t.take(k));
                let value = unquote(trim(t.skip(k + 1)));
                if key == "title"@ {
                    CoverState { title: Some(value), ..st }
                } else if key == "sub_title"@ {
                    CoverState { subtitle: Some(value), ..st }
                } else if key == "author"@ {
                    CoverState { author: Some(value), ..st }
                } else if key == "image"@ {
                    CoverState { image: Some(value), ..st }
                } else {
                    CoverState { fail: true, ..st }
                }
            },
        }
    }
}

pub open spec fn cover_fold(ls: Seq<Seq<char>>) -> CoverState
    decreases ls.len(),
{
    if ls.len() == 0 {
        CoverState { fail: false, title: None, subtitle: None, author: None, image: None }
    } else {
        cover_step(cover_fold(ls.drop_last()), ls.last())
    }
}

/// A cover slide: only `title`, `sub_title`, `author` and `image` settings, with a
/// title. The result is the cover and the image path.
pub open spec fn cover_of(chunk: Seq<char>) -> Option<(CoverModel, Option<Seq<char>>)> {
    let st = cover_fold(lines(chunk));
    if st.fail {
        None
    } else {
        match st.title {
            None => None,
            Some(title) => Some(
                (CoverModel { title, subtitle: st.subtitle, author: st.author }, st.image),
            ),
        }
    }
}

/// An image not yet loaded.
pub open spec fn fresh_image(
    path: Seq<char>,
    alt: Option<Seq<char>>,
    valign: VerticalAlign,
    halign: HorizontalAlign,
) -> ImageAssetModel {
    ImageAssetModel {
        path,
        alt,
        valign,
        halign,
        frames: seq![],
        delays_ms: seq![],
        cached_for: None,
        load_error: None,
    }
}

pub fn new_image(path: String, alt: Option<String>, valign: VerticalAlign, halign: HorizontalAlign) -> (r:
    ImageAsset)
    ensures
        r@ == fresh_image(path@, opt_str(alt), valign, halign),
{
    let r = ImageAsset {
        path,
        alt,
        valign,
        halign,
        frames: Vec::new(),
        delays_ms: Vec::new(),
        cached_for: None,
        load_error: None,
    };
    assert(r@.frames =~= Seq::<AsciiFrameModel>::empty());
    r
}

fn opt_string(v: Option<Vec<char>>) -> (r: Option<String>)
    ensures
        opt_str(r) == match v {
            Some(x) => Some(x@),
            None => None::<Seq<char>>,
        },
{
    match v {
        Some(x) => Some(string_of(&x)),
        None => None,
    }
}

/// The cover of a first slide written as `key: value` settings, and its image (shown
/// centred).
pub fn parse_cover_chunk(chunk: &str) -> (r: Option<(CoverData, Option<ImageAsset>)>)
    ensures
        match r {
            Some((c, img)) => cover_of(chunk@) matches Some((cm, path)) && c@ == cm && match img {
                Some(a) => path matches Some(p) && a@ == fresh_image(
                    p,
                    None,
                    VerticalAlign::Middle,
                    HorizontalAlign::Center,
                ),
                None => path is None,
            },
            None => cover_of(chunk@) is None,
        },
{
    let ls = split_lines(&chars_of(chunk));
    let ghost lsv = seqs_of(ls@);
    let mut title: Option<Vec<char>> = None;
    let mut subtitle: Option<Vec<char>> = None;
    let mut author: Option<Vec<char>> = None;
    let mut image: Option<Vec<char>> = None;
    let k_title = chars_of("title");
    let k_sub = chars_of("sub_title");
    let k_author = chars_of("author");
    let k_image = chars_of("image");
    let mut colon: Vec<char> = Vec::new();
    colon.push(':');
    assert(colon@ =~= seq![':']);
    let mut i: usize = 0;
    assert(lsv.take(0) =~= Seq::<Seq<char>>::empty());
    while i < ls.len()
        invariant
            i <= ls@.len(),
            lsv == seqs_of(ls@),
            lsv == lines(chunk@),
            colon@ == seq![':'],
            k_title@ == "title"@,
            k_sub@ == "sub_title"@,
            k_author@ == "author"@,
            k_image@ == "image"@,
            cover_fold(lsv.take(i as int)) == (CoverState {
                fail: false,
                title: match title {
                    Some(x) => Some(x@),
                    None => None,
                },
                subtitle: match subtitle {
                    Some(x) => Some(x@),
                    None => None,
                },
                author: match author {
                    Some(x) => Some(x@),
                    None => None,
                },
                image: match image {
                    Some(x) => Some(x@),
                    None => None,
                },
            }),
        decreases ls@.len() - i,
    {
        let line = &ls[i];
        proof {
            assert(lsv.take(i + 1).drop_last() =~= lsv.take(i as int));
            assert(lsv.take(i + 1).last() == line@);
        }
        let t = trim_chars(line);
        if t.len() > 0 {
            let k = match find_chars(&t, &colon) {
                Some(k) => k,
                None => {
                    proof {
                        lemma_cover_fail_stays(lsv, i as int + 1);
                        assert(lsv.take(lsv.len() as int) =~= lsv);
                    }
                    return None;
                },
            };
            let key = trim_chars(&slice_to_vec(&t, 0, k));
            assert(t@.subrange(0, k as int) =~= t@.take(k as int));
            let value = unquote_chars(&trim_chars(&slice_to_vec(&t, k + 1, t.len())));
            assert(t@.subrange(k + 1, t@.len() as int) =~= t@.skip(k + 1));
            if eq_chars(&key, &k_title) {
                title = Some(value);
            } else if eq_chars(&key, &k_sub) {
                subtitle = Some(value);
            } else if eq_chars(&key, &k_author) {
                author = Some(value);
            } else if eq_chars(&key, &k_image) {
                image = Some(value);
            } else {
                proof {
                    lemma_cover_fail_stays(lsv, i as int + 1);
                    assert(lsv.take(lsv.len() as int) =~= lsv);
                }
                return None;
            }
        }
        i = i + 1;
    }
    assert(lsv.take(ls@.len() as int) =~= lsv);
    let title = match title {
        Some(t) => string_of(&t),
        None => return None,
    };
    let cover = CoverData { title, subtitle: opt_string(subtitle), author: opt_string(author) };
    let asset = match image {
        Some(p) => Some(new_image(string_of(&p), None, VerticalAlign::Middle, HorizontalAlign::Center)),
        None => None,
    };
    Some((cover, asset))
}

/// Once a line is not a setting, the later lines do not matter.
proof fn lemma_cover_fail_stays(ls: Seq<Seq<char>>, k: int)
    requires
        0 <= k <= ls.len(),
        cover_fold(ls.take(k)).fail,
    ensures
        cover_fold(ls).fail,
    decreases ls.len() - k,
{
    if k < ls.len() {
        assert(ls.take(k + 1).drop_last() =~= ls.take(k));
        lemma_cover_fail_stays(ls, k + 1);
    } else {
        assert(ls.take(k) =~= ls);
    }
}

/// The text between `prefix` and `suffix` when `t` is `prefix`, text, `suffix`.
pub open spec fn between(t: Seq<char>, prefix: Seq<char>, suffix: Seq<char>) -> Option<Seq<char>> {
    if starts_with(t, prefix) && ends_with(t.skip(prefix.len() as int), suffix) {
        let rest = t.skip(prefix.len() as int);
        Some(rest.take(rest.len() - suffix.len()))
    } else {
        None
    }
}

pub fn between_chars(t: &Vec<char>, prefix: &Vec<char>, suffix: &Vec<char>) -> (r: Option<Vec<char>>)
    ensures
        match r {
            Some(v) => between(t@, prefix@, suffix@) == Some(v@),
            None => between(t@, prefix@, suffix@) is None,
        },
{
    if !starts_with_chars(t, prefix) {
        return None;
    }
    let n = t.len();
    let rest = slice_to_vec(t, prefix.len(), n);
    assert(rest@ =~= t@.skip(prefix@.len() as int));
    if !ends_with_chars(&rest, suffix) {
        return None;
    }
    let v = slice_to_vec(&rest, 0, rest.len() - suffix.len());
    assert(v@ =~= rest@.take(rest@.len() - suffix@.len()));
    Some(v)
}

pub struct DirectiveState {
    pub reveal: bool,
    pub line_spacing: Option<u8>,
    pub out: Seq<char>,
}

/// One line of a slide: the reveal switches and the line-spacing comment are taken
/// out (a spacing above 6 counts as 6); every other line is kept.
pub open spec fn directive_step(st: DirectiveState, line: Seq<char>) -> DirectiveState {
    let t = lower_seq(trim(line));
    if t == "<!-- reveal: on -->"@ {
        DirectiveState { reveal: true, ..st }
    } else if t == "<!-- reveal: off -->"@ {
        DirectiveState { reveal: false, ..st }
    } else {
        match between(t, "<!-- line_spacing:"@, "-->"@) {
            Some(v) => match parse_uint(trim(v), 255) {
                Some(x) => DirectiveState {
                    line_spacing: Some((if x <= 6 { x } else { 6 }) as u8),
                    ..st
                },
                None => st,
            },
            None => DirectiveState { out: st.out + line + seq!['\n'], ..st },
        }
    }
}

pub open spec fn directive_fold(ls: Seq<Seq<char>>) -> DirectiveState
    decreases ls.len(),
{
    if ls.len() == 0 {
        DirectiveState { reveal: false, line_spacing: None, out: seq![] }
    } else {
        directive_step(directive_fold(ls.drop_last()), ls.last())
    }
}

pub struct SlideDirectives {
    pub sanitized: Vec<char>,
    pub reveal_fragments: bool,
    pub line_spacing: Option<u8>,
}

/// The slide without its directive lines, and what they set.
pub fn parse_slide_directives(chunk: &Vec<char>) -> (r: SlideDirectives)
    ensures
        directive_fold(lines(chunk@)) == (DirectiveState {
            reveal: r.reveal_fragments,
            line_spacing: r.line_spacing,
            out: r.sanitized@,
        }),
{
    let ls = split_lines(chunk);
    let ghost lsv = seqs_of(ls@);
    let on = chars_of("<!-- reveal: on -->");
    let off = chars_of("<!-- reveal: off -->");
    let pre = chars_of("<!-- line_spacing:");
    let suf = chars_of("-->");
    let mut reveal_on = false;
    let mut spacing: Option<u8> = None;
    let mut out: Vec<char> = Vec::new();
    let mut i: usize = 0;
    assert(lsv.take(0) =~= Seq::<Seq<char>>::empty());
    while i < ls.len()
        invariant
            i <= ls@.len(),
            lsv == seqs_of(ls@),
            lsv == lines(chunk@),
            on@ == "<!-- reveal: on -->"@,
            off@ == "<!-- reveal: off -->"@,
            pre@ == "<!-- line_spacing:"@,
            suf@ == "-->"@,
            directive_fold(lsv.take(i as int)) == (DirectiveState {
                reveal: reveal_on,
                line_spacing: spacing,
                out: out@,
            }),
        decreases ls@.len() - i,
    {
        let line = &ls[i];
        proof {
            assert(lsv.take(i + 1).drop_last() =~= lsv.take(i as int));
            assert(lsv.take(i + 1).last() == line@);
        }
        let t = to_lower(&trim_chars(line));
        let ghost st = directive_fold(lsv.take(i as int));
        let ghost nx = directive_step(st, line@);
        if eq_chars(&t, &on) {
            reveal_on = true;
        } else if eq_chars(&t, &off) {
            reveal_on = false;
        } else {
            match between_chars(&t, &pre, &suf) {
                Some(v) => {
                    match parse_uint_chars(&trim_chars(&v), 255) {
                        Some(x) => {
                            spacing = Some(if x <= 6 { x as u8 } else { 6 });
                        },
                        None => {},
                    }
                },
                None => {
                    let mut l = line.clone();
                    assert(l@ =~= line@);
                    out.append(&mut l);
                    out.push('\n');
                    assert(nx.out =~= out@);
                },
            }
        }
        assert(nx == (DirectiveState { reveal: reveal_on, line_spacing: spacing, out: out@ }));
        i = i + 1;
    }
    assert(lsv.take(ls@.len() as int) =~= lsv);
    SlideDirectives { sanitized: out, reveal_fragments: reveal_on, line_spacing: spacing }
}

/// `<!-- line-spacing: N -->` (or `line_spacing`) inside a slide: `N` blank lines, at
/// most 24.
pub open spec fn inline_spacing(input: Seq<char>) -> Option<nat> {
    let t = lower_seq(trim(input));
    let v = match between(t, "<!-- line-spacing:"@, "-->"@) {
        Some(v) => Some(v),
        None => if starts_with(t, "<!-- line-spacing:"@) {
            None
        } else {
            between(t, "<!-- line_spacing:"@, "-->"@)
        },
    };
    match v {
        Some(v) => match parse_uint(trim(v), usize::MAX as nat) {
            Some(x) => Some(if x <= 24 { x } else { 24 }),
            None => None,
        },
        None => None,
    }
}

pub fn parse_inline_line_spacing(input: &Vec<char>) -> (r: Option<usize>)
    ensures
        opt_nat(r) == inline_spacing(input@),
{
    let t = to_lower(&trim_chars(input));
    let dash = chars_of("<!-- line-spacing:");
    let under = chars_of("<!-- line_spacing:");
    let suf = chars_of("-->");
    let v = if starts_with_chars(&t, &dash) {
        between_chars(&t, &dash, &suf)
    } else {
        between_chars(&t, &under, &suf)
    };
    match v {
        Some(v) => match parse_uint_chars(&trim_chars(&v), usize::MAX as u64) {
            Some(x) => Some(if x <= 24 { x as usize } else { 24 }),
            None => None,
        },
        None => None,
    }
}

/// `<!-- column: N -->`: move to text column `N`.
pub open spec fn column_directive(input: Seq<char>) -> Option<nat> {
    match between(lower_seq(trim(input)), "<!-- column:"@, "-->"@) {
        Some(v) => parse_uint(trim(v), usize::MAX as nat),
        None => None,
    }
}

pub fn parse_column_directive(input: &Vec<char>) -> (r: Option<usize>)
    ensures
        opt_nat(r) == column_directive(input@),
{
    let t = to_lower(&trim_chars(input));
    match between_chars(&t, &chars_of("<!-- column:"), &chars_of("-->")) {
        Some(v) => match parse_uint_chars(&trim_chars(&v), usize::MAX as u64) {
            Some(x) => Some(x as usize),
            None => None,
        },
        None => None,
    }
}

/// `<!-- align: left|center|right -->`: the alignment of the current column.
pub open spec fn align_directive(input: Seq<char>) -> Option<ColumnAlign> {
    match between(lower_seq(trim(input)), "<!-- align:"@, "-->"@) {
        Some(v) => {
            let w = trim(v);
            if w == "left"@ {
                Some(ColumnAlign::Left)
            } else if w == "center"@ {
                Some(ColumnAlign::Center)
            } else if w == "right"@ {
                Some(ColumnAlign::Right)
            } else {
                None
            }
        },
        None => None,
    }
}

pub fn parse_align_directive(input: &Vec<char>) -> (r: Option<ColumnAlign>)
    ensures
        r == align_directive(input@),
{
    let t = to_lower(&trim_chars(input));
    match between_chars(&t, &chars_of("<!-- align:"), &chars_of("-->")) {
        Some(v) => {
            let w = trim_chars(&v);
            if eq_chars(&w, &chars_of("left")) {
                Some(ColumnAlign::Left)
            } else if eq_chars(&w, &chars_of("center")) {
                Some(ColumnAlign::Center)
            } else if eq_chars(&w, &chars_of("right")) {
                Some(ColumnAlign::Right)
            } else {
                None
            }
        },
        None => None,
    }
}

/// `[!NOTE]`, `[!TIP]`, `[!WARN]` or `[!WARNING]` (any ASCII case) at the start: the
/// callout's kind and the rest of the text, trimmed.
pub open spec fn callout_of(input: Seq<char>) -> Option<(CalloutKind, Seq<char>)> {
    let u = upper_seq(input);
    if starts_with(u, "[!NOTE]"@) {
        Some((CalloutKind::Note, trim(input.skip(("[!NOTE]"@).len() as int))))
    } else if starts_with(u, "[!TIP]"@) {
        Some((CalloutKind::Tip, trim(input.skip(("[!TIP]"@).len() as int))))
    } else if starts_with(u, "[!WARNING]"@) {
        Some((CalloutKind::Warn, trim(input.skip(("[!WARNING]"@).len() as int))))
    } else if starts_with(u, "[!WARN]"@) {
        Some((CalloutKind::Warn, trim(input.skip(("[!WARN]"@).len() as int))))
    } else {
        None
    }
}

/// A text whose ASCII upper case starts with `[!NOTE]`, `[!TIP]`, `[!WARNING]` or
/// `[!WARN]` is a callout of the kind the marker names (a warning for either warning
/// marker), its text the rest after the marker, trimmed; any other text is none.
pub proof fn lemma_callout_markers(input: Seq<char>)
    ensures
        starts_with(upper_seq(input), "[!NOTE]"@) ==> callout_of(input) == Some(
            (CalloutKind::Note, trim(input.skip(7))),
        ),
        starts_with(upper_seq(input), "[!TIP]"@) ==> callout_of(input) == Some(
            (CalloutKind::Tip, trim(input.skip(6))),
        ),
        starts_with(upper_seq(input), "[!WARNING]"@) ==> callout_of(input) == Some(
            (CalloutKind::Warn, trim(input.skip(10))),
        ),
        starts_with(upper_seq(input), "[!WARN]"@) ==> callout_of(input) == Some(
            (CalloutKind::Warn, trim(input.skip(7))),
        ),
        !starts_with(upper_seq(input), "[!NOTE]"@) && !starts_with(upper_seq(input), "[!TIP]"@)
            && !starts_with(upper_seq(input), "[!WARNING]"@) && !starts_with(upper_seq(input), "[!WARN]"@)
            ==> callout_of(input) is None,
{
    reveal_strlit("[!NOTE]");
    reveal_strlit("[!TIP]");
    reveal_strlit("[!WARNING]");
    reveal_strlit("[!WARN]");
    let u = upper_seq(input);
    if starts_with(u, "[!TIP]"@) {
        assert(u[2] == u.take(6)[2]);
        assert(u[2] == 'T');
        assert(!starts_with(u, "[!NOTE]"@)) by {
            if starts_with(u, "[!NOTE]"@) {
                assert(u[2] == u.take(7)[2]);
            }
        }
    }
    if starts_with(u, "[!WARN]"@) {
        assert(u[2] == u.take(7)[2]);
        assert(!starts_with(u, "[!NOTE]"@)) by {
            if starts_with(u, "[!NOTE]"@) {
                assert(u[2] == u.take(7)[2]);
            }
        }
        assert(!starts_with(u, "[!TIP]"@)) by {
            if starts_with(u, "[!TIP]"@) {
                assert(u[2] == u.take(6)[2]);
            }
        }
        assert(u[6] == u.take(7)[6]);
        assert(!starts_with(u, "[!WARNING]"@)) by {
            if starts_with(u, "[!WARNING]"@) {
                assert(u[6] == u.take(10)[6]);
            }
        }
    }
    if starts_with(u, "[!WARNING]"@) {
        assert(u[2] == u.take(10)[2]);
        assert(!starts_with(u, "[!NOTE]"@)) by {
            if starts_with(u, "[!NOTE]"@) {
                assert(u[2] == u.take(7)[2]);
            }
        }
        assert(!starts_with(u, "[!TIP]"@)) by {
            if starts_with(u, "[!TIP]"@) {
                assert(u[2] == u.take(6)[2]);
            }
        }
    }
}

pub fn parse_callout(input: &Vec<char>) -> (r: Option<(CalloutKind, Vec<char>)>)
    ensures
        match r {
            Some((k, t)) => callout_of(input@) == Some((k, t@)),
            None => callout_of(input@) is None,
        },
{
    let u = to_upper(input);
    let note = chars_of("[!NOTE]");
    let tip = chars_of("[!TIP]");
    let warning = chars_of("[!WARNING]");
    let warn = chars_of("[!WARN]");
    let (kind, len) = if starts_with_chars(&u, &note) {
        (CalloutKind::Note, note.len())
    } else if starts_with_chars(&u, &tip) {
        (CalloutKind::Tip, tip.len())
    } else if starts_with_chars(&u, &warning) {
        (CalloutKind::Warn, warning.len())
    } else if starts_with_chars(&u, &warn) {
        (CalloutKind::Warn, warn.len())
    } else {
        return None;
    };
    let n = input.len();
    let rest = slice_to_vec(input, len, n);
    assert(rest@ =~= input@.skip(len as int));
    Some((kind, trim_chars(&rest)))
}

pub struct AltMeta {
    pub alt: Option<Seq<char>>,
    pub valign: VerticalAlign,
    pub halign: HorizontalAlign,
}

/// One `key: value` part of the image text: `valign`, `halign` and `alt` are read,
/// other keys and parts without a colon are ignored.
pub open spec fn alt_part(m: AltMeta, part: Seq<char>) -> AltMeta {
    match find(part, seq![':']) {
        None => m,
        Some(k) => {
            let key = lower_seq(trim(part.take(k)));
            let raw = trim_matches(trim(part.skip(k + 1)), '"');
            let value = lower_seq(raw);
            if key == "valign"@ {
                AltMeta {
                    valign: if value == "top"@ {
                        VerticalAlign::Top
                    } else if value == "bottom"@ {
                        VerticalAlign::Bottom
                    } else {
                        VerticalAlign::Middle
                    },
                    ..m
                }
            } else if key == "halign"@ {
                AltMeta {
                    halign: if value == "left"@ {
                        HorizontalAlign::Left
                    } else if value == "right"@ {
                        HorizontalAlign::Right
                    } else {
                        HorizontalAlign::Center
                    },
                    ..m
                }
            } else if key == "alt"@ {
                if raw.len() > 0 {
                    AltMeta { alt: Some(raw), ..m }
                } else {
                    m
                }
            } else {
                m
            }
        },
    }
}

pub open spec fn alt_fold(parts: Seq<Seq<char>>) -> AltMeta
    decreases parts.len(),
{
    if parts.len() == 0 {
        AltMeta { alt: None, valign: VerticalAlign::Top, halign: HorizontalAlign::Center }
    } else {
        alt_part(alt_fold(parts.drop_last()), parts.last())
    }
}

/// The image text `![...]`: plain text is the caption; `[key: value, ...]` sets the
/// caption and the alignment (top and centred unless set).
pub open spec fn alt_meta(input: Seq<char>) -> AltMeta {
    let t = trim(input);
    if t.len() == 0 {
        AltMeta { alt: None, valign: VerticalAlign::Top, halign: HorizontalAlign::Center }
    } else if !(t[0] == '[' && t.last() == ']') {
        AltMeta { alt: Some(t), valign: VerticalAlign::Top, halign: HorizontalAlign::Center }
    } else {
        alt_fold(split(t.subrange(1, t.len() - 1), ','))
    }
}

pub struct ImageAltMeta {
    pub alt: Option<Vec<char>>,
    pub valign: VerticalAlign,
    pub halign: HorizontalAlign,
}

pub open spec fn opt_seq(o: Option<Vec<char>>) -> Option<Seq<char>> {
    match o {
        Some(v) => Some(v@),
        None => None,
    }
}

pub fn parse_image_alt_meta(input: &Vec<char>) -> (r: ImageAltMeta)
    ensures
        alt_meta(input@) == (AltMeta { alt: opt_seq(r.alt), valign: r.valign, halign: r.halign }),
{
    let mut meta = ImageAltMeta { alt: None, valign: VerticalAlign::Top, halign: HorizontalAlign::Center };
    let t = trim_chars(input);
    if t.len() == 0 {
        return meta;
    }
    if !(t[0] == '[' && t[t.len() - 1] == ']') {
        meta.alt = Some(t);
        return meta;
    }
    let inner = slice_to_vec(&t, 1, t.len() - 1);
    let parts = split_chars(&inner, ',');
    let ghost ps = seqs_of(parts@);
    let mut colon: Vec<char> = Vec::new();
    colon.push(':');
    assert(colon@ =~= seq![':']);
    let k_valign = chars_of("valign");
    let k_halign = chars_of("halign");
    let k_alt = chars_of("alt");
    let v_top = chars_of("top");
    let v_bottom = chars_of("bottom");
    let v_left = chars_of("left");
    let v_right = chars_of("right");
    let mut i: usize = 0;
    assert(ps.take(0) =~= Seq::<Seq<char>>::empty());
    while i < parts.len()
        invariant
            i <= parts@.len(),
            ps == seqs_of(parts@),
            colon@ == seq![':'],
            k_valign@ == "valign"@,
            k_halign@ == "halign"@,
            k_alt@ == "alt"@,
            v_top@ == "top"@,
            v_bottom@ == "bottom"@,
            v_left@ == "left"@,
            v_right@ == "right"@,
            alt_fold(ps.take(i as int)) == (AltMeta {
                alt: opt_seq(meta.alt),
                valign: meta.valign,
                halign: meta.halign,
            }),
        decreases parts@.len() - i,
    {
        let part = &parts[i];
        proof {
            assert(ps.take(i + 1).drop_last() =~= ps.take(i as int));
            assert(ps.take(i + 1).last() == part@);
        }
        match find_chars(part, &colon) {
            None => {},
            Some(k) => {
                let key = to_lower(&trim_chars(&slice_to_vec(part, 0, k)));
                assert(part@.subrange(0, k as int) =~= part@.take(k as int));
                let n = part.len();
                let raw = trim_matches_chars(&trim_chars(&slice_to_vec(part, k + 1, n)), '"');
                assert(part@.subrange(k + 1, n as int) =~= part@.skip(k + 1));
                let value = to_lower(&raw);
                if eq_chars(&key, &k_valign) {
                    meta.valign = if eq_chars(&value, &v_top) {
                        VerticalAlign::Top
                    } else if eq_chars(&value, &v_bottom) {
                        VerticalAlign::Bottom
                    } else {
                        VerticalAlign::Middle
                    };
                } else if eq_chars(&key, &k_halign) {
                    meta.halign = if eq_chars(&value, &v_left) {
                        HorizontalAlign::Left
                    } else if eq_chars(&value, &v_right) {
                        HorizontalAlign::Right
                    } else {
                        HorizontalAlign::Center
                    };
                } else if eq_chars(&key, &k_alt) {
                    if raw.len() > 0 {
                        meta.alt = Some(raw);
                    }
                }
            },
        }
        i = i + 1;
    }
    assert(ps.take(parts@.len() as int) =~= ps);
    meta
}

/// A slide read from its text and the settings of its delimiter line: the directive
/// comments are taken out, the rest is read as Markdown.
pub open spec fn slide_of(chunk: Seq<char>, config: ConfigModel) -> SlideModel {
    let d = directive_fold(lines(chunk));
    slide_from(markdown_events(d.out), config, d.reveal, d.line_spacing)
}

fn parse_slide_chunk(chunk: &str, config: &SlideConfig) -> (r: Result<Slide, String>)
    ensures
        r matches Ok(s) && s@ == slide_of(chunk@, config@),
{
    let directives = parse_slide_directives(&chars_of(chunk));
    let text = string_of(&directives.sanitized);
    let events = commonmark_events(text.as_str());
    Ok(slide_from_events(&events, config, directives.reveal_fragments, directives.line_spacing))
}

/// The first slide when it is a cover: no blocks, the cover and its image.
pub open spec fn cover_slide(cm: CoverModel, path: Option<Seq<char>>, config: ConfigModel) -> SlideModel {
    SlideModel {
        blocks: seq![],
        title: config.title,
        image: match path {
            Some(p) => Some(fresh_image(p, None, VerticalAlign::Middle, HorizontalAlign::Center)),
            None => None,
        },
        warnings: seq![],
        reveal_fragments: false,
        line_spacing: None,
        column_ratios: config.column_ratios,
        image_mode: config.image_mode,
        cover: Some(cm),
    }
}

/// Slide `idx` of a deck, from its chunk: the first may be a cover.
pub open spec fn chunk_slide(idx: int, c: ChunkModel) -> SlideModel {
    match cover_of(c.content) {
        Some((cm, path)) => if idx == 0 {
            cover_slide(cm, path, c.config)
        } else {
            slide_of(c.content, c.config)
        },
        None => slide_of(c.content, c.config),
    }
}

/// The slides of a deck, one per chunk.
pub open spec fn deck_slides(content: Seq<char>) -> Seq<SlideModel> {
    let cs = slide_chunks(content);
    Seq::new(cs.len(), |i: int| chunk_slide(i, cs[i]))
}

/// The slide's own line spacing, where it sets one, is at most `n`.
pub open spec fn spacing_at_most(s: SlideModel, n: nat) -> bool {
    match s.line_spacing {
        Some(x) => x <= n,
        None => true,
    }
}

proof fn lemma_directive_spacing_capped(ls: Seq<Seq<char>>)
    ensures
        directive_fold(ls).line_spacing matches Some(x) ==> x <= 6,
    decreases ls.len(),
{
    if ls.len() > 0 {
        lemma_directive_spacing_capped(ls.drop_last());
    }
}

/// No slide of a deck asks for more than six blank lines between its blocks.
pub proof fn lemma_deck_spacing_capped(content: Seq<char>)
    ensures
        forall|i: int|
            0 <= i < deck_slides(content).len() ==> spacing_at_most(
                #[trigger] deck_slides(content)[i],
                6,
            ),
{
    let cs = slide_chunks(content);
    assert forall|i: int| 0 <= i < deck_slides(content).len() implies spacing_at_most(
        #[trigger] deck_slides(content)[i],
        6,
    ) by {
        lemma_directive_spacing_capped(lines(cs[i].content));
    }
}

/// Reads a deck: an error when it has no slide, else one slide per chunk.
pub fn parse_presentation_from_str(content: &str, source_path: &str) -> (r: Result<Presentation, String>)
    ensures
        match r {
            Ok(p) => slide_chunks(content@).len() > 0 && slides_model(p.slides@) == deck_slides(content@)
                && p.source_path@ == source_path@,
            Err(e) => slide_chunks(content@).len() == 0 && e@ == "no slides found in markdown"@,
        },
{
    let chunks = split_slides(content);
    if chunks.len() == 0 {
        return Err("no slides found in markdown".to_owned());
    }
    let ghost cs = slide_chunks(content@);
    let mut slides: Vec<Slide> = Vec::new();
    let mut idx: usize = 0;
    while idx < chunks.len()
        invariant
            idx <= chunks@.len(),
            chunks_model(chunks@) == cs,
            cs == slide_chunks(content@),
            slides_model(slides@) == deck_slides(content@).take(idx as int),
        decreases chunks@.len() - idx,
    {
        let chunk = &chunks[idx];
        assert(cs[idx as int] == chunk@);
        let cover = if idx == 0 {
            parse_cover_chunk(chunk.content.as_str())
        } else {
            None
        };
        let slide = match cover {
            Some((c, image)) => {
                let s = Slide {
                    blocks: Vec::new(),
                    title: copy_opt_string(&chunk.config.title),
                    image,
                    warnings: Vec::new(),
                    reveal_fragments: false,
                    line_spacing: None,
                    column_ratios: copy_ratios(&chunk.config.column_ratios),
                    image_mode: chunk.config.image_mode,
                    cover: Some(c),
                };
                assert(s@.blocks =~= Seq::<BlockModel>::empty());
                assert(s@.warnings =~= Seq::<Seq<char>>::empty());
                assert(s@ == chunk_slide(idx as int, cs[idx as int]));
                s
            },
            None => match parse_slide_chunk(chunk.content.as_str(), &chunk.config) {
                Ok(s) => {
                    assert(s@ == chunk_slide(idx as int, cs[idx as int]));
                    s
                },
                Err(e) => return Err(e),
            },
        };
        let ghost before = slides@;
        slides.push(slide);
        assert(slides_model(slides@) =~= deck_slides(content@).take(idx + 1)) by {
            assert(slides@ == before.push(slide));
            assert(slides_model(before.push(slide)) =~= slides_model(before).push(slide@));
            assert(deck_slides(content@)[idx as int] == slide@);
        }
        idx = idx + 1;
    }
    assert(deck_slides(content@).take(chunks@.len() as int) =~= deck_slides(content@));
    Ok(Presentation { slides, source_path: source_path.to_owned() })
}

} // verus!
