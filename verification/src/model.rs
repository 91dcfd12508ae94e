//! The presentation model that the parser builds and the renderer draws, and the
//! mathematical views that the contracts speak of.
use vstd::prelude::*;

verus! {

#[derive(Debug, Clone)]
pub struct Presentation {
    pub slides: Vec<Slide>,
    pub source_path: String,
}

#[derive(Debug, Clone)]
pub struct Slide {
    pub blocks: Vec<Block>,
    pub title: Option<String>,
    pub image: Option<ImageAsset>,
    pub warnings: Vec<String>,
    pub reveal_fragments: bool,
    pub line_spacing: Option<u8>,
    pub column_ratios: Option<Vec<u16>>,
    pub image_mode: Option<ImageMode>,
    pub cover: Option<CoverData>,
}

#[derive(Debug, Clone)]
pub enum Block {
    BigText(String),
    SectionHeading { level: u8, text: String },
    Paragraph(String),
    Quote(String),
    List(ListData),
    Callout(CalloutData),
    Table(TableData),
    Code(CodeData),
    ColumnBreak(usize),
    ColumnAlign(ColumnAlign),
    Spacer(usize),
}

#[derive(Debug, Clone)]
pub struct ListData {
    pub ordered: bool,
    pub items: Vec<String>,
}

#[derive(Debug, Clone)]
pub struct CalloutData {
    pub kind: CalloutKind,
    pub text: String,
}

#[derive(Debug, Clone, Copy, PartialEq, Eq, Structural)]
pub enum CalloutKind {
    Note,
    Tip,
    Warn,
}

#[derive(Debug, Clone)]
pub struct TableData {
    pub headers: Vec<String>,
    pub rows: Vec<Vec<String>>,
}

#[derive(Debug, Clone)]
pub struct CodeData {
    pub lang: Option<String>,
    pub source: String,
}

#[derive(Debug, Clone)]
pub struct CoverData {
    pub title: String,
    pub subtitle: Option<String>,
    pub author: Option<String>,
}

#[derive(Debug, Clone)]
pub struct ImageAsset {
    pub path: String,
    pub alt: Option<String>,
    pub valign: VerticalAlign,
    pub halign: HorizontalAlign,
    pub frames: Vec<AsciiFrame>,
    pub delays_ms: Vec<u16>,
    pub cached_for: Option<(u16, u16)>,
    pub load_error: Option<String>,
}

#[derive(Debug, Clone, Copy, PartialEq, Eq, Structural)]
pub enum VerticalAlign {
    Top,
    Middle,
    Bottom,
}

#[derive(Debug, Clone, Copy, PartialEq, Eq, Structural)]
pub enum HorizontalAlign {
    Left,
    Center,
    Right,
}

#[derive(Debug, Clone, Copy, PartialEq, Eq, Structural)]
pub enum ColumnAlign {
    Left,
    Center,
    Right,
}

#[derive(Debug, Clone, Copy, PartialEq, Eq, Structural)]
pub enum ImageMode {
    Auto,
    Ascii,
    Native,
}

#[derive(Debug, Clone)]
pub struct AsciiFrame {
    pub lines: Vec<String>,
    pub width: u16,
    pub height: u16,
}

/// The characters of each string.
pub open spec fn strs(v: Seq<String>) -> Seq<Seq<char>> {
    v.map_values(|x: String| x@)
}

pub open spec fn opt_str(o: Option<String>) -> Option<Seq<char>> {
    match o {
        Some(s) => Some(s@),
        None => None,
    }
}

pub open spec fn opt_ratios(o: Option<Vec<u16>>) -> Option<Seq<u16>> {
    match o {
        Some(v) => Some(v@),
        None => None,
    }
}

/// What a block says, with its strings taken as character sequences.
pub enum BlockModel {
    BigText(Seq<char>),
    SectionHeading(u8, Seq<char>),
    Paragraph(Seq<char>),
    Quote(Seq<char>),
    List(bool, Seq<Seq<char>>),
    Callout(CalloutKind, Seq<char>),
    Table(Seq<Seq<char>>, Seq<Seq<Seq<char>>>),
    Code(Option<Seq<char>>, Seq<char>),
    ColumnBreak(usize),
    ColumnAlign(ColumnAlign),
    Spacer(usize),
}

impl View for Block {
    type V = BlockModel;

    open spec fn view(&self) -> BlockModel {
        match self {
            Block::BigText(t) => BlockModel::BigText(t@),
            Block::SectionHeading { level, text } => BlockModel::SectionHeading(*level, text@),
            Block::Paragraph(t) => BlockModel::Paragraph(t@),
            Block::Quote(t) => BlockModel::Quote(t@),
            Block::List(l) => BlockModel::List(l.ordered, strs(l.items@)),
            Block::Callout(c) => BlockModel::Callout(c.kind, c.text@),
            Block::Table(t) => BlockModel::Table(
                strs(t.headers@),
                t.rows@.map_values(|r: Vec<String>| strs(r@)),
            ),
            Block::Code(c) => BlockModel::Code(opt_str(c.lang), c.source@),
            Block::ColumnBreak(n) => BlockModel::ColumnBreak(*n),
            Block::ColumnAlign(a) => BlockModel::ColumnAlign(*a),
            Block::Spacer(n) => BlockModel::Spacer(*n),
        }
    }
}

pub open spec fn blocks_model(v: Seq<Block>) -> Seq<BlockModel> {
    v.map_values(|b: Block| b@)
}

pub struct AsciiFrameModel {
    pub lines: Seq<Seq<char>>,
    pub width: u16,
    pub height: u16,
}

impl View for AsciiFrame {
    type V = AsciiFrameModel;

    open spec fn view(&self) -> AsciiFrameModel {
        AsciiFrameModel { lines: strs(self.lines@), width: self.width, height: self.height }
    }
}

pub struct ImageAssetModel {
    pub path: Seq<char>,
    pub alt: Option<Seq<char>>,
    pub valign: VerticalAlign,
    pub halign: HorizontalAlign,
    pub frames: Seq<AsciiFrameModel>,
    pub delays_ms: Seq<u16>,
    pub cached_for: Option<(u16, u16)>,
    pub load_error: Option<Seq<char>>,
}

impl View for ImageAsset {
    type V = ImageAssetModel;

    open spec fn view(&self) -> ImageAssetModel {
        ImageAssetModel {
            path: self.path@,
            alt: opt_str(self.alt),
            valign: self.valign,
            halign: self.halign,
            frames: self.frames@.map_values(|f: AsciiFrame| f@),
            delays_ms: self.delays_ms@,
            cached_for: self.cached_for,
            load_error: opt_str(self.load_error),
        }
    }
}

pub open spec fn opt_image(o: Option<ImageAsset>) -> Option<ImageAssetModel> {
    match o {
        Some(i) => Some(i@),
        None => None,
    }
}

pub struct CoverModel {
    pub title: Seq<char>,
    pub subtitle: Option<Seq<char>>,
    pub author: Option<Seq<char>>,
}

impl View for CoverData {
    type V = CoverModel;

    open spec fn view(&self) -> CoverModel {
        CoverModel {
            title: self.title@,
            subtitle: opt_str(self.subtitle),
            author: opt_str(self.author),
        }
    }
}

pub open spec fn opt_cover(o: Option<CoverData>) -> Option<CoverModel> {
    match o {
        Some(c) => Some(c@),
        None => None,
    }
}

pub struct SlideModel {
    pub blocks: Seq<BlockModel>,
    pub title: Option<Seq<char>>,
    pub image: Option<ImageAssetModel>,
    pub warnings: Seq<Seq<char>>,
    pub reveal_fragments: bool,
    pub line_spacing: Option<u8>,
    pub column_ratios: Option<Seq<u16>>,
    pub image_mode: Option<ImageMode>,
    pub cover: Option<CoverModel>,
}

impl View for Slide {
    type V = SlideModel;

    open spec fn view(&self) -> SlideModel {
        SlideModel {
            blocks: blocks_model(self.blocks@),
            title: opt_str(self.title),
            image: opt_image(self.image),
            warnings: strs(self.warnings@),
            reveal_fragments: self.reveal_fragments,
            line_spacing: self.line_spacing,
            column_ratios: opt_ratios(self.column_ratios),
            image_mode: self.image_mode,
            cover: opt_cover(self.cover),
        }
    }
}

pub open spec fn slides_model(v: Seq<Slide>) -> Seq<SlideModel> {
    v.map_values(|s: Slide| s@)
}

/// A copy of an optional string.
pub(crate) fn copy_opt_string(o: &Option<String>) -> (r: Option<String>)
    ensures
        opt_str(r) == opt_str(*o),
{
    match o {
        Some(s) => Some(s.clone()),
        None => None,
    }
}

/// A copy of optional column ratios.
pub(crate) fn copy_ratios(o: &Option<Vec<u16>>) -> (r: Option<Vec<u16>>)
    ensures
        opt_ratios(r) == opt_ratios(*o),
{
    match o {
        Some(v) => {
            let mut out: Vec<u16> = Vec::new();
            let mut i: usize = 0;
            while i < v.len()
                invariant
                    i <= v@.len(),
                    out@ == v@.take(i as int),
                decreases v@.len() - i,
            {
                out.push(v[i]);
                assert(v@.take(i + 1) =~= v@.take(i as int).push(v@[i as int]));
                i = i + 1;
            }
            assert(v@.take(v@.len() as int) =~= v@);
            Some(out)
        },
        None => None,
    }
}

} // verus!
