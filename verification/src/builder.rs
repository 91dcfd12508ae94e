//! Turning the Markdown events of one slide into its blocks, its image and its
//! warnings.
use vstd::prelude::*;

use crate::markdown::{events_model, MdEnd, MdEvent, MdEventModel, MdTag, MdTagModel};
use crate::model::{
    copy_opt_string, copy_ratios, Slide, SlideModel, blocks_model, opt_image, opt_str, strs, Block, BlockModel, CalloutData, CodeData, ImageAsset,
    ImageAssetModel, ListData, TableData,
};
use crate::parser::{
    ConfigModel, SlideConfig, align_directive, alt_meta, callout_of, column_directive, fresh_image, inline_spacing,
    new_image, opt_seq, parse_align_directive, parse_callout, parse_column_directive,
    parse_image_alt_meta, parse_inline_line_spacing,
};
use crate::render::text::{spaces, spaces_vec};
use crate::strings::{chars_of, push_chars, string_of, trim, trim_chars, trim_end, trim_end_bounds, slice_to_vec};

verus! {

/// The state of a slide being read: the blocks so far and what is open.
#[verifier::ext_equal]
pub struct BuildModel {
    pub blocks: Seq<BlockModel>,
    pub warnings: Seq<Seq<char>>,
    pub image: Option<ImageAssetModel>,
    pub first_h1_seen: bool,
    pub in_paragraph: bool,
    pub paragraph: Seq<char>,
    pub in_quote: bool,
    pub quote: Seq<char>,
    pub in_heading: Option<u8>,
    pub heading: Seq<char>,
    pub list_ordered: bool,
    pub list_items: Seq<Seq<char>>,
    pub list_in_item: bool,
    pub list_item: Seq<char>,
    pub list_depth: nat,
    pub in_code: bool,
    pub code_lang: Option<Seq<char>>,
    pub code_body: Seq<char>,
    pub table_headers: Seq<Seq<char>>,
    pub table_rows: Seq<Seq<Seq<char>>>,
    pub table_row: Seq<Seq<char>>,
    pub table_cell: Seq<char>,
    pub table_in_head: bool,
    pub table_in_row: bool,
    pub table_in_cell: bool,
    pub in_image: bool,
    pub pending_path: Option<Seq<char>>,
    pub image_alt: Seq<char>,
}

pub open spec fn empty_build() -> BuildModel {
    BuildModel {
        blocks: seq![],
        warnings: seq![],
        image: None,
        first_h1_seen: false,
        in_paragraph: false,
        paragraph: seq![],
        in_quote: false,
        quote: seq![],
        in_heading: None,
        heading: seq![],
        list_ordered: false,
        list_items: seq![],
        list_in_item: false,
        list_item: seq![],
        list_depth: 0,
        in_code: false,
        code_lang: None,
        code_body: seq![],
        table_headers: seq![],
        table_rows: seq![],
        table_row: seq![],
        table_cell: seq![],
        table_in_head: false,
        table_in_row: false,
        table_in_cell: false,
        in_image: false,
        pending_path: None,
        image_alt: seq![],
    }
}

/// Text that starts with a callout marker is a callout, else `plain` of it.
pub open spec fn callout_or(t: Seq<char>, quote: bool) -> BlockModel {
    match callout_of(t) {
        Some((k, x)) => BlockModel::Callout(k, x),
        None => if quote {
            BlockModel::Quote(t)
        } else {
            BlockModel::Paragraph(t)
        },
    }
}

/// Closes the paragraph being read: its trimmed text becomes a block unless empty.
pub open spec fn flush_par(m: BuildModel) -> BuildModel {
    let t = trim(m.paragraph);
    BuildModel {
        blocks: if t.len() > 0 {
            m.blocks.push(callout_or(t, false))
        } else {
            m.blocks
        },
        paragraph: seq![],
        in_paragraph: false,
        ..m
    }
}

/// Text goes to the innermost open thing: code, table cell, heading, list item,
/// quote, image text, else the paragraph.
pub open spec fn add_text(m: BuildModel, t: Seq<char>) -> BuildModel {
    if m.in_code {
        BuildModel { code_body: m.code_body + t, ..m }
    } else if m.table_in_cell {
        BuildModel { table_cell: m.table_cell + t, ..m }
    } else if m.in_heading is Some {
        BuildModel { heading: m.heading + t, ..m }
    } else if m.list_in_item {
        BuildModel { list_item: m.list_item + t, ..m }
    } else if m.in_quote {
        BuildModel { quote: m.quote + t, ..m }
    } else if m.in_image {
        BuildModel { image_alt: m.image_alt + t, ..m }
    } else {
        BuildModel { paragraph: m.paragraph + t, ..m }
    }
}

/// A line break: a newline in code, else a space where text would go (image text
/// excepted).
pub open spec fn add_break(m: BuildModel) -> BuildModel {
    if m.in_code {
        BuildModel { code_body: m.code_body.push('\n'), ..m }
    } else if m.table_in_cell {
        BuildModel { table_cell: m.table_cell.push(' '), ..m }
    } else if m.in_heading is Some {
        BuildModel { heading: m.heading.push(' '), ..m }
    } else if m.list_in_item {
        BuildModel { list_item: m.list_item.push(' '), ..m }
    } else if m.in_quote {
        BuildModel { quote: m.quote.push(' '), ..m }
    } else {
        BuildModel { paragraph: m.paragraph.push(' '), ..m }
    }
}

pub open spec fn table_reset(m: BuildModel) -> BuildModel {
    BuildModel {
        table_headers: seq![],
        table_rows: seq![],
        table_row: seq![],
        table_cell: seq![],
        table_in_head: false,
        table_in_row: false,
        table_in_cell: false,
        ..m
    }
}

pub open spec fn list_flush(m: BuildModel) -> BuildModel {
    BuildModel {
        blocks: if m.list_items.len() > 0 {
            m.blocks.push(BlockModel::List(m.list_ordered, m.list_items))
        } else {
            m.blocks
        },
        list_items: seq![],
        list_in_item: false,
        list_item: seq![],
        list_ordered: false,
        ..m
    }
}

pub open spec fn start_tag(m: BuildModel, tag: MdTagModel) -> BuildModel {
    match tag {
        MdTagModel::Paragraph => BuildModel { in_paragraph: true, ..m },
        MdTagModel::Heading(l) => BuildModel { in_heading: Some(l), heading: seq![], ..m },
        MdTagModel::BlockQuote => BuildModel { in_quote: true, quote: seq![], ..flush_par(m) },
        MdTagModel::List(start) => {
            let f = flush_par(m);
            let d = f.list_depth + 1;
            if d == 1 {
                BuildModel { list_depth: d, list_ordered: start is Some, ..f }
            } else {
                BuildModel { list_depth: d, ..f }
            }
        },
        MdTagModel::Item => BuildModel {
            list_in_item: true,
            list_item: if m.list_depth > 1 {
                spaces((2 * (m.list_depth - 1)) as nat)
            } else {
                seq![]
            },
            ..m
        },
        MdTagModel::CodeBlock(lang) => BuildModel {
            in_code: true,
            code_body: seq![],
            code_lang: match lang {
                Some(l) => if trim(l).len() > 0 {
                    Some(trim(l))
                } else {
                    None
                },
                None => None,
            },
            ..flush_par(m)
        },
        MdTagModel::Table => table_reset(flush_par(m)),
        MdTagModel::TableHead => BuildModel { table_in_head: true, ..m },
        MdTagModel::TableRow => BuildModel { table_row: seq![], table_in_row: true, ..m },
        MdTagModel::TableCell => BuildModel { table_cell: seq![], table_in_cell: true, ..m },
        MdTagModel::Image(dest) => BuildModel {
            in_image: true,
            pending_path: Some(dest),
            image_alt: seq![],
            ..m
        },
        MdTagModel::Other => m,
    }
}

/// The block a finished heading becomes: the first level-1 heading is the big title,
/// levels 2 to 6 are section headings of level 1, 2 or 3, the rest are paragraphs.
pub open spec fn heading_block(level: u8, first_h1_seen: bool, t: Seq<char>) -> BlockModel {
    if level == 1 && !first_h1_seen {
        BlockModel::BigText(t)
    } else if 2 <= level <= 6 {
        BlockModel::SectionHeading(
            if level == 2 {
                1
            } else if level == 3 {
                2
            } else {
                3
            },
            t,
        )
    } else {
        BlockModel::Paragraph(t)
    }
}

pub open spec fn end_tag(m: BuildModel, e: MdEnd) -> BuildModel {
    match e {
        MdEnd::Paragraph => flush_par(m),
        MdEnd::Heading(level) => {
            let t = trim(m.heading);
            if t.len() > 0 {
                BuildModel {
                    blocks: m.blocks.push(heading_block(level, m.first_h1_seen, t)),
                    first_h1_seen: m.first_h1_seen || level == 1,
                    heading: seq![],
                    in_heading: None,
                    ..m
                }
            } else {
                BuildModel { heading: seq![], in_heading: None, ..m }
            }
        },
        MdEnd::BlockQuote => {
            let t = trim(m.quote);
            BuildModel {
                in_quote: false,
                blocks: if t.len() > 0 {
                    m.blocks.push(callout_or(t, true))
                } else {
                    m.blocks
                },
                quote: seq![],
                ..m
            }
        },
        MdEnd::List => {
            let f = if m.list_depth == 1 {
                list_flush(m)
            } else {
                m
            };
            BuildModel {
                list_depth: if f.list_depth >= 1 {
                    (f.list_depth - 1) as nat
                } else {
                    0
                },
                ..f
            }
        },
        MdEnd::Item => {
            let t = trim(m.list_item);
            BuildModel {
                list_in_item: false,
                list_items: if t.len() > 0 {
                    m.list_items.push(t)
                } else {
                    m.list_items
                },
                list_item: seq![],
                ..m
            }
        },
        MdEnd::CodeBlock => BuildModel {
            in_code: false,
            blocks: m.blocks.push(BlockModel::Code(m.code_lang, trim_end(m.code_body))),
            code_lang: None,
            code_body: seq![],
            ..m
        },
        MdEnd::TableCell => BuildModel {
            table_in_cell: false,
            table_row: m.table_row.push(trim(m.table_cell)),
            ..m
        },
        MdEnd::TableRow => BuildModel {
            table_in_row: false,
            table_headers: if m.table_in_head {
                m.table_row
            } else {
                m.table_headers
            },
            table_rows: if !m.table_in_head && m.table_row.len() > 0 {
                m.table_rows.push(m.table_row)
            } else {
                m.table_rows
            },
            table_row: seq![],
            ..m
        },
        MdEnd::TableHead => BuildModel { table_in_head: false, ..m },
        MdEnd::Table => table_reset(
            BuildModel {
                blocks: if m.table_headers.len() > 0 || m.table_rows.len() > 0 {
                    m.blocks.push(BlockModel::Table(m.table_headers, m.table_rows))
                } else {
                    m.blocks
                },
                ..m
            },
        ),
        MdEnd::Image => match m.pending_path {
            Some(p) => {
                if m.image is None {
                    let meta = alt_meta(m.image_alt);
                    BuildModel {
                        in_image: false,
                        pending_path: None,
                        image: Some(fresh_image(p, meta.alt, meta.valign, meta.halign)),
                        ..m
                    }
                } else {
                    BuildModel {
                        in_image: false,
                        pending_path: None,
                        warnings: m.warnings.push(
                            "only one image per slide is supported; additional image ignored"@,
                        ),
                        ..m
                    }
                }
            },
            None => BuildModel { in_image: false, ..m },
        },
        MdEnd::Other => m,
    }
}

/// Raw HTML: a column, alignment or spacing comment closes the paragraph and becomes
/// a block (a spacing of 0 adds none); other HTML is dropped.
pub open spec fn html_event(m: BuildModel, h: Seq<char>) -> BuildModel {
    match column_directive(h) {
        Some(c) => {
            let f = flush_par(m);
            BuildModel { blocks: f.blocks.push(BlockModel::ColumnBreak(c as usize)), ..f }
        },
        None => match align_directive(h) {
            Some(a) => {
                let f = flush_par(m);
                BuildModel { blocks: f.blocks.push(BlockModel::ColumnAlign(a)), ..f }
            },
            None => match inline_spacing(h) {
                Some(s) => {
                    let f = flush_par(m);
                    if s > 0 {
                        BuildModel { blocks: f.blocks.push(BlockModel::Spacer(s as usize)), ..f }
                    } else {
                        f
                    }
                },
                None => m,
            },
        },
    }
}

pub open spec fn build_step(m: BuildModel, ev: MdEventModel) -> BuildModel {
    match ev {
        MdEventModel::Start(t) => start_tag(m, t),
        MdEventModel::End(e) => end_tag(m, e),
        MdEventModel::Text(t) => add_text(m, t),
        MdEventModel::Code(t) => add_text(m, seq!['`'] + t + seq!['`']),
        MdEventModel::Html(h) => html_event(m, h),
        MdEventModel::Break => add_break(m),
        MdEventModel::Other => m,
    }
}

pub open spec fn build_fold(evs: Seq<MdEventModel>) -> BuildModel
    decreases evs.len(),
{
    if evs.len() == 0 {
        empty_build()
    } else {
        build_step(build_fold(evs.drop_last()), evs.last())
    }
}

/// The finished slide body: every event read, then the open paragraph closed.
pub open spec fn build_slide(evs: Seq<MdEventModel>) -> BuildModel {
    flush_par(build_fold(evs))
}

/// The list being read: its kind, its items so far and how deep the nesting is.
struct ListBuilder {
    ordered: bool,
    items: Vec<String>,
    in_item: bool,
    current_item: Vec<char>,
    depth: usize,
}

/// The table being read: its header, its rows and the row and cell being read.
struct TableBuilder {
    headers: Vec<String>,
    rows: Vec<Vec<String>>,
    current_row: Vec<String>,
    current_cell: Vec<char>,
    in_head: bool,
    in_row: bool,
    in_cell: bool,
}

/// A slide being read, event by event.
struct SlideBuilder {
    blocks: Vec<Block>,
    warnings: Vec<String>,
    image: Option<ImageAsset>,
    first_h1_seen: bool,
    in_paragraph: bool,
    paragraph: Vec<char>,
    in_quote: bool,
    quote: Vec<char>,
    in_heading: Option<u8>,
    heading: Vec<char>,
    list: ListBuilder,
    in_code: bool,
    code_lang: Option<Vec<char>>,
    code_body: Vec<char>,
    table: TableBuilder,
    in_image: bool,
    pending_path: Option<String>,
    image_alt: Vec<char>,
}

spec fn rows_model(rows: Seq<Vec<String>>) -> Seq<Seq<Seq<char>>> {
    rows.map_values(|r: Vec<String>| strs(r@))
}

proof fn lemma_strs_push(v: Seq<String>, x: String)
    ensures
        strs(v.push(x)) == strs(v).push(x@),
{
    assert(strs(v.push(x)) =~= strs(v).push(x@));
}

proof fn lemma_blocks_push(v: Seq<Block>, b: Block)
    ensures
        blocks_model(v.push(b)) == blocks_model(v).push(b@),
{
    assert(blocks_model(v.push(b)) =~= blocks_model(v).push(b@));
}

proof fn lemma_rows_push(v: Seq<Vec<String>>, r: Vec<String>)
    ensures
        rows_model(v.push(r)) == rows_model(v).push(strs(r@)),
{
    assert(rows_model(v.push(r)) =~= rows_model(v).push(strs(r@)));
}

impl SlideBuilder {
    spec fn model(&self) -> BuildModel {
        BuildModel {
            blocks: blocks_model(self.blocks@),
            warnings: strs(self.warnings@),
            image: opt_image(self.image),
            first_h1_seen: self.first_h1_seen,
            in_paragraph: self.in_paragraph,
            paragraph: self.paragraph@,
            in_quote: self.in_quote,
            quote: self.quote@,
            in_heading: self.in_heading,
            heading: self.heading@,
            list_ordered: self.list.ordered,
            list_items: strs(self.list.items@),
            list_in_item: self.list.in_item,
            list_item: self.list.current_item@,
            list_depth: self.list.depth as nat,
            in_code: self.in_code,
            code_lang: opt_seq(self.code_lang),
            code_body: self.code_body@,
            table_headers: strs(self.table.headers@),
            table_rows: rows_model(self.table.rows@),
            table_row: strs(self.table.current_row@),
            table_cell: self.table.current_cell@,
            table_in_head: self.table.in_head,
            table_in_row: self.table.in_row,
            table_in_cell: self.table.in_cell,
            in_image: self.in_image,
            pending_path: opt_str(self.pending_path),
            image_alt: self.image_alt@,
        }
    }

    fn new() -> (r: SlideBuilder)
        ensures
            r.model() == empty_build(),
    {
        let r = SlideBuilder {
            blocks: Vec::new(),
            warnings: Vec::new(),
            image: None,
            first_h1_seen: false,
            in_paragraph: false,
            paragraph: Vec::new(),
            in_quote: false,
            quote: Vec::new(),
            in_heading: None,
            heading: Vec::new(),
            list: ListBuilder {
                ordered: false,
                items: Vec::new(),
                in_item: false,
                current_item: Vec::new(),
                depth: 0,
            },
            in_code: false,
            code_lang: None,
            code_body: Vec::new(),
            table: TableBuilder {
                headers: Vec::new(),
                rows: Vec::new(),
                current_row: Vec::new(),
                current_cell: Vec::new(),
                in_head: false,
                in_row: false,
                in_cell: false,
            },
            in_image: false,
            pending_path: None,
            image_alt: Vec::new(),
        };
        assert(r.model() =~= empty_build());
        r
    }

    /// The block that finished text becomes: a callout when it starts with a callout
    /// marker, else a quote or a paragraph.
    fn callout_or_block(t: &Vec<char>, quote: bool) -> (r: Block)
        ensures
            r@ == callout_or(t@, quote),
    {
        match parse_callout(t) {
            Some((kind, text)) => Block::Callout(CalloutData { kind, text: string_of(&text) }),
            None => if quote {
                Block::Quote(string_of(t))
            } else {
                Block::Paragraph(string_of(t))
            },
        }
    }

    /// Closes the paragraph being read.
    fn flush_paragraph(&mut self)
        ensures
            final(self).model() == flush_par(old(self).model()),
    {
        let t = trim_chars(&self.paragraph);
        if t.len() > 0 {
            let b = Self::callout_or_block(&t, false);
            proof { lemma_blocks_push(self.blocks@, b); }
            self.blocks.push(b);
        }
        self.paragraph.clear();
        self.in_paragraph = false;
        assert(self.model() =~= flush_par(old(self).model()));
    }

    /// Text goes to the innermost open thing.
    fn push_text(&mut self, text: &[char])
        ensures
            final(self).model() == add_text(old(self).model(), text@),
    {
        if self.in_code {
            push_chars(&mut self.code_body, text);
        } else if self.table.in_cell {
            push_chars(&mut self.table.current_cell, text);
        } else if self.in_heading.is_some() {
            push_chars(&mut self.heading, text);
        } else if self.list.in_item {
            push_chars(&mut self.list.current_item, text);
        } else if self.in_quote {
            push_chars(&mut self.quote, text);
        } else if self.in_image {
            push_chars(&mut self.image_alt, text);
        } else {
            push_chars(&mut self.paragraph, text);
        }
        assert(self.model() =~= add_text(old(self).model(), text@));
    }

    /// A soft or hard line break.
    fn push_break(&mut self)
        ensures
            final(self).model() == add_break(old(self).model()),
    {
        if self.in_code {
            self.code_body.push('\n');
        } else if self.table.in_cell {
            self.table.current_cell.push(' ');
        } else if self.in_heading.is_some() {
            self.heading.push(' ');
        } else if self.list.in_item {
            self.list.current_item.push(' ');
        } else if self.in_quote {
            self.quote.push(' ');
        } else {
            self.paragraph.push(' ');
        }
        assert(self.model() =~= add_break(old(self).model()));
    }
}

impl ListBuilder {
    /// Closes the outermost list: its items, if any, become a list block.
    fn flush(&mut self, blocks: &mut Vec<Block>)
        ensures
            blocks_model(final(blocks)@) == (if old(self).items@.len() > 0 {
                blocks_model(old(blocks)@).push(
                    BlockModel::List(old(self).ordered, strs(old(self).items@)),
                )
            } else {
                blocks_model(old(blocks)@)
            }),
            final(self).items@.len() == 0,
            !final(self).in_item,
            final(self).current_item@.len() == 0,
            !final(self).ordered,
            final(self).depth == old(self).depth,
    {
        if self.items.len() > 0 {
            let mut items: Vec<String> = Vec::new();
            std::mem::swap(&mut items, &mut self.items);
            let b = Block::List(ListData { ordered: self.ordered, items });
            proof { lemma_blocks_push(blocks@, b); }
            blocks.push(b);
        }
        self.items.clear();
        self.in_item = false;
        self.current_item.clear();
        self.ordered = false;
    }
}

impl TableBuilder {
    /// Forgets the table being read.
    fn reset(&mut self)
        ensures
            final(self).headers@.len() == 0,
            final(self).rows@.len() == 0,
            final(self).current_row@.len() == 0,
            final(self).current_cell@.len() == 0,
            !final(self).in_head,
            !final(self).in_row,
            !final(self).in_cell,
    {
        self.headers.clear();
        self.rows.clear();
        self.current_row.clear();
        self.current_cell.clear();
        self.in_head = false;
        self.in_row = false;
        self.in_cell = false;
    }
}

/// The indentation of an item of a list nested `depth` deep: two spaces a level
/// below the first.
fn item_indent(depth: usize) -> (r: Vec<char>)
    ensures
        r@ == (if depth > 1 {
            spaces((2 * (depth - 1)) as nat)
        } else {
            Seq::<char>::empty()
        }),
{
    let mut out: Vec<char> = Vec::new();
    let mut k: usize = 1;
    while k < depth
        invariant
            1 <= k,
            k <= depth || k == 1,
            out@ =~= spaces((2 * (k - 1)) as nat),
        decreases depth - k,
    {
        out.push(' ');
        out.push(' ');
        k = k + 1;
    }
    if depth > 1 {
        assert(k == depth);
    } else {
        assert(out@ =~= Seq::<char>::empty());
    }
    out
}

impl SlideBuilder {
    /// A tag opens.
    fn start(&mut self, tag: &MdTag)
        requires
            old(self).model().list_depth < usize::MAX,
        ensures
            final(self).model() == start_tag(old(self).model(), tag@),
    {
        match tag {
            MdTag::Heading(level) => self.start_heading(*level),
            MdTag::BlockQuote => self.start_quote(),
            MdTag::List(first) => self.start_list(first.is_some()),
            MdTag::Item => self.start_item(),
            MdTag::CodeBlock(lang) => self.start_code(lang),
            MdTag::Table => self.start_table(),
            MdTag::Image(dest) => self.start_image(dest),
            _ => self.start_flag(tag),
        }
    }

    /// Tags that only raise a flag.
    fn start_flag(&mut self, tag: &MdTag)
        requires
            tag is Paragraph || tag is TableHead || tag is TableRow || tag is TableCell
                || tag is Other,
        ensures
            final(self).model() == start_tag(old(self).model(), tag@),
    {
        match tag {
            MdTag::Paragraph => {
                self.in_paragraph = true;
            },
            MdTag::TableHead => {
                self.table.in_head = true;
            },
            MdTag::TableRow => {
                self.table.current_row.clear();
                self.table.in_row = true;
            },
            MdTag::TableCell => {
                self.table.current_cell.clear();
                self.table.in_cell = true;
            },
            _ => {},
        }
        assert(self.model() =~= start_tag(old(self).model(), tag@));
    }

    fn start_heading(&mut self, level: u8)
        ensures
            final(self).model() == start_tag(old(self).model(), MdTagModel::Heading(level)),
    {
        self.in_heading = Some(level);
        self.heading.clear();
        assert(self.model() =~= start_tag(old(self).model(), MdTagModel::Heading(level)));
    }

    fn start_table(&mut self)
        ensures
            final(self).model() == start_tag(old(self).model(), MdTagModel::Table),
    {
        self.flush_paragraph();
        self.table.reset();
        assert(self.model() =~= start_tag(old(self).model(), MdTagModel::Table));
    }

    fn start_image(&mut self, dest: &String)
        ensures
            final(self).model() == start_tag(old(self).model(), MdTagModel::Image(dest@)),
    {
        self.in_image = true;
        self.pending_path = Some(dest.clone());
        self.image_alt.clear();
        assert(self.model() =~= start_tag(old(self).model(), MdTagModel::Image(dest@)));
    }

    fn start_quote(&mut self)
        ensures
            final(self).model() == start_tag(old(self).model(), MdTagModel::BlockQuote),
    {
        self.flush_paragraph();
        self.in_quote = true;
        self.quote.clear();
        assert(self.model() =~= start_tag(old(self).model(), MdTagModel::BlockQuote));
    }

    fn start_list(&mut self, ordered: bool)
        requires
            old(self).model().list_depth < usize::MAX,
        ensures
            forall|first: Option<u64>| first is Some == ordered ==>
                final(self).model() == #[trigger] start_tag(old(self).model(), MdTagModel::List(first)),
    {
        self.flush_paragraph();
        self.list.depth = self.list.depth + 1;
        if self.list.depth == 1 {
            self.list.ordered = ordered;
        }
        assert forall|first: Option<u64>| first is Some == ordered implies
            self.model() == #[trigger] start_tag(old(self).model(), MdTagModel::List(first)) by {
            assert(self.model() =~= start_tag(old(self).model(), MdTagModel::List(first)));
        }
    }

    fn start_item(&mut self)
        ensures
            final(self).model() == start_tag(old(self).model(), MdTagModel::Item),
    {
        self.list.in_item = true;
        self.list.current_item = item_indent(self.list.depth);
        assert(self.model() =~= start_tag(old(self).model(), MdTagModel::Item));
    }

    fn start_code(&mut self, lang: &Option<String>)
        ensures
            final(self).model() == start_tag(
                old(self).model(),
                MdTagModel::CodeBlock(opt_str(*lang)),
            ),
    {
        self.flush_paragraph();
        self.in_code = true;
        self.code_body.clear();
        self.code_lang = match lang {
            Some(l) => {
                let t = trim_chars(&chars_of(l.as_str()));
                if t.len() > 0 {
                    Some(t)
                } else {
                    None
                }
            },
            None => None,
        };
        assert(self.model() =~= start_tag(old(self).model(), MdTagModel::CodeBlock(opt_str(*lang))));
    }
}

/// The block a finished heading becomes.
fn heading_block_of(level: u8, first_h1_seen: bool, t: &Vec<char>) -> (r: Block)
    ensures
        r@ == heading_block(level, first_h1_seen, t@),
{
    let text = string_of(t);
    if level == 1 && !first_h1_seen {
        Block::BigText(text)
    } else if 2 <= level && level <= 6 {
        let l: u8 = if level == 2 {
            1
        } else if level == 3 {
            2
        } else {
            3
        };
        Block::SectionHeading { level: l, text }
    } else {
        Block::Paragraph(text)
    }
}

impl SlideBuilder {
    /// A tag closes.
    fn end(&mut self, e: MdEnd)
        ensures
            final(self).model() == end_tag(old(self).model(), e),
    {
        match e {
            MdEnd::Paragraph => self.flush_paragraph(),
            MdEnd::Heading(level) => self.end_heading(level),
            MdEnd::BlockQuote => self.end_quote(),
            MdEnd::List => self.end_list(),
            MdEnd::Item => self.end_item(),
            MdEnd::CodeBlock => self.end_code(),
            MdEnd::TableCell => self.end_cell(),
            MdEnd::TableRow => self.end_row(),
            MdEnd::TableHead => {
                self.table.in_head = false;
                assert(self.model() =~= end_tag(old(self).model(), e));
            },
            MdEnd::Table => self.end_table(),
            MdEnd::Image => self.end_image(),
            MdEnd::Other => {},
        }
    }

    fn end_heading(&mut self, level: u8)
        ensures
            final(self).model() == end_tag(old(self).model(), MdEnd::Heading(level)),
    {
        let t = trim_chars(&self.heading);
        if t.len() > 0 {
            let b = heading_block_of(level, self.first_h1_seen, &t);
            proof { lemma_blocks_push(self.blocks@, b); }
            self.blocks.push(b);
            if level == 1 {
                self.first_h1_seen = true;
            }
        }
        self.heading.clear();
        self.in_heading = None;
        assert(self.model() =~= end_tag(old(self).model(), MdEnd::Heading(level)));
    }

    fn end_quote(&mut self)
        ensures
            final(self).model() == end_tag(old(self).model(), MdEnd::BlockQuote),
    {
        self.in_quote = false;
        let t = trim_chars(&self.quote);
        if t.len() > 0 {
            let b = Self::callout_or_block(&t, true);
            proof { lemma_blocks_push(self.blocks@, b); }
            self.blocks.push(b);
        }
        self.quote.clear();
        assert(self.model() =~= end_tag(old(self).model(), MdEnd::BlockQuote));
    }

    fn end_list(&mut self)
        ensures
            final(self).model() == end_tag(old(self).model(), MdEnd::List),
    {
        if self.list.depth == 1 {
            self.list.flush(&mut self.blocks);
        }
        self.list.depth = if self.list.depth >= 1 {
            self.list.depth - 1
        } else {
            0
        };
        assert(self.model() =~= end_tag(old(self).model(), MdEnd::List));
    }

    fn end_item(&mut self)
        ensures
            final(self).model() == end_tag(old(self).model(), MdEnd::Item),
    {
        self.list.in_item = false;
        let t = trim_chars(&self.list.current_item);
        if t.len() > 0 {
            let x = string_of(&t);
            proof { lemma_strs_push(self.list.items@, x); }
            self.list.items.push(x);
        }
        self.list.current_item.clear();
        assert(self.model() =~= end_tag(old(self).model(), MdEnd::Item));
    }

    fn end_code(&mut self)
        ensures
            final(self).model() == end_tag(old(self).model(), MdEnd::CodeBlock),
    {
        self.in_code = false;
        let (_, b) = trim_end_bounds(&self.code_body);
        let body = slice_to_vec(&self.code_body, 0, b);
        assert(body@ =~= trim_end(self.code_body@));
        let source = string_of(&body);
        let mut lang: Option<Vec<char>> = None;
        std::mem::swap(&mut lang, &mut self.code_lang);
        let lang_text = match lang {
            Some(v) => Some(string_of(&v)),
            None => None,
        };
        let blk = Block::Code(CodeData { lang: lang_text, source });
        proof { lemma_blocks_push(self.blocks@, blk); }
        self.blocks.push(blk);
        self.code_body.clear();
        assert(self.model() =~= end_tag(old(self).model(), MdEnd::CodeBlock));
    }

    fn end_cell(&mut self)
        ensures
            final(self).model() == end_tag(old(self).model(), MdEnd::TableCell),
    {
        self.table.in_cell = false;
        let t = trim_chars(&self.table.current_cell);
        let x = string_of(&t);
        proof { lemma_strs_push(self.table.current_row@, x); }
        self.table.current_row.push(x);
        assert(self.model() =~= end_tag(old(self).model(), MdEnd::TableCell));
    }

    fn end_row(&mut self)
        ensures
            final(self).model() == end_tag(old(self).model(), MdEnd::TableRow),
    {
        self.table.in_row = false;
        if self.table.in_head {
            let mut row: Vec<String> = Vec::new();
            std::mem::swap(&mut row, &mut self.table.current_row);
            self.table.headers = row;
        } else if self.table.current_row.len() > 0 {
            let mut row: Vec<String> = Vec::new();
            std::mem::swap(&mut row, &mut self.table.current_row);
            proof { lemma_rows_push(self.table.rows@, row); }
            self.table.rows.push(row);
        }
        self.table.current_row.clear();
        assert(self.model() =~= end_tag(old(self).model(), MdEnd::TableRow));
    }

    fn end_table(&mut self)
        ensures
            final(self).model() == end_tag(old(self).model(), MdEnd::Table),
    {
        if self.table.headers.len() > 0 || self.table.rows.len() > 0 {
            let mut headers: Vec<String> = Vec::new();
            std::mem::swap(&mut headers, &mut self.table.headers);
            let mut rows: Vec<Vec<String>> = Vec::new();
            std::mem::swap(&mut rows, &mut self.table.rows);
            let b = Block::Table(TableData { headers, rows });
            assert(b@ =~= BlockModel::Table(strs(headers@), rows_model(rows@)));
            proof { lemma_blocks_push(self.blocks@, b); }
            self.blocks.push(b);
        }
        self.table.reset();
        assert(self.model() =~= end_tag(old(self).model(), MdEnd::Table));
    }

    fn end_image(&mut self)
        ensures
            final(self).model() == end_tag(old(self).model(), MdEnd::Image),
    {
        self.in_image = false;
        let mut pending: Option<String> = None;
        std::mem::swap(&mut pending, &mut self.pending_path);
        match pending {
            Some(path) => {
                if self.image.is_none() {
                    let meta = parse_image_alt_meta(&self.image_alt);
                    let alt = match meta.alt {
                        Some(v) => Some(string_of(&v)),
                        None => None,
                    };
                    self.image = Some(new_image(path, alt, meta.valign, meta.halign));
                } else {
                    let w = "only one image per slide is supported; additional image ignored".to_owned();
                    proof { lemma_strs_push(self.warnings@, w); }
                    self.warnings.push(w);
                }
            },
            None => {},
        }
        assert(self.model() =~= end_tag(old(self).model(), MdEnd::Image));
    }
}

impl SlideBuilder {
    /// Raw HTML: the column, alignment and spacing comments.
    fn html(&mut self, h: &Vec<char>)
        ensures
            final(self).model() == html_event(old(self).model(), h@),
    {
        match parse_column_directive(h) {
            Some(c) => {
                self.flush_paragraph();
                let b = Block::ColumnBreak(c);
                proof { lemma_blocks_push(self.blocks@, b); }
                self.blocks.push(b);
            },
            None => match parse_align_directive(h) {
                Some(a) => {
                    self.flush_paragraph();
                    let b = Block::ColumnAlign(a);
                    proof { lemma_blocks_push(self.blocks@, b); }
                    self.blocks.push(b);
                },
                None => match parse_inline_line_spacing(h) {
                    Some(n) => {
                        self.flush_paragraph();
                        if n > 0 {
                            let b = Block::Spacer(n);
                            proof { lemma_blocks_push(self.blocks@, b); }
                            self.blocks.push(b);
                        }
                    },
                    None => {},
                },
            },
        }
        assert(self.model() =~= html_event(old(self).model(), h@));
    }

    /// One event.
    fn step(&mut self, ev: &MdEvent)
        requires
            old(self).model().list_depth < usize::MAX,
        ensures
            final(self).model() == build_step(old(self).model(), ev@),
    {
        match ev {
            MdEvent::Start(t) => self.start(t),
            MdEvent::End(e) => self.end(*e),
            MdEvent::Text(t) => {
                let cs = chars_of(t.as_str());
                self.push_text(&cs);
            },
            MdEvent::Code(t) => {
                let mut cs: Vec<char> = Vec::new();
                cs.push('`');
                push_chars(&mut cs, &chars_of(t.as_str()));
                cs.push('`');
                assert(cs@ =~= seq!['`'] + t@ + seq!['`']);
                self.push_text(&cs);
            },
            MdEvent::Html(h) => self.html(&chars_of(h.as_str())),
            MdEvent::Break => self.push_break(),
            MdEvent::Other => {},
        }
    }
}

proof fn lemma_step_depth(m: BuildModel, ev: MdEventModel)
    ensures
        build_step(m, ev).list_depth <= m.list_depth + 1,
{
}

/// What a slide's events make: its blocks, its image and its warnings.
struct SlideBody {
    pub blocks: Vec<Block>,
    pub image: Option<ImageAsset>,
    pub warnings: Vec<String>,
}

/// Reads the events of one slide, then closes the open paragraph.
fn build_slide_body(events: &Vec<MdEvent>) -> (r: SlideBody)
    ensures
        blocks_model(r.blocks@) == build_slide(events_model(events@)).blocks,
        opt_image(r.image) == build_slide(events_model(events@)).image,
        strs(r.warnings@) == build_slide(events_model(events@)).warnings,
{
    let ghost evm = events_model(events@);
    let mut b = SlideBuilder::new();
    let mut i: usize = 0;
    assert(evm.take(0) =~= Seq::<MdEventModel>::empty());
    while i < events.len()
        invariant
            i <= events@.len(),
            evm == events_model(events@),
            b.model() == build_fold(evm.take(i as int)),
            b.model().list_depth <= i,
        decreases events@.len() - i,
    {
        proof {
            assert(evm.take(i + 1).drop_last() =~= evm.take(i as int));
            assert(evm.take(i + 1).last() == events@[i as int]@);
            lemma_step_depth(b.model(), events@[i as int]@);
        }
        b.step(&events[i]);
        i = i + 1;
    }
    assert(evm.take(events@.len() as int) =~= evm);
    b.flush_paragraph();
    SlideBody { blocks: b.blocks, image: b.image, warnings: b.warnings }
}

/// The slide that the events of a slide's text make, with the settings of its
/// delimiter line and of its directive comments.
pub open spec fn slide_from(
    evs: Seq<MdEventModel>,
    config: ConfigModel,
    reveal: bool,
    spacing: Option<u8>,
) -> SlideModel {
    let body = build_slide(evs);
    SlideModel {
        blocks: body.blocks,
        title: config.title,
        image: body.image,
        warnings: body.warnings,
        reveal_fragments: reveal,
        line_spacing: spacing,
        column_ratios: config.column_ratios,
        image_mode: config.image_mode,
        cover: None,
    }
}

/// Builds a slide from the Markdown events of its text.
pub fn slide_from_events(
    events: &Vec<MdEvent>,
    config: &SlideConfig,
    reveal_fragments: bool,
    line_spacing: Option<u8>,
) -> (r: Slide)
    ensures
        r@ == slide_from(events_model(events@), config@, reveal_fragments, line_spacing),
{
    let body = build_slide_body(events);
    let r = Slide {
        blocks: body.blocks,
        title: copy_opt_string(&config.title),
        image: body.image,
        warnings: body.warnings,
        reveal_fragments,
        line_spacing,
        column_ratios: copy_ratios(&config.column_ratios),
        image_mode: config.image_mode,
        cover: None,
    };
    assert(r@ =~= slide_from(events_model(events@), config@, reveal_fragments, line_spacing));
    r
}

} // verus!
