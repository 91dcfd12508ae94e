//! The command line: `rslides [flags] <file.md>`, the flags being `--theme <file>`
//! (or `--theme=<file>`), `--no-ansi`, `--fps N`, `--line-spacing N`, `--columns a,b`,
//! `--image-mode M` and `--gif-mode M`.
use vstd::prelude::*;

use crate::model::ImageMode;
use crate::parser::{image_mode_of, parse_image_mode, ratios_from, ratios_of_pieces};
use crate::strings::{
    chars_of, eq_chars, parse_uint, parse_uint_chars, push_chars, seqs_of, slice_to_vec, split, split_chars,
    starts_with, starts_with_chars, string_of, trim, trim_chars,
};

verus! {

/// An error that ends the program, and the exit code it ends it with.
#[derive(Debug)]
pub struct AppError {
    pub code: i32,
    pub message: String,
}

impl AppError {
    /// A problem with what the user gave: exit code 2.
    pub fn input(message: String) -> (r: AppError)
        ensures
            r.code == 2,
            r.message@ == message@,
    {
        AppError { code: 2, message }
    }

    /// A problem while presenting: exit code 1.
    pub fn runtime(message: String) -> (r: AppError)
        ensures
            r.code == 1,
            r.message@ == message@,
    {
        AppError { code: 1, message }
    }
}

pub open spec fn usage() -> Seq<char> {
    "usage: rslides [--theme <file>] <file.md>"@
}

/// The run settings that flags choose.
#[derive(Debug, Clone)]
pub struct CliOptions {
    pub no_ansi: bool,
    pub fps: u16,
    pub line_spacing: u8,
    pub columns: Option<Vec<u16>>,
    pub image_mode: ImageMode,
    pub gif_mode: ImageMode,
}

pub struct OptionsModel {
    pub no_ansi: bool,
    pub fps: u16,
    pub line_spacing: u8,
    pub columns: Option<Seq<u16>>,
    pub image_mode: ImageMode,
    pub gif_mode: ImageMode,
}

impl View for CliOptions {
    type V = OptionsModel;

    open spec fn view(&self) -> OptionsModel {
        OptionsModel {
            no_ansi: self.no_ansi,
            fps: self.fps,
            line_spacing: self.line_spacing,
            columns: match self.columns {
                Some(c) => Some(c@),
                None => None,
            },
            image_mode: self.image_mode,
            gif_mode: self.gif_mode,
        }
    }
}

/// Without flags: colours on, 8 frames a second, one blank line between blocks, no
/// column ratios of its own, native pictures and GIFs.
pub open spec fn default_options() -> OptionsModel {
    OptionsModel {
        no_ansi: false,
        fps: 8,
        line_spacing: 1,
        columns: None,
        image_mode: ImageMode::Native,
        gif_mode: ImageMode::Native,
    }
}

/// The flags that take a value.
pub enum ValueFlag {
    Fps,
    LineSpacing,
    Columns,
    ImageMode,
    GifMode,
}

pub open spec fn value_flag(a: Seq<char>) -> Option<ValueFlag> {
    if a == "--fps"@ {
        Some(ValueFlag::Fps)
    } else if a == "--line-spacing"@ {
        Some(ValueFlag::LineSpacing)
    } else if a == "--columns"@ {
        Some(ValueFlag::Columns)
    } else if a == "--image-mode"@ {
        Some(ValueFlag::ImageMode)
    } else if a == "--gif-mode"@ {
        Some(ValueFlag::GifMode)
    } else {
        None
    }
}

/// The settings after flag `f` with value `v`; `None` when the value does not read:
/// a number up to 65535 frames a second, up to 255 lines, ratios above 0 split by
/// commas (at least one), or `auto`, `ascii` or `native`.
pub open spec fn set_value(f: ValueFlag, v: Seq<char>, o: OptionsModel) -> Option<OptionsModel> {
    match f {
        ValueFlag::Fps => match parse_uint(trim(v), 65535) {
            Some(x) => Some(OptionsModel { fps: x as u16, ..o }),
            None => None,
        },
        ValueFlag::LineSpacing => match parse_uint(trim(v), 255) {
            Some(x) => Some(OptionsModel { line_spacing: x as u8, ..o }),
            None => None,
        },
        ValueFlag::Columns => {
            let c = ratios_from(split(v, ','));
            if c.len() > 0 {
                Some(OptionsModel { columns: Some(c), ..o })
            } else {
                None
            }
        },
        ValueFlag::ImageMode => match image_mode_of(v) {
            Some(m) => Some(OptionsModel { image_mode: m, ..o }),
            None => None,
        },
        ValueFlag::GifMode => match image_mode_of(v) {
            Some(m) => Some(OptionsModel { gif_mode: m, ..o }),
            None => None,
        },
    }
}

/// What the arguments from the `i`-th on say, the markdown file seen before them
/// being `path` and the settings so far `o`: the theme files to load, in order, then
/// the markdown file and the settings, or the first error. Theme files come before
/// the error they precede.
pub open spec fn cli_from(args: Seq<Seq<char>>, path: Option<Seq<char>>, o: OptionsModel) -> (
    Seq<Seq<char>>,
    Result<(Seq<char>, OptionsModel), Seq<char>>,
)
    decreases args.len(),
{
    if args.len() == 0 {
        (
            seq![],
            match path {
                Some(p) => Ok((p, o)),
                None => Err(usage()),
            },
        )
    } else {
        let a = args[0];
        if a == "--theme"@ {
            if args.len() < 2 {
                (seq![], Err("missing value for --theme"@))
            } else {
                let r = cli_from(args.skip(2), path, o);
                (seq![args[1]] + r.0, r.1)
            }
        } else if starts_with(a, "--theme="@) {
            let r = cli_from(args.skip(1), path, o);
            (seq![a.skip(8)] + r.0, r.1)
        } else if a == "--no-ansi"@ {
            cli_from(args.skip(1), path, OptionsModel { no_ansi: true, ..o })
        } else if value_flag(a) is Some {
            if args.len() < 2 {
                (seq![], Err("missing value for "@ + a))
            } else {
                match set_value(value_flag(a)->0, args[1], o) {
                    Some(o2) => cli_from(args.skip(2), path, o2),
                    None => (seq![], Err("invalid value for "@ + a + ": "@ + args[1])),
                }
            }
        } else if a.len() > 0 && a[0] == '-' {
            (seq![], Err("unknown flag: "@ + a))
        } else if path is Some {
            (seq![], Err("only one markdown file can be provided"@))
        } else {
            cli_from(args.skip(1), Some(a), o)
        }
    }
}

/// What the command line asks for: the theme files to load in order (the last one
/// wins), then the markdown file, or the error to stop with (exit code 2); and the
/// settings that the flags chose.
pub struct CliPlan {
    pub themes: Vec<String>,
    pub outcome: Result<String, AppError>,
    pub options: CliOptions,
}

/// The settings when no flag changes them.
pub fn default_cli_options() -> (r: CliOptions)
    ensures
        r@ == default_options(),
{
    CliOptions {
        no_ansi: false,
        fps: 8,
        line_spacing: 1,
        columns: None,
        image_mode: ImageMode::Native,
        gif_mode: ImageMode::Native,
    }
}

fn value_flag_of(a: &Vec<char>) -> (r: Option<ValueFlag>)
    ensures
        r == value_flag(a@),
{
    if eq_chars(a, &chars_of("--fps")) {
        Some(ValueFlag::Fps)
    } else if eq_chars(a, &chars_of("--line-spacing")) {
        Some(ValueFlag::LineSpacing)
    } else if eq_chars(a, &chars_of("--columns")) {
        Some(ValueFlag::Columns)
    } else if eq_chars(a, &chars_of("--image-mode")) {
        Some(ValueFlag::ImageMode)
    } else if eq_chars(a, &chars_of("--gif-mode")) {
        Some(ValueFlag::GifMode)
    } else {
        None
    }
}

fn apply_value(f: ValueFlag, v: &Vec<char>, o: CliOptions) -> (r: Option<CliOptions>)
    ensures
        match r {
            Some(o2) => set_value(f, v@, o@) == Some(o2@),
            None => set_value(f, v@, o@) is None,
        },
{
    match f {
        ValueFlag::Fps => match parse_uint_chars(&trim_chars(v), 65535) {
            Some(x) => Some(CliOptions { fps: x as u16, ..o }),
            None => None,
        },
        ValueFlag::LineSpacing => match parse_uint_chars(&trim_chars(v), 255) {
            Some(x) => Some(CliOptions { line_spacing: x as u8, ..o }),
            None => None,
        },
        ValueFlag::Columns => {
            let pieces = split_chars(v, ',');
            let c = ratios_of_pieces(&pieces);
            if c.len() > 0 {
                Some(CliOptions { columns: Some(c), ..o })
            } else {
                None
            }
        },
        ValueFlag::ImageMode => match parse_image_mode(v) {
            Some(m) => Some(CliOptions { image_mode: m, ..o }),
            None => None,
        },
        ValueFlag::GifMode => match parse_image_mode(v) {
            Some(m) => Some(CliOptions { gif_mode: m, ..o }),
            None => None,
        },
    }
}

/// Reads the arguments after the program name.
pub fn parse_args(args: Vec<String>) -> (r: CliPlan)
    ensures
        r.themes@.map_values(|s: String| s@) == cli_from(args@.map_values(|s: String| s@), None, default_options()).0,
        match (r.outcome, cli_from(args@.map_values(|s: String| s@), None, default_options()).1) {
            (Ok(p), Ok((q, o))) => p@ == q && r.options@ == o,
            (Err(e), Err(m)) => e.code == 2 && e.message@ == m,
            _ => false,
        },
{
    let ghost av = args@.map_values(|s: String| s@);
    let mut themes: Vec<String> = Vec::new();
    let mut path: Option<String> = None;
    let mut opts = default_cli_options();
    let flag = chars_of("--theme");
    let prefix = chars_of("--theme=");
    let no_ansi = chars_of("--no-ansi");
    proof {
        reveal_strlit("--theme=");
    }
    let n = args.len();
    let mut i: usize = 0;
    assert(av.skip(0) =~= av);
    while i < n
        invariant
            i <= n,
            n == args@.len(),
            av == args@.map_values(|s: String| s@),
            flag@ == "--theme"@,
            prefix@ == "--theme="@,
            no_ansi@ == "--no-ansi"@,
            cli_from(av, None, default_options()).0 == themes@.map_values(|s: String| s@) + cli_from(
                av.skip(i as int),
                crate::model::opt_str(path),
                opts@,
            ).0,
            cli_from(av, None, default_options()).1 == cli_from(
                av.skip(i as int),
                crate::model::opt_str(path),
                opts@,
            ).1,
        decreases n - i,
    {
        let ghost rest = av.skip(i as int);
        let ghost p0 = crate::model::opt_str(path);
        let a = chars_of(args[i].as_str());
        assert(rest[0] == a@);
        let ghost before = themes@;
        if eq_chars(&a, &flag) {
            if i + 1 >= n {
                let m = AppError::input("missing value for --theme".to_owned());
                assert(cli_from(rest, p0, opts@).0 =~= Seq::<Seq<char>>::empty());
                assert(themes@.map_values(|s: String| s@) + Seq::<Seq<char>>::empty() =~= themes@.map_values(|s: String| s@));
                return CliPlan { themes, outcome: Err(m), options: opts };
            }
            let v = args[i + 1].clone();
            assert(rest[1] == v@);
            assert(rest.skip(2) =~= av.skip(i + 2));
            themes.push(v);
            assert(themes@.map_values(|s: String| s@) =~= before.map_values(|s: String| s@).push(v@));
            i = i + 2;
            continue;
        }
        if starts_with_chars(&a, &prefix) {
            proof {
                reveal_strlit("--theme=");
            }
            assert(prefix@.len() == 8);
            let na = a.len();
            let v = slice_to_vec(&a, 8, na);
            assert(v@ =~= a@.skip(8));
            let vs = string_of(&v);
            assert(rest.skip(1) =~= av.skip(i + 1));
            themes.push(vs);
            assert(themes@.map_values(|s: String| s@) =~= before.map_values(|s: String| s@).push(vs@));
            i = i + 1;
            continue;
        }
        if eq_chars(&a, &no_ansi) {
            assert(rest.skip(1) =~= av.skip(i + 1));
            opts = CliOptions { no_ansi: true, ..opts };
            i = i + 1;
            continue;
        }
        match value_flag_of(&a) {
            Some(f) => {
                if i + 1 >= n {
                    let mut msg = chars_of("missing value for ");
                    push_chars(&mut msg, &a);
                    let m = AppError::input(string_of(&msg));
                    assert(themes@.map_values(|s: String| s@) + Seq::<Seq<char>>::empty() =~= themes@.map_values(|s: String| s@));
                    return CliPlan { themes, outcome: Err(m), options: opts };
                }
                let v = chars_of(args[i + 1].as_str());
                assert(rest[1] == v@);
                assert(rest.skip(2) =~= av.skip(i + 2));
                match apply_value(f, &v, opts) {
                    Some(o2) => {
                        opts = o2;
                        i = i + 2;
                        continue;
                    },
                    None => {
                        let mut msg = chars_of("invalid value for ");
                        push_chars(&mut msg, &a);
                        push_chars(&mut msg, &chars_of(": "));
                        push_chars(&mut msg, &v);
                        let m = AppError::input(string_of(&msg));
                        assert(themes@.map_values(|s: String| s@) + Seq::<Seq<char>>::empty() =~= themes@.map_values(|s: String| s@));
                        return CliPlan { themes, outcome: Err(m), options: default_cli_options() };
                    },
                }
            },
            None => {},
        }
        if a.len() > 0 && a[0] == '-' {
            let mut msg = chars_of("unknown flag: ");
            push_chars(&mut msg, &a);
            let m = AppError::input(string_of(&msg));
            assert(themes@.map_values(|s: String| s@) + Seq::<Seq<char>>::empty() =~= themes@.map_values(|s: String| s@));
            return CliPlan { themes, outcome: Err(m), options: opts };
        }
        if path.is_some() {
            let m = AppError::input("only one markdown file can be provided".to_owned());
            assert(themes@.map_values(|s: String| s@) + Seq::<Seq<char>>::empty() =~= themes@.map_values(|s: String| s@));
            return CliPlan { themes, outcome: Err(m), options: opts };
        }
        assert(rest.skip(1) =~= av.skip(i + 1));
        path = Some(args[i].clone());
        i = i + 1;
    }
    assert(av.skip(n as int) =~= Seq::<Seq<char>>::empty());
    assert(themes@.map_values(|s: String| s@) + Seq::<Seq<char>>::empty() =~= themes@.map_values(|s: String| s@));
    match path {
        Some(p) => CliPlan { themes, outcome: Ok(p), options: opts },
        None => CliPlan {
            themes,
            outcome: Err(AppError::input("usage: rslides [--theme <file>] <file.md>".to_owned())),
            options: opts,
        },
    }
}

} // verus!
