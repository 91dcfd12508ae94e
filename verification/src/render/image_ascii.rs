//! Images drawn with block characters: decoding through `image`, the shading of each
//! cell, the frame timing of animations, and the per-size cache of an image's frames.
use std::io::Cursor;
use std::time::Duration;

use image::codecs::gif::GifDecoder;
use image::imageops::FilterType;
use image::error::ImageFormatHint;
use image::{AnimationDecoder, DynamicImage, ImageError, ImageFormat, ImageReader, RgbaImage};
use vstd::prelude::*;

use crate::app::{extension, media_kind_for_path, media_kind_of, nanos_of, path_extension, MediaKind};
use crate::model::{AsciiFrame, AsciiFrameModel, ImageAsset, ImageAssetModel, strs};
use crate::strings::{chars_of, ends_with, lower_seq, push_chars, string_of, to_lower};

verus! {

/// The whole milliseconds of a duration.
pub open spec fn whole_millis(d: Duration) -> nat {
    nanos_of(d) / 1000000
}

/// `std::time::Duration`'s `as_millis`: the whole milliseconds of `d`.
#[verifier::external_body]
pub(crate) fn millis_of(d: &Duration) -> (r: u128)
    ensures
        r == whole_millis(*d),
{
    d.as_millis()
}

/// What decoding a picture file gives: the grey levels of its picture scaled to
/// `width` x `height` pixels, or the text of the decoding error. The format is taken
/// from the extension `ext`, as `image::open` takes it from a path.
pub uninterp spec fn file_luma(data: Seq<u8>, ext: Seq<char>, width: u16, height: u16) -> Result<
    Seq<u8>,
    Seq<char>,
>;

/// `image::ImageReader` on the bytes with the format of the extension `ext` (none for
/// an empty one, an unsupported-extension error for one `image` does not know, as
/// `image::open` does), `decode`, then `resize_exact` to `width` x `height` with the
/// triangle filter and `to_luma8().into_raw()`: the grey levels of the scaled picture,
/// row by row, one byte a pixel; or the `Display` text of the error.
#[verifier::external_body]
fn decoded_luma(bytes: &[u8], ext: &str, width: u16, height: u16) -> (r: Result<Vec<u8>, String>)
    ensures
        match r {
            Ok(v) => file_luma(bytes@, ext@, width, height) == Ok::<Seq<u8>, Seq<char>>(v@) && v@.len()
                == width * height,
            Err(t) => file_luma(bytes@, ext@, width, height) == Err::<Seq<u8>, Seq<char>>(t@),
        },
{
    let reader = match (ext.is_empty(), ImageFormat::from_extension(ext)) {
        (true, _) => ImageReader::new(Cursor::new(bytes)),
        (false, Some(f)) => ImageReader::with_format(Cursor::new(bytes), f),
        (false, None) => return Err(ImageError::Unsupported(ImageFormatHint::PathExtension(ext.into()).into()).to_string()),
    };
    match reader.decode() {
        Ok(img) => Ok(img.resize_exact(width as u32, height as u32, FilterType::Triangle).to_luma8().into_raw()),
        Err(e) => Err(e.to_string()),
    }
}

/// The grey levels of an RGBA picture of `src_width` x `src_height` pixels (four
/// bytes each, row by row) scaled to `width` x `height` with the triangle filter.
pub uninterp spec fn scaled_luma(src_width: u32, src_height: u32, rgba: Seq<u8>, width: u16, height: u16) -> Seq<u8>;

/// `RgbaImage::from_raw`, then `resize_exact` to the same size with the triangle
/// filter and `to_luma8().into_raw()`: `None` exactly when the buffer holds fewer than
/// four bytes for each of the `width` x `height` pixels.
#[verifier::external_body]
fn rgba_luma(width: u16, height: u16, rgba: Vec<u8>) -> (r: Option<Vec<u8>>)
    ensures
        r is Some <==> rgba@.len() >= 4 * width * height,
        r matches Some(v) ==> v@ == scaled_luma(width as u32, height as u32, rgba@, width, height)
            && v@.len() == width * height,
{
    match RgbaImage::from_raw(width as u32, height as u32, rgba) {
        Some(img) => Some(
            DynamicImage::ImageRgba8(img).resize_exact(width as u32, height as u32, FilterType::Triangle)
                .to_luma8().into_raw(),
        ),
        None => None,
    }
}

/// One decoded GIF frame: its grey levels scaled to the drawing size, and its delay
/// as a numerator and a denominator of milliseconds.
pub struct GifFrame {
    pub luma: Vec<u8>,
    pub delay_numer: u32,
    pub delay_denom: u32,
}

/// A decoded frame as plain values.
pub open spec fn gif_frame_model(f: GifFrame) -> (Seq<u8>, u32, u32) {
    (f.luma@, f.delay_numer, f.delay_denom)
}

pub open spec fn gif_frames_model(v: Seq<GifFrame>) -> Seq<(Seq<u8>, u32, u32)> {
    v.map_values(|f: GifFrame| gif_frame_model(f))
}

/// What decoding a GIF gives at `width` x `height`: each frame's grey levels (its RGBA
/// buffer scaled with the triangle filter) and its delay, or the text of the error,
/// with `true` when the decoder could not be created.
pub uninterp spec fn gif_decode(bytes: Seq<u8>, width: u16, height: u16) -> Result<
    Seq<(Seq<u8>, u32, u32)>,
    (bool, Seq<char>),
>;

/// `GifDecoder::new` on the bytes, `into_frames().collect_frames()`, then for each frame
/// `delay().numer_denom_ms()` and its buffer scaled with `resize_exact` (triangle
/// filter) and `to_luma8().into_raw()`. An error of either decoding step is returned
/// as its `Display` text, with `true` when it came from `GifDecoder::new`.
#[verifier::external_body]
fn decode_gif(bytes: &[u8], width: u16, height: u16) -> (r: Result<Vec<GifFrame>, (bool, String)>)
    ensures
        match r {
            Ok(v) => gif_decode(bytes@, width, height) == Ok::<Seq<(Seq<u8>, u32, u32)>, (bool, Seq<char>)>(
                gif_frames_model(v@),
            ) && forall|i: int| 0 <= i < v@.len() ==> (#[trigger] v@[i]).luma@.len() == width * height,
            Err((b, t)) => gif_decode(bytes@, width, height) == Err::<Seq<(Seq<u8>, u32, u32)>, (bool, Seq<char>)>(
                (b, t@),
            ),
        },
{
    let decoder = GifDecoder::new(Cursor::new(bytes)).map_err(|e| (true, e.to_string()))?;
    let frames = decoder.into_frames().collect_frames().map_err(|e| (false, e.to_string()))?;
    Ok(frames.into_iter().map(|f| {
        let (delay_numer, delay_denom) = f.delay().numer_denom_ms();
        let img = DynamicImage::ImageRgba8(f.into_buffer());
        let luma = img.resize_exact(width as u32, height as u32, FilterType::Triangle).to_luma8().into_raw();
        GifFrame { luma, delay_numer, delay_denom }
    }).collect())
}

/// The shade of a grey level: the darker, the denser.
pub open spec fn shade(value: u8) -> char {
    if value <= 63 {
        '█'
    } else if value <= 127 {
        '▓'
    } else if value <= 191 {
        '▒'
    } else {
        '░'
    }
}

pub fn luma_to_ascii(value: u8) -> (c: char)
    ensures
        c == shade(value),
{
    if value <= 63 {
        '█'
    } else if value <= 127 {
        '▓'
    } else if value <= 191 {
        '▒'
    } else {
        '░'
    }
}

/// The time a frame shows at `fps` frames a second: `1000 / fps` milliseconds (a
/// rate of 0 counts as 1), at least 16.
pub open spec fn interval_ms(fps: u16) -> u16 {
    let f = if fps >= 1 {
        fps
    } else {
        1
    };
    let ms = (1000u16 / f) as u16;
    if ms >= 16 {
        ms
    } else {
        16
    }
}

pub fn frame_interval_ms(fps: u16) -> (r: u16)
    ensures
        r == interval_ms(fps),
{
    let f = if fps >= 1 {
        fps
    } else {
        1
    };
    let ms = 1000u16 / f;
    if ms >= 16 {
        ms
    } else {
        16
    }
}

/// The delay of a GIF frame: its milliseconds (numerator over denominator, the
/// numerator alone when the denominator is 0), between the frame interval of `fps`
/// and one second.
pub open spec fn gif_delay(numer: u32, denom: u32, fps: u16) -> u16 {
    let raw: int = if denom == 0 {
        numer as int
    } else {
        (numer / denom) as int
    };
    let lo = interval_ms(fps) as int;
    (if raw < lo {
        lo
    } else if raw > 1000 {
        1000
    } else {
        raw
    }) as u16
}

pub fn gif_delay_ms(numer: u32, denom: u32, fps: u16) -> (r: u16)
    ensures
        r == gif_delay(numer, denom, fps),
{
    let raw = if denom == 0 {
        numer
    } else {
        numer / denom
    };
    let lo = frame_interval_ms(fps) as u32;
    let c = if raw < lo {
        lo
    } else if raw > 1000 {
        1000
    } else {
        raw
    };
    c as u16
}

/// A frame of `width` x `height` cells from grey levels given row by row.
pub open spec fn frame_of_luma(luma: Seq<u8>, width: nat, height: nat) -> AsciiFrameModel {
    AsciiFrameModel {
        lines: Seq::new(height, |y: int| Seq::new(width, |x: int| shade(luma[y * width + x]))),
        width: width as u16,
        height: height as u16,
    }
}

pub fn luma_frame(luma: &Vec<u8>, width: u16, height: u16) -> (r: AsciiFrame)
    requires
        luma@.len() == width * height,
    ensures
        r@ == frame_of_luma(luma@, width as nat, height as nat),
{
    let mut lines: Vec<String> = Vec::new();
    let w = width as usize;
    let n = luma.len();
    let mut y: usize = 0;
    while y < height as usize
        invariant
            y <= height,
            w == width,
            n == luma@.len(),
            luma@.len() == width * height,
            strs(lines@) =~= Seq::new(
                y as nat,
                |yy: int| Seq::new(width as nat, |x: int| shade(luma@[yy * width + x])),
            ),
        decreases height - y,
    {
        let mut line: Vec<char> = Vec::new();
        let mut x: usize = 0;
        while x < w
            invariant
                x <= w,
                w == width,
                y < height,
                n == luma@.len(),
                luma@.len() == width * height,
                line@ =~= Seq::new(x as nat, |xx: int| shade(luma@[y * width + xx])),
            decreases w - x,
        {
            assert(y * w + x < width * height) by (nonlinear_arith)
                requires
                    y < height,
                    x < w,
                    w == width,
            ;
            assert(y * w <= y * w + x);
            let idx = y * w + x;
            line.push(luma_to_ascii(luma[idx]));
            x = x + 1;
        }
        let s = string_of(&line);
        let ghost before = lines@;
        lines.push(s);
        assert(strs(lines@) =~= strs(before).push(s@));
        y = y + 1;
    }
    AsciiFrame { lines, width, height }
}

pub open spec fn frames_model(v: Seq<AsciiFrame>) -> Seq<AsciiFrameModel> {
    v.map_values(|f: AsciiFrame| f@)
}

/// `delay` as it counts: at least 1 millisecond.
pub open spec fn delay_of(d: u16) -> nat {
    if d >= 1 {
        d as nat
    } else {
        1
    }
}

pub open spec fn delays_total(ds: Seq<u16>) -> nat
    decreases ds.len(),
{
    if ds.len() == 0 {
        0
    } else {
        delays_total(ds.drop_last()) + delay_of(ds.last())
    }
}

/// The index of the delay that the time `c` falls in.
pub open spec fn delay_slot(ds: Seq<u16>, c: nat) -> Option<nat>
    decreases ds.len(),
{
    if ds.len() == 0 {
        None
    } else if c < delay_of(ds[0]) {
        Some(0)
    } else {
        match delay_slot(ds.drop_first(), (c - delay_of(ds[0])) as nat) {
            Some(k) => Some(k + 1),
            None => None,
        }
    }
}

/// The frame shown `ms` milliseconds into an animation that loops: a still image
/// shows its one frame; with no delays the first frame shows; an index past the
/// frames shows nothing.
pub open spec fn frame_at(frames: nat, delays: Seq<u16>, ms: nat) -> Option<nat> {
    if frames == 0 {
        None
    } else if frames == 1 {
        Some(0)
    } else if delays_total(delays) == 0 {
        Some(0)
    } else {
        match delay_slot(delays, ms % delays_total(delays)) {
            Some(k) => if k < frames {
                Some(k)
            } else {
                None
            },
            None => Some(0),
        }
    }
}

proof fn lemma_slot_step(ds: Seq<u16>, i: int, c: nat)
    requires
        0 <= i < ds.len(),
    ensures
        delay_slot(ds.skip(i), c) == (if c < delay_of(ds[i]) {
            Some(0nat)
        } else {
            match delay_slot(ds.skip(i + 1), (c - delay_of(ds[i])) as nat) {
                Some(k) => Some(k + 1),
                None => None,
            }
        }),
{
    assert(ds.skip(i).drop_first() =~= ds.skip(i + 1));
}

proof fn lemma_total_bound(ds: Seq<u16>)
    ensures
        delays_total(ds) <= 65535 * ds.len(),
    decreases ds.len(),
{
    if ds.len() > 0 {
        lemma_total_bound(ds.drop_last());
    }
}

/// The frame index `frame_at` gives for an image `ms` milliseconds into its slide.
pub fn frame_index_at(asset: &ImageAsset, ms: u128) -> (r: Option<usize>)
    ensures
        match r {
            Some(k) => frame_at(asset.frames@.len(), asset.delays_ms@, ms as nat) == Some(k as nat),
            None => frame_at(asset.frames@.len(), asset.delays_ms@, ms as nat) is None,
        },
{
    let ds = &asset.delays_ms;
    if asset.frames.len() == 0 {
        return None;
    }
    if asset.frames.len() == 1 {
        return Some(0);
    }
    let mut total: u128 = 0;
    let n = ds.len();
    let mut i: usize = 0;
    proof { lemma_total_bound(ds@); }
    assert(ds@.take(0) =~= Seq::<u16>::empty());
    while i < ds.len()
        invariant
            i <= ds@.len(),
            total == delays_total(ds@.take(i as int)),
            delays_total(ds@) <= 65535 * ds@.len(),
            n == ds@.len(),
        decreases ds@.len() - i,
    {
        assert(ds@.take(i + 1).drop_last() =~= ds@.take(i as int));
        proof { lemma_total_bound(ds@.take(i + 1)); }
        let d: u128 = if ds[i] >= 1 {
            ds[i] as u128
        } else {
            1
        };
        total = total + d;
        i = i + 1;
    }
    assert(ds@.take(ds@.len() as int) =~= ds@);
    if total == 0 {
        return Some(0);
    }
    let mut cursor: u128 = ms % total;
    let ghost c0 = cursor as nat;
    let mut j: usize = 0;
    assert(ds@.skip(0) =~= ds@);
    while j < ds.len()
        invariant
            j <= ds@.len(),
            total == delays_total(ds@),
            total > 0,
            asset.frames@.len() >= 2,
            ds == &asset.delays_ms,
            c0 == (ms as nat) % (total as nat),
            match delay_slot(ds@.skip(j as int), cursor as nat) {
                Some(k) => delay_slot(ds@, c0) == Some((k + j) as nat),
                None => delay_slot(ds@, c0) is None,
            },
        decreases ds@.len() - j,
    {
        let d: u128 = if ds[j] >= 1 {
            ds[j] as u128
        } else {
            1
        };
        proof { lemma_slot_step(ds@, j as int, cursor as nat); }
        if cursor < d {
            assert(delay_slot(ds@, c0) == Some(j as nat));
            if j < asset.frames.len() {
                return Some(j);
            } else {
                return None;
            }
        }
        cursor = cursor - d;
        j = j + 1;
    }
    proof {
        assert(ds@.skip(ds@.len() as int) =~= Seq::<u16>::empty());
    }
    Some(0)
}

/// The frame of an image shown `elapsed` into its slide: the one that `frame_at` picks
/// for the whole milliseconds of `elapsed`.
pub fn current_frame(asset: &ImageAsset, elapsed: Duration) -> (r: Option<&AsciiFrame>)
    ensures
        match frame_at(asset.frames@.len(), asset.delays_ms@, whole_millis(elapsed)) {
            Some(k) => r matches Some(f) && k < asset.frames@.len() && f@ == asset.frames@[k as int]@,
            None => r is None,
        },
{
    let ms = millis_of(&elapsed);
    match frame_index_at(asset, ms) {
        Some(k) => {
            if k < asset.frames.len() {
                Some(&asset.frames[k])
            } else {
                None
            }
        },
        None => None,
    }
}

/// Whether an image must be loaded for an area of `width` x `height`: the area is not
/// empty and the frames (or the error) kept are not for that size.
pub open spec fn needs_load(a: ImageAssetModel, width: u16, height: u16) -> bool {
    width > 0 && height > 0 && !(a.cached_for == Some((width, height)) && (a.frames.len() > 0
        || a.load_error is Some))
}

pub fn ascii_frames_needed(asset: &ImageAsset, width: u16, height: u16) -> (r: bool)
    ensures
        r == needs_load(asset@, width, height),
{
    if width == 0 || height == 0 {
        return false;
    }
    let cached = match asset.cached_for {
        Some((w, h)) => w == width && h == height,
        None => false,
    };
    !(cached && (asset.frames.len() > 0 || asset.load_error.is_some()))
}

pub open spec fn loaded_model(r: Result<(Vec<AsciiFrame>, Vec<u16>), String>) -> Result<
    (Seq<AsciiFrameModel>, Seq<u16>),
    Seq<char>,
> {
    match r {
        Ok((f, d)) => Ok((frames_model(f@), d@)),
        Err(e) => Err(e@),
    }
}

/// An image after making sure it has frames for an area of `width` x `height`: an
/// empty area is an error; frames kept for that size stay; else what was loaded (the
/// frames and their delays, or the error) is kept for that size.
pub open spec fn after_ensure(
    a: ImageAssetModel,
    width: u16,
    height: u16,
    loaded: Result<(Seq<AsciiFrameModel>, Seq<u16>), Seq<char>>,
) -> ImageAssetModel {
    if width == 0 || height == 0 {
        ImageAssetModel { load_error: Some("image area is too small"@), ..a }
    } else if !needs_load(a, width, height) {
        a
    } else {
        match loaded {
            Ok((f, d)) => ImageAssetModel {
                frames: f,
                delays_ms: d,
                load_error: None,
                cached_for: Some((width, height)),
                ..a
            },
            Err(e) => ImageAssetModel {
                frames: seq![],
                delays_ms: seq![],
                load_error: Some(e),
                cached_for: Some((width, height)),
                ..a
            },
        }
    }
}

/// Keeps the frames of `asset` for an area of `width` x `height`. `loaded` is what
/// loading the image at that size gave; it is used only when `ascii_frames_needed`
/// says so, so a caller loads the image only then.
pub fn ensure_ascii_frames(
    asset: &mut ImageAsset,
    width: u16,
    height: u16,
    loaded: Result<(Vec<AsciiFrame>, Vec<u16>), String>,
)
    ensures
        final(asset)@ == after_ensure(old(asset)@, width, height, loaded_model(loaded)),
{
    if width == 0 || height == 0 {
        asset.load_error = Some("image area is too small".to_owned());
        return;
    }
    if !ascii_frames_needed(asset, width, height) {
        return;
    }
    asset.frames.clear();
    asset.delays_ms.clear();
    asset.load_error = None;
    match loaded {
        Ok((frames, delays)) => {
            asset.frames = frames;
            asset.delays_ms = delays;
        },
        Err(err) => {
            asset.load_error = Some(err);
        },
    }
    asset.cached_for = Some((width, height));
    assert(asset@.frames =~= after_ensure(old(asset)@, width, height, loaded_model(loaded)).frames);
}

/// `prefix (path): detail` style messages.
fn message(prefix: &str, path: &str, middle: &str, detail: &str) -> (r: String)
    ensures
        r@ == prefix@ + path@ + middle@ + detail@,
{
    proof {
        reveal_strlit("");
    }
    let mut v = chars_of(prefix);
    push_chars(&mut v, &chars_of(path));
    push_chars(&mut v, &chars_of(middle));
    push_chars(&mut v, &chars_of(detail));
    string_of(&v)
}

/// What loading a still picture gives: its one frame, shown for the frame interval of
/// `fps`, or the decoding error.
pub open spec fn still_result(path: Seq<char>, decoded: Result<Seq<u8>, Seq<char>>, width: u16, height: u16, fps: u16) -> Result<
    (Seq<AsciiFrameModel>, Seq<u16>),
    Seq<char>,
> {
    match decoded {
        Ok(l) => Ok((seq![frame_of_luma(l, width as nat, height as nat)], seq![interval_ms(fps)])),
        Err(t) => Err("image decode failed ("@ + path + "): "@ + t),
    }
}

/// What loading an SVG drawn as `rgba` gives: its one frame, or an error when the
/// pixels are fewer than `width` x `height`.
pub open spec fn svg_result(path: Seq<char>, rgba: Seq<u8>, width: u16, height: u16, fps: u16) -> Result<
    (Seq<AsciiFrameModel>, Seq<u16>),
    Seq<char>,
> {
    if rgba.len() >= 4 * width * height {
        Ok(
            (
                seq![frame_of_luma(scaled_luma(width as u32, height as u32, rgba, width, height), width as nat, height as nat)],
                seq![interval_ms(fps)],
            ),
        )
    } else {
        Err("failed to materialize svg pixels ("@ + path + ")"@)
    }
}

/// The block-character frames of decoded GIF frames, each with its own delay (see
/// `gif_delay`).
pub open spec fn gif_ascii(frames: Seq<(Seq<u8>, u32, u32)>, width: u16, height: u16, fps: u16) -> (
    Seq<AsciiFrameModel>,
    Seq<u16>,
) {
    (
        Seq::new(frames.len(), |i: int| frame_of_luma(frames[i].0, width as nat, height as nat)),
        Seq::new(frames.len(), |i: int| gif_delay(frames[i].1, frames[i].2, fps)),
    )
}

/// What loading a GIF gives from what decoding it gave.
pub open spec fn gif_result(
    path: Seq<char>,
    decoded: Result<Seq<(Seq<u8>, u32, u32)>, (bool, Seq<char>)>,
    width: u16,
    height: u16,
    fps: u16,
) -> Result<(Seq<AsciiFrameModel>, Seq<u16>), Seq<char>> {
    match decoded {
        Err((true, t)) => Err("failed to create gif decoder ("@ + path + "): "@ + t),
        Err((false, t)) => Err("failed to decode gif frames ("@ + path + "): "@ + t),
        Ok(fs) => if fs.len() == 0 {
            Err("gif has no frames ("@ + path + ")"@)
        } else {
            Ok(gif_ascii(fs, width, height, fps))
        },
    }
}

/// What loading the file at `path` gives, by its kind.
pub open spec fn load_result(path: Seq<char>, data: Seq<u8>, width: u16, height: u16, fps: u16) -> Result<
    (Seq<AsciiFrameModel>, Seq<u16>),
    Seq<char>,
> {
    match media_kind_of(path) {
        MediaKind::Video => Err("video files are not supported ("@ + path + ")."@),
        MediaKind::Gif => gif_result(path, gif_decode(data, width, height), width, height, fps),
        MediaKind::Svg => svg_result(path, data, width, height, fps),
        MediaKind::StaticImage => still_result(path, file_luma(data, path_extension(path), width, height), width, height, fps),
    }
}

/// The frames of an image file at `width` x `height` cells, by the kind of its
/// path: a GIF gives one frame per GIF frame, a video is refused, and any other file
/// gives one frame shown for the frame interval of `fps`. `data` is the file's
/// contents; for an SVG it is the picture drawn at `width` x `height` pixels, four
/// bytes a pixel (the caller draws it).
pub fn load_ascii_frames(path: &str, data: &[u8], width: u16, height: u16, fps: u16) -> (r: Result<
    (Vec<AsciiFrame>, Vec<u16>),
    String,
>)
    ensures
        loaded_model(r) == load_result(path@, data@, width, height, fps),
{
    proof {
        reveal_strlit("");
    }
    match media_kind_for_path(path) {
        MediaKind::Gif => load_gif_ascii_frames(path, data, width, height, fps),
        MediaKind::Video => Err(message("video files are not supported (", path, ").", "")),
        MediaKind::Svg => svg_ascii_frame(path, data, width, height, fps),
        MediaKind::StaticImage => {
            let ext = extension(path);
            match decoded_luma(data, ext.as_str(), width, height) {
                Ok(luma) => {
                    let mut frames: Vec<AsciiFrame> = Vec::new();
                    let fr = luma_frame(&luma, width, height);
                    frames.push(fr);
                    let mut delays: Vec<u16> = Vec::new();
                    delays.push(frame_interval_ms(fps));
                    assert(delays@ =~= seq![interval_ms(fps)]);
                    assert(frames_model(frames@) =~= seq![fr@]);
                    Ok((frames, delays))
                },
                Err(t) => Err(message("image decode failed (", path, "): ", t.as_str())),
            }
        },
    }
}

/// The one frame of an SVG picture drawn at `width` x `height` pixels.
pub fn svg_ascii_frame(path: &str, rgba: &[u8], width: u16, height: u16, fps: u16) -> (r: Result<
    (Vec<AsciiFrame>, Vec<u16>),
    String,
>)
    ensures
        loaded_model(r) == svg_result(path@, rgba@, width, height, fps),
{
    proof {
        reveal_strlit("");
    }
    let mut pixels: Vec<u8> = Vec::new();
    let mut i: usize = 0;
    while i < rgba.len()
        invariant
            i <= rgba@.len(),
            pixels@ == rgba@.take(i as int),
        decreases rgba@.len() - i,
    {
        pixels.push(rgba[i]);
        assert(rgba@.take(i + 1) =~= rgba@.take(i as int).push(rgba@[i as int]));
        i = i + 1;
    }
    assert(pixels@ =~= rgba@);
    match rgba_luma(width, height, pixels) {
        Some(luma) => {
            let mut frames: Vec<AsciiFrame> = Vec::new();
            let fr = luma_frame(&luma, width, height);
            frames.push(fr);
            let mut delays: Vec<u16> = Vec::new();
            delays.push(frame_interval_ms(fps));
            assert(delays@ =~= seq![interval_ms(fps)]);
            assert(frames_model(frames@) =~= seq![fr@]);
            Ok((frames, delays))
        },
        None => Err(message("failed to materialize svg pixels (", path, ")", "")),
    }
}

/// The block-character frames of decoded GIF frames, one for each, each shown for its
/// own delay (see `gif_delay`); an error when there is no frame.
pub fn ascii_gif_frames(frames: &Vec<GifFrame>, path: &str, width: u16, height: u16, fps: u16) -> (r: Result<
    (Vec<AsciiFrame>, Vec<u16>),
    String,
>)
    requires
        forall|i: int| 0 <= i < frames@.len() ==> (#[trigger] frames@[i]).luma@.len() == width * height,
    ensures
        loaded_model(r) == gif_result(path@, Ok(gif_frames_model(frames@)), width, height, fps),
{
    proof {
        reveal_strlit("");
    }
    if frames.len() == 0 {
        return Err(message("gif has no frames (", path, ")", ""));
    }
    let ghost target = gif_ascii(gif_frames_model(frames@), width, height, fps);
    let mut out: Vec<AsciiFrame> = Vec::new();
    let mut delays: Vec<u16> = Vec::new();
    let mut i: usize = 0;
    while i < frames.len()
        invariant
            i <= frames@.len(),
            frames@.len() > 0,
            forall|j: int| 0 <= j < frames@.len() ==> (#[trigger] frames@[j]).luma@.len() == width * height,
            target == gif_ascii(gif_frames_model(frames@), width, height, fps),
            frames_model(out@) == target.0.take(i as int),
            delays@ == target.1.take(i as int),
        decreases frames@.len() - i,
    {
        let f = &frames[i];
        let delay = gif_delay_ms(f.delay_numer, f.delay_denom, fps);
        let fr = luma_frame(&f.luma, width, height);
        let ghost (out0, delays0) = (out@, delays@);
        out.push(fr);
        delays.push(delay);
        assert(gif_frames_model(frames@)[i as int] == gif_frame_model(frames@[i as int]));
        assert(frames_model(out@) =~= frames_model(out0).push(fr@));
        assert(frames_model(out@) =~= target.0.take(i + 1));
        assert(delays@ =~= target.1.take(i + 1));
        i = i + 1;
    }
    assert(target.0.take(frames@.len() as int) =~= target.0);
    assert(target.1.take(frames@.len() as int) =~= target.1);
    let r: Result<(Vec<AsciiFrame>, Vec<u16>), String> = Ok((out, delays));
    assert(loaded_model(r) == Ok::<(Seq<AsciiFrameModel>, Seq<u16>), Seq<char>>(target));
    r
}

/// The frames of a GIF file (see `ascii_gif_frames`); an error names the step of
/// decoding that failed.
pub fn load_gif_ascii_frames(path: &str, bytes: &[u8], width: u16, height: u16, fps: u16) -> (r:
    Result<(Vec<AsciiFrame>, Vec<u16>), String>)
    ensures
        loaded_model(r) == gif_result(path@, gif_decode(bytes@, width, height), width, height, fps),
{
    match decode_gif(bytes, width, height) {
        Err((true, t)) => Err(message("failed to create gif decoder (", path, "): ", t.as_str())),
        Err((false, t)) => Err(message("failed to decode gif frames (", path, "): ", t.as_str())),
        Ok(frames) => ascii_gif_frames(&frames, path, width, height, fps),
    }
}

/// An animation loops: one full round of its delays later, the same frame shows.
pub proof fn lemma_animation_loops(frames: nat, delays: Seq<u16>, ms: nat)
    ensures
        frame_at(frames, delays, ms + delays_total(delays)) == frame_at(frames, delays, ms),
{
    let t = delays_total(delays);
    if t > 0 {
        vstd::arithmetic::div_mod::lemma_mod_add_multiples_vanish(ms as int, t as int);
    }
}

/// Keeping the frames twice for one size loads once: once frames or an error are kept
/// for a size, a second call keeps them, whatever it is handed.
pub proof fn lemma_ensure_is_idempotent(
    a: ImageAssetModel,
    width: u16,
    height: u16,
    l1: Result<(Seq<AsciiFrameModel>, Seq<u16>), Seq<char>>,
    l2: Result<(Seq<AsciiFrameModel>, Seq<u16>), Seq<char>>,
)
    requires
        width > 0,
        height > 0,
        l1 matches Ok((f, _)) ==> f.len() > 0,
    ensures
        after_ensure(after_ensure(a, width, height, l1), width, height, l2) == after_ensure(
            a,
            width,
            height,
            l1,
        ),
        !needs_load(after_ensure(a, width, height, l1), width, height),
{
}

} // verus!
