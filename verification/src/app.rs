//! Navigation state of a running presentation, and the decisions of the terminal
//! front end that do not need the terminal itself.
use std::time::{Duration, Instant};

use vstd::prelude::*;
use vstd::string::StringSliceAdditionalSpecFns;

use crate::model::{copy_ratios, opt_str, strs, ImageAsset, ImageMode, Presentation, Slide, SlideModel, VerticalAlign};
use crate::render::style::{dec, push_dec, Theme};
use crate::strings::{
    chars_of, eq_chars, find, find_chars, lower_seq, push_chars, string_of, to_lower, trim, trim_chars,
};

verus! {

/// `std::time::Instant`, a reading of the monotonic clock.
#[verifier::external_type_specification]
#[verifier::external_body]
pub struct ExInstant(Instant);

/// `std`'s `Instant::now`: a reading of the clock; nothing is promised of its value.
#[verifier::external_body]
fn instant_now() -> Instant {
    Instant::now()
}

/// `std`'s `Instant::elapsed`: the time since `start`; nothing is promised of its value.
#[verifier::external_body]
fn instant_elapsed(start: &Instant) -> Duration {
    start.elapsed()
}

/// `std`'s `Instant::saturating_duration_since`; nothing is promised of its value.
#[verifier::external_body]
fn saturating_since(now: &Instant, earlier: &Instant) -> Duration {
    now.saturating_duration_since(*earlier)
}

/// The whole nanoseconds of a duration, as `Duration::as_nanos` gives them.
pub uninterp spec fn nanos_of(d: Duration) -> nat;

/// The nanoseconds of `Duration::MAX`: `u64::MAX` seconds and 999,999,999
/// nanoseconds.
pub open spec fn max_duration_nanos() -> nat {
    18446744073709551615 * 1000000000 + 999999999
}

/// `n` nanoseconds, or those of `Duration::MAX` where `n` is more.
pub open spec fn capped_nanos(n: nat) -> nat {
    if n <= max_duration_nanos() {
        n
    } else {
        max_duration_nanos()
    }
}

/// A clock of `start` nanoseconds moved on by `delta`, saturating.
pub open spec fn clock_advance(start: nat, delta: nat) -> nat {
    capped_nanos(start + delta)
}

/// `std`'s `Duration::saturating_add`: the sum of the two durations, or
/// `Duration::MAX` where the sum overflows.
#[verifier::external_body]
fn duration_saturating_add(a: Duration, b: Duration) -> (r: Duration)
    ensures
        nanos_of(r) == capped_nanos(nanos_of(a) + nanos_of(b)),
{
    a.saturating_add(b)
}

/// `std`'s `Duration::from_millis`: a duration of `ms` milliseconds.
#[verifier::external_body]
fn duration_from_millis(ms: u64) -> (r: Duration)
    ensures
        nanos_of(r) == ms * 1000000,
{
    Duration::from_millis(ms)
}

/// `std`'s `Duration::as_nanos`: the whole nanoseconds of `d`.
#[verifier::external_body]
fn duration_nanos(d: &Duration) -> (r: u128)
    ensures
        r == nanos_of(*d),
{
    d.as_nanos()
}

/// How long the fade-in of a new slide lasts, in milliseconds.
pub const TRANSITION_MS: u64 = 260;

/// How many fade steps a transition has.
pub const TRANSITION_STEPS: usize = 12;

#[derive(Debug)]
pub struct AppState {
    pub current_slide: usize,
    pub total_slides: usize,
    pub terminal_size: (u16, u16),
    pub no_ansi: bool,
    pub fps: u16,
    slide_started: Instant,
    transition_started: Option<Instant>,
    anim_elapsed: Duration,
    anim_last_tick: Instant,
    revealed_blocks: usize,
}

/// The navigation part of the state: the slide shown and how many of its blocks a
/// reveal slide shows.
pub struct NavModel {
    pub current: nat,
    pub total: nat,
    pub revealed: nat,
}

/// `max(len, 1)`: a slide always counts at least one block.
pub open spec fn block_count(len: nat) -> nat {
    if len >= 1 {
        len
    } else {
        1
    }
}

pub open spec fn slide_reveals(p: Presentation, i: int) -> bool {
    0 <= i < p.slides@.len() && p.slides@[i].reveal_fragments
}

pub open spec fn slide_blocks(p: Presentation, i: int) -> nat {
    block_count(p.slides@[i].blocks@.len())
}

/// The reveal count on arriving at slide `i`: all blocks when coming back (`full`) or
/// when the slide reveals nothing, else one.
pub open spec fn arrival_reveal(p: Presentation, i: int, full: bool, revealed: nat) -> nat {
    if 0 <= i < p.slides@.len() {
        if p.slides@[i].reveal_fragments && !full {
            1
        } else {
            slide_blocks(p, i)
        }
    } else {
        revealed
    }
}

/// Next: reveal one more block, else move one slide on (if there is one).
pub open spec fn next_nav(n: NavModel, p: Presentation) -> (NavModel, bool) {
    if slide_reveals(p, n.current as int) && n.revealed < slide_blocks(p, n.current as int) {
        (NavModel { revealed: n.revealed + 1, ..n }, true)
    } else if n.current + 1 >= n.total {
        (n, false)
    } else {
        let c = n.current + 1;
        (NavModel { current: c, revealed: arrival_reveal(p, c as int, false, n.revealed), ..n }, true)
    }
}

/// Previous: hide the last revealed block, else move one slide back (if there is one)
/// with all its blocks shown.
pub open spec fn prev_nav(n: NavModel, p: Presentation) -> (NavModel, bool) {
    if slide_reveals(p, n.current as int) && n.revealed > 1 {
        (NavModel { revealed: (n.revealed - 1) as nat, ..n }, true)
    } else if n.current == 0 {
        (n, false)
    } else {
        let c = (n.current - 1) as nat;
        (NavModel { current: c, revealed: arrival_reveal(p, c as int, true, n.revealed), ..n }, true)
    }
}

/// The blocks shown of the current slide: `None` for a slide that reveals nothing.
pub open spec fn visible_blocks(n: NavModel, p: Presentation) -> Option<nat> {
    if slide_reveals(p, n.current as int) {
        Some(
            if n.revealed <= slide_blocks(p, n.current as int) {
                n.revealed
            } else {
                slide_blocks(p, n.current as int)
            },
        )
    } else {
        None
    }
}

/// A state that belongs to the presentation: one slide per count, the current one
/// among them, and a reveal count within the current slide's blocks.
pub open spec fn nav_valid(n: NavModel, p: Presentation) -> bool {
    &&& n.total == p.slides@.len()
    &&& n.current < n.total
    &&& 1 <= n.revealed
    &&& slide_reveals(p, n.current as int) ==> n.revealed <= slide_blocks(p, n.current as int)
}

/// What the contracts say of a state: its public fields, the reveal count and whether
/// a transition is running.
pub struct AppStateModel {
    pub current_slide: usize,
    pub total_slides: usize,
    pub terminal_size: (u16, u16),
    pub no_ansi: bool,
    pub fps: u16,
    pub revealed: usize,
    pub transition_pending: bool,
}

impl View for AppState {
    type V = AppStateModel;

    closed spec fn view(&self) -> AppStateModel {
        AppStateModel {
            current_slide: self.current_slide,
            total_slides: self.total_slides,
            terminal_size: self.terminal_size,
            no_ansi: self.no_ansi,
            fps: self.fps,
            revealed: self.revealed_blocks,
            transition_pending: self.transition_started is Some,
        }
    }
}

pub open spec fn nav_of(m: AppStateModel) -> NavModel {
    NavModel {
        current: m.current_slide as nat,
        total: m.total_slides as nat,
        revealed: m.revealed as nat,
    }
}

pub open spec fn opt_nat(o: Option<usize>) -> Option<nat> {
    match o {
        Some(v) => Some(v as nat),
        None => None,
    }
}

/// The fields that a navigation step leaves alone.
pub open spec fn same_settings(a: AppStateModel, b: AppStateModel) -> bool {
    &&& a.total_slides == b.total_slides
    &&& a.terminal_size == b.terminal_size
    &&& a.no_ansi == b.no_ansi
    &&& a.fps == b.fps
}

impl AppState {
    pub fn new(total_slides: usize, no_ansi: bool, terminal_size: (u16, u16), fps: u16) -> (r: Self)
        ensures
            r@ == (AppStateModel {
                current_slide: 0usize,
                total_slides,
                terminal_size,
                no_ansi,
                fps,
                revealed: 1,
                transition_pending: true,
            }),
            nanos_of(r.elapsed()) == 0,
    {
        let now = instant_now();
        AppState {
            current_slide: 0,
            total_slides,
            terminal_size,
            no_ansi,
            fps,
            slide_started: now,
            transition_started: Some(instant_now()),
            anim_elapsed: duration_from_millis(0),
            anim_last_tick: instant_now(),
            revealed_blocks: 1,
        }
    }

    pub fn set_terminal_size(&mut self, width: u16, height: u16)
        ensures
            final(self)@ == (AppStateModel { terminal_size: (width, height), ..old(self)@ }),
            final(self).elapsed() == old(self).elapsed(),
    {
        self.terminal_size = (width, height);
    }

    pub closed spec fn elapsed(&self) -> Duration {
        self.anim_elapsed
    }

    /// Time spent on the current slide, as the animation clock counts it.
    pub fn slide_elapsed(&self) -> (r: Duration)
        ensures
            r == self.elapsed(),
    {
        self.anim_elapsed
    }

    /// The 1-based number of the current slide and the number of slides.
    pub fn slide_counter(&self) -> (r: (usize, usize))
        requires
            self@.current_slide < usize::MAX,
        ensures
            r.0 == self@.current_slide + 1,
            r.1 == self@.total_slides,
    {
        (self.current_slide + 1, self.total_slides)
    }


    /// Whether a transition is running and still within its time.
    pub fn is_transition_active(&self) -> (r: bool)
        ensures
            r ==> self@.transition_pending,
    {
        match &self.transition_started {
            Some(start) => {
                let elapsed = duration_nanos(&instant_elapsed(start));
                elapsed < TRANSITION_MS as u128 * 1_000_000
            },
            None => false,
        }
    }

    /// Adds the time since the last tick to the animation clock (saturating at
    /// `Duration::MAX`); how much time that is, the clock decides.
    pub fn tick_animation(&mut self)
        ensures
            final(self)@ == old(self)@,
            exists|delta: nat|
                #[trigger] clock_advance(nanos_of(old(self).elapsed()), delta) == nanos_of(final(self).elapsed()),
            nanos_of(final(self).elapsed()) <= max_duration_nanos(),
            nanos_of(old(self).elapsed()) <= max_duration_nanos() ==> nanos_of(old(self).elapsed()) <= nanos_of(
                final(self).elapsed(),
            ),
    {
        let now = instant_now();
        let delta = saturating_since(&now, &self.anim_last_tick);
        self.anim_last_tick = now;
        self.anim_elapsed = duration_saturating_add(self.anim_elapsed, delta);
        assert(clock_advance(nanos_of(old(self).elapsed()), nanos_of(delta)) == nanos_of(self.elapsed()));
    }

    /// Restarts the slide clock, the animation clock and the transition.
    fn reset_slide_timers(&mut self)
        ensures
            final(self)@ == (AppStateModel { transition_pending: true, ..old(self)@ }),
            nanos_of(final(self).elapsed()) == 0,
    {
        self.slide_started = instant_now();
        self.transition_started = Some(instant_now());
        self.anim_elapsed = duration_from_millis(0);
        self.anim_last_tick = instant_now();
    }

    /// Sets the reveal count for arriving at the current slide: all of its blocks when
    /// `full` or when it reveals nothing, else one.
    pub fn reset_reveal_for_slide(&mut self, presentation: &Presentation, full: bool)
        ensures
            final(self)@ == (AppStateModel { revealed: final(self)@.revealed, ..old(self)@ }),
            final(self)@.revealed as nat == arrival_reveal(
                *presentation,
                old(self)@.current_slide as int,
                full,
                old(self)@.revealed as nat,
            ),
            old(self)@.revealed >= 1 ==> final(self)@.revealed >= 1,
            final(self).elapsed() == old(self).elapsed(),
    {
        if self.current_slide < presentation.slides.len() {
            let slide = &presentation.slides[self.current_slide];
            let n = if slide.blocks.len() >= 1 {
                slide.blocks.len()
            } else {
                1
            };
            if slide.reveal_fragments && !full {
                self.revealed_blocks = 1;
            } else {
                self.revealed_blocks = n;
            }
        }
    }

    /// How many blocks of the current slide are shown; `None` when the slide reveals
    /// nothing (all of it is shown).
    pub fn visible_blocks_for_current(&self, presentation: &Presentation) -> (r: Option<usize>)
        ensures
            opt_nat(r) == visible_blocks(nav_of(self@), *presentation),
            self@.revealed >= 1 ==> (r matches Some(v) ==> v >= 1),
    {
        if self.current_slide < presentation.slides.len() {
            let slide = &presentation.slides[self.current_slide];
            if slide.reveal_fragments {
                let n = if slide.blocks.len() >= 1 {
                    slide.blocks.len()
                } else {
                    1
                };
                return Some(
                    if self.revealed_blocks <= n {
                        self.revealed_blocks
                    } else {
                        n
                    },
                );
            }
        }
        None
    }

    /// Forward: reveals the next block of a reveal slide, else moves to the next slide
    /// (restarting its clocks). `false` when already at the end.
    pub fn advance_next(&mut self, presentation: &Presentation) -> (r: bool)
        ensures
            (nav_of(final(self)@), r) == next_nav(nav_of(old(self)@), *presentation),
            same_settings(final(self)@, old(self)@),
            r && final(self)@.current_slide != old(self)@.current_slide ==> final(self)@.transition_pending
                && nanos_of(final(self).elapsed()) == 0,
            final(self)@.current_slide == old(self)@.current_slide ==> final(self).elapsed() == old(
                self,
            ).elapsed() && final(self)@.transition_pending == old(self)@.transition_pending,
            !r ==> final(self)@ == old(self)@,
            old(self)@.revealed >= 1 ==> final(self)@.revealed >= 1,
    {
        if self.current_slide < presentation.slides.len() {
            let slide = &presentation.slides[self.current_slide];
            let n = if slide.blocks.len() >= 1 {
                slide.blocks.len()
            } else {
                1
            };
            if slide.reveal_fragments && self.revealed_blocks < n {
                self.revealed_blocks = self.revealed_blocks + 1;
                return true;
            }
        }
        if self.total_slides == 0 || self.current_slide >= self.total_slides - 1 {
            return false;
        }
        self.current_slide = self.current_slide + 1;
        self.reset_slide_timers();
        self.reset_reveal_for_slide(presentation, false);
        true
    }

    /// Back: hides the last revealed block of a reveal slide, else moves to the
    /// previous slide with all its blocks shown. `false` when already at the start.
    pub fn advance_prev(&mut self, presentation: &Presentation) -> (r: bool)
        ensures
            (nav_of(final(self)@), r) == prev_nav(nav_of(old(self)@), *presentation),
            same_settings(final(self)@, old(self)@),
            r && final(self)@.current_slide != old(self)@.current_slide ==> final(self)@.transition_pending
                && nanos_of(final(self).elapsed()) == 0,
            final(self)@.current_slide == old(self)@.current_slide ==> final(self).elapsed() == old(
                self,
            ).elapsed() && final(self)@.transition_pending == old(self)@.transition_pending,
            !r ==> final(self)@ == old(self)@,
            old(self)@.revealed >= 1 ==> final(self)@.revealed >= 1,
    {
        if self.current_slide < presentation.slides.len() {
            let slide = &presentation.slides[self.current_slide];
            if slide.reveal_fragments && self.revealed_blocks > 1 {
                self.revealed_blocks = self.revealed_blocks - 1;
                return true;
            }
        }
        if self.current_slide == 0 {
            return false;
        }
        self.current_slide = self.current_slide - 1;
        self.reset_slide_timers();
        self.reset_reveal_for_slide(presentation, true);
        true
    }

    /// Advances the fade of the current transition; `None` when none is running (it
    /// ends it once its time is up).
    pub fn transition_step(&mut self) -> (r: Option<usize>)
        ensures
            !old(self)@.transition_pending ==> r is None,
            old(self)@.transition_pending ==> (exists|e: nat| r == #[trigger] fade_step(e)),
            final(self)@ == (AppStateModel { transition_pending: r is Some, ..old(self)@ }),
            final(self).elapsed() == old(self).elapsed(),
    {
        let start = match &self.transition_started {
            Some(s) => *s,
            None => return None,
        };
        let elapsed = duration_nanos(&instant_elapsed(&start));
        let r = transition_step_at(elapsed);
        if r.is_none() {
            self.transition_started = None;
        }
        r
    }
}


/// Moving forward or back keeps a valid state valid: the current slide stays among
/// the presentation's slides and the reveal count within the slide's blocks.
pub proof fn lemma_navigation_stays_valid(n: NavModel, p: Presentation)
    requires
        nav_valid(n, p),
    ensures
        nav_valid(next_nav(n, p).0, p),
        nav_valid(prev_nav(n, p).0, p),
{
}

/// Forward then back shows again what was shown: the same slide and the same blocks.
pub proof fn lemma_next_then_prev_restores(n: NavModel, p: Presentation)
    requires
        nav_valid(n, p),
        next_nav(n, p).1,
    ensures
        prev_nav(next_nav(n, p).0, p).1,
        prev_nav(next_nav(n, p).0, p).0.current == n.current,
        visible_blocks(prev_nav(next_nav(n, p).0, p).0, p) == visible_blocks(n, p),
{
}

/// Back then forward shows again what was shown: the same slide and the same blocks.
pub proof fn lemma_prev_then_next_restores(n: NavModel, p: Presentation)
    requires
        nav_valid(n, p),
        prev_nav(n, p).1,
    ensures
        next_nav(prev_nav(n, p).0, p).1,
        next_nav(prev_nav(n, p).0, p).0.current == n.current,
        visible_blocks(next_nav(prev_nav(n, p).0, p).0, p) == visible_blocks(n, p),
{
}

/// Forward fails only on the last slide with all of it shown, back only on the first
/// slide with at most one block shown; a failed step changes nothing.
pub proof fn lemma_navigation_bounds(n: NavModel, p: Presentation)
    requires
        nav_valid(n, p),
    ensures
        !next_nav(n, p).1 <==> (n.current + 1 == n.total && (slide_reveals(p, n.current as int)
            ==> n.revealed == slide_blocks(p, n.current as int))),
        !prev_nav(n, p).1 <==> (n.current == 0 && (slide_reveals(p, 0) ==> n.revealed == 1)),
        !next_nav(n, p).1 ==> next_nav(n, p).0 == n,
        !prev_nav(n, p).1 ==> prev_nav(n, p).0 == n,
{
}

pub open spec fn ceil_div(a: nat, b: nat) -> nat {
    if a % b == 0 {
        a / b
    } else {
        a / b + 1
    }
}

/// The transition length in nanoseconds.
pub open spec fn transition_nanos() -> nat {
    TRANSITION_MS as nat * 1_000_000
}

/// The fade step `e` nanoseconds into a transition: `None` once it is over, else the
/// elapsed share of the steps rounded up, between 1 and the number of steps.
pub open spec fn fade_step(e: nat) -> Option<usize> {
    if e >= transition_nanos() {
        None
    } else {
        let q = ceil_div(e * TRANSITION_STEPS as nat, transition_nanos());
        Some(
            (if q < 1 {
                1
            } else if q > TRANSITION_STEPS {
                TRANSITION_STEPS as nat
            } else {
                q
            }) as usize,
        )
    }
}

/// The fade step `elapsed_nanos` into a transition.
pub fn transition_step_at(elapsed_nanos: u128) -> (r: Option<usize>)
    ensures
        r == fade_step(elapsed_nanos as nat),
{
    let total: u128 = TRANSITION_MS as u128 * 1_000_000;
    if elapsed_nanos >= total {
        return None;
    }
    let num: u128 = elapsed_nanos * TRANSITION_STEPS as u128;
    let q: u128 = num / total + if num % total == 0 {
        0
    } else {
        1
    };
    let step: usize = if q < 1 {
        1
    } else if q > TRANSITION_STEPS as u128 {
        TRANSITION_STEPS
    } else {
        q as usize
    };
    Some(step)
}

/// The kind of file that a path names, by its extension in any ASCII case.
#[derive(Debug, Clone, Copy, PartialEq, Eq, Structural)]
pub enum MediaKind {
    StaticImage,
    Gif,
    Svg,
    Video,
}

/// The extension of a path as `std::path::Path::extension` reads it (empty when it
/// has none).
pub uninterp spec fn path_extension(path: Seq<char>) -> Seq<char>;

/// `std::path::Path::extension` of the path, as text; empty when there is none.
#[verifier::external_body]
pub(crate) fn extension(path: &str) -> (r: String)
    ensures
        r@ == path_extension(path@),
{
    std::path::Path::new(path).extension().and_then(|e| e.to_str()).unwrap_or_default().to_string()
}

pub open spec fn media_kind_of(path: Seq<char>) -> MediaKind {
    let e = lower_seq(path_extension(path));
    if e == "gif"@ {
        MediaKind::Gif
    } else if e == "svg"@ {
        MediaKind::Svg
    } else if e == "mp4"@ || e == "mov"@ || e == "m4v"@ || e == "webm"@ || e == "mkv"@ || e
        == "avi"@ {
        MediaKind::Video
    } else {
        MediaKind::StaticImage
    }
}

pub fn media_kind_for_path(path: &str) -> (r: MediaKind)
    ensures
        r == media_kind_of(path@),
{
    let e = to_lower(&chars_of(extension(path).as_str()));
    if eq_chars(&e, &chars_of("gif")) {
        MediaKind::Gif
    } else if eq_chars(&e, &chars_of("svg")) {
        MediaKind::Svg
    } else if eq_chars(&e, &chars_of("mp4")) || eq_chars(&e, &chars_of("mov")) || eq_chars(
        &e,
        &chars_of("m4v"),
    ) || eq_chars(&e, &chars_of("webm")) || eq_chars(&e, &chars_of("mkv")) || eq_chars(
        &e,
        &chars_of("avi"),
    ) {
        MediaKind::Video
    } else {
        MediaKind::StaticImage
    }
}

pub fn should_use_native(mode: ImageMode) -> (r: bool)
    ensures
        r == (mode is Native || mode is Auto),
{
    match mode {
        ImageMode::Native | ImageMode::Auto => true,
        ImageMode::Ascii => false,
    }
}

/// How the terminal can show pictures.
#[derive(Debug, Clone, Copy, PartialEq, Eq, Structural)]
pub enum ImageBackend {
    Ascii,
    KittyGraphics,
    ItermInline,
}

impl ImageBackend {
    pub fn is_native(self) -> (r: bool)
        ensures
            r == !(self is Ascii),
    {
        match self {
            ImageBackend::KittyGraphics | ImageBackend::ItermInline => true,
            ImageBackend::Ascii => false,
        }
    }
}

/// The backend a terminal is taken to have, from `TERM`, `TERM_PROGRAM` and whether
/// `ITERM_SESSION_ID` and `KITTY_WINDOW_ID` are set: iTerm's inline images for iTerm,
/// the kitty protocol for kitty and ghostty, else text.
pub open spec fn backend_for(term: Seq<char>, term_program: Seq<char>, iterm_session: bool, kitty_window: bool) -> ImageBackend {
    if term_program == "iTerm.app"@ || iterm_session {
        ImageBackend::ItermInline
    } else if find(term, "kitty"@) is Some || term_program == "ghostty"@ || kitty_window {
        ImageBackend::KittyGraphics
    } else {
        ImageBackend::Ascii
    }
}

pub fn image_backend_for(term: &str, term_program: &str, iterm_session: bool, kitty_window: bool) -> (r:
    ImageBackend)
    ensures
        r == backend_for(term@, term_program@, iterm_session, kitty_window),
{
    let tp = chars_of(term_program);
    if eq_chars(&tp, &chars_of("iTerm.app")) || iterm_session {
        return ImageBackend::ItermInline;
    }
    if find_chars(&chars_of(term), &chars_of("kitty")).is_some() || eq_chars(&tp, &chars_of("ghostty"))
        || kitty_window {
        return ImageBackend::KittyGraphics;
    }
    ImageBackend::Ascii
}

/// An image path as the slide's file sees it: an absolute path as it is, else
/// under the deck's directory.
pub open spec fn resolved_path(base_dir: Seq<char>, image_path: Seq<char>) -> Seq<char> {
    if image_path.len() > 0 && image_path[0] == '/' {
        image_path
    } else if base_dir.len() == 0 {
        image_path
    } else if base_dir.last() == '/' {
        base_dir + image_path
    } else {
        base_dir + seq!['/'] + image_path
    }
}

pub fn resolve_image_path(base_dir: &str, image_path: &str) -> (r: String)
    ensures
        r@ == resolved_path(base_dir@, image_path@),
{
    let b = chars_of(base_dir);
    let p = chars_of(image_path);
    if p.len() > 0 && p[0] == '/' {
        return string_of(&p);
    }
    if b.len() == 0 {
        return string_of(&p);
    }
    let mut out = b.clone();
    assert(out@ =~= b@);
    if b[b.len() - 1] != '/' {
        out.push('/');
    }
    push_chars(&mut out, &p);
    assert(out@ =~= resolved_path(base_dir@, image_path@));
    string_of(&out)
}

/// The directory of a path as `std::path::Path::parent` reads it.
pub uninterp spec fn path_parent(path: Seq<char>) -> Option<Seq<char>>;

/// `std::path::Path::parent` of the path, as text.
#[verifier::external_body]
fn parent_of(path: &str) -> (r: Option<String>)
    ensures
        opt_str(r) == path_parent(path@),
{
    std::path::Path::new(path).parent().map(|p| p.to_string_lossy().to_string())
}

/// The directory that image paths of a deck are read from: the deck file's own, `.`
/// when it has none.
pub fn source_dir(source_path: &str) -> (r: String)
    ensures
        r@ == match path_parent(source_path@) {
            Some(d) => d,
            None => "."@,
        },
{
    match parent_of(source_path) {
        Some(d) => d,
        None => ".".to_owned(),
    }
}

/// The base64 digit of a six-bit value.
pub open spec fn b64_digit(v: nat) -> char {
    if v < 26 {
        (65 + v) as char
    } else if v < 52 {
        (97 + (v - 26)) as char
    } else if v < 62 {
        (48 + (v - 52)) as char
    } else if v == 62 {
        '+'
    } else {
        '/'
    }
}

/// The four digits of three bytes.
pub open spec fn b64_quad(x: u8, y: u8, z: u8) -> Seq<char> {
    let n = x as nat * 65536 + y as nat * 256 + z as nat;
    seq![b64_digit(n / 262144), b64_digit((n / 4096) % 64), b64_digit((n / 64) % 64), b64_digit(n % 64)]
}

/// Standard base64 with `=` padding.
pub open spec fn b64(s: Seq<u8>) -> Seq<char>
    decreases s.len(),
{
    if s.len() >= 3 {
        b64_quad(s[0], s[1], s[2]) + b64(s.skip(3))
    } else if s.len() == 2 {
        b64_quad(s[0], s[1], 0).take(3) + seq!['=']
    } else if s.len() == 1 {
        b64_quad(s[0], 0, 0).take(2) + seq!['=', '=']
    } else {
        seq![]
    }
}

proof fn lemma_b64_step(s: Seq<u8>)
    requires
        s.len() >= 3,
    ensures
        b64(s) == b64_quad(s[0], s[1], s[2]) + b64(s.skip(3)),
{
}

fn b64_char(v: u32) -> (c: char)
    requires
        v < 64,
    ensures
        c == b64_digit(v as nat),
{
    let b: u8 = if v < 26 {
        65 + v as u8
    } else if v < 52 {
        97 + (v - 26) as u8
    } else if v < 62 {
        48 + (v - 52) as u8
    } else if v == 62 {
        43
    } else {
        47
    };
    b as char
}

fn quad(x: u8, y: u8, z: u8) -> (r: Vec<char>)
    ensures
        r@ == b64_quad(x, y, z),
{
    let v: u32 = (x as u32) * 65536 + (y as u32) * 256 + z as u32;
    let mut out: Vec<char> = Vec::new();
    out.push(b64_char(v / 262144));
    out.push(b64_char((v / 4096) % 64));
    out.push(b64_char((v / 64) % 64));
    out.push(b64_char(v % 64));
    assert(out@ =~= b64_quad(x, y, z));
    out
}

pub fn base64_encode(input: &[u8]) -> (r: String)
    ensures
        r@ == b64(input@),
{
    let mut out: Vec<char> = Vec::new();
    let n = input.len();
    let mut i: usize = 0;
    assert(input@.skip(0) =~= input@);
    while n - i >= 3
        invariant
            i <= n,
            n == input@.len(),
            b64(input@) == out@ + b64(input@.skip(i as int)),
        decreases n - i,
    {
        let q = quad(input[i], input[i + 1], input[i + 2]);
        proof {
            let rest = input@.skip(i as int);
            assert(rest[0] == input@[i as int] && rest[1] == input@[i + 1] && rest[2] == input@[i + 2]);
            assert(rest.skip(3) =~= input@.skip(i + 3));
            lemma_b64_step(rest);
        }
        let ghost before = out@;
        push_chars(&mut out, &q);
        assert(before + b64(input@.skip(i as int)) =~= out@ + b64(input@.skip(i + 3)));
        i = i + 3;
    }
    let rem = n - i;
    let ghost rest = input@.skip(i as int);
    if rem == 1 {
        assert(rest[0] == input@[i as int]);
        let q = quad(input[i], 0, 0);
        out.push(q[0]);
        out.push(q[1]);
        out.push('=');
        out.push('=');
        assert(b64(rest) =~= seq![q@[0], q@[1], '=', '=']);
    } else if rem == 2 {
        assert(rest[0] == input@[i as int] && rest[1] == input@[i + 1]);
        let q = quad(input[i], input[i + 1], 0);
        out.push(q[0]);
        out.push(q[1]);
        out.push(q[2]);
        out.push('=');
        assert(b64(rest) =~= seq![q@[0], q@[1], q@[2], '=']);
    } else {
        assert(b64(rest) =~= Seq::<char>::empty());
    }
    assert(out@ =~= b64(input@));
    string_of(&out)
}

pub open spec fn fnv_offset() -> u64 {
    0xcbf29ce484222325
}

pub open spec fn fnv_prime() -> u64 {
    0x100000001b3
}

/// The 64-bit FNV-1a hash of the bytes.
pub open spec fn fnv1a(s: Seq<u8>) -> u64
    decreases s.len(),
{
    if s.len() == 0 {
        fnv_offset()
    } else {
        (fnv1a(s.drop_last()) ^ (s.last() as u64)).wrapping_mul(fnv_prime())
    }
}

pub fn fnv1a_hash64(bytes: &[u8]) -> (r: u64)
    ensures
        r == fnv1a(bytes@),
{
    let mut hash: u64 = 0xcbf29ce484222325;
    let mut i: usize = 0;
    assert(bytes@.take(0) =~= Seq::<u8>::empty());
    while i < bytes.len()
        invariant
            i <= bytes@.len(),
            hash == fnv1a(bytes@.take(i as int)),
        decreases bytes@.len() - i,
    {
        assert(bytes@.take(i + 1).drop_last() =~= bytes@.take(i as int));
        hash = hash ^ (bytes[i] as u64);
        hash = hash.wrapping_mul(0x100000001b3);
        i = i + 1;
    }
    assert(bytes@.take(bytes@.len() as int) =~= bytes@);
    hash
}

/// Where slides are drawn inside the terminal: six cells in from the sides and two
/// from the top and bottom (less on a tiny terminal), at least one cell each way.
#[derive(Debug, Clone, Copy, PartialEq, Eq, Structural)]
pub struct CanvasGeometry {
    pub origin_x: u16,
    pub origin_y: u16,
    pub width: u16,
    pub height: u16,
}

pub open spec fn canvas(tw: u16, th: u16) -> CanvasGeometry {
    let wl: u16 = if tw >= 1 {
        (tw - 1) as u16
    } else {
        0
    };
    let hl: u16 = if th >= 1 {
        (th - 1) as u16
    } else {
        0
    };
    let hp: u16 = if 12 <= wl {
        12
    } else {
        wl
    };
    let vp: u16 = if 4 <= hl {
        4
    } else {
        hl
    };
    let w: u16 = (tw - hp) as u16;
    let h: u16 = (th - vp) as u16;
    CanvasGeometry {
        origin_x: if 6 <= wl {
            6
        } else {
            wl
        },
        origin_y: if 2 <= hl {
            2
        } else {
            hl
        },
        width: if w >= 1 {
            w
        } else {
            1
        },
        height: if h >= 1 {
            h
        } else {
            1
        },
    }
}

pub fn compute_canvas_geometry(term_width: u16, term_height: u16) -> (r: CanvasGeometry)
    ensures
        r == canvas(term_width, term_height),
{
    let wl = term_width.saturating_sub(1);
    let hl = term_height.saturating_sub(1);
    let hp: u16 = if 12 <= wl {
        12
    } else {
        wl
    };
    let vp: u16 = if 4 <= hl {
        4
    } else {
        hl
    };
    let w = term_width - hp;
    let h = term_height - vp;
    CanvasGeometry {
        origin_x: if 6 <= wl {
            6
        } else {
            wl
        },
        origin_y: if 2 <= hl {
            2
        } else {
            hl
        },
        width: if w >= 1 {
            w
        } else {
            1
        },
        height: if h >= 1 {
            h
        } else {
            1
        },
    }
}

/// The canvas lies inside the terminal and is at least one cell each way; on a
/// terminal of at least thirteen columns (five rows) it is centred across (down) it.
pub proof fn lemma_canvas_inside_terminal(tw: u16, th: u16)
    requires
        tw >= 1,
        th >= 1,
    ensures
        canvas(tw, th).width >= 1,
        canvas(tw, th).height >= 1,
        canvas(tw, th).origin_x + canvas(tw, th).width <= tw,
        canvas(tw, th).origin_y + canvas(tw, th).height <= th,
        tw >= 13 ==> 2 * canvas(tw, th).origin_x + canvas(tw, th).width == tw,
        th >= 5 ==> 2 * canvas(tw, th).origin_y + canvas(tw, th).height == th,
{
}

/// What a run of the presentation is set to.
#[derive(Debug, Clone, Copy)]
pub struct AppConfig {
    pub no_ansi: bool,
    pub fps: u16,
    pub theme: Theme,
    pub line_spacing: u8,
    pub image_mode: ImageMode,
    pub gif_mode: ImageMode,
}

/// `ESC [ row ; col H`, rows and columns counted from 1.
pub open spec fn cursor_to(row: nat, col: nat) -> Seq<char> {
    "\x1b["@ + dec(row) + ";"@ + dec(col) + "H"@
}

fn push_cursor_to(out: &mut Vec<char>, row: u128, col: u128)
    ensures
        final(out)@ == old(out)@ + cursor_to(row as nat, col as nat),
{
    push_chars(out, &chars_of("\x1b["));
    push_dec(out, row);
    push_chars(out, &chars_of(";"));
    push_dec(out, col);
    push_chars(out, &chars_of("H"));
    assert(final(out)@ =~= old(out)@ + cursor_to(row as nat, col as nat));
}

/// Row `r` of a frame, when it must be written: at its place, the row cleared, then
/// its text.
pub open spec fn row_update(lines: Seq<Seq<char>>, prev: Seq<Seq<char>>, full: bool, ox: u16, oy: u16, r: int) -> Seq<char> {
    let next = if r < lines.len() {
        lines[r]
    } else {
        seq![]
    };
    let p = if r < prev.len() {
        prev[r]
    } else {
        seq![]
    };
    if full || next != p {
        cursor_to((oy + r + 1) as nat, (ox + 1) as nat) + "\x1b[2K"@ + next
    } else {
        seq![]
    }
}

pub open spec fn frame_rows(lines: Seq<Seq<char>>, prev: Seq<Seq<char>>, full: bool, ox: u16, oy: u16, k: nat) -> Seq<char>
    decreases k,
{
    if k == 0 {
        seq![]
    } else {
        frame_rows(lines, prev, full, ox, oy, (k - 1) as nat) + row_update(lines, prev, full, ox, oy, k - 1)
    }
}

/// What updates the terminal from the frame shown before to the next: every row
/// when nothing was shown, else the rows that changed (rows gone are cleared).
pub open spec fn frame_output(lines: Seq<Seq<char>>, prev: Seq<Seq<char>>, ox: u16, oy: u16) -> Seq<char> {
    let full = prev.len() == 0;
    let total = if full {
        lines.len()
    } else if prev.len() >= lines.len() {
        prev.len()
    } else {
        lines.len()
    };
    frame_rows(lines, prev, full, ox, oy, total)
}

/// The text to write to show `lines` at `(origin_x, origin_y)` over `previous`.
pub fn ansi_frame(lines: &Vec<String>, previous: &Vec<String>, origin_x: u16, origin_y: u16) -> (r: String)
    ensures
        r@ == frame_output(strs(lines@), strs(previous@), origin_x, origin_y),
{
    let ghost ls = strs(lines@);
    let ghost ps = strs(previous@);
    let full = previous.len() == 0;
    let total = if full {
        lines.len()
    } else if previous.len() >= lines.len() {
        previous.len()
    } else {
        lines.len()
    };
    let mut out: Vec<char> = Vec::new();
    let mut row: usize = 0;
    while row < total
        invariant
            row <= total,
            ls == strs(lines@),
            ps == strs(previous@),
            full == (previous@.len() == 0),
            out@ == frame_rows(ls, ps, full, origin_x, origin_y, row as nat),
        decreases total - row,
    {
        let next = if row < lines.len() {
            chars_of(lines[row].as_str())
        } else {
            Vec::new()
        };
        let prev = if row < previous.len() {
            chars_of(previous[row].as_str())
        } else {
            Vec::new()
        };
        assert(next@ =~= (if row < ls.len() { ls[row as int] } else { Seq::<char>::empty() }));
        assert(prev@ =~= (if row < ps.len() { ps[row as int] } else { Seq::<char>::empty() }));
        let ghost before = out@;
        if full || !eq_chars(&next, &prev) {
            push_cursor_to(&mut out, origin_y as u128 + row as u128 + 1, origin_x as u128 + 1);
            push_chars(&mut out, &chars_of("\x1b[2K"));
            push_chars(&mut out, &next);
        }
        assert(out@ =~= before + row_update(ls, ps, full, origin_x, origin_y, row as int));
        row = row + 1;
    }
    string_of(&out)
}

proof fn lemma_unchanged_rows_write_nothing(lines: Seq<Seq<char>>, ox: u16, oy: u16, k: nat)
    ensures
        frame_rows(lines, lines, false, ox, oy, k) == Seq::<char>::empty(),
    decreases k,
{
    if k > 0 {
        lemma_unchanged_rows_write_nothing(lines, ox, oy, (k - 1) as nat);
        assert(frame_rows(lines, lines, false, ox, oy, k) =~= Seq::<char>::empty());
    }
}

/// Showing again the frame that is on screen writes nothing.
pub proof fn lemma_unchanged_frame_writes_nothing(lines: Seq<Seq<char>>, ox: u16, oy: u16)
    ensures
        frame_output(lines, lines, ox, oy) == Seq::<char>::empty(),
{
    if lines.len() > 0 {
        lemma_unchanged_rows_write_nothing(lines, ox, oy, lines.len());
    }
}

/// The kitty graphics command that shows the picture file at `path` in `width` x
/// `height` cells from `(x, y)`.
pub open spec fn kitty_command(path: Seq<u8>, x: u16, y: u16, width: u16, height: u16) -> Seq<char> {
    cursor_to((y + 1) as nat, (x + 1) as nat) + "\x1b_Ga=T,t=f,f=100,c="@ + dec(width as nat) + ",r="@
        + dec(height as nat) + ";"@ + b64(path) + "\x1b\\"@
}

pub fn kitty_image_command(path: &str, x: u16, y: u16, width: u16, height: u16) -> (r: String)
    ensures
        r@ == kitty_command(path.spec_bytes(), x, y, width, height),
{
    let mut out: Vec<char> = Vec::new();
    push_cursor_to(&mut out, y as u128 + 1, x as u128 + 1);
    push_chars(&mut out, &chars_of("\x1b_Ga=T,t=f,f=100,c="));
    push_dec(&mut out, width as u128);
    push_chars(&mut out, &chars_of(",r="));
    push_dec(&mut out, height as u128);
    push_chars(&mut out, &chars_of(";"));
    push_chars(&mut out, &chars_of(base64_encode(path.as_bytes()).as_str()));
    push_chars(&mut out, &chars_of("\x1b\\"));
    assert(out@ =~= kitty_command(path.spec_bytes(), x, y, width, height));
    string_of(&out)
}

/// The iTerm inline image command for a picture given in base64.
pub open spec fn iterm_command(encoded: Seq<char>, x: u16, y: u16, width: u16, height: u16) -> Seq<char> {
    cursor_to((y + 1) as nat, (x + 1) as nat) + "\x1b]1337;File=inline=1;width="@ + dec(width as nat)
        + ";height="@ + dec(height as nat) + ";preserveAspectRatio=1:"@ + encoded + "\x07"@
}

pub fn iterm_image_command(encoded: &str, x: u16, y: u16, width: u16, height: u16) -> (r: String)
    ensures
        r@ == iterm_command(encoded@, x, y, width, height),
{
    let mut out: Vec<char> = Vec::new();
    push_cursor_to(&mut out, y as u128 + 1, x as u128 + 1);
    push_chars(&mut out, &chars_of("\x1b]1337;File=inline=1;width="));
    push_dec(&mut out, width as u128);
    push_chars(&mut out, &chars_of(";height="));
    push_dec(&mut out, height as u128);
    push_chars(&mut out, &chars_of(";preserveAspectRatio=1:"));
    push_chars(&mut out, &chars_of(encoded));
    push_chars(&mut out, &chars_of("\x07"));
    assert(out@ =~= iterm_command(encoded@, x, y, width, height));
    string_of(&out)
}

/// A key, as the front ends tell them apart.
#[derive(Debug, Clone, Copy, PartialEq, Eq, Structural)]
pub enum Key {
    Char(char),
    Esc,
    Left,
    Right,
    Up,
    Down,
    Other,
}

/// What a key or an input line asks for.
#[derive(Debug, Clone, Copy, PartialEq, Eq, Structural)]
pub enum KeyAction {
    Quit,
    Next,
    Prev,
    Ignore,
}

/// `q` or Esc quits; `l`, Right and Down go forward; `k`, Left and Up go back.
pub open spec fn action_of_key(k: Key) -> KeyAction {
    match k {
        Key::Char(c) => if c == 'q' {
            KeyAction::Quit
        } else if c == 'l' || c == 'L' {
            KeyAction::Next
        } else if c == 'k' || c == 'K' {
            KeyAction::Prev
        } else {
            KeyAction::Ignore
        },
        Key::Esc => KeyAction::Quit,
        Key::Right | Key::Down => KeyAction::Next,
        Key::Left | Key::Up => KeyAction::Prev,
        Key::Other => KeyAction::Ignore,
    }
}

pub fn key_action(k: Key) -> (r: KeyAction)
    ensures
        r == action_of_key(k),
{
    match k {
        Key::Char(c) => if c == 'q' {
            KeyAction::Quit
        } else if c == 'l' || c == 'L' {
            KeyAction::Next
        } else if c == 'k' || c == 'K' {
            KeyAction::Prev
        } else {
            KeyAction::Ignore
        },
        Key::Esc => KeyAction::Quit,
        Key::Right | Key::Down => KeyAction::Next,
        Key::Left | Key::Up => KeyAction::Prev,
        Key::Other => KeyAction::Ignore,
    }
}

/// A line typed in the plain front end, by its first character once trimmed: `q`
/// quits, `n` or `l` goes forward, `p` or `k` back (any case).
pub open spec fn action_of_line(input: Seq<char>) -> KeyAction {
    let t = trim(input);
    if t.len() == 0 {
        KeyAction::Ignore
    } else {
        let c = t[0];
        if c == 'q' || c == 'Q' {
            KeyAction::Quit
        } else if c == 'n' || c == 'N' || c == 'l' || c == 'L' {
            KeyAction::Next
        } else if c == 'p' || c == 'P' || c == 'k' || c == 'K' {
            KeyAction::Prev
        } else {
            KeyAction::Ignore
        }
    }
}

pub fn plain_action(input: &str) -> (r: KeyAction)
    ensures
        r == action_of_line(input@),
{
    let t = trim_chars(&chars_of(input));
    if t.len() == 0 {
        return KeyAction::Ignore;
    }
    let c = t[0];
    if c == 'q' || c == 'Q' {
        KeyAction::Quit
    } else if c == 'n' || c == 'N' || c == 'l' || c == 'L' {
        KeyAction::Next
    } else if c == 'p' || c == 'P' || c == 'k' || c == 'K' {
        KeyAction::Prev
    } else {
        KeyAction::Ignore
    }
}

/// Whether a slide's image is shown by the terminal itself: the terminal can, and the
/// image's mode (the slide's, else the deck's for its kind) asks for it; videos never.
pub open spec fn prefers_native(s: SlideModel, config: AppConfig, backend: ImageBackend) -> bool {
    match s.image {
        None => false,
        Some(img) => {
            let mode = match s.image_mode {
                Some(m) => m,
                None => config.image_mode,
            };
            let gif_mode = match s.image_mode {
                Some(m) => m,
                None => config.gif_mode,
            };
            !(backend is Ascii) && match media_kind_of(img.path) {
                MediaKind::StaticImage => mode is Native || mode is Auto,
                MediaKind::Gif => gif_mode is Native || gif_mode is Auto,
                MediaKind::Svg => mode is Native || mode is Auto,
                MediaKind::Video => false,
            }
        },
    }
}

pub fn prefer_real_images(slide: &Slide, config: &AppConfig, backend: ImageBackend) -> (r: bool)
    ensures
        r == prefers_native(slide@, *config, backend),
{
    match &slide.image {
        None => false,
        Some(img) => {
            let mode = match slide.image_mode {
                Some(m) => m,
                None => config.image_mode,
            };
            let gif_mode = match slide.image_mode {
                Some(m) => m,
                None => config.gif_mode,
            };
            backend.is_native() && match media_kind_for_path(img.path.as_str()) {
                MediaKind::StaticImage => should_use_native(mode),
                MediaKind::Gif => should_use_native(gif_mode),
                MediaKind::Svg => should_use_native(mode),
                MediaKind::Video => false,
            }
        },
    }
}

/// The column ratios of a slide: its own, else those of the command line, else `6:4`.
pub open spec fn columns_of_slide(s: SlideModel, global: Option<Seq<u16>>) -> Seq<u16> {
    match s.column_ratios {
        Some(r) => r,
        None => match global {
            Some(g) => g,
            None => seq![6u16, 4u16],
        },
    }
}

pub fn slide_columns(slide: &Slide, global: &Option<Vec<u16>>) -> (r: Vec<u16>)
    ensures
        r@ == columns_of_slide(slide@, crate::model::opt_ratios(*global)),
{
    match copy_ratios(&slide.column_ratios) {
        Some(v) => v,
        None => match copy_ratios(global) {
            Some(g) => g,
            None => {
                let mut v: Vec<u16> = Vec::new();
                v.push(6);
                v.push(4);
                assert(v@ =~= seq![6u16, 4u16]);
                v
            },
        },
    }
}

/// An image drawn as text that has more than one frame moves.
pub fn animated_ascii(slide: &Slide, prefer_real_images: bool) -> (r: bool)
    ensures
        r == (!prefer_real_images && (slide@.image matches Some(img) && img.frames.len() > 1)),
{
    !prefer_real_images && match &slide.image {
        Some(img) => img.frames.len() > 1,
        None => false,
    }
}

/// How long to wait for a key: briefly while something moves.
pub fn poll_timeout_ms(transition_active: bool, animated: bool) -> (r: u64)
    ensures
        r == (if transition_active || animated {
            16u64
        } else {
            120u64
        }),
{
    if transition_active || animated {
        16
    } else {
        120
    }
}

/// The vertical alignment an image is fitted with: centred on a slide with nothing
/// else, else its own.
pub fn native_valign(slide: &Slide, image: &ImageAsset) -> (r: VerticalAlign)
    ensures
        r == (if slide@.title is None && slide@.blocks.len() == 0 {
            VerticalAlign::Middle
        } else {
            image.valign
        }),
{
    if slide.title.is_none() && slide.blocks.len() == 0 {
        VerticalAlign::Middle
    } else {
        image.valign
    }
}

/// What identifies a drawn terminal image: the slide, the canvas and the blocks shown.
pub open spec fn native_signature(slide: nat, g: CanvasGeometry, visible: Option<usize>) -> Seq<char> {
    dec(slide) + ":"@ + dec(g.width as nat) + ":"@ + dec(g.height as nat) + ":"@ + dec(g.origin_x as nat) + ":"@
        + dec(
        match visible {
            Some(v) => v as nat,
            None => usize::MAX as nat,
        },
    )
}

pub fn native_image_signature(slide: usize, g: CanvasGeometry, visible: Option<usize>) -> (r: String)
    ensures
        r@ == native_signature(slide as nat, g, visible),
{
    let mut out: Vec<char> = Vec::new();
    push_dec(&mut out, slide as u128);
    out.push(':');
    push_dec(&mut out, g.width as u128);
    out.push(':');
    push_dec(&mut out, g.height as u128);
    out.push(':');
    push_dec(&mut out, g.origin_x as u128);
    out.push(':');
    let v: usize = match visible {
        Some(v) => v,
        None => usize::MAX,
    };
    push_dec(&mut out, v as u128);
    proof {
        reveal_strlit(":");
    }
    assert(out@ =~= native_signature(slide as nat, g, visible));
    string_of(&out)
}

/// What the terminal front end remembers between frames.
pub struct TuiFlags {
    /// The frame must be drawn again.
    pub dirty: bool,
    /// A terminal image is on the screen.
    pub native_image_active: bool,
    /// What the terminal image on the screen was drawn for.
    pub last_native_signature: Option<String>,
}

/// What happens in the terminal front end between frames.
#[derive(Debug, Clone, Copy, PartialEq, Eq, Structural)]
pub enum TuiEvent {
    /// A key was pressed.
    Key(Key),
    Resize(u16, u16),
    /// No event came within the wait.
    Idle,
    /// Anything else.
    Other,
}

/// What the front end must do after an event.
#[derive(Debug, Clone, Copy, PartialEq, Eq, Structural)]
pub struct TuiReaction {
    pub quit: bool,
    /// Remove the terminal image.
    pub clear_native: bool,
    /// Forget the frame on the screen, so the next one is drawn whole.
    pub clear_previous: bool,
}

pub struct FlagsModel {
    pub dirty: bool,
    pub native_image_active: bool,
    pub last_native_signature: Option<Seq<char>>,
}

impl View for TuiFlags {
    type V = FlagsModel;

    open spec fn view(&self) -> FlagsModel {
        FlagsModel {
            dirty: self.dirty,
            native_image_active: self.native_image_active,
            last_native_signature: opt_str(self.last_native_signature),
        }
    }
}

/// After a change of slide or of size: the terminal image goes, everything is drawn
/// again.
pub open spec fn flags_after_change(f: FlagsModel) -> (FlagsModel, TuiReaction) {
    (
        FlagsModel { dirty: true, native_image_active: false, last_native_signature: None },
        TuiReaction { quit: false, clear_native: f.native_image_active, clear_previous: true },
    )
}

/// The front end's answer to an event, with the navigation state `n` of the
/// presentation `p`: the next state, its flags and what to do. `animating` tells
/// whether a transition or an animation is running.
pub open spec fn tui_step(n: NavModel, f: FlagsModel, p: Presentation, ev: TuiEvent, animating: bool) -> (
    NavModel,
    Option<(u16, u16)>,
    FlagsModel,
    TuiReaction,
) {
    let none = TuiReaction { quit: false, clear_native: false, clear_previous: false };
    match ev {
        TuiEvent::Key(k) => match action_of_key(k) {
            KeyAction::Quit => (n, None, f, TuiReaction { quit: true, ..none }),
            KeyAction::Next => {
                let (m, moved) = next_nav(n, p);
                if moved {
                    (m, None, flags_after_change(f).0, flags_after_change(f).1)
                } else {
                    (n, None, f, none)
                }
            },
            KeyAction::Prev => {
                let (m, moved) = prev_nav(n, p);
                if moved {
                    (m, None, flags_after_change(f).0, flags_after_change(f).1)
                } else {
                    (n, None, f, none)
                }
            },
            KeyAction::Ignore => (n, None, f, none),
        },
        TuiEvent::Resize(w, h) => (n, Some((w, h)), flags_after_change(f).0, flags_after_change(f).1),
        TuiEvent::Idle => if animating {
            (n, None, FlagsModel { dirty: true, ..f }, none)
        } else {
            (n, None, f, none)
        },
        TuiEvent::Other => (n, None, f, none),
    }
}

/// Handles an event of the terminal front end (see `tui_step`).
pub fn handle_tui_event(
    flags: &mut TuiFlags,
    state: &mut AppState,
    presentation: &Presentation,
    ev: TuiEvent,
    animating: bool,
) -> (r: TuiReaction)
    ensures
        ({
            let (m, size, f, re) = tui_step(nav_of(old(state)@), old(flags)@, *presentation, ev, animating);
            &&& nav_of(final(state)@) == m
            &&& final(state)@.terminal_size == match size {
                Some(sz) => sz,
                None => old(state)@.terminal_size,
            }
            &&& final(state)@.total_slides == old(state)@.total_slides
            &&& final(flags)@ == f
            &&& r == re
        }),
{
    let none = TuiReaction { quit: false, clear_native: false, clear_previous: false };
    match ev {
        TuiEvent::Key(k) => match key_action(k) {
            KeyAction::Quit => TuiReaction { quit: true, clear_native: false, clear_previous: false },
            KeyAction::Next => {
                if state.advance_next(presentation) {
                    flags.change_view()
                } else {
                    none
                }
            },
            KeyAction::Prev => {
                if state.advance_prev(presentation) {
                    flags.change_view()
                } else {
                    none
                }
            },
            KeyAction::Ignore => none,
        },
        TuiEvent::Resize(w, h) => {
            state.set_terminal_size(w, h);
            flags.change_view()
        },
        TuiEvent::Idle => {
            if animating {
                flags.dirty = true;
            }
            none
        },
        TuiEvent::Other => none,
    }
}

impl TuiFlags {
    fn change_view(&mut self) -> (r: TuiReaction)
        ensures
            (final(self)@, r) == flags_after_change(old(self)@),
    {
        let r = TuiReaction { quit: false, clear_native: self.native_image_active, clear_previous: true };
        self.native_image_active = false;
        self.last_native_signature = None;
        self.dirty = true;
        r
    }

    /// Before a frame: a terminal image that the slide no longer wants goes (the
    /// result says so), and the frame is then drawn whole.
    pub fn begin_frame(&mut self, prefer_real_images: bool) -> (r: bool)
        ensures
            r == (!prefer_real_images && old(self)@.native_image_active),
            r ==> final(self)@ == flags_after_change(old(self)@).0,
            !r ==> final(self)@ == old(self)@,
    {
        if !prefer_real_images && self.native_image_active {
            self.change_view();
            true
        } else {
            false
        }
    }

    /// Whether the slide must be drawn again: something changed, a transition is
    /// fading in, or a picture is animating.
    pub fn frame_needed(&self, transition_active: bool, animated: bool) -> (r: bool)
        ensures
            r == (self@.dirty || transition_active || animated),
    {
        self.dirty || transition_active || animated
    }

    /// Whether the terminal image must be drawn again for a frame with that signature.
    pub fn native_redraw_needed(&self, signature: &str) -> (r: bool)
        ensures
            r == (self@.dirty || self@.last_native_signature != Some(signature@)),
    {
        if self.dirty {
            return true;
        }
        match &self.last_native_signature {
            Some(s) => !eq_chars(&chars_of(s.as_str()), &chars_of(signature)),
            None => true,
        }
    }
}

} // verus!
