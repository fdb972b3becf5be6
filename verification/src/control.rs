//! Interactive decisions: what a key press does to the view, when the loop
//! rebuilds a frame, and how long it waits for input.
//!
//! The event loop itself (reading keys, sleeping, writing frames) lives in the
//! program; it hands each event to these functions and performs the action
//! they return.
use vstd::prelude::*;
use crate::term::exit_code_for_signal;

verus! {

/// A key as the loop sees it.
#[derive(Clone, Copy, Debug, PartialEq, Eq, Structural)]
pub enum Key {
    Char(char),
    Esc,
    Other,
}

/// What the loop does after a key press.
#[derive(Clone, Copy, Debug, PartialEq, Eq, Structural)]
pub enum LoopCtl {
    /// Restore the terminal and exit with this code.
    Quit(i32),
    /// Restore the terminal, stop the process, and repaint fully on resume.
    Suspend,
    /// Redraw now, as a diff against the frame on screen.
    Dirty,
    /// Repaint the whole frame on the next tick.
    DirtyFull,
    /// Re-center the map on the current timezone, then repaint fully.
    Recenter,
}

/// The live display options that keys toggle.
#[derive(Clone, Copy, Debug, PartialEq, Eq, Structural)]
pub struct View {
    /// Clock in UTC rather than local time.
    pub use_utc: bool,
    /// Draw the civil-twilight curve.
    pub twilight: bool,
    /// Draw the one-dot coastline: the outline of the land contours, in the
    /// terrain color of each cell.
    pub outline: bool,
    /// Slowly rotate the map.
    pub rotate: bool,
}

/// Whether `k` is the letter `lower` in either case.
pub open spec fn is_letter(k: Key, lower: char, upper: char) -> bool {
    k == Key::Char(lower) || k == Key::Char(upper)
}

/// The effect of a key press on the view, and the loop's action (none for an
/// unbound key). `ctrl` says the only modifier held is Control. Letter keys are
/// case-insensitive; Control-C and Control-Z take precedence over the plain
/// letters.
pub open spec fn spec_handle_key(v: View, key: Key, ctrl: bool) -> (View, Option<LoopCtl>) {
    if ctrl && key == Key::Char('c') {
        (v, Some(LoopCtl::Quit(130)))
    } else if ctrl && key == Key::Char('z') {
        (v, Some(LoopCtl::Suspend))
    } else if key == Key::Esc || is_letter(key, 'q', 'Q') {
        (v, Some(LoopCtl::Quit(0)))
    } else if is_letter(key, 'u', 'U') {
        (View { use_utc: !v.use_utc, ..v }, Some(LoopCtl::Dirty))
    } else if is_letter(key, 'c', 'C') {
        (v, Some(LoopCtl::Recenter))
    } else if is_letter(key, 't', 'T') {
        (View { twilight: !v.twilight, ..v }, Some(LoopCtl::DirtyFull))
    } else if is_letter(key, 'o', 'O') {
        (View { outline: !v.outline, ..v }, Some(LoopCtl::DirtyFull))
    } else if is_letter(key, 'a', 'A') {
        (View { rotate: !v.rotate, ..v }, Some(LoopCtl::Dirty))
    } else if is_letter(key, 'r', 'R') {
        (v, Some(LoopCtl::DirtyFull))
    } else {
        (v, None)
    }
}

/// Apply a key press to the view; returns what the loop must do.
pub fn handle_key(view: &mut View, key: Key, ctrl: bool) -> (ctl: Option<LoopCtl>)
    ensures
        (*final(view), ctl) == spec_handle_key(*old(view), key, ctrl),
{
    if ctrl && key == Key::Char('c') {
        Some(LoopCtl::Quit(130))
    } else if ctrl && key == Key::Char('z') {
        Some(LoopCtl::Suspend)
    } else if key == Key::Esc || key == Key::Char('q') || key == Key::Char('Q') {
        Some(LoopCtl::Quit(0))
    } else if key == Key::Char('u') || key == Key::Char('U') {
        view.use_utc = !view.use_utc;
        Some(LoopCtl::Dirty)
    } else if key == Key::Char('c') || key == Key::Char('C') {
        Some(LoopCtl::Recenter)
    } else if key == Key::Char('t') || key == Key::Char('T') {
        view.twilight = !view.twilight;
        Some(LoopCtl::DirtyFull)
    } else if key == Key::Char('o') || key == Key::Char('O') {
        view.outline = !view.outline;
        Some(LoopCtl::DirtyFull)
    } else if key == Key::Char('a') || key == Key::Char('A') {
        view.rotate = !view.rotate;
        Some(LoopCtl::Dirty)
    } else if key == Key::Char('r') || key == Key::Char('R') {
        Some(LoopCtl::DirtyFull)
    } else {
        None
    }
}

/// The key bindings. Letter keys are case-insensitive: each bound letter
/// has the same effect in lower and upper case, with or without Control (but
/// for Control-C and Control-Z). Each toggle flips exactly its own option:
/// `u` the UTC clock and `a` the rotation (redraw now), `t` the twilight
/// curve and `o` the coastline (full repaint). `q` and Esc quit with 0,
/// Control-C with 130, Control-Z suspends, `c` re-centers, `r` repaints;
/// none of these changes the view.
pub proof fn lemma_key_bindings(v: View, ctrl: bool)
    ensures
        spec_handle_key(v, Key::Char('q'), ctrl) == spec_handle_key(v, Key::Char('Q'), ctrl),
        spec_handle_key(v, Key::Char('u'), ctrl) == spec_handle_key(v, Key::Char('U'), ctrl),
        spec_handle_key(v, Key::Char('t'), ctrl) == spec_handle_key(v, Key::Char('T'), ctrl),
        spec_handle_key(v, Key::Char('o'), ctrl) == spec_handle_key(v, Key::Char('O'), ctrl),
        spec_handle_key(v, Key::Char('a'), ctrl) == spec_handle_key(v, Key::Char('A'), ctrl),
        spec_handle_key(v, Key::Char('r'), ctrl) == spec_handle_key(v, Key::Char('R'), ctrl),
        spec_handle_key(v, Key::Char('c'), false) == spec_handle_key(v, Key::Char('C'), false),
        spec_handle_key(v, Key::Char('t'), ctrl) == (
            View { use_utc: v.use_utc, twilight: !v.twilight, outline: v.outline, rotate: v.rotate },
            Some(LoopCtl::DirtyFull),
        ),
        spec_handle_key(v, Key::Char('o'), ctrl) == (
            View { use_utc: v.use_utc, twilight: v.twilight, outline: !v.outline, rotate: v.rotate },
            Some(LoopCtl::DirtyFull),
        ),
        spec_handle_key(v, Key::Char('u'), ctrl) == (
            View { use_utc: !v.use_utc, twilight: v.twilight, outline: v.outline, rotate: v.rotate },
            Some(LoopCtl::Dirty),
        ),
        spec_handle_key(v, Key::Char('a'), ctrl) == (
            View { use_utc: v.use_utc, twilight: v.twilight, outline: v.outline, rotate: !v.rotate },
            Some(LoopCtl::Dirty),
        ),
        spec_handle_key(v, Key::Char('q'), ctrl) == (v, Some(LoopCtl::Quit(0))),
        spec_handle_key(v, Key::Esc, ctrl) == (v, Some(LoopCtl::Quit(0))),
        spec_handle_key(v, Key::Char('c'), true) == (v, Some(LoopCtl::Quit(130))),
        spec_handle_key(v, Key::Char('z'), true) == (v, Some(LoopCtl::Suspend)),
        spec_handle_key(v, Key::Char('c'), false) == (v, Some(LoopCtl::Recenter)),
        spec_handle_key(v, Key::Char('C'), ctrl) == (v, Some(LoopCtl::Recenter)),
        spec_handle_key(v, Key::Char('r'), ctrl) == (v, Some(LoopCtl::DirtyFull)),
        spec_handle_key(v, Key::Other, ctrl) == (v, None::<LoopCtl>),
{
}

/// Pressing the same key twice leaves the view as it was: every key either
/// leaves the view alone or flips one option.
pub proof fn lemma_key_twice_restores_view(v: View, key: Key, ctrl: bool)
    ensures
        spec_handle_key(spec_handle_key(v, key, ctrl).0, key, ctrl).0 == v,
{
}

/// A quit, suspend, recenter or repaint key never changes the view, and every
/// key changes at most one option.
pub proof fn lemma_key_changes_at_most_one_option(v: View, key: Key, ctrl: bool)
    ensures
        ({
            let (v2, ctl) = spec_handle_key(v, key, ctrl);
            &&& (ctl matches Some(LoopCtl::Quit(_)) || ctl == Some(LoopCtl::Suspend) || ctl == Some(
                LoopCtl::Recenter,
            ) || ctl == None::<LoopCtl>) ==> v2 == v
            &&& ((v2.use_utc != v.use_utc) as int) + ((v2.twilight != v.twilight) as int) + ((
            v2.outline != v.outline) as int) + ((v2.rotate != v.rotate) as int) <= 1
        }),
{
}

// ---------------------------------------------------------------- signals

/// A process signal the loop picked up.
#[derive(Clone, Copy, Debug, PartialEq, Eq, Structural)]
pub enum SignalEvent {
    /// A signal that ends the program (interrupt, terminate, hang-up, quit),
    /// with its number.
    Exit(i32),
    /// A stop request (SIGTSTP).
    Stop,
    /// The process was continued (SIGCONT).
    Continue,
}

/// What the loop does about a signal: an exit signal restores the terminal
/// and exits with 128 + its number (for numbers where that fits an `i32`);
/// a stop suspends like Control-Z; a continue repaints the whole frame.
pub open spec fn spec_on_signal(ev: SignalEvent) -> LoopCtl {
    match ev {
        SignalEvent::Exit(n) => LoopCtl::Quit((128 + n) as i32),
        SignalEvent::Stop => LoopCtl::Suspend,
        SignalEvent::Continue => LoopCtl::DirtyFull,
    }
}

/// What the loop does about a signal (see [`spec_on_signal`]).
pub fn on_signal(ev: SignalEvent) -> (ctl: LoopCtl)
    requires
        ev matches SignalEvent::Exit(n) ==> n <= i32::MAX - 128,
    ensures
        ctl == spec_on_signal(ev),
{
    match ev {
        SignalEvent::Exit(n) => LoopCtl::Quit(exit_code_for_signal(n)),
        SignalEvent::Stop => LoopCtl::Suspend,
        SignalEvent::Continue => LoopCtl::DirtyFull,
    }
}

// ---------------------------------------------------------------- redraw timing

/// When the loop last drew: whether a frame is on screen (absent at start, and
/// after a resize, suspension or forced repaint), and the UTC second it shows.
#[derive(Clone, Copy, Debug, PartialEq, Eq, Structural)]
pub struct Schedule {
    pub has_frame: bool,
    pub last_second: Option<i64>,
}

/// Whether a wake at UTC second `now` rebuilds the frame, and if so whether as
/// a full repaint (`Some(true)`) or a diff (`Some(false)`): a full repaint when
/// no frame is on screen; otherwise a diff when the second changed (the clock
/// shows seconds) or the map is rotating; otherwise nothing.
pub open spec fn spec_due(s: Schedule, now: i64, rotating: bool) -> Option<bool> {
    if !s.has_frame {
        Some(true)
    } else if rotating || s.last_second != Some(now) {
        Some(false)
    } else {
        None
    }
}

impl Schedule {
    /// Nothing drawn yet.
    pub fn new() -> (s: Self)
        ensures
            !s.has_frame,
            s.last_second == None::<i64>,
    {
        Schedule { has_frame: false, last_second: None }
    }

    /// Whether a wake at UTC second `now` rebuilds the frame (see
    /// [`spec_due`]).
    pub fn due(&self, now: i64, rotating: bool) -> (r: Option<bool>)
        ensures
            r == spec_due(*self, now, rotating),
    {
        if !self.has_frame {
            Some(true)
        } else if rotating {
            Some(false)
        } else {
            match self.last_second {
                Some(t) => if t == now {
                    None
                } else {
                    Some(false)
                },
                None => Some(false),
            }
        }
    }

    /// Record a frame drawn at UTC second `now`.
    pub fn drawn(&mut self, now: i64)
        ensures
            final(self).has_frame,
            final(self).last_second == Some(now),
    {
        self.has_frame = true;
        self.last_second = Some(now);
    }

    /// Forget the frame on screen: the next wake repaints fully.
    pub fn invalidate(&mut self)
        ensures
            !final(self).has_frame,
            final(self).last_second == old(self).last_second,
    {
        self.has_frame = false;
    }
}

/// Idle frames are rebuilt only when the second changes: right after drawing
/// at second `t`, another wake in the same second does nothing unless the map
/// rotates, and a wake in any other second redraws as a diff.
pub proof fn lemma_redraw_once_per_second(s: Schedule, t: i64, t2: i64)
    requires
        s.has_frame,
        s.last_second == Some(t),
    ensures
        spec_due(s, t, false) == None::<bool>,
        t2 != t ==> spec_due(s, t2, false) == Some(false),
        spec_due(s, t, true) == Some(false),
{
}

/// After an invalidation (resize, suspension, forced repaint) the next wake
/// always repaints the whole frame.
pub proof fn lemma_invalidated_repaints_fully(s: Schedule, now: i64, rotating: bool)
    requires
        !s.has_frame,
    ensures
        spec_due(s, now, rotating) == Some(true),
{
}

/// How long the loop waits for input, in milliseconds: while rotating, one
/// redraw interval; otherwise until the next whole second.
pub open spec fn spec_wait_ms(subsec_millis: u32, rotating: bool, interval_ms: u64) -> int {
    if rotating {
        interval_ms as int
    } else {
        1000 - subsec_millis
    }
}

/// How long the loop waits for input (see [`spec_wait_ms`]). `subsec_millis`
/// is the milliseconds past the current second.
pub fn wait_ms(subsec_millis: u32, rotating: bool, interval_ms: u64) -> (ms: u64)
    requires
        !rotating ==> subsec_millis <= 1000,
    ensures
        ms == spec_wait_ms(subsec_millis, rotating, interval_ms),
{
    if rotating {
        interval_ms
    } else {
        (1000 - subsec_millis) as u64
    }
}

} // verus!
