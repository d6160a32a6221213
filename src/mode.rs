//! The game-mode state machine and the per-mode timers.
use vstd::prelude::*;

verus! {

#[derive(Clone, Copy, PartialEq, Eq, Structural, Debug, Hash)]
pub enum GameMode {
    Attract,
    Playing,
    GameOver,
}

/// The current mode, the mode asked for last, and whether that request has
/// been resolved into the current mode.
#[derive(Clone, Copy, PartialEq, Eq, Structural, Debug)]
pub struct GameModeManager {
    pub current_mode: GameMode,
    pub pending_mode: GameMode,
    pub resolved: bool,
}

impl GameModeManager {
    /// The manager after asking for `mode`.
    pub open spec fn changed(self, mode: GameMode) -> GameModeManager {
        GameModeManager { pending_mode: mode, resolved: false, ..self }
    }

    /// The manager after resolving its pending mode.
    pub open spec fn resolved_spec(self) -> GameModeManager {
        GameModeManager { current_mode: self.pending_mode, resolved: true, ..self }
    }

    pub open spec fn is_pending_spec(self, mode: GameMode) -> bool {
        self.pending_mode == mode && !self.resolved
    }

    pub open spec fn is_current_spec(self, mode: GameMode) -> bool {
        self.current_mode == mode && self.resolved
    }

    /// Starts in `Attract`, not yet resolved, so the first frame sets it up.
    pub fn new() -> (m: GameModeManager)
        ensures
            m == (GameModeManager {
                current_mode: GameMode::Attract,
                pending_mode: GameMode::Attract,
                resolved: false,
            }),
    {
        GameModeManager {
            current_mode: GameMode::Attract,
            pending_mode: GameMode::Attract,
            resolved: false,
        }
    }

    /// Asks for `mode`; it takes effect when resolved.
    pub fn change(&mut self, mode: GameMode)
        ensures
            *final(self) == old(self).changed(mode),
    {
        self.pending_mode = mode;
        self.resolved = false;
    }

    /// Makes the pending mode current.
    pub fn resolve(&mut self)
        ensures
            *final(self) == old(self).resolved_spec(),
    {
        self.current_mode = self.pending_mode;
        self.resolved = true;
    }

    /// Whether `mode` was asked for and has not been resolved yet.
    pub fn is_pending(&self, mode: GameMode) -> (r: bool)
        ensures
            r == self.is_pending_spec(mode),
    {
        self.pending_mode == mode && !self.resolved
    }

    /// Whether `mode` is the current, resolved mode.
    pub fn is_current(&self, mode: GameMode) -> (r: bool)
        ensures
            r == self.is_current_spec(mode),
    {
        self.current_mode == mode && self.resolved
    }
}

/// After a change to `mode`, `mode` is pending and no mode is current; once
/// resolved, `mode` is current and none is pending; resolving again changes
/// nothing, so `mode` stays current until the next change.
pub proof fn lemma_mode_change(m: GameModeManager, mode: GameMode)
    ensures
        m.changed(mode).is_pending_spec(mode),
        forall|other: GameMode| !m.changed(mode).is_current_spec(other),
        m.changed(mode).resolved_spec().is_current_spec(mode),
        forall|other: GameMode| !m.changed(mode).resolved_spec().is_pending_spec(other),
        m.changed(mode).resolved_spec().resolved_spec() == m.changed(mode).resolved_spec(),
{
}

/// Once resolved, at most one mode is current and it is the one last asked for.
pub proof fn lemma_resolved_current(m: GameModeManager, mode: GameMode)
    ensures
        m.resolved_spec().is_current_spec(mode) <==> m.pending_mode == mode,
        !m.resolved_spec().is_pending_spec(mode),
{
}

/// Milliseconds the game-over screen stays before returning to attract mode.
pub const RESET_TTL_MAX: i64 = 10000;

/// Milliseconds of "ready" delay at the start of play.
pub const READY_DELAY: i64 = 1000;

/// A countdown that stops once it reaches zero: `remaining` after `dt`.
pub open spec fn counted_down(remaining: i64, dt: u32) -> i64 {
    if remaining > 0 {
        (remaining - dt) as i64
    } else {
        remaining
    }
}

pub struct GameOverModeState {
    pub reset_ttl: i64,
}

impl GameOverModeState {
    pub fn new() -> (s: GameOverModeState)
        ensures
            s.reset_ttl == RESET_TTL_MAX,
    {
        GameOverModeState { reset_ttl: RESET_TTL_MAX }
    }

    pub fn reset(&mut self)
        ensures
            final(self).reset_ttl == RESET_TTL_MAX,
    {
        self.reset_ttl = RESET_TTL_MAX;
    }

    /// Runs the countdown by `dt` milliseconds while it is above zero.
    pub fn update(&mut self, dt: u32)
        ensures
            final(self).reset_ttl == counted_down(old(self).reset_ttl, dt),
    {
        if self.reset_ttl > 0 {
            self.reset_ttl = self.reset_ttl - dt as i64;
        }
    }
}

pub struct PlayingModeState {
    pub ready_delay: i64,
}

impl PlayingModeState {
    pub fn new() -> (s: PlayingModeState)
        ensures
            s.ready_delay == READY_DELAY,
    {
        PlayingModeState { ready_delay: READY_DELAY }
    }

    pub fn reset(&mut self)
        ensures
            final(self).ready_delay == READY_DELAY,
    {
        self.ready_delay = READY_DELAY;
    }

    /// Runs the ready delay by `dt` milliseconds while it is above zero.
    pub fn update(&mut self, dt: u32)
        ensures
            final(self).ready_delay == counted_down(old(self).ready_delay, dt),
    {
        if self.ready_delay > 0 {
            self.ready_delay = self.ready_delay - dt as i64;
        }
    }
}

} // verus!
