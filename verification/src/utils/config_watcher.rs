//! Timing of the configuration file watcher.

use vstd::prelude::*;

verus! {

/// How the configuration watcher paces itself.
#[derive(Debug, Clone, Copy)]
pub struct ConfigWatcherConfig {
    /// Debounce between change events, in milliseconds.
    pub debounce_ms: u64,
    /// Wait after a rename or removal before watching again, in
    /// milliseconds.
    pub rewatch_delay_ms: u64,
    /// Most attempts to re-read or re-watch.
    pub max_retries: usize,
    /// Pause between attempts, in milliseconds.
    pub retry_delay_ms: u64,
    /// Event poll timeout, in seconds.
    pub poll_timeout_secs: u64,
}

impl Default for ConfigWatcherConfig {
    fn default() -> (r: Self)
        ensures
            r.debounce_ms == 500,
            r.rewatch_delay_ms == 800,
            r.max_retries == 5,
            r.retry_delay_ms == 100,
            r.poll_timeout_secs == 1,
    {
        ConfigWatcherConfig {
            debounce_ms: 500,
            rewatch_delay_ms: 800,
            max_retries: 5,
            retry_delay_ms: 100,
            poll_timeout_secs: 1,
        }
    }
}

/// A file system event's kind, as the watcher tells them apart.
#[derive(Debug, Clone, Copy, PartialEq, Eq, Structural)]
pub enum WatchEventKind {
    Any,
    Access,
    Create,
    /// The file's content changed.
    ModifyData,
    /// The file was renamed.
    ModifyName,
    /// Some other change (metadata, ...).
    ModifyOther,
    Remove,
    Other,
}

/// Events that may have changed the configuration: content changes,
/// renames, removals and creations.
pub open spec fn spec_relevant(kind: WatchEventKind) -> bool {
    kind == WatchEventKind::ModifyData || kind == WatchEventKind::ModifyName || kind
        == WatchEventKind::Remove || kind == WatchEventKind::Create
}

/// Events after which the file must be watched anew: removals and renames.
pub open spec fn spec_needs_re_watch(kind: WatchEventKind) -> bool {
    kind == WatchEventKind::Remove || kind == WatchEventKind::ModifyName
}

pub fn is_relevant_event(kind: WatchEventKind) -> (r: bool)
    ensures
        r == spec_relevant(kind),
{
    match kind {
        WatchEventKind::ModifyData | WatchEventKind::ModifyName | WatchEventKind::Remove
        | WatchEventKind::Create => true,
        _ => false,
    }
}

pub fn needs_re_watch(kind: WatchEventKind) -> (r: bool)
    ensures
        r == spec_needs_re_watch(kind),
{
    match kind {
        WatchEventKind::Remove | WatchEventKind::ModifyName => true,
        _ => false,
    }
}

/// What the watcher remembers between events: when it last reloaded (in
/// milliseconds of a monotonic clock) and whether a reload is under way.
#[derive(Debug, Clone, Copy, PartialEq, Eq, Structural)]
pub struct WatchState {
    pub last_event_ms: u64,
    pub processing: bool,
}

/// What to do about an event.
#[derive(Debug, Clone, Copy, PartialEq, Eq, Structural)]
pub enum WatchAction {
    /// Nothing.
    Ignore,
    /// Reload the configuration, first waiting and watching the file anew
    /// when `rewatch_first`.
    Reload { rewatch_first: bool },
}

/// Milliseconds from `last` to `now`; none when `now` is earlier.
pub open spec fn elapsed(last: u64, now: u64) -> int {
    if now >= last {
        now - last
    } else {
        0
    }
}

/// The decision on an event at `now_ms`: a relevant event more than the
/// debounce interval after the last reload, with none under way, starts a
/// reload; anything else is ignored.
pub open spec fn spec_on_event(state: WatchState, kind: WatchEventKind, now_ms: u64, debounce_ms: u64) -> (
    WatchState,
    WatchAction,
) {
    if spec_relevant(kind) && elapsed(state.last_event_ms, now_ms) > debounce_ms && !state.processing {
        (
            WatchState { last_event_ms: now_ms, processing: true },
            WatchAction::Reload { rewatch_first: spec_needs_re_watch(kind) },
        )
    } else {
        (state, WatchAction::Ignore)
    }
}

pub fn on_watch_event(state: WatchState, kind: WatchEventKind, now_ms: u64, config: &ConfigWatcherConfig) -> (r: (
    WatchState,
    WatchAction,
))
    ensures
        r == spec_on_event(state, kind, now_ms, config.debounce_ms),
{
    let elapsed = if now_ms >= state.last_event_ms {
        now_ms - state.last_event_ms
    } else {
        0
    };
    if is_relevant_event(kind) && elapsed > config.debounce_ms && !state.processing {
        (
            WatchState { last_event_ms: now_ms, processing: true },
            WatchAction::Reload { rewatch_first: needs_re_watch(kind) },
        )
    } else {
        (state, WatchAction::Ignore)
    }
}

/// A reload has finished (after its debounce pause): another may start.
pub fn on_reload_done(state: WatchState) -> (r: WatchState)
    ensures
        r == (WatchState { processing: false, ..state }),
{
    WatchState { processing: false, ..state }
}

/// Whether a failed attempt (counting from zero) is followed by another:
/// an operation is tried at most `max_retries + 1` times.
pub fn retry_after_failure(attempt: usize, max_retries: usize) -> (r: bool)
    ensures
        r == (attempt < max_retries),
{
    attempt < max_retries
}

/// Two reloads, the second decided on the state the first left (with its
/// reload finished), are more than the debounce interval apart.
pub proof fn lemma_reloads_are_spaced(
    s0: WatchState,
    k1: WatchEventKind,
    t1: u64,
    k2: WatchEventKind,
    t2: u64,
    debounce_ms: u64,
)
    requires
        spec_on_event(s0, k1, t1, debounce_ms).1 != WatchAction::Ignore,
        spec_on_event(
            WatchState { processing: false, ..spec_on_event(s0, k1, t1, debounce_ms).0 },
            k2,
            t2,
            debounce_ms,
        ).1 != WatchAction::Ignore,
    ensures
        t2 > t1 + debounce_ms,
{
}

/// While a reload is under way every event is ignored.
pub proof fn lemma_no_reload_while_processing(s: WatchState, k: WatchEventKind, t: u64, debounce_ms: u64)
    requires
        s.processing,
    ensures
        spec_on_event(s, k, t, debounce_ms) == (s, WatchAction::Ignore),
{
}

} // verus!
