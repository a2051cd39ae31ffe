//! Logging that respects the runner's debug toggle (`RUNNER_DEBUG=1`).
//!
//! The toggle is an explicit state value: it is initialized once from the
//! value of `RUNNER_DEBUG` (later initializations change nothing) and can be
//! overridden at any time. The line renderers say what each log level
//! prints; printing itself is left to the caller.
use vstd::prelude::*;

use crate::error::{encode_message, encoded_message};

verus! {

/// The debug toggle: whether it was initialized, and whether debug lines
/// are emitted.
#[derive(Debug, Clone, Copy, PartialEq, Eq)]
pub struct DebugState {
    pub initialized: bool,
    pub enabled: bool,
}

/// Whether a value of `RUNNER_DEBUG` turns debug logging on: only `1` does.
pub open spec fn enables_debug(runner_debug: Option<Seq<char>>) -> bool {
    runner_debug == Some(seq!['1'])
}

/// The view of an optional string argument.
pub open spec fn opt_view(value: Option<&str>) -> Option<Seq<char>> {
    match value {
        Some(v) => Some(v@),
        None => None,
    }
}

impl DebugState {
    /// A toggle that has not read the environment yet, with debug off.
    pub fn new() -> (r: Self)
        ensures
            !r.initialized,
            !r.enabled,
    {
        DebugState { initialized: false, enabled: false }
    }
}

/// Whether `runner_debug` (the value of `RUNNER_DEBUG`, if set) is `1`.
pub fn debug_requested(runner_debug: Option<&str>) -> (r: bool)
    ensures
        r == enables_debug(opt_view(runner_debug)),
{
    match runner_debug {
        Some(v) => {
            let n = v.unicode_len();
            if n == 1 && v.get_char(0) == '1' {
                assert(v@ =~= seq!['1']);
                true
            } else {
                assert(v@ != seq!['1']);
                false
            }
        },
        None => false,
    }
}

/// The toggle after an initialization with the value `runner_debug`: an
/// initialized toggle is unchanged, any other reads the value once.
pub open spec fn initialized_state(state: DebugState, runner_debug: Option<Seq<char>>) -> DebugState {
    if state.initialized {
        state
    } else {
        DebugState { initialized: true, enabled: enables_debug(runner_debug) }
    }
}

/// The toggle after `set_debug(enabled)`.
pub open spec fn overridden_state(enabled: bool) -> DebugState {
    DebugState { initialized: true, enabled }
}

/// Initializes the toggle from `RUNNER_DEBUG` once; a toggle that is
/// already initialized stays as it is.
pub fn init(state: &mut DebugState, runner_debug: Option<&str>)
    ensures
        *final(state) == initialized_state(*old(state), opt_view(runner_debug)),
{
    if state.initialized {
        return;
    }
    state.initialized = true;
    state.enabled = debug_requested(runner_debug);
}

/// Initializes the toggle if that has not happened yet.
pub fn ensure_init(state: &mut DebugState, runner_debug: Option<&str>)
    ensures
        *final(state) == initialized_state(*old(state), opt_view(runner_debug)),
{
    if !state.initialized {
        init(state, runner_debug);
    }
}

/// Whether debug logging is on, initializing the toggle from `RUNNER_DEBUG`
/// first if needed.
pub fn is_debug(state: &mut DebugState, runner_debug: Option<&str>) -> (r: bool)
    ensures
        *final(state) == initialized_state(*old(state), opt_view(runner_debug)),
        r == final(state).enabled,
{
    ensure_init(state, runner_debug);
    state.enabled
}

/// Overrides the toggle, whatever the environment says.
pub fn set_debug(state: &mut DebugState, enabled: bool)
    ensures
        *final(state) == overridden_state(enabled),
{
    state.initialized = true;
    state.enabled = enabled;
}

/// Encodes a message for the workflow-command format (escapes `%`, line
/// feeds and carriage returns).
pub fn encode(s: &str) -> (r: String)
    ensures
        r@ == encoded_message(s@),
{
    encode_message(s)
}

/// `prefix` followed by the encoded message.
fn prefixed(prefix: &str, message: &str) -> (r: String)
    ensures
        r@ == prefix@ + encoded_message(message@),
{
    let mut out = String::from_str(prefix);
    let body = encode(message);
    out.append(body.as_str());
    out
}

/// The line that a debug-level log call prints: `::debug::<encoded>` when
/// debug is on, nothing when it is off.
pub fn debug_line(enabled: bool, message: &str) -> (r: Option<String>)
    ensures
        enabled ==> (r matches Some(line) && line@ == "::debug::"@ + encoded_message(message@)),
        !enabled ==> r is None,
{
    if enabled {
        Some(prefixed("::debug::", message))
    } else {
        None
    }
}

/// The line that a warning-level log call prints: `::warning::<encoded>`.
pub fn warn_line(message: &str) -> (r: String)
    ensures
        r@ == "::warning::"@ + encoded_message(message@),
{
    prefixed("::warning::", message)
}

/// The line that an error-level log call prints: `::error::<encoded>`.
pub fn error_line(message: &str) -> (r: String)
    ensures
        r@ == "::error::"@ + encoded_message(message@),
{
    prefixed("::error::", message)
}

/// Law: after `set_debug(b)`, `is_debug` answers `b` and leaves the toggle
/// as it is, whatever value `RUNNER_DEBUG` has.
pub proof fn lemma_set_debug_overrides_env(enabled: bool, runner_debug: Option<Seq<char>>)
    ensures
        initialized_state(overridden_state(enabled), runner_debug) == overridden_state(enabled),
        initialized_state(overridden_state(enabled), runner_debug).enabled == enabled,
{
}

/// Law: initialization happens once; a second initialization, whatever value
/// it reads, leaves the toggle as the first one set it.
pub proof fn lemma_init_is_idempotent(
    state: DebugState,
    first: Option<Seq<char>>,
    second: Option<Seq<char>>,
)
    ensures
        initialized_state(initialized_state(state, first), second) == initialized_state(
            state,
            first,
        ),
{
}

} // verus!
