//! A coin-operated turnstile: a two-state machine driven by two events.
use vstd::prelude::*;

use crate::text::same_text;

verus! {

pub const LOCKED: usize = 0;
pub const UNLOCKED: usize = 1;
pub const STATES_COUNT: usize = 2;

pub const PUSH: usize = 0;
pub const COIN: usize = 1;
pub const EVENTS_COUNT: usize = 2;

/// The transition table: a push always locks, a coin always unlocks.
pub open spec fn spec_next_state(state: usize, event: usize) -> usize {
    if event == PUSH {
        LOCKED
    } else {
        UNLOCKED
    }
}

/// The state that `event` leads to from `state`.
pub fn next_state(state: usize, event: usize) -> (r: usize)
    requires
        state < STATES_COUNT,
        event < EVENTS_COUNT,
    ensures
        r == spec_next_state(state, event),
        r < STATES_COUNT,
{
    let fsm: [[usize; EVENTS_COUNT]; STATES_COUNT] = [[LOCKED, UNLOCKED], [LOCKED, UNLOCKED]];
    fsm[state][event]
}

/// The name of a state.
pub fn state_to_str(state: usize) -> (r: &'static str)
    ensures
        state == LOCKED ==> r@ == "locked"@,
        state == UNLOCKED ==> r@ == "unlocked"@,
        state >= STATES_COUNT ==> r@ == "unknown"@,
{
    match state {
        LOCKED => "locked",
        UNLOCKED => "unlocked",
        _ => "unknown",
    }
}

/// What a line typed at the turnstile asks for.
#[derive(Clone, Copy, Debug, PartialEq, Eq, Structural)]
pub enum Command {
    /// Feed this event to the machine.
    Event(usize),
    Quit,
    Unknown,
}

/// Reads one input line: `c`/`coin`, `p`/`push`, or `q`/`quit`.
pub fn parse_command(line: &str) -> (r: Command)
    ensures
        r == (if line@ == "c"@ || line@ == "coin"@ {
            Command::Event(COIN)
        } else if line@ == "p"@ || line@ == "push"@ {
            Command::Event(PUSH)
        } else if line@ == "q"@ || line@ == "quit"@ {
            Command::Quit
        } else {
            Command::Unknown
        }),
{
    if same_text(line, "c") || same_text(line, "coin") {
        Command::Event(COIN)
    } else if same_text(line, "p") || same_text(line, "push") {
        Command::Event(PUSH)
    } else if same_text(line, "q") || same_text(line, "quit") {
        Command::Quit
    } else {
        Command::Unknown
    }
}

} // verus!
