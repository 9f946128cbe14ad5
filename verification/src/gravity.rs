//! The gravity scheduler: maps the current level and the two transient
//! drop modifiers to a tick threshold.
//!
//! A piece falls one row each time the board's tick accumulator reaches
//! the threshold.  The amplifier is kept in tenths, so level 1 gives
//! `50 * 10 / 10 = 50` ticks per row and every level at or above 10 gives
//! 5; soft drop divides the level's delay by ten, and a hard drop sets
//! the threshold to zero so the very next tick forces a fall.

use vstd::prelude::*;

verus! {

/// Base number of ticks per one-row fall at amplifier 1.
pub const GRAVITY: u32 = 50;

/// The per-level fall-speed amplifier, in tenths: level 1 maps to 10
/// (slowest) and every level at or above 10 maps to 1 (fastest).
pub open spec fn spec_amplifier(level: u8) -> u32 {
    if level == 1 {
        10
    } else if level == 2 {
        9
    } else if level == 3 {
        8
    } else if level == 4 {
        7
    } else if level == 5 {
        6
    } else if level == 6 {
        5
    } else if level == 7 {
        4
    } else if level == 8 {
        3
    } else if level == 9 {
        2
    } else {
        1
    }
}

/// The per-level fall-speed amplifier, in tenths.
pub fn amplifier(level: u8) -> (r: u32)
    ensures
        r == spec_amplifier(level),
{
    match level {
        1 => 10,
        2 => 9,
        3 => 8,
        4 => 7,
        5 => 6,
        6 => 5,
        7 => 4,
        8 => 3,
        9 => 2,
        _ => 1,
    }
}

/// The tick count at which the next downward move is forced, for the
/// given level and modifiers.  A hard drop forces it immediately; a soft
/// drop divides the level's delay by ten.
pub open spec fn spec_threshold(level: u8, accelerated: bool, hard_drop: bool) -> u32 {
    if hard_drop {
        0
    } else if accelerated {
        (GRAVITY * spec_amplifier(level) / 100) as u32
    } else {
        (GRAVITY * spec_amplifier(level) / 10) as u32
    }
}

/// The tick count at which the next downward move is forced.
pub fn tick_threshold(level: u8, accelerated: bool, hard_drop: bool) -> (r: u32)
    ensures
        r == spec_threshold(level, accelerated, hard_drop),
{
    if hard_drop {
        0
    } else if accelerated {
        GRAVITY * amplifier(level) / 100
    } else {
        GRAVITY * amplifier(level) / 10
    }
}

/// The amplifier never grows with the level, and strictly shrinks from
/// each level to the next up to level 10.
pub proof fn lemma_amplifier_antitone(l1: u8, l2: u8)
    requires
        1 <= l1 < l2,
    ensures
        spec_amplifier(l2) <= spec_amplifier(l1),
        l2 <= 10 ==> spec_amplifier(l2) < spec_amplifier(l1),
{
}

/// Without modifiers, a higher level never waits longer between falls,
/// and up to level 10 it waits strictly fewer ticks.
pub proof fn lemma_threshold_antitone(l1: u8, l2: u8)
    requires
        1 <= l1 < l2,
    ensures
        spec_threshold(l2, false, false) <= spec_threshold(l1, false, false),
        l2 <= 10 ==> spec_threshold(l2, false, false) < spec_threshold(l1, false, false),
{
}

} // verus!
