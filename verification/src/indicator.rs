//! The LED indicator: a keyboard status light repurposed to show whether the
//! active layout is English (light off) or not (light on).
//!
//! Reading the light and synthesizing the key events that flip it are the
//! front end's business; this module decides, from the light's observed
//! state and the active layout, whether a flip is due.

use vstd::prelude::*;
use crate::catalog::LayoutInfo;

verus! {

/// The state the indicator should show for a layout: on exactly for a
/// non-English layout.
pub open spec fn desired_state_spec(l: LayoutInfo) -> bool {
    !l.is_english
}

/// The LED state a layout calls for: off for English, on otherwise.
pub fn desired_state(layout: &LayoutInfo) -> (r: bool)
    ensures
        r == desired_state_spec(*layout),
{
    !layout.is_english
}

/// One application of the indicator: the LED ends in the layout's desired
/// state, and a toggle is synthesized exactly when the observed state
/// differed from it.  The pair is (state after, whether a toggle happened).
pub open spec fn apply_led(led_on: bool, l: LayoutInfo) -> (bool, bool) {
    (desired_state_spec(l), led_on != desired_state_spec(l))
}

/// Decides one indicator update: given the LED state read from the keyboard
/// and the active layout, returns the state the LED ends in and whether a
/// toggle must be synthesized to get there.
pub fn apply_step(led_on: bool, layout: &LayoutInfo) -> (r: (bool, bool))
    ensures
        r == apply_led(led_on, *layout),
        r.1 == (led_on != desired_state_spec(*layout)),
{
    let desired = !layout.is_english;
    (desired, led_on != desired)
}

/// The indicator is off exactly for English layouts, whatever the layout —
/// catalog entries and synthesized unknown-id entries alike.
pub proof fn lemma_indicator_off_iff_english(l: LayoutInfo)
    ensures
        (desired_state_spec(l) == false) <==> l.is_english,
{
}

/// Applying the indicator twice in a row with the same layout flips the LED
/// at most once: the second application observes the state the first one
/// established and synthesizes nothing.
pub proof fn lemma_apply_idempotent(led_on: bool, l: LayoutInfo)
    ensures
        apply_led(apply_led(led_on, l).0, l).1 == false,
        apply_led(apply_led(led_on, l).0, l).0 == apply_led(led_on, l).0,
{
}

} // verus!
