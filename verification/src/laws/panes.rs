//! How wide the tree is.

use crate::app::layout;
use crate::app::layout::TreeResizeResult;
use vstd::prelude::*;

verus! {

/// A width chosen by hand is kept as far as it is not below sixteen columns and
/// leaves the diff sixty.
pub proof fn lemma_chosen_width(preferred: u16, w: u16, available: u16)
    requires
        available >= 76,
    ensures
        16 <= w && w + 60 <= available ==> layout::tree_columns(preferred, Some(w), available)
            == w,
        w < 16 ==> layout::tree_columns(preferred, Some(w), available) == 16,
        w + 60 > available ==> layout::tree_columns(preferred, Some(w), available) + 60
            == available,
{
}

/// Without a choice the tree is as wide as it asks for, from twenty-six columns
/// up to seventy-two, but takes no more than a third of a narrow screen or two
/// fifths of a wide one, and leaves the diff sixty.
pub proof fn lemma_automatic_width(preferred: u16, available: u16)
    requires
        60 < available <= 32767,
    ensures
        ({
            let w = layout::tree_columns(preferred, None, available);
            let share = if available < 120 {
                available as int / 3
            } else {
                2 * available as int / 5
            };
            &&& w <= 72 && w <= share && w + 60 <= available
            &&& w <= preferred || w <= 26
            &&& w == 72 || w == share || w + 60 == available || w == 26 || w == preferred
            &&& 26 <= preferred <= 72 && preferred <= share && preferred + 60 <= available
                ==> w == preferred
            &&& preferred < 26 && 26 <= share && 86 <= available ==> w == 26
        }),
{
}

/// A resize goes four columns in the direction asked for where there is room,
/// and says so where there is none.
pub proof fn lemma_resizing(preferred: u16, manual: Option<u16>, available: u16)
    requires
        available <= 32767,
    ensures
        ({
            let now = layout::tree_columns(preferred, manual, available);
            let wider = layout::resize_step(preferred, manual, available, true);
            let narrower = layout::resize_step(preferred, manual, available, false);
            &&& available < 76 ==> wider is TerminalTooNarrow && narrower is TerminalTooNarrow
            &&& available >= 76 && now >= available - 60 ==> wider is AtMaximum
            &&& available >= 76 && 16 <= now + 4 <= available - 60 ==> wider
                == TreeResizeResult::Changed((now + 4) as u16)
            &&& available >= 76 && now <= 16 ==> narrower is AtMinimum
            &&& available >= 76 && now - 4 >= 16 ==> narrower == TreeResizeResult::Changed(
                (now - 4) as u16,
            )
        }),
{
}

} // verus!
