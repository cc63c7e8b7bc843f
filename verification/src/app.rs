//! The interactive front end's state vocabulary and its selection
//! arithmetic. The terminal loop itself lives outside the library; what it
//! decides with — which panel holds focus, what it hands back on exit, and
//! where a selection moves — is defined and verified here.

use vstd::prelude::*;

verus! {

/// Which panel holds the focus.
#[derive(Debug, Clone, Copy, PartialEq, Eq, Structural)]
pub enum Panel {
    Venv,
    Packages,
}

/// What the interactive session hands back when it ends.
#[derive(Debug, Clone, PartialEq, Eq)]
pub enum Output {
    /// The selected environment's activation path.
    VenvPath(String),
    /// The selected environment's requirements listing.
    Requirements(String),
    /// Nothing was selected.
    Quiet,
}

/// Where a half-page jump down from `current` lands in a list of `len`
/// items: five further, stopping at the last item of the list.
pub fn half_page_down_index(current: usize, len: usize) -> (r: usize)
    ensures
        r == ({
            let max = if len > 0 {
                (len - 1) as int
            } else {
                0int
            };
            if current + 5 <= max {
                current + 5
            } else {
                max
            }
        }),
{
    let max = if len > 0 {
        len - 1
    } else {
        0
    };
    if current < max && max - current > 5 {
        current + 5
    } else {
        max
    }
}

/// Where a half-page jump up from `current` lands: five back, clamped into
/// the list.
pub fn half_page_up_index(current: usize, len: usize) -> (r: usize)
    ensures
        r == ({
            let up = if current >= 5 {
                current - 5
            } else {
                0int
            };
            let max = if len > 0 {
                (len - 1) as int
            } else {
                0int
            };
            if up <= max {
                up
            } else {
                max
            }
        }),
{
    let up = if current >= 5 {
        current - 5
    } else {
        0
    };
    let max = if len > 0 {
        len - 1
    } else {
        0
    };
    if up < max {
        up
    } else {
        max
    }
}

/// A selection index clamped back into the list after the list changed.
pub fn clamp_index(i: usize, len: usize) -> (r: usize)
    ensures
        r == if i < len {
            i
        } else if len > 0 {
            (len - 1) as usize
        } else {
            0usize
        },
{
    if i < len {
        i
    } else if len > 0 {
        len - 1
    } else {
        0
    }
}

} // verus!
