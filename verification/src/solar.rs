//! Sun-elevation shading classes.
use vstd::prelude::*;

verus! {

/// Sun-elevation shading class: day (elevation >= 0°), civil twilight
/// (-6°..0°), night (below -6°).
#[derive(Clone, Copy, PartialEq, Eq, Debug, Structural)]
pub enum Shading {
    Day,
    CivilTwilight,
    Night,
}

} // verus!
