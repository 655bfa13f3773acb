//! What every part of the screen shares.

use vstd::prelude::*;

verus! {

/// Whether a part of the screen is shown.
#[derive(Debug, PartialEq, Eq, Default, Clone, Copy, Structural)]
pub enum Visibility {
    #[default]
    Hidden,
    Visible,
}

impl Visibility {
    /// Whether the part is shown.
    pub fn is_visible(&self) -> (r: bool)
        ensures
            r == (*self == Visibility::Visible),
    {
        match self {
            Visibility::Visible => true,
            Visibility::Hidden => false,
        }
    }
}

} // verus!
