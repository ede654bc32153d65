use vstd::prelude::*;

verus! {

/// How a text view scrolls.
#[derive(Debug, Clone, Copy, PartialEq, Eq, Structural)]
pub enum ViewMode {
    /// Scrolls to the bottom as content arrives.
    Following,
    /// Keeps the scroll position.
    Paused,
}

/// Direction in which a split pane divides its area.
#[derive(Debug, Clone, Copy, PartialEq, Eq, Structural)]
pub enum SplitterAxis {
    Horizontal,
    Vertical,
}

} // verus!
