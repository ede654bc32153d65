use vstd::prelude::*;

verus! {

/// Colour theme of the viewer.
#[derive(Debug, Clone, Copy, PartialEq, Eq, Structural)]
pub enum Theme {
    Light,
    Dark,
}

impl Default for Theme {
    fn default() -> (r: Theme)
        ensures
            r == Theme::Dark,
    {
        Theme::Dark
    }
}

impl Theme {
    /// Display name of the theme.
    pub fn name(&self) -> (r: &'static str)
        ensures
            r@ == match *self {
                Theme::Light => "Light"@,
                Theme::Dark => "Dark"@,
            },
    {
        proof {
            reveal_strlit("Light");
            reveal_strlit("Dark");
        }
        match self {
            Theme::Light => "Light",
            Theme::Dark => "Dark",
        }
    }

    /// Switches to the other theme.
    pub fn cycle(&mut self)
        ensures
            *final(self) == match *old(self) {
                Theme::Light => Theme::Dark,
                Theme::Dark => Theme::Light,
            },
    {
        *self = match self {
            Theme::Light => Theme::Dark,
            Theme::Dark => Theme::Light,
        };
    }
}

} // verus!
