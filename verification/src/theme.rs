//! The color theme named in the configuration.

use vstd::prelude::*;

use crate::text::str_equals;

verus! {

/// The highlighting theme.
#[derive(Debug, Clone, Copy, PartialEq, Eq, Structural)]
pub enum ThemeChoice {
    Dark,
    Light,
}

impl Default for ThemeChoice {
    fn default() -> (res: Self)
        ensures
            res == ThemeChoice::Dark,
    {
        ThemeChoice::Dark
    }
}

impl ThemeChoice {
    /// The theme named `value`: `"dark"` or `"light"`, nothing else.
    pub fn parse(value: &str) -> (res: Option<Self>)
        ensures
            res == (if value@ == "dark"@ {
                Some(ThemeChoice::Dark)
            } else if value@ == "light"@ {
                Some(ThemeChoice::Light)
            } else {
                None
            }),
    {
        if str_equals(value, "dark") {
            Some(ThemeChoice::Dark)
        } else if str_equals(value, "light") {
            Some(ThemeChoice::Light)
        } else {
            None
        }
    }
}

} // verus!
