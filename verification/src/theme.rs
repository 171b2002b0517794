//! The color-theme selector: a closed set of named themes cycled and
//! looked up by name. The colors themselves belong to the terminal
//! layer outside this crate.
use vstd::prelude::*;

use crate::text::str_eq;

verus! {

/// The available themes, in cycling order.
#[derive(Clone, Copy, Debug, PartialEq, Eq, Structural)]
pub enum Theme {
    Default,
    Dracula,
    Solarized,
    Nord,
    Monokai,
    Gruvbox,
}

/// The cycling order of the themes.
pub open spec fn theme_order() -> Seq<Theme> {
    seq![
        Theme::Default,
        Theme::Dracula,
        Theme::Solarized,
        Theme::Nord,
        Theme::Monokai,
        Theme::Gruvbox,
    ]
}

impl Theme {
    /// Every theme, in cycling order.
    pub fn all() -> (r: Vec<Theme>)
        ensures
            r@ == theme_order(),
    {
        let mut v: Vec<Theme> = Vec::new();
        v.push(Theme::Default);
        v.push(Theme::Dracula);
        v.push(Theme::Solarized);
        v.push(Theme::Nord);
        v.push(Theme::Monokai);
        v.push(Theme::Gruvbox);
        proof {
            assert(v@ =~= theme_order());
        }
        v
    }

    /// The next theme in cycling order, wrapping around.
    pub fn next(self) -> (r: Theme)
        ensures
            r == (match self {
                Theme::Default => Theme::Dracula,
                Theme::Dracula => Theme::Solarized,
                Theme::Solarized => Theme::Nord,
                Theme::Nord => Theme::Monokai,
                Theme::Monokai => Theme::Gruvbox,
                Theme::Gruvbox => Theme::Default,
            }),
    {
        match self {
            Theme::Default => Theme::Dracula,
            Theme::Dracula => Theme::Solarized,
            Theme::Solarized => Theme::Nord,
            Theme::Nord => Theme::Monokai,
            Theme::Monokai => Theme::Gruvbox,
            Theme::Gruvbox => Theme::Default,
        }
    }

    /// The theme a lowercased name denotes, if any.
    pub fn from_name(name: &str) -> (r: Option<Theme>)
        ensures
            ({
                let m = crate::format::lower(name@);
                if m == "default"@ {
                    r == Some(Theme::Default)
                } else if m == "dracula"@ {
                    r == Some(Theme::Dracula)
                } else if m == "solarized"@ {
                    r == Some(Theme::Solarized)
                } else if m == "nord"@ {
                    r == Some(Theme::Nord)
                } else if m == "monokai"@ {
                    r == Some(Theme::Monokai)
                } else if m == "gruvbox"@ {
                    r == Some(Theme::Gruvbox)
                } else {
                    r is None
                }
            }),
    {
        let m = crate::format::to_lower(name);
        if str_eq(m.as_str(), "default") {
            Some(Theme::Default)
        } else if str_eq(m.as_str(), "dracula") {
            Some(Theme::Dracula)
        } else if str_eq(m.as_str(), "solarized") {
            Some(Theme::Solarized)
        } else if str_eq(m.as_str(), "nord") {
            Some(Theme::Nord)
        } else if str_eq(m.as_str(), "monokai") {
            Some(Theme::Monokai)
        } else if str_eq(m.as_str(), "gruvbox") {
            Some(Theme::Gruvbox)
        } else {
            None
        }
    }

    /// The theme's display name.
    pub fn name(self) -> (r: String)
        ensures
            r@ == (match self {
                Theme::Default => "Default"@,
                Theme::Dracula => "Dracula"@,
                Theme::Solarized => "Solarized"@,
                Theme::Nord => "Nord"@,
                Theme::Monokai => "Monokai"@,
                Theme::Gruvbox => "Gruvbox"@,
            }),
    {
        match self {
            Theme::Default => String::from_str("Default"),
            Theme::Dracula => String::from_str("Dracula"),
            Theme::Solarized => String::from_str("Solarized"),
            Theme::Nord => String::from_str("Nord"),
            Theme::Monokai => String::from_str("Monokai"),
            Theme::Gruvbox => String::from_str("Gruvbox"),
        }
    }
}

} // verus!
