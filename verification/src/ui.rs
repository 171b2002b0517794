//! The dashboard's pure interaction model: which view is shown, which
//! input mode is active, and the sortable columns of the project list.
//! Rendering and key handling live outside this crate.
use vstd::prelude::*;
// The `View` enum below shadows the prelude's view trait; the alias
// keeps `@` on strings usable in this file's contracts.
use vstd::view::View as VstdView;

verus! {

/// The screens of the dashboard.
#[derive(Clone, Copy, Debug, PartialEq, Eq, Structural)]
pub enum View {
    Dashboard,
    ProjectList,
    ProjectDetail,
    SessionDetail,
}

/// Whether keys navigate or edit the search query.
#[derive(Clone, Copy, Debug, PartialEq, Eq, Structural)]
pub enum InputMode {
    Normal,
    Search,
}

/// The sortable columns of the project list.
#[derive(Clone, Copy, Debug, PartialEq, Eq, Structural)]
pub enum SortColumn {
    Name,
    Sessions,
    Messages,
    Tokens,
    Lines,
    Cost,
    LastActive,
}

impl SortColumn {
    /// The next column in cycling order, wrapping around.
    pub fn next(self) -> (r: Self)
        ensures
            r == (match self {
                SortColumn::Name => SortColumn::Sessions,
                SortColumn::Sessions => SortColumn::Messages,
                SortColumn::Messages => SortColumn::Tokens,
                SortColumn::Tokens => SortColumn::Lines,
                SortColumn::Lines => SortColumn::Cost,
                SortColumn::Cost => SortColumn::LastActive,
                SortColumn::LastActive => SortColumn::Name,
            }),
    {
        match self {
            SortColumn::Name => SortColumn::Sessions,
            SortColumn::Sessions => SortColumn::Messages,
            SortColumn::Messages => SortColumn::Tokens,
            SortColumn::Tokens => SortColumn::Lines,
            SortColumn::Lines => SortColumn::Cost,
            SortColumn::Cost => SortColumn::LastActive,
            SortColumn::LastActive => SortColumn::Name,
        }
    }

    /// The column's header label.
    pub fn label(self) -> (r: String)
        ensures
            r@ == (match self {
                SortColumn::Name => "Name"@,
                SortColumn::Sessions => "Sessions"@,
                SortColumn::Messages => "Messages"@,
                SortColumn::Tokens => "Tokens"@,
                SortColumn::Lines => "Lines"@,
                SortColumn::Cost => "Cost"@,
                SortColumn::LastActive => "Last Active"@,
            }),
    {
        match self {
            SortColumn::Name => String::from_str("Name"),
            SortColumn::Sessions => String::from_str("Sessions"),
            SortColumn::Messages => String::from_str("Messages"),
            SortColumn::Tokens => String::from_str("Tokens"),
            SortColumn::Lines => String::from_str("Lines"),
            SortColumn::Cost => String::from_str("Cost"),
            SortColumn::LastActive => String::from_str("Last Active"),
        }
    }
}

} // verus!
