//! Persisted Finder preference: the view mode and its stored form.

use vstd::prelude::*;
use crate::text::{chars_of, eq_lit};

verus! {

/// Grid or list view mode.
#[derive(Debug, Clone, Copy, PartialEq, Eq, Structural)]
pub enum ViewMode {
    Grid,
    List,
}

/// Stored string of a mode.
pub open spec fn mode_text(mode: ViewMode) -> Seq<char> {
    match mode {
        ViewMode::Grid => "grid"@,
        ViewMode::List => "list"@,
    }
}

/// Mode read back from a stored string: `list` is the list view,
/// anything else falls back to the grid.
pub open spec fn mode_of(raw: Seq<char>) -> ViewMode {
    if raw == "list"@ {
        ViewMode::List
    } else {
        ViewMode::Grid
    }
}

impl ViewMode {
    /// Stored string (`grid` / `list`).
    pub fn as_str(self) -> (r: &'static str)
        ensures
            r@ == mode_text(self),
    {
        match self {
            ViewMode::Grid => "grid",
            ViewMode::List => "list",
        }
    }

    /// Parse a stored string. Unknown values fall back to grid.
    pub fn from_str(raw: &str) -> (r: Self)
        ensures
            r == mode_of(raw@),
    {
        if eq_lit(&chars_of(raw), "list") {
            ViewMode::List
        } else {
            ViewMode::Grid
        }
    }
}

/// What a stored mode reads back as: every mode survives being stored
/// and parsed again.
pub proof fn lemma_mode_roundtrip(mode: ViewMode)
    ensures
        mode_of(mode_text(mode)) == mode,
{
    reveal_strlit("grid");
    reveal_strlit("list");
    assert("grid"@ != "list"@) by {
        assert("grid"@[0] != "list"@[0]);
    }
}

} // verus!
