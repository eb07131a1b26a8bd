//! Finder model: listing, naming, icon lookup and navigation rules of the
//! TontooOS file manager, verified with Verus.

pub mod text;
pub mod path;
pub mod order;
pub mod model;
pub mod prefs;
pub mod views;
pub mod icons;

