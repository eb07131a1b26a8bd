//! Decisions behind the Finder window.

pub mod finder;
