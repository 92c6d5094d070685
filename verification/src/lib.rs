//! State management for an editor shell: a menu bar with one dropdown open at
//! a time, a file-tree sidebar that can be resized and expanded directory by
//! directory, and a registry of open file tabs.
//!
//! The crate owns no drawing and no input/output. The surrounding program
//! feeds it pointer events and the outcome of file-system reads, and paints
//! the description of the screen that it hands back.

pub mod glyph;
pub mod listing;
pub mod menu;
pub mod metrics;
pub mod placement;
pub mod shell;
pub mod sidebar;
pub mod tabs;
pub mod text;
pub mod tree;
