//! A flat-file record manager: tables of comma-separated records, the
//! operations that keep them free of duplicate rows, and the decisions of
//! the interactive menu that drives them.
pub mod text;
pub mod tablmgr;
pub mod style;
pub mod menu;
pub mod backup;
pub mod tablgen;
