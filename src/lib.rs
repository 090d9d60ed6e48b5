//! Weekly timetable generation: enumerate every conflict-free selection of
//! one course per alternative group, identify each selection by a content
//! hash, and narrow the candidates with composable filters.

pub mod canonical;
pub mod clock;
pub mod data;
pub mod edit;
pub mod enumerate;
pub mod excel_parser;
pub mod filter;
pub mod identity;
pub mod layout;
pub mod stats;
pub mod text;
