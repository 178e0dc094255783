//! Assay: a stat resolver and patch differ for Dark and Darker, with every
//! step of its arithmetic, its resolution pipeline and its damage model
//! stated as contracts and proved.

pub mod attestations;
pub mod browser;
pub mod canonical;
pub mod card;
pub mod compare;
pub mod confidence;
pub mod curve;
pub mod dataset;
pub mod dataset_file;
pub mod derived;
pub mod diff;
pub mod doc;
pub mod exchange;
pub mod fields;
pub mod fixed;
pub mod ids;
pub mod json_text;
pub mod loadout;
pub mod loadout_file;
pub mod page;
pub mod resolve;
pub mod review;
pub mod schema;
pub mod situation;
pub mod stats;
pub mod submission;
pub mod submission_text;
pub mod table;
pub mod versions;
pub mod text;
pub mod well_known;

pub use fixed::{Fixed, ParseFixedError, SCALE};
