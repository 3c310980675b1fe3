//! Conversion of visual-novel script files between an authoring dialect and an
//! episode-tagged transcript dialect, plus extraction of a render-usage table.
//!
//! Every function here works on lines of text held in memory; reading and
//! writing files is left to the caller.

pub mod text;
pub mod line;
pub mod error;
pub mod speakers;
pub mod writing;
pub mod render_table;
pub mod transcribing;
pub mod settings;
