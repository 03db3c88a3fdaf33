//! Bank and credit-card transaction tracking.

pub mod amount;
pub mod categorize;
pub mod csv_import;
pub mod date;
pub mod db;
pub mod digest;
pub mod import_laws;
pub mod laws;
pub mod ledger;
pub mod model;
pub mod numeral;
pub mod screen;
pub mod screen_laws;
pub mod text;
pub mod text_laws;
pub mod tui;
pub mod tui_laws;
