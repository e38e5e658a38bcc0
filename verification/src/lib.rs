//! A spreadsheet engine over a JSON array of objects: typed cells, formulas,
//! styles and validation kept in a sidecar that follows its rows.

pub mod autofill;
pub mod codec;
pub mod coercion;
pub mod columns;
pub mod comments;
pub mod data_model;
pub mod editing;
pub mod evaluate;
pub mod export;
pub mod formula;
pub mod i18n;
pub mod jsheet;
pub mod jsheet_io;
pub mod json_io;
pub mod labels;
pub mod model;
pub mod number;
pub mod selection;
pub mod sorting;
pub mod strmap;
pub mod summary;
pub mod table_state;
pub mod text;
pub mod value;
