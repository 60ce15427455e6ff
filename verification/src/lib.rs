//! Parser for the `ads.txt` / `app-ads.txt` authorized-sellers format.
//!
//! Every line of a file is a comment, a blank, a data record (three or four
//! comma-separated fields) or a variable (`name=value`). The strict parser
//! stops at the first line that is neither; the lenient parser collects such
//! lines and carries on.

pub mod document;
pub mod error;
pub mod record;
pub mod relation;
pub mod text;
pub mod variable;

pub use document::{AdsTxt, Line};
pub use error::{ads_txt_error, AdsTxtError, ErrorKind};
pub use record::DataRecord;
pub use relation::AccountRelation;
pub use variable::Variable;
