pub mod csv_data;
pub mod diag;
pub mod error;
pub mod host;
pub mod json;
pub mod laws;
pub mod request;
pub mod scope;
pub mod strutil;
pub mod value;
