//! The reports of a result: a text report for people and the XQAR file.
pub mod text;
pub mod xqar;
