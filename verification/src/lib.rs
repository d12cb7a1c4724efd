pub mod opendrive;
pub mod report;
pub mod result;
pub mod text;
pub mod version;
pub mod xml;

pub use result::{IssueSeverity, Result, StatusType};
