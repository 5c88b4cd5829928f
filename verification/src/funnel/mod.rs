//! Build-time data funnel: template placeholders.

pub mod json;
pub mod links;
pub mod template;
pub mod value;
