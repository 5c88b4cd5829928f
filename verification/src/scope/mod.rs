//! Fragment scoping: CSS selectors and scripts.

pub mod css;
pub mod js;
pub mod scripts;
pub mod dedupe;
