//! Command helpers shared by build, serve and watch.

pub mod util;
