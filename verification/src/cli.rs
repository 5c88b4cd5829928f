//! Command-line shape: the default build command, subcommands, and the flags
//! that override `statica.toml` (see [`crate::config::StaticaConfig::apply_cli`]).
//!
//! Nested tables are overridden with compact `key=value,key=value` SPECs; a
//! bare `--rss` / `--sitemap` / `--process` / `--i18n` enables that feature
//! (empty SPEC) and `--no-…` disables it. Inside `--rss` / `--i18n`, list
//! fields use `|` because `,` separates keys.

use vstd::prelude::*;

verus! {

/// Flags that override `statica.toml`. Absent → keep file / defaults.
#[derive(Debug, Clone, Default)]
pub struct ConfigCli {
    pub project: Option<String>,
    pub out_dir: Option<String>,
    pub site_url: Option<String>,
    pub clean: bool,
    pub no_clean: bool,
    pub copy_assets: bool,
    pub no_copy_assets: bool,
    pub asset_dirs: Option<Vec<String>>,
    pub ignore_dirs: Option<Vec<String>>,
    pub emit: Option<String>,
    pub process: Option<String>,
    pub no_process: bool,
    pub minify: Option<String>,
    pub no_minify: bool,
    pub sitemap: Option<String>,
    pub no_sitemap: bool,
    pub rss: Option<String>,
    pub no_rss: bool,
    pub pagination: Vec<String>,
    pub preview: Option<String>,
    pub host: Option<String>,
    pub port: Option<u16>,
    pub i18n: Option<String>,
    pub no_i18n: bool,
    pub verbose: bool,
    pub silent: bool,
}

/// Top-level invocation: `statica [PATH]` builds; subcommands otherwise.
#[derive(Debug, Clone)]
pub struct Cli {
    pub version: bool,
    pub config: ConfigCli,
    pub command: Option<Commands>,
    /// Project directory (default `.`).
    pub path: String,
}

#[derive(Debug, Clone)]
pub enum Commands {
    Build(PathArgs),
    Serve(PathArgs),
    Watch(PathArgs),
    New(NewArgs),
}

/// Start directory for locating the project (default `.`).
#[derive(Debug, Clone)]
pub struct PathArgs {
    pub path: String,
}

/// Name of the project directory to create.
#[derive(Debug, Clone)]
pub struct NewArgs {
    pub name: String,
}

} // verus!
