//! Project resolution: the start path is resolved against the working
//! directory, then its ancestors are searched for `statica.toml`; the site
//! root is that directory, or `project` / `--project` under it.
//!
//! Reading the working directory and checking the file system is the
//! application's job; this module decides from what it finds.

use vstd::prelude::*;

use crate::aliases::{path_join, path_join_spec};
use crate::cli::ConfigCli;
use crate::config::{apply_cli_spec, err_matches, StaticaConfig, CONFIG_FILE};
use crate::error::Error;
use crate::paths::{ancestors, ancestors_spec};
use crate::text::{trim, trim_str, views};

verus! {

/// Where the site root is, before the file system is consulted.
#[derive(Debug, Clone, PartialEq, Eq)]
pub enum SiteRoot {
    /// No `project`: the config directory itself.
    ConfigDir(String),
    /// `project` set: this path, which must exist.
    Project(String),
}

/// The site root for a config loaded from `config_dir`.
pub fn site_root(config_dir: &str, config: &StaticaConfig) -> (r: SiteRoot)
    ensures
        match r {
            SiteRoot::ConfigDir(d) => trim(config.project@).len() == 0 && d@ == config_dir@,
            SiteRoot::Project(p) => trim(config.project@).len() > 0 && p@ == path_join_spec(
                config_dir@,
                trim(config.project@),
            ),
        },
{
    let sub = trim_str(config.project.as_str());
    if sub.unicode_len() == 0 {
        SiteRoot::ConfigDir(String::from_str(config_dir))
    } else {
        SiteRoot::Project(path_join(config_dir, sub.as_str()))
    }
}

/// Directories searched for `statica.toml`: `start`, then each parent.
pub fn config_dir_candidates(start: &str) -> (r: Vec<String>)
    ensures
        views(r@) == ancestors_spec(start@),
{
    ancestors(start)
}

/// The config file in a candidate directory.
pub fn config_file_in(dir: &str) -> (r: String)
    ensures
        r@ == path_join_spec(dir@, CONFIG_FILE@),
{
    path_join(dir, CONFIG_FILE)
}

/// The first candidate whose config file exists (`has_config[i]` for `candidates[i]`).
pub fn find_config_dir(candidates: &Vec<String>, has_config: &[bool]) -> (r: Option<String>)
    requires
        candidates@.len() == has_config@.len(),
    ensures
        match r {
            Some(d) => exists|i: int|
                0 <= i < candidates@.len() && has_config@[i] && d@ == candidates@[i]@ && forall|j: int|
                    0 <= j < i ==> !has_config@[j],
            None => forall|j: int| 0 <= j < has_config@.len() ==> !has_config@[j],
        },
{
    let mut i: usize = 0;
    while i < candidates.len()
        invariant
            i <= candidates@.len(),
            candidates@.len() == has_config@.len(),
            forall|j: int| 0 <= j < i ==> !has_config@[j],
        decreases candidates@.len() - i,
    {
        if has_config[i] {
            return Some(String::from_str(candidates[i].as_str()));
        }
        i += 1;
    }
    None
}

/// The settings read from `config_dir` (defaults where the file is missing)
/// with the CLI overrides applied, and where the site root is.
///
/// Reading the file, and checking that a `project` directory exists, is the
/// caller's part; the override errors are this function's.
pub fn load_project(config_dir: &str, config: StaticaConfig, overrides: &ConfigCli) -> (r: Result<
    (SiteRoot, StaticaConfig),
    Error,
>)
    ensures
        match r {
            Ok((root, c)) => {
                &&& apply_cli_spec(config@, *overrides).1 is None
                &&& c@ == apply_cli_spec(config@, *overrides).0
                &&& c.aliases == config.aliases
                &&& c.forms == config.forms
                &&& c.env == config.env
                &&& match root {
                    SiteRoot::ConfigDir(d) => trim(c.project@).len() == 0 && d@ == config_dir@,
                    SiteRoot::Project(p) => trim(c.project@).len() > 0 && p@ == path_join_spec(
                        config_dir@,
                        trim(c.project@),
                    ),
                }
            },
            Err(e) => err_matches(Err(e), apply_cli_spec(config@, *overrides).1),
        },
{
    let mut config = config;
    match config.apply_cli(overrides) {
        Ok(()) => {},
        Err(e) => {
            return Err(e);
        },
    }
    let root = site_root(config_dir, &config);
    Ok((root, config))
}

} // verus!
