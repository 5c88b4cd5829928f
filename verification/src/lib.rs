//! statica — a static site generator for valid HTML. The library holds the
//! owned HTML tree and its serializer, the funnel's data values, data links
//! and bind expressions, the pages a collection or paginated template emits,
//! page layouts and slot filling, form wiring, `data-t` translation and
//! locale catalogs, render contexts and plans, authoring-path aliases, CSS
//! and script scoping, search controls, responsive image plans, the build's
//! output passes, the asset pipeline's choices, and CLI configuration,
//! each with a machine-checked contract.

pub mod table;
pub mod text;
pub mod loc;
pub mod manifest;
pub mod paginate;
pub mod error;
pub mod env;
pub mod forms;
pub mod i18n;
pub mod images;
pub mod kv;
pub mod layout;
pub mod aliases;
pub mod assets;
pub mod alias_paths;
pub mod bind;
pub mod build;
pub mod cli;
pub mod cmd;
pub mod config;
pub mod content;
pub mod context;
pub mod discover;
pub mod fragment;
pub mod funnel;
pub mod parse;
pub mod paths;
pub mod render;
pub mod scope;
pub mod search;
pub mod search_controls;
pub mod tokens;
