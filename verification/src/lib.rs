//! The verified core of FastFs: file commands and text search for a shell host.
#![allow(unused_imports)]

pub mod argument_laws;
pub mod arguments;
pub mod ascii;
pub mod brace_laws;
pub mod braces;
pub mod cache_laws;
pub mod cache_state;
pub mod cancellation;
pub mod chars;
pub mod context;
pub mod directory;
pub mod directory_laws;
pub mod emitter;
pub mod engine;
pub mod entry_laws;
pub mod expand;
pub mod find;
pub mod find_laws;
pub mod git;
pub mod git_laws;
pub mod glob;
pub mod glob_engine;
pub mod glob_laws;
pub mod glob_meaning;
pub mod identity_set;
pub mod ignore;
pub mod ignore_laws;
pub mod lines;
pub mod literals;
pub mod list;
pub mod list_laws;
pub mod matcher_laws;
pub mod native_matcher;
pub mod order;
pub mod output_laws;
pub mod path;
pub mod pattern;
pub mod pattern_laws;
pub mod platform;
pub mod queue;
pub mod report;
pub mod request;
pub mod rg;
pub mod roots;
pub mod scan_laws;
pub mod scanner;
pub mod search;
pub mod search_arg_laws;
pub mod search_args;
pub mod search_cache;
pub mod search_platform;
pub mod sink;
pub mod text;
pub mod touch;
pub mod tree;
pub mod user_globs;
pub mod walk;
pub mod walk_laws;
pub mod wildcard;
pub mod wildcard_laws;
pub mod wire;
pub mod wire_laws;
pub mod work_laws;
pub mod written;
