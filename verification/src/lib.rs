pub mod types;
pub mod equality;
pub mod clone;
pub mod ops;
pub mod subtype;
pub mod display;
pub mod errors;
pub mod variance;
pub mod constraints;
pub mod protocols;
pub mod assoc;
pub mod advanced;
pub mod recursive;
pub mod higher_kinded;
pub mod location;
pub mod intern;
pub mod glob;
pub mod config;
pub mod logging;
pub mod hex;
pub mod incremental;
pub mod cache;
pub mod arena;
pub mod pipeline;
pub mod actor;
pub mod async_io;
pub mod query;
pub mod performance;
pub mod metrics;
pub mod cli;
pub mod refinement;
pub mod refinements;
pub mod inference;
pub mod pyast;
pub mod tree_text;
pub mod parse;
pub mod context;
pub mod effects;
pub mod checker;
pub mod debug;
pub mod integration;
pub mod cli_checker;
pub mod parallel;
