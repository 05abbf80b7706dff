//! A POSIX-style `make` engine: a lossless makefile lexer and parser, a
//! macro preprocessor, the target/rule/config data model with special-target
//! validation, and a build planner that walks the dependency graph, detects
//! cycles, and decides which recipe lines run and how failures are handled.
//!
//! Everything here is pure computation; reading files, spawning shells and
//! handling signals are left to the program around the library, which performs
//! the actions this library plans and feeds the outcomes back in.

pub mod config;
pub mod default_rules;
pub mod error_code;
pub mod make;
pub mod parser;
pub mod rule;
pub mod signal_handler;
pub mod special_target;
pub mod text;
