//! Library behind `punktf`, a cross-platform multi-target dotfiles manager.
//!
//! The verified parts are the template language (tokenizer, parser and
//! resolver), the layering of profiles, the bookkeeping of deployments, the
//! content transformers and the profile version format.

pub mod span;
pub mod block;
pub mod scan;
pub mod diagnostic;
pub mod tokens;
pub mod text;
pub mod source;
pub mod parse;
pub mod session;
pub mod parser;
pub mod template;
pub mod variables;
pub mod resolve;
pub mod transform;
pub mod version;
pub mod profile;
pub mod deployment;
pub mod summary;
pub mod paths;
pub mod deploy;
pub mod diff;
pub mod report;
pub mod cuts;
