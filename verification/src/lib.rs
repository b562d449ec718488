//! The decisions behind a command line that turns HTML into PDF by driving a
//! headless Chromium.

pub mod apply;
pub mod band;
pub mod client;
pub mod clock;
pub mod convert;
pub mod document;
pub mod effects;
pub mod encoding;
pub mod error;
pub mod file_access;
pub mod framing;
pub mod input;
pub mod intercept;
pub mod job;
pub mod json;
pub mod launch;
pub mod layout;
pub mod locate;
pub mod message;
pub mod network;
pub mod numbering;
pub mod numbers;
pub mod outline;
pub mod output;
pub mod paths;
pub mod placeholder;
pub mod plan;
pub mod print;
pub mod reading;
pub mod render;
pub mod run;
pub mod settings;
pub mod table;
pub mod text;
pub mod toc;
pub mod tokenizer;

pub use apply::{apply, Applied, ApplyError};
pub use document::{Input, Output};
pub use table::{lookup_long, lookup_short, OptionSpec, Scope, Support};
pub use tokenizer::{
    find_meta_option, tokenize, Object, ObjectKind, Occurrence, ParseError, Tokenized,
};
use vstd::prelude::*;

verus! {

/// What the program is called.
pub const PROGRAM: &'static str = "rchtmltopdf";

/// Which version of it this is.
pub const VERSION: &'static str = "0.1.0";

} // verus!
