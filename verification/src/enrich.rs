//! What a formatting pass carries along: the configuration and the source,
//! and the facts recorded about each printed piece.
use crate::config::Config;
use crate::strs::owned;
use vstd::prelude::*;

verus! {

/// The facts recorded about a printed piece.
#[derive(Default)]
pub struct FormatInfo {
    /// The text printed on one line, before any wrapping.
    pub rewritten: String,
    /// Its length, which decides whether a declaration wraps.
    pub length: usize,
    pub wrappable: bool,
    pub indent_level: usize,
    /// Whether a line break follows the piece.
    pub force_break_after: bool,
    /// Whether the source had an empty line before the piece.
    pub has_new_line_before: bool,
}

/// The configuration and the source of a formatting pass.
pub struct EContext {
    pub config: Config,
    pub source_code: String,
}

impl EContext {
    pub fn new(config: &Config, source_code: &str) -> (r: Self)
        ensures
            r.config == *config,
            r.source_code@ == source_code@,
    {
        EContext { config: *config, source_code: owned(source_code) }
    }
}

} // verus!
