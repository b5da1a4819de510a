//! Serialize values to JavaScript source text.
//!
//! The crate turns already-serialized JSON text into a `JSON.parse('...')`
//! expression that is safe to embed inside a larger script, and substitutes
//! such expressions (or raw, unescaped text) for named placeholders inside a
//! template document.

use vstd::prelude::*;

pub mod builder;
pub mod escape;
pub mod render;

pub use builder::Builder;
pub use builder::Sealed;
pub use builder::SerializedOnce;
pub use escape::Serialized;
pub use render::placeholder;
pub use render::render;
pub use render::replace_all;
pub use render::FieldKind;
pub use render::TemplateField;

verus! {

/// Optional settings to pass to the templating system.
#[derive(Debug, Copy, Clone, Eq, PartialEq, Hash, Structural)]
pub struct Options {
    /// If the parsed JSON will be frozen with `Object.freeze()`.
    pub freeze: bool,

    /// Extra amount of bytes to allocate to the output buffer during
    /// serialization, beyond the minimal estimate.
    pub buf: usize,
}

impl Default for Options {
    /// By default nothing is frozen and no extra buffer space is reserved.
    fn default() -> (r: Options)
        ensures
            r.freeze == false,
            r.buf == 0,
    {
        Options { freeze: false, buf: 0 }
    }
}

} // verus!
