//! The settings of the emitter.

use vstd::prelude::*;

verus! {

/// These options control the emitter behavior.
///
/// [`Options::builder`] customizes individual settings. If no customization
/// is required, use [`Options::default`].
#[derive(Clone, Copy, Debug, PartialEq, Eq, Structural)]
pub struct Options {
    /// The number of spaces per nesting level.
    pub indent_size: usize,
}

impl Default for Options {
    fn default() -> (options: Self)
        ensures
            options.indent_size == 2,
    {
        Self::builder().build()
    }
}

impl Options {
    /// Starts from the default settings.
    pub fn builder() -> (builder: EmitterOptionsBuilder)
        ensures
            builder@ == (Options { indent_size: 2 }),
    {
        EmitterOptionsBuilder::default()
    }
}

/// Collects the settings of an emitter one by one.
#[derive(Debug)]
pub struct EmitterOptionsBuilder {
    indent_size: usize,
}

impl View for EmitterOptionsBuilder {
    type V = Options;

    /// The options the builder would build.
    closed spec fn view(&self) -> Options {
        Options { indent_size: self.indent_size }
    }
}

impl Default for EmitterOptionsBuilder {
    fn default() -> (builder: Self)
        ensures
            builder@ == (Options { indent_size: 2 }),
    {
        Self { indent_size: 2 }
    }
}

impl EmitterOptionsBuilder {
    /// Sets the number of spaces per nesting level.
    pub fn indent_size(self, indent_size: usize) -> (builder: Self)
        ensures
            builder@ == (Options { indent_size }),
    {
        Self { indent_size }
    }

    pub fn build(self) -> (options: Options)
        ensures
            options == self@,
    {
        Options { indent_size: self.indent_size }
    }
}

} // verus!
