//! What a caller may choose when spawning a coroutine.

use vstd::prelude::*;

verus! {

/// The stack size of a coroutine that was spawned without options: 2 MiB.
pub const DEFAULT_STACK_SIZE: usize = 2097152;

/// The choices open to the caller of a spawn.
#[derive(Debug, PartialEq)]
pub struct Options {
    /// How many bytes of stack the coroutine asks for.
    pub stack_size: usize,
    /// A name for diagnostics.
    pub name: Option<String>,
}

impl Options {
    /// The default choices: no name, the default stack size.
    pub fn new() -> (o: Options)
        ensures
            o.stack_size == DEFAULT_STACK_SIZE,
            o.name is None,
    {
        Options { stack_size: DEFAULT_STACK_SIZE, name: None }
    }

    /// The same options with another stack size.
    pub fn stack_size(self, size: usize) -> (o: Options)
        ensures
            o.stack_size == size,
            o.name == self.name,
    {
        Options { stack_size: size, name: self.name }
    }

    /// The same options with a name.
    pub fn name(self, name: String) -> (o: Options)
        ensures
            o.stack_size == self.stack_size,
            o.name == Some(name),
    {
        Options { stack_size: self.stack_size, name: Some(name) }
    }
}

impl Default for Options {
    fn default() -> (o: Options)
        ensures
            o.stack_size == DEFAULT_STACK_SIZE,
            o.name is None,
    {
        Options::new()
    }
}

} // verus!
