use vstd::prelude::*;

verus! {

/// The console logger's switch: messages always, debug output only when
/// enabled. Printing itself happens outside the library.
pub struct Logger {
    pub debug: bool,
}

impl Logger {
    /// A logger with the given debug switch.
    pub fn new(debug: bool) -> (r: Self)
        ensures
            r.debug == debug,
    {
        Self { debug }
    }
}

} // verus!
