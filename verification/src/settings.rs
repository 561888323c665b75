//! Where the tool keeps its own state.

use vstd::prelude::*;

verus! {

/// The configuration directory that holds the target repository. The
/// caller determines the path (conventionally `.synctivity` under the home
/// directory) and hands it in; nothing here reads the environment.
pub struct Settings {
    base_dir: String,
}

impl Settings {
    pub closed spec fn spec_base_dir(&self) -> Seq<char> {
        self.base_dir@
    }

    /// Wraps the configuration directory path chosen by the caller.
    pub fn new(base_dir: String) -> (r: Settings)
        ensures
            r.spec_base_dir() == base_dir@,
    {
        Settings { base_dir }
    }

    /// The configuration directory path.
    pub fn get_base_dir(&self) -> (r: &String)
        ensures
            r@ == self.spec_base_dir(),
    {
        &self.base_dir
    }
}

} // verus!
