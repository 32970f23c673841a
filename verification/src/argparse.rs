use vstd::prelude::*;

verus! {

/// The command-line arguments of the scanner: the directory to scan.
#[derive(Debug)]
pub struct Args {
    path: String,
}

impl Args {
    /// Arguments that name `path` as the directory to scan.
    pub fn new(path: String) -> (r: Args)
        ensures
            r.spec_path() == path@,
    {
        Args { path }
    }

    /// The directory to scan.
    pub fn path(&self) -> (r: &str)
        ensures
            r@ == self.spec_path(),
    {
        self.path.as_str()
    }

    /// The directory to scan, as a specification value.
    pub closed spec fn spec_path(&self) -> Seq<char> {
        self.path@
    }
}

} // verus!
