//! Where the text to transform comes from.
use vstd::prelude::*;

verus! {

/// The input selection: standard input, or an ordered list of file paths.
pub enum Source {
    Stdin,
    Files(Vec<String>),
}

impl Source {
    /// Standard input when no path is given, else the paths in their order.
    pub fn from(file_paths: Vec<String>) -> (r: Source)
        ensures
            file_paths@.len() == 0 ==> r is Stdin,
            file_paths@.len() > 0 ==> r == Source::Files(file_paths),
    {
        if file_paths.len() == 0 {
            return Source::Stdin;
        }
        Source::Files(file_paths)
    }

    /// What a run over this source does: standard input goes to standard
    /// output whatever `in_place` says; files are rewritten each on its own
    /// when `in_place`, else printed one after another in their order.
    pub fn plan(self, in_place: bool) -> (r: Plan)
        ensures
            self is Stdin ==> r is StdinToStdout,
            self is Files && in_place ==> r == Plan::RewriteInPlace(self->Files_0),
            self is Files && !in_place ==> r == Plan::PrintInOrder(self->Files_0),
    {
        match self {
            Source::Stdin => Plan::StdinToStdout,
            Source::Files(paths) => if in_place {
                Plan::RewriteInPlace(paths)
            } else {
                Plan::PrintInOrder(paths)
            },
        }
    }
}

/// The steps of a run.
pub enum Plan {
    /// Read all of standard input and write its replacement to standard output.
    StdinToStdout,
    /// Replace each file's contents with their replacement, atomically; the
    /// files are independent and may be handled in any order.
    RewriteInPlace(Vec<String>),
    /// Write the replacement of each file's contents to standard output, in
    /// the order of the paths, with nothing between them.
    PrintInOrder(Vec<String>),
}

} // verus!
