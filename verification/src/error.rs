use vstd::prelude::*;

verus! {

/// Why an analysis gave no result.
#[derive(Debug, Clone, Copy, PartialEq, Eq, Structural)]
pub enum Error {
    /// The listing of unmerged branches could not be had.
    ListBranches,
    /// The reachability query of a branch could not be started.
    RevList,
    /// The metadata probe of a branch could not be started.
    CatFile,
    /// A candidate baseline could not be probed.
    RevParse,
    /// No candidate baseline resolves.
    NoDefaultBranch,
    /// There are more branches than a 32-bit index can number.
    TooManyBranches,
    /// The byte total of some branch cannot be held in 64 bits.
    SizeOverflow,
}

impl Error {
    /// What went wrong, in words.
    pub open spec fn message_text(self) -> Seq<char> {
        match self {
            Error::ListBranches => "Failed to run git for-each-ref"@,
            Error::RevList => "Failed to spawn git rev-list"@,
            Error::CatFile => "Failed to spawn git cat-file"@,
            Error::RevParse => "Failed to run git rev-parse"@,
            Error::NoDefaultBranch =>
                "Could not detect default branch (master/main). Use --branch to specify."@,
            Error::TooManyBranches => "Too many branches to number with 32 bits"@,
            Error::SizeOverflow => "The size of a branch exceeds 64 bits"@,
        }
    }

    /// What went wrong, in words.
    pub fn message(&self) -> (text: String)
        ensures
            text@ == self.message_text(),
    {
        match self {
            Error::ListBranches => "Failed to run git for-each-ref".to_owned(),
            Error::RevList => "Failed to spawn git rev-list".to_owned(),
            Error::CatFile => "Failed to spawn git cat-file".to_owned(),
            Error::RevParse => "Failed to run git rev-parse".to_owned(),
            Error::NoDefaultBranch => {
                "Could not detect default branch (master/main). Use --branch to specify."
                    .to_owned()
            },
            Error::TooManyBranches => "Too many branches to number with 32 bits".to_owned(),
            Error::SizeOverflow => "The size of a branch exceeds 64 bits".to_owned(),
        }
    }
}

} // verus!
