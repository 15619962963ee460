//! The weight of the unmerged branches of a git repository.
//!
//! For each branch that the baseline does not reach, the analysis takes the
//! blobs that the branch reaches and the baseline does not. It states for
//! each branch how many bytes and objects are its own and how many it shares
//! with other unmerged branches, the heaviest branch first.
//!
//! - `git`: what is asked of git, and how its answers are read
//! - `objects`: merging the answers, tallying them and ranking the branches
//! - `tally`, `weights`: the mathematical model of the result and its laws
//! - `ranking`: ordering branch indices by weight
//! - `report`: the three reports and the text of a size
//! - `detail`: the weight of a branch commit by commit
//! - `text`: tokens, lines and numbers
//! - `fx`: the hash collections of `rustc_hash`, as far as they are used
//! - `error`: why an analysis gave no result

pub mod detail;
pub mod error;
pub mod fx;
pub mod git;
pub mod objects;
pub mod ranking;
pub mod report;
pub mod tally;
pub mod text;
pub mod weights;
