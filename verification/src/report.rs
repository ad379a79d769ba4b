//! What the finder tells its caller about children that could not be read.

use vstd::prelude::*;
use vstd::string::*;

verus! {

/// The two points at which the finder meets a read error.
#[derive(Clone, Copy, Debug, PartialEq, Eq, Structural)]
pub enum Step {
    /// Deciding which directories the walker may descend into.
    Skip,
    /// Deciding which files stay in the listing.
    Filter,
}

/// A read error, and the step that met it.
#[derive(Clone, Debug, PartialEq, Eq)]
pub struct Notice {
    /// The step that met the error.
    pub step: Step,
    /// The error in words, as the walker gave it.
    pub message: String,
}

/// Why a traversal cannot go on.
#[derive(Clone, Debug, PartialEq, Eq)]
pub enum TraversalError {
    /// No directory was configured and there is no current directory to fall
    /// back on.
    RootUnresolved,
    /// A child could not be read and the configuration calls that fatal.
    ReadFailed(Notice),
}

impl Step {
    /// The words that introduce a read error met at this step.
    pub open spec fn heading(self) -> Seq<char> {
        match self {
            Step::Skip => "Error during Apply Skip operation "@,
            Step::Filter => "Error during Apply filter operation "@,
        }
    }
}

impl Notice {
    /// The line to show: the step's heading, then the error.
    pub open spec fn spec_text(&self) -> Seq<char> {
        self.step.heading() + self.message@
    }

    /// The line to show for this notice.
    pub fn text(&self) -> (line: String)
        ensures
            line@ == self.spec_text(),
    {
        let heading = match self.step {
            Step::Skip => "Error during Apply Skip operation ",
            Step::Filter => "Error during Apply filter operation ",
        };
        heading.to_owned().concat(self.message.as_str())
    }
}

impl TraversalError {
    /// The error in words.
    pub open spec fn spec_text(&self) -> Seq<char> {
        match self {
            TraversalError::RootUnresolved => "no directory to start from"@,
            TraversalError::ReadFailed(notice) => notice.spec_text(),
        }
    }

    /// The error in words: for a read error, the line of its notice.
    pub fn text(&self) -> (line: String)
        ensures
            line@ == self.spec_text(),
    {
        match self {
            TraversalError::RootUnresolved => "no directory to start from".to_owned(),
            TraversalError::ReadFailed(notice) => notice.text(),
        }
    }
}

} // verus!
