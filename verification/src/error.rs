//! What can go wrong around a session, and how it is told to the user.

use vstd::prelude::*;
use vstd::string::StringExecFns;

verus! {

/// A failure that is shown on the bottom line while the session goes on.
#[derive(Debug)]
pub enum Errors {
    /// An operation on a file or on the terminal failed; the text says how.
    IO(String),
    /// The terminal is too small for the main window.
    SmallArea,
    /// The build tool could not be run for the graph.
    RunCargoMetadata,
    /// What the build tool gave could not be read.
    ParseMetadata,
}

/// The smallest terminal width for which no warning is shown.
pub const MIN_WIDTH: u16 = 120;

/// The smallest terminal height for which no warning is shown.
pub const MIN_HEIGHT: u16 = 25;

impl Errors {
    /// The line shown for the failure.
    pub open spec fn text(self) -> Seq<char> {
        match self {
            Errors::IO(detail) => "An IO operation failed: "@ + detail@,
            Errors::SmallArea => "Area too small, main window might not display correctly."@,
            Errors::RunCargoMetadata => "Failed to run cargo metadata."@,
            Errors::ParseMetadata => "Failed to parse metadata."@,
        }
    }

    /// The line shown for the failure.
    pub fn message(&self) -> (line: String)
        ensures
            line@ == self.text(),
    {
        match self {
            Errors::IO(detail) => {
                let mut line = String::from_str("An IO operation failed: ");
                line.append(detail.as_str());
                line
            },
            Errors::SmallArea => String::from_str("Area too small, main window might not display correctly."),
            Errors::RunCargoMetadata => String::from_str("Failed to run cargo metadata."),
            Errors::ParseMetadata => String::from_str("Failed to parse metadata."),
        }
    }

    /// The warning for a terminal of the given size: `SmallArea` if it is
    /// narrower than `MIN_WIDTH` or lower than `MIN_HEIGHT`, else none.
    pub fn for_area(width: u16, height: u16) -> (warning: Option<Errors>)
        ensures
            warning is Some <==> width < MIN_WIDTH || height < MIN_HEIGHT,
            warning is Some ==> warning->0 is SmallArea,
    {
        if width < MIN_WIDTH || height < MIN_HEIGHT {
            Some(Errors::SmallArea)
        } else {
            None
        }
    }
}

} // verus!
