//! What can go wrong while thumbnails are made.
use vstd::prelude::*;

verus! {

/// A failure, with a message for the user.
#[derive(Debug, Clone, PartialEq, Eq)]
pub enum ImagixError {
    /// The user asked for something that does not exist.
    UserInputError(String),
    /// A file or folder could not be read or written.
    FileIOError(String),
    /// A picture could not be decoded, scaled or encoded.
    ImageResizingError(String),
}

impl ImagixError {
    /// The message that the failure carries.
    pub open spec fn text(&self) -> Seq<char> {
        match self {
            ImagixError::UserInputError(msg) => msg@,
            ImagixError::FileIOError(msg) => msg@,
            ImagixError::ImageResizingError(msg) => msg@,
        }
    }

    /// The message that the failure carries.
    pub fn message(&self) -> (msg: &String)
        ensures
            msg@ == self.text(),
    {
        match self {
            ImagixError::UserInputError(msg) => msg,
            ImagixError::FileIOError(msg) => msg,
            ImagixError::ImageResizingError(msg) => msg,
        }
    }
}

} // verus!
