use vstd::prelude::*;

verus! {

/// Recoverable failures of the array routines. Each carries a message that
/// names the shapes, counts or slices involved.
#[derive(Debug)]
pub enum NdArrayError {
    /// Shapes that the broadcast rule cannot reconcile.
    BroadcastError(String),
    /// Repeat counts that do not match the axis or the array they repeat.
    RepeatError(String),
    /// A selection that does not fit the axis it is applied to.
    SliceError(String),
    /// A mask, or an operand, of an element kind the operation does not take.
    DtypeError(String),
}

pub type NdArrayResult<T> = Result<T, NdArrayError>;

impl NdArrayError {
    /// The text of the message.
    pub open spec fn spec_message(&self) -> Seq<char> {
        match *self {
            NdArrayError::BroadcastError(message) => message@,
            NdArrayError::RepeatError(message) => message@,
            NdArrayError::SliceError(message) => message@,
            NdArrayError::DtypeError(message) => message@,
        }
    }

    /// The message the error carries.
    pub fn message(&self) -> (text: String)
        ensures
            text@ == self.spec_message(),
    {
        match self {
            NdArrayError::BroadcastError(message) => message.clone(),
            NdArrayError::RepeatError(message) => message.clone(),
            NdArrayError::SliceError(message) => message.clone(),
            NdArrayError::DtypeError(message) => message.clone(),
        }
    }
}

/// An error by its kind and the text of its message.
pub enum NdArrayErrorView {
    Broadcast(Seq<char>),
    Repeat(Seq<char>),
    Slice(Seq<char>),
    Dtype(Seq<char>),
}

/// The kind and the text of an error.
pub open spec fn error_view(error: NdArrayError) -> NdArrayErrorView {
    match error {
        NdArrayError::BroadcastError(message) => NdArrayErrorView::Broadcast(message@),
        NdArrayError::RepeatError(message) => NdArrayErrorView::Repeat(message@),
        NdArrayError::SliceError(message) => NdArrayErrorView::Slice(message@),
        NdArrayError::DtypeError(message) => NdArrayErrorView::Dtype(message@),
    }
}

} // verus!
