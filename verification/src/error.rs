use vstd::prelude::*;
use crate::location::Location;

verus! {

/// What went wrong while reading a document.
#[derive(Debug, PartialEq, Clone)]
pub enum AsonError {
    /// A failure that belongs to no place in the text.
    Message(String),
    /// A failure at a position or over a range of the text.
    MessageWithLocation(String, Location),
    /// The text ended where more was expected.
    UnexpectedEndOfDocument(String),
}

/// The mathematical value of an [`AsonError`]: its message as a sequence of
/// characters.
pub ghost enum ErrorView {
    Message(Seq<char>),
    MessageWithLocation(Seq<char>, Location),
    UnexpectedEndOfDocument(Seq<char>),
}

impl View for AsonError {
    type V = ErrorView;

    open spec fn view(&self) -> ErrorView {
        match self {
            AsonError::Message(m) => ErrorView::Message(m@),
            AsonError::MessageWithLocation(m, l) => ErrorView::MessageWithLocation(m@, *l),
            AsonError::UnexpectedEndOfDocument(m) => ErrorView::UnexpectedEndOfDocument(m@),
        }
    }
}

impl AsonError {
    /// A positioned error with the given message.
    pub fn at(message: &str, location: Location) -> (r: AsonError)
        ensures
            r@ == ErrorView::MessageWithLocation(message@, location),
    {
        AsonError::MessageWithLocation(message.to_owned(), location)
    }

    /// An end-of-document error with the given message.
    pub fn end_of_document(message: &str) -> (r: AsonError)
        ensures
            r@ == ErrorView::UnexpectedEndOfDocument(message@),
    {
        AsonError::UnexpectedEndOfDocument(message.to_owned())
    }

    /// An error without a place.
    pub fn plain(message: &str) -> (r: AsonError)
        ensures
            r@ == ErrorView::Message(message@),
    {
        AsonError::Message(message.to_owned())
    }

    /// A copy of the error.
    pub fn duplicate(&self) -> (r: AsonError)
        ensures
            r@ == self@,
    {
        match self {
            AsonError::Message(m) => AsonError::Message(m.clone()),
            AsonError::MessageWithLocation(m, l) => AsonError::MessageWithLocation(m.clone(), *l),
            AsonError::UnexpectedEndOfDocument(m) => AsonError::UnexpectedEndOfDocument(m.clone()),
        }
    }

    /// The text of the message.
    pub fn message(&self) -> (r: &String)
        ensures
            r@ == self.message_view(),
    {
        match self {
            AsonError::Message(m) => m,
            AsonError::MessageWithLocation(m, _) => m,
            AsonError::UnexpectedEndOfDocument(m) => m,
        }
    }

    /// The text of the message, as a sequence of characters.
    pub open spec fn message_view(&self) -> Seq<char> {
        match self {
            AsonError::Message(m) => m@,
            AsonError::MessageWithLocation(m, _) => m@,
            AsonError::UnexpectedEndOfDocument(m) => m@,
        }
    }
}

} // verus!
