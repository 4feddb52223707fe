use vstd::prelude::*;

verus! {

/// Everything that can go wrong while parsing an address or sending a command.
#[derive(Debug, PartialEq)]
pub enum Error {
    /// The group is not five characters over `0` and `1`.
    InvalidGroup(String),
    /// No device alias matched.
    InvalidDevice(String),
    /// No state alias matched.
    InvalidState(String),
    /// The selected encoding has no known layout.
    NotImplemented,
    /// The pin driver reported a failure.
    PinDriver(String),
}

/// The mathematical content of an [`Error`]: its kind and the text it carries.
pub enum ErrorView {
    InvalidGroup(Seq<char>),
    InvalidDevice(Seq<char>),
    InvalidState(Seq<char>),
    NotImplemented,
    PinDriver(Seq<char>),
}

impl View for Error {
    type V = ErrorView;

    open spec fn view(&self) -> ErrorView {
        match self {
            Error::InvalidGroup(s) => ErrorView::InvalidGroup(s@),
            Error::InvalidDevice(s) => ErrorView::InvalidDevice(s@),
            Error::InvalidState(s) => ErrorView::InvalidState(s@),
            Error::NotImplemented => ErrorView::NotImplemented,
            Error::PinDriver(s) => ErrorView::PinDriver(s@),
        }
    }
}

impl Error {
    /// A human-readable message naming the kind and echoing rejected input.
    pub fn message(&self) -> (r: String)
        ensures
            match self {
                Error::InvalidGroup(s) => r@ == "invalid group identifier: "@ + s@,
                Error::InvalidDevice(s) => r@ == "invalid device identifier: "@ + s@,
                Error::InvalidState(s) => r@ == "invalid state: "@ + s@
                    + ". Try on, off, 1, 0, true, false"@,
                Error::NotImplemented => r@ == "encoding not implemented"@,
                Error::PinDriver(s) => r@ == "pin driver error: "@ + s@,
            },
    {
        match self {
            Error::InvalidGroup(s) => {
                let mut r = String::from_str("invalid group identifier: ");
                r.append(s.as_str());
                r
            },
            Error::InvalidDevice(s) => {
                let mut r = String::from_str("invalid device identifier: ");
                r.append(s.as_str());
                r
            },
            Error::InvalidState(s) => {
                let mut r = String::from_str("invalid state: ");
                r.append(s.as_str());
                r.append(". Try on, off, 1, 0, true, false");
                r
            },
            Error::NotImplemented => String::from_str("encoding not implemented"),
            Error::PinDriver(s) => {
                let mut r = String::from_str("pin driver error: ");
                r.append(s.as_str());
                r
            },
        }
    }
}

} // verus!
