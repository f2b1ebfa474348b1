//! The library's error taxonomy.

use vstd::prelude::*;

verus! {

/// Error type returned by library functions.
#[derive(Debug, PartialEq, Eq)]
pub enum Error {
    /// Received unexpected data of some sort: a framing violation, a parse
    /// failure of a structured payload, or an unexpected wire id.
    UnexpectedData(String),
    /// The server answered a service request with FAIL and this message.
    ServiceError(String),
    /// Attempted an operation that should be supported, but isn't implemented yet.
    UnimplementedOperation(String),
    /// A socket address specification failed to parse.
    SocketSpecInvalid,
    /// Attempted to connect to a tcp or vsock `SocketSpec` that didn't have a host.
    SocketSpecMissingHost,
    /// Attempted to use a `SocketSpec` that is unavailable on the current platform.
    SocketSpecUnsupportedType,
    /// An underlying transport failure, described by its message.
    IoError(String),
}

/// The mathematical value of an [`Error`]: messages become character sequences.
pub enum ErrorView {
    UnexpectedData { msg: Seq<char> },
    ServiceError { msg: Seq<char> },
    UnimplementedOperation { msg: Seq<char> },
    SocketSpecInvalid,
    SocketSpecMissingHost,
    SocketSpecUnsupportedType,
    IoError { msg: Seq<char> },
}

impl View for Error {
    type V = ErrorView;

    open spec fn view(&self) -> ErrorView {
        match self {
            Error::UnexpectedData(m) => ErrorView::UnexpectedData { msg: m@ },
            Error::ServiceError(m) => ErrorView::ServiceError { msg: m@ },
            Error::UnimplementedOperation(m) => ErrorView::UnimplementedOperation { msg: m@ },
            Error::SocketSpecInvalid => ErrorView::SocketSpecInvalid,
            Error::SocketSpecMissingHost => ErrorView::SocketSpecMissingHost,
            Error::SocketSpecUnsupportedType => ErrorView::SocketSpecUnsupportedType,
            Error::IoError(m) => ErrorView::IoError { msg: m@ },
        }
    }
}

/// The value of a `Result` whose error side is the library's [`Error`],
/// with both sides replaced by their mathematical views.
pub open spec fn result_view<T: View>(r: Result<T, Error>) -> Result<T::V, ErrorView> {
    match r {
        Ok(t) => Ok(t@),
        Err(e) => Err(e@),
    }
}

} // verus!
