use vstd::prelude::*;
use vstd::string::StringSliceAdditionalSpecFns;

verus! {

pub type ConnResult<T> = Result<T, ConnError>;

/// A connection-level failure; these tear the connection down.
#[derive(Debug)]
pub enum ConnError {
    /// The stream ended inside a frame.
    Incomplete,
    /// The underlying transport failed; the payload is its message.
    Io(Vec<u8>),
    /// The peer closed with bytes still buffered.
    Reset,
}

/// Specification-level form of a connection error.
pub enum ConnErrV {
    Incomplete,
    Io(Seq<u8>),
    Reset,
}

impl View for ConnError {
    type V = ConnErrV;

    open spec fn view(&self) -> ConnErrV {
        match self {
            ConnError::Incomplete => ConnErrV::Incomplete,
            ConnError::Io(m) => ConnErrV::Io(m@),
            ConnError::Reset => ConnErrV::Reset,
        }
    }
}

/// Message text of a connection error.
pub open spec fn spec_conn_message(e: ConnErrV) -> Seq<u8> {
    match e {
        ConnErrV::Incomplete => ("stream ended early").spec_bytes(),
        ConnErrV::Io(m) => m,
        ConnErrV::Reset => ("Connection reset by peer").spec_bytes(),
    }
}

impl ConnError {
    /// The diagnostic text of this error.
    pub fn message(&self) -> (r: Vec<u8>)
        ensures
            r@ == spec_conn_message(self@),
    {
        let mut out: Vec<u8> = Vec::new();
        match self {
            ConnError::Incomplete => {
                out.extend_from_slice(("stream ended early").as_bytes());
            },
            ConnError::Io(m) => {
                out.extend_from_slice(m.as_slice());
            },
            ConnError::Reset => {
                out.extend_from_slice(("Connection reset by peer").as_bytes());
            },
        }
        out
    }
}

} // verus!
