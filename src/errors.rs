use vstd::prelude::*;

use crate::win;

verus! {

/// Why monitoring stopped.
#[derive(Clone, Copy, Debug, PartialEq, Eq, Structural)]
pub enum Error {
    /// An operating-system call failed.
    Windows(win::Error),
    /// The target process is not running.
    NoProcess,
}

pub type HcbResult<T> = Result<T, Error>;

impl Error {
    /// Whether the caller should wait and attach again rather than give up:
    /// the process is gone, or the device is not ready yet.
    pub fn is_retryable(&self) -> (r: bool)
        ensures
            r == match *self {
                Error::NoProcess => true,
                Error::Windows(e) => e.code == win::DEVICE_NOT_READY,
            },
    {
        match self {
            Error::NoProcess => true,
            Error::Windows(e) => e.code == win::DEVICE_NOT_READY,
        }
    }
}

impl From<win::Error> for Error {
    fn from(err: win::Error) -> (r: Error)
        ensures
            r == Error::Windows(err),
    {
        Error::Windows(err)
    }
}

impl vstd::std_specs::convert::FromSpecImpl<win::Error> for Error {
    open spec fn obeys_from_spec() -> bool {
        true
    }

    open spec fn from_spec(err: win::Error) -> Error {
        Error::Windows(err)
    }
}

} // verus!
