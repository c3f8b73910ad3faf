use vstd::prelude::*;

verus! {

/// The operating system's code for a device whose drivers could not be loaded.
pub const DEVICE_NOT_READY: u32 = 31;

/// What the system says of a device whose drivers could not be loaded.
pub open spec fn device_not_ready_text() -> Seq<char> {
    "This device is not working properly because Windows cannot load the drivers required for this device."@
}

/// An operating-system error, by its numeric code.
#[derive(Clone, Copy, Debug, PartialEq, Eq, Structural)]
pub struct Error {
    pub code: u32,
}

impl Error {
    pub fn new(code: u32) -> (e: Error)
        ensures
            e.code == code,
    {
        Error { code }
    }

    pub fn code(&self) -> (r: u32)
        ensures
            r == self.code,
    {
        self.code
    }

    /// A description for the codes that this program meets and explains.
    pub fn description(&self) -> (r: Option<&'static str>)
        ensures
            r.is_some() == (self.code == DEVICE_NOT_READY),
            r matches Some(d) ==> d@ == device_not_ready_text(),
    {
        if self.code == DEVICE_NOT_READY {
            Some(
                "This device is not working properly because Windows cannot load the drivers required for this device.",
            )
        } else {
            None
        }
    }
}

pub type WinResult<T> = Result<T, Error>;

} // verus!
