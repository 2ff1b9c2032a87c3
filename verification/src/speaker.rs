use crate::session::CaptureError;
use vstd::prelude::*;

verus! {

/// Audio source for platforms without loopback capture. It meets the life cycle of a source
/// but never yields a sample and never fails.
pub struct Backend {}

impl Backend {
    /// A source for the given device. The device is not looked at.
    pub fn new(device_id: Option<String>) -> (backend: Self)
        ensures
            backend == (Backend {  }),
    {
        Backend {  }
    }

    /// Starts nothing and succeeds.
    pub fn start(&mut self) -> (result: Result<(), CaptureError>)
        ensures
            result is Ok,
            *final(self) == *old(self),
    {
        Ok(())
    }

    /// Stops nothing and succeeds.
    pub fn stop(&mut self) -> (result: Result<(), CaptureError>)
        ensures
            result is Ok,
            *final(self) == *old(self),
    {
        Ok(())
    }
}

} // verus!
