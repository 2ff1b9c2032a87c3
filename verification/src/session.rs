use vstd::prelude::*;

verus! {

/// Why a capture session did not start.
#[derive(Clone, Copy, PartialEq, Eq, Debug)]
pub enum CaptureError {
    /// A session is running already.
    AlreadyActive,
    /// There is no default output device, or it could not be opened for loopback capture.
    DeviceUnavailable,
    /// The device was opened but its stream did not start.
    StreamStartFailure,
}

/// The call on the audio source that failed while a session started.
#[derive(Clone, Copy, PartialEq, Eq, Debug)]
pub enum StartupStage {
    /// Opening the device.
    Open,
    /// Starting its stream.
    Start,
}

/// Where a capture session stands in its life cycle.
#[derive(Clone, Copy, PartialEq, Eq, Debug)]
pub enum SessionState {
    /// No session is running.
    Idle,
    /// A session is running, or is being started.
    Active,
}

impl SessionState {
    /// Answer to a request to start: refused while a session is running.
    pub open spec fn start_result(self) -> Result<(), CaptureError> {
        match self {
            SessionState::Idle => Ok(()),
            SessionState::Active => Err(CaptureError::AlreadyActive),
        }
    }

    /// State after a request to start: a session is running, the old one or the new one.
    pub open spec fn after_start(self) -> SessionState {
        SessionState::Active
    }

    /// State after a request to stop.
    pub open spec fn after_stop(self) -> SessionState {
        SessionState::Idle
    }

    /// Whether a request to stop finds a capture thread to wait for.
    pub open spec fn stop_joins(self) -> bool {
        self == SessionState::Active
    }
}

/// The error that a failed call on the audio source stands for.
pub open spec fn startup_error(stage: StartupStage) -> CaptureError {
    match stage {
        StartupStage::Open => CaptureError::DeviceUnavailable,
        StartupStage::Start => CaptureError::StreamStartFailure,
    }
}

/// Stopping is idempotent. A request to stop is answered in every state; after it no session
/// runs, and a second request finds the same state and no thread to wait for.
pub proof fn lemma_stop_is_idempotent(state: SessionState)
    ensures
        state.after_stop() == SessionState::Idle,
        state.after_stop().after_stop() == state.after_stop(),
        !state.after_stop().stop_joins(),
        SessionState::Idle.after_stop() == SessionState::Idle,
        !SessionState::Idle.stop_joins(),
{
}

/// After a stop a session can be started again at once.
pub proof fn lemma_restart_after_stop(state: SessionState)
    ensures
        state.after_stop().start_result() is Ok,
{
}

/// Life cycle of a capture session.
pub struct CaptureSession {
    active: bool,
}

impl View for CaptureSession {
    type V = SessionState;

    closed spec fn view(&self) -> SessionState {
        if self.active {
            SessionState::Active
        } else {
            SessionState::Idle
        }
    }
}

impl CaptureSession {
    /// An idle life cycle.
    pub fn new() -> (session: Self)
        ensures
            session@ == SessionState::Idle,
    {
        CaptureSession { active: false }
    }

    /// Whether a session is running.
    pub fn is_active(&self) -> (active: bool)
        ensures
            active == (self@ == SessionState::Active),
    {
        self.active
    }

    /// Claims the session. It fails, and changes nothing, if a session is running already.
    pub fn start(&mut self) -> (result: Result<(), CaptureError>)
        ensures
            result == old(self)@.start_result(),
            final(self)@ == old(self)@.after_start(),
    {
        if self.active {
            return Err(CaptureError::AlreadyActive);
        }
        self.active = true;
        Ok(())
    }

    /// Gives the session up after the audio source has failed at `stage`, and names the error
    /// for the caller of `start`.
    pub fn startup_failed(&mut self, stage: StartupStage) -> (error: CaptureError)
        ensures
            final(self)@ == SessionState::Idle,
            error == startup_error(stage),
    {
        self.active = false;
        match stage {
            StartupStage::Open => CaptureError::DeviceUnavailable,
            StartupStage::Start => CaptureError::StreamStartFailure,
        }
    }

    /// Ends the session and says whether one was running, that is whether there is a capture
    /// thread to wait for. It never fails.
    pub fn stop(&mut self) -> (join: bool)
        ensures
            final(self)@ == old(self)@.after_stop(),
            join == old(self)@.stop_joins(),
    {
        let join = self.active;
        self.active = false;
        join
    }
}

} // verus!
