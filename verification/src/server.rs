use vstd::prelude::*;
use vstd::string::StringExecFns;

use crate::audit::LogEntry;
use crate::audit::LogEntryV;
use crate::audit::Logger;

verus! {

/// How starting or stopping the service fails: it is already in the state
/// asked for, or it cannot start because the host never handed it the
/// shared application state.
pub enum LifecycleError {
    AlreadyRunning,
    NotRunning,
    HandleNotSet,
}

impl LifecycleError {
    /// The error's descriptive text.
    pub fn message(&self) -> (r: String)
        ensures
            self is AlreadyRunning ==> r@ == "Server is already running"@,
            self is NotRunning ==> r@ == "Server is not running"@,
            self is HandleNotSet ==> r@ == "App handle is not set"@,
    {
        match self {
            LifecycleError::AlreadyRunning => String::from_str("Server is already running"),
            LifecycleError::NotRunning => String::from_str("Server is not running"),
            LifecycleError::HandleNotSet => String::from_str("App handle is not set"),
        }
    }
}

/// The service lifecycle: a single instance that is either stopped or
/// running, owns the audit log, and can only start once the host has handed
/// it the shared application state. The host performs the actual listening;
/// this state machine decides, and its answers say exactly when each
/// transition is allowed.
pub struct JsonRpcServer {
    pub running: bool,
    pub has_handle: bool,
    pub logger: Logger,
}

impl JsonRpcServer {
    pub open spec fn spec_running(&self) -> bool {
        self.running
    }

    pub open spec fn spec_has_handle(&self) -> bool {
        self.has_handle
    }

    pub open spec fn wf(&self) -> bool {
        self.logger.wf()
    }

    /// A fresh instance: stopped, without the host handle, with an empty
    /// audit log.
    pub fn new() -> (r: JsonRpcServer)
        ensures
            !r.spec_running(),
            !r.spec_has_handle(),
            r.logger@ =~= Seq::<LogEntryV>::empty(),
            r.wf(),
    {
        JsonRpcServer { running: false, has_handle: false, logger: Logger::new() }
    }

    /// Records that the host handed over its shared application state.
    pub fn set_app_handle(&mut self)
        ensures
            final(self).spec_has_handle(),
            final(self).spec_running() == old(self).spec_running(),
            final(self).logger == old(self).logger,
    {
        self.has_handle = true;
    }

    /// Starts the service: fails when it is already running, or when the
    /// host handle was never set; otherwise the service is running
    /// afterwards. Nothing else changes in any case.
    pub fn start(&mut self) -> (r: Result<(), LifecycleError>)
        ensures
            final(self).logger == old(self).logger,
            final(self).spec_has_handle() == old(self).spec_has_handle(),
            old(self).spec_running() ==> (r matches Result::Err(e) && e is AlreadyRunning
                && final(self).spec_running()),
            !old(self).spec_running() && !old(self).spec_has_handle() ==> (r matches Result::Err(e)
                && e is HandleNotSet && !final(self).spec_running()),
            !old(self).spec_running() && old(self).spec_has_handle() ==> r is Ok
                && final(self).spec_running(),
    {
        if self.running {
            return Result::Err(LifecycleError::AlreadyRunning);
        }
        if !self.has_handle {
            return Result::Err(LifecycleError::HandleNotSet);
        }
        self.running = true;
        Result::Ok(())
    }

    /// Stops the service: fails when it is not running; otherwise the
    /// service is stopped afterwards. Nothing else changes in any case.
    pub fn stop(&mut self) -> (r: Result<(), LifecycleError>)
        ensures
            final(self).logger == old(self).logger,
            final(self).spec_has_handle() == old(self).spec_has_handle(),
            !old(self).spec_running() ==> (r matches Result::Err(e) && e is NotRunning
                && !final(self).spec_running()),
            old(self).spec_running() ==> r is Ok && !final(self).spec_running(),
    {
        if !self.running {
            return Result::Err(LifecycleError::NotRunning);
        }
        self.running = false;
        Result::Ok(())
    }

    /// Whether the service is running.
    pub fn is_running(&self) -> (r: bool)
        ensures
            r == self.spec_running(),
    {
        self.running
    }

    /// Copy of the audit log, oldest entry first.
    pub fn get_logs(&self) -> (r: Vec<LogEntry>)
        ensures
            r@.len() == self.logger@.len(),
            forall|i: int| 0 <= i < r@.len() ==> r@[i]@ == self.logger@[i],
    {
        self.logger.get_logs()
    }

    /// Empties the audit log.
    pub fn clear_logs(&mut self)
        ensures
            final(self).logger@ =~= Seq::<LogEntryV>::empty(),
            final(self).spec_running() == old(self).spec_running(),
            final(self).spec_has_handle() == old(self).spec_has_handle(),
            final(self).wf(),
    {
        self.logger.clear_logs();
    }
}

} // verus!
