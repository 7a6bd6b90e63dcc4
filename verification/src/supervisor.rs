//! The backend supervisor: the lifecycle of the external rebalancing
//! process as a state machine.  Spawning, polling and killing the process
//! are the caller's concern; the supervisor decides what each observation
//! means and when a new start is permitted.

use vstd::prelude::*;
use vstd::string::StringExecFns;

verus! {

/// The observed lifecycle state of the backend process.
#[derive(Clone, Copy, Debug, PartialEq, Eq, Structural)]
pub enum SupervisorStatus {
    /// Not running; stopped by the user or never started.
    Stopped,
    /// A start was requested and the spawn is in flight.
    Starting,
    /// The process was spawned and has not been seen to die.
    Running,
    /// The process ended on its own, with the exit code the poll reported.
    Exited(i32),
    /// The spawn failed, or a liveness poll could not be carried out.
    Errored,
}

/// What one liveness poll of the spawned process reported.
#[derive(Clone, Copy, Debug, PartialEq, Eq, Structural)]
pub enum PollEvent {
    StillRunning,
    Exited(i32),
    PollFailed,
}

/// The supervisor's state: the backend's status and whether a process
/// handle is held.
#[derive(Clone, Copy, Debug, PartialEq, Eq, Structural)]
pub struct Supervisor {
    pub status: SupervisorStatus,
    pub handle_present: bool,
}

/// A handle is held exactly while the process is believed to run.
pub open spec fn wf(s: Supervisor) -> bool {
    s.handle_present <==> s.status is Running
}

/// A new start is permitted only with no live process and no leftover
/// handle.
pub open spec fn spec_can_start(s: Supervisor) -> bool {
    !s.handle_present && !(s.status is Running) && !(s.status is Starting)
}

/// A start request moves the supervisor to `Starting`.
pub open spec fn spec_begin_start(s: Supervisor) -> Supervisor {
    Supervisor { status: SupervisorStatus::Starting, ..s }
}

/// The spawn's outcome: a handle and `Running` on success, `Errored` with
/// no handle on failure.
pub open spec fn spec_on_spawn(s: Supervisor, ok: bool) -> Supervisor {
    if ok {
        Supervisor { status: SupervisorStatus::Running, handle_present: true }
    } else {
        Supervisor { status: SupervisorStatus::Errored, handle_present: false }
    }
}

/// A liveness poll: a live process changes nothing; a death releases the
/// handle and records the exit code; a failed poll is treated as a death
/// into `Errored`.
pub open spec fn spec_on_poll(s: Supervisor, ev: PollEvent) -> Supervisor {
    match ev {
        PollEvent::StillRunning => s,
        PollEvent::Exited(code) => Supervisor {
            status: SupervisorStatus::Exited(code),
            handle_present: false,
        },
        PollEvent::PollFailed => Supervisor {
            status: SupervisorStatus::Errored,
            handle_present: false,
        },
    }
}

/// A stop request: best-effort and idempotent, it always ends `Stopped`
/// with no handle.
pub open spec fn spec_request_stop(s: Supervisor) -> Supervisor {
    Supervisor { status: SupervisorStatus::Stopped, handle_present: false }
}

impl Supervisor {
    /// A fresh supervisor: stopped, holding nothing.
    pub fn new() -> (r: Self)
        ensures
            r.status == SupervisorStatus::Stopped,
            !r.handle_present,
            wf(r),
            spec_can_start(r),
    {
        Supervisor { status: SupervisorStatus::Stopped, handle_present: false }
    }

    /// Whether a start request is permitted now.
    pub fn can_start(&self) -> (r: bool)
        ensures
            r == spec_can_start(*self),
    {
        !self.handle_present && !(matches!(self.status, SupervisorStatus::Running))
            && !(matches!(self.status, SupervisorStatus::Starting))
    }

    /// Records that a start was requested and the spawn is in flight.
    pub fn begin_start(&mut self)
        requires
            wf(*old(self)),
            spec_can_start(*old(self)),
        ensures
            *final(self) == spec_begin_start(*old(self)),
            final(self).status == SupervisorStatus::Starting,
            !final(self).handle_present,
    {
        self.status = SupervisorStatus::Starting;
    }

    /// Records the spawn's outcome.
    pub fn on_spawn_result(&mut self, ok: bool)
        requires
            old(self).status == SupervisorStatus::Starting,
            !old(self).handle_present,
        ensures
            *final(self) == spec_on_spawn(*old(self), ok),
            wf(*final(self)),
            ok ==> final(self).status == SupervisorStatus::Running,
            !ok ==> final(self).status == SupervisorStatus::Errored && spec_can_start(
                *final(self),
            ),
    {
        if ok {
            self.status = SupervisorStatus::Running;
            self.handle_present = true;
        } else {
            self.status = SupervisorStatus::Errored;
            self.handle_present = false;
        }
    }

    /// Records what a liveness poll of the held process reported.
    pub fn on_poll(&mut self, ev: PollEvent)
        requires
            wf(*old(self)),
            old(self).status == SupervisorStatus::Running,
        ensures
            *final(self) == spec_on_poll(*old(self), ev),
            wf(*final(self)),
            ev is StillRunning ==> *final(self) == *old(self),
            !(ev is StillRunning) ==> !final(self).handle_present && spec_can_start(*final(self)),
    {
        match ev {
            PollEvent::StillRunning => {},
            PollEvent::Exited(code) => {
                self.status = SupervisorStatus::Exited(code);
                self.handle_present = false;
            },
            PollEvent::PollFailed => {
                self.status = SupervisorStatus::Errored;
                self.handle_present = false;
            },
        }
    }

    /// Records a stop request; idempotent, a no-op state apart from ending
    /// `Stopped`.
    pub fn request_stop(&mut self)
        ensures
            *final(self) == spec_request_stop(*old(self)),
            wf(*final(self)),
            spec_can_start(*final(self)),
    {
        self.status = SupervisorStatus::Stopped;
        self.handle_present = false;
    }
}

/// The backend's command line: the interpreter and its arguments, with the
/// configuration file's path handed through as the last argument.
pub fn backend_invocation(config_path: &str) -> (r: (String, Vec<String>))
    ensures
        r.0@ == "python"@,
        r.1@.len() == 4,
        r.1@[0]@ == "-m"@,
        r.1@[1]@ == "backend.main"@,
        r.1@[2]@ == "--config"@,
        r.1@[3]@ == config_path@,
{
    let program = String::from_str("python");
    let mut args: Vec<String> = Vec::new();
    args.push(String::from_str("-m"));
    args.push(String::from_str("backend.main"));
    args.push(String::from_str("--config"));
    args.push(String::from_str(config_path));
    (program, args)
}

/// Supervisor scenario: a permitted start passes through `Starting` to
/// `Running`; a poll that still sees the process keeps it `Running`; when
/// the process is killed outside, the next poll reports the exit, releases
/// the handle, and a new start is permitted again.
pub proof fn lemma_supervisor_restart_cycle(s0: Supervisor, code: i32)
    requires
        wf(s0),
        spec_can_start(s0),
    ensures
        ({
            let s1 = spec_begin_start(s0);
            let s2 = spec_on_spawn(s1, true);
            let s3 = spec_on_poll(s2, PollEvent::StillRunning);
            let s4 = spec_on_poll(s3, PollEvent::Exited(code));
            &&& s2.status == SupervisorStatus::Running && s2.handle_present
            &&& s3 == s2
            &&& s4.status == SupervisorStatus::Exited(code)
            &&& !s4.handle_present
            &&& spec_can_start(s4)
        }),
{
}

} // verus!
