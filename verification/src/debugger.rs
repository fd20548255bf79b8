//! The execution controller: one optional traced process, the breakpoint
//! table, and the transitions that operator commands cause.
//!
//! Spawning and killing the child are the embedding program's work. The
//! controller takes over a freshly spawned child with [`Debugger::start`] and
//! hands a child back for termination with [`Debugger::release`].

use crate::breakpoints::{
    all_installed, first_at, installs, original_byte, same_addresses, step_over_cut_short,
    step_over_failure, stepped_over, Breakpoint, BreakpointTable,
};
use crate::inferior::{
    is_call_failure, is_patch, replaced_byte, unwound, Frame, Inferior, Status, TraceError,
    TraceOp,
};
use crate::memory::{TRAP_BYTE, TRAP_WIDTH};
use vstd::prelude::*;

verus! {

/// Where the controller stands.
#[derive(Clone, Copy, Debug, PartialEq, Eq, Structural)]
pub enum ControllerState {
    /// No process is held and none has just exited.
    NoProcess,
    /// A process is held and no stop has been observed yet.
    Running,
    /// The held process stopped just behind a breakpoint's trap.
    StoppedAtBreakpoint,
    /// The held process stopped elsewhere, or was ended by a signal.
    StoppedOther,
    /// The process exited and its handle was let go.
    Exited,
}

/// A stop at `ip` is a stop at a breakpoint: the trap moves the instruction
/// pointer past itself, so the entry's address is one less.
pub open spec fn at_breakpoint(table: Seq<Breakpoint>, ip: usize) -> bool {
    ip >= TRAP_WIDTH && first_at(table, (ip - TRAP_WIDTH) as usize) is Some
}

/// The controller's state, from whether a process is held, the last status
/// seen and the table.
pub open spec fn state_of(holds_process: bool, last: Option<Status>, table: Seq<Breakpoint>)
    -> ControllerState {
    if holds_process {
        match last {
            None => ControllerState::Running,
            Some(Status::Stopped(_, ip)) => if at_breakpoint(table, ip) {
                ControllerState::StoppedAtBreakpoint
            } else {
                ControllerState::StoppedOther
            },
            Some(_) => ControllerState::StoppedOther,
        }
    } else {
        match last {
            Some(Status::Exited(_)) => ControllerState::Exited,
            _ => ControllerState::NoProcess,
        }
    }
}

/// The state in which a resume that reported `status` leaves the
/// controller: an exit lets the process go, any other report keeps it.
pub open spec fn state_after(status: Status, table: Seq<Breakpoint>) -> ControllerState {
    match status {
        Status::Exited(_) => ControllerState::Exited,
        Status::Stopped(_, ip) => if at_breakpoint(table, ip) {
            ControllerState::StoppedAtBreakpoint
        } else {
            ControllerState::StoppedOther
        },
        Status::Signaled(_) => ControllerState::StoppedOther,
    }
}

/// Between the records `before` and `after`, a process that stood at `ip`
/// was let run: stepped over the breakpoint just behind it, if the table has
/// one there, and then resumed.
pub open spec fn resumed_from(
    before: Seq<TraceOp>,
    after: Seq<TraceOp>,
    table: Seq<Breakpoint>,
    ip: usize,
) -> bool {
    if at_breakpoint(table, ip) {
        let entry = table[first_at(table, (ip - TRAP_WIDTH) as usize)->0];
        &&& after.len() == before.len() + 5
        &&& stepped_over(before, after.drop_last(), entry.addr, entry.saved->0)
        &&& after.last() == TraceOp::Resume
    } else {
        after == before.push(TraceOp::Resume)
    }
}

pub struct Debugger {
    inferior: Option<Inferior>,
    breakpoints: BreakpointTable,
    last: Option<Status>,
}

impl Debugger {
    /// The process that is held, if any.
    pub closed spec fn process(&self) -> Option<Inferior> {
        self.inferior
    }

    /// The breakpoint table, in the order of the requests.
    pub closed spec fn table(&self) -> Seq<Breakpoint> {
        self.breakpoints@
    }

    /// The status that the last resume reported, if any.
    pub closed spec fn last_status(&self) -> Option<Status> {
        self.last
    }

    /// While a process is held, every breakpoint is installed in it.
    pub open spec fn well_formed(&self) -> bool {
        self.process() is Some ==> all_installed(self.table())
    }

    pub open spec fn spec_state(&self) -> ControllerState {
        state_of(self.process() is Some, self.last_status(), self.table())
    }

    /// One `cont` that started with the instruction pointer at `ip` and
    /// returned `outcome` led from `pre` to `self`.
    pub open spec fn continued_from(
        &self,
        pre: Debugger,
        ip: usize,
        outcome: Result<Status, TraceError>,
    ) -> bool {
        &&& self.table() == pre.table()
        &&& match outcome {
            Ok(status) => {
                &&& self.last_status() == Some(status)
                &&& status is Exited <==> self.process() is None
                &&& self.process() is Some ==> self.process()->0.spec_pid()
                    == pre.process()->0.spec_pid() && self.process()->0.reads()
                    == pre.process()->0.reads() && resumed_from(
                    pre.process()->0.issued(),
                    self.process()->0.issued(),
                    pre.table(),
                    ip,
                )
            },
            Err(err) => {
                &&& self.last_status() == pre.last_status()
                &&& self.process() is Some
                &&& self.process()->0.spec_pid() == pre.process()->0.spec_pid()
                &&& self.process()->0.reads() == pre.process()->0.reads()
                &&& resume_cut_short(
                    pre.process()->0.issued(),
                    self.process()->0.issued(),
                    pre.table(),
                    ip,
                    err,
                )
            },
        }
    }

    /// A controller without a process and without breakpoints.
    pub fn new() -> (debugger: Debugger)
        ensures
            debugger.well_formed(),
            debugger.process() is None,
            debugger.last_status() is None,
            debugger.table() == Seq::<Breakpoint>::empty(),
            debugger.spec_state() == ControllerState::NoProcess,
    {
        Debugger { inferior: None, breakpoints: BreakpointTable::new(), last: None }
    }

    pub fn breakpoints(&self) -> (table: &BreakpointTable)
        ensures
            table@ == self.table(),
    {
        &self.breakpoints
    }

    pub fn inferior(&self) -> (inferior: Option<&Inferior>)
        ensures
            inferior is Some == self.process() is Some,
            inferior is Some ==> *inferior->0 == self.process()->0,
    {
        self.inferior.as_ref()
    }

    /// Where the controller stands.
    pub fn state(&self) -> (state: ControllerState)
        ensures
            state == self.spec_state(),
    {
        if self.inferior.is_some() {
            match self.last {
                None => ControllerState::Running,
                Some(Status::Stopped(_, ip)) => {
                    if ip >= TRAP_WIDTH && self.breakpoints.lookup(ip - TRAP_WIDTH).is_some() {
                        ControllerState::StoppedAtBreakpoint
                    } else {
                        ControllerState::StoppedOther
                    }
                },
                Some(_) => ControllerState::StoppedOther,
            }
        } else {
            match self.last {
                Some(Status::Exited(_)) => ControllerState::Exited,
                _ => ControllerState::NoProcess,
            }
        }
    }

    /// Lets go of the process, if one is held, so that it can be terminated.
    /// The breakpoints stay.
    pub fn release(&mut self) -> (released: Option<Inferior>)
        ensures
            released == old(self).process(),
            final(self).process() is None,
            final(self).last_status() is None,
            final(self).table() == old(self).table(),
            final(self).well_formed(),
            final(self).spec_state() == ControllerState::NoProcess,
    {
        self.last = None;
        self.inferior.take()
    }

    /// Takes over a child that was just spawned with tracing requested:
    /// installs every breakpoint of the table, in order, before the child
    /// executes anything, then lets it run to its first stop. The handle is
    /// kept unless the child exited or an operation failed.
    pub fn start(&mut self, pid: i32) -> (outcome: Result<Status, TraceError>)
        requires
            old(self).process() is None,
        ensures
            final(self).well_formed(),
            same_addresses(final(self).table(), old(self).table()),
            match outcome {
                Ok(status) => {
                    &&& all_installed(final(self).table())
                    &&& final(self).last_status() == Some(status)
                    &&& status is Exited <==> final(self).process() is None
                    &&& final(self).process() is Some ==> {
                        let log = final(self).process()->0.issued();
                        &&& final(self).process()->0.spec_pid() == pid
                        &&& log.len() == old(self).table().len() + 1
                        &&& installs(
                            Seq::empty(),
                            log.drop_last(),
                            final(self).table(),
                            old(self).table().len() as int,
                        )
                        &&& log.last() == TraceOp::Resume
                    }
                },
                Err(err) => {
                    &&& final(self).process() is None
                    &&& final(self).last_status() is None
                    &&& is_call_failure(err, true) || is_resume_failure(err)
                },
            },
            outcome is Ok ==> final(self).spec_state() == state_after(
                outcome->Ok_0,
                final(self).table(),
            ),
            outcome is Err ==> final(self).spec_state() == ControllerState::NoProcess,
    {
        let mut inferior = Inferior::from_pid(pid);
        self.last = None;
        match self.breakpoints.install_all(&mut inferior) {
            Err(err) => {
                return Err(err);
            },
            Ok(()) => {},
        }
        let ghost installed = inferior.issued();
        match inferior.continue_inferior() {
            Err(err) => Err(err),
            Ok(status) => {
                proof {
                    assert(inferior.issued().drop_last() =~= installed);
                    assert(installed.len() == old(self).table().len());
                }
                match status {
                    Status::Exited(_) => {},
                    _ => {
                        self.inferior = Some(inferior);
                    },
                }
                self.last = Some(status);
                Ok(status)
            },
        }
    }

    /// Lets the held process, which stands at `ip`, run to its next stop.
    /// If `ip` lies just behind a breakpoint, that breakpoint is stepped
    /// over first, so that it is hit again the next time. The handle is let
    /// go if the process exited. After a failure the handle is kept, and a
    /// breakpoint whose step-over was cut short may be left without its
    /// trap.
    pub fn cont_from(&mut self, ip: usize) -> (outcome: Result<Status, TraceError>)
        requires
            old(self).well_formed(),
            old(self).process() is Some,
        ensures
            final(self).well_formed(),
            final(self).continued_from(*old(self), ip, outcome),
            outcome is Ok ==> final(self).spec_state() == state_after(
                outcome->Ok_0,
                old(self).table(),
            ),
            outcome is Err ==> final(self).spec_state() == old(self).spec_state(),
    {
        let mut inferior = self.inferior.take().unwrap();
        let ghost before = inferior.issued();
        assert(before.subrange(0, before.len() as int) =~= before);
        if ip >= TRAP_WIDTH {
            match self.breakpoints.lookup(ip - TRAP_WIDTH) {
                Some(index) => {
                    match self.breakpoints.step_over(&mut inferior, index) {
                        Err(err) => {
                            self.inferior = Some(inferior);
                            return Err(err);
                        },
                        Ok(()) => {},
                    }
                },
                None => {},
            }
        }
        let ghost mid = inferior.issued();
        match inferior.continue_inferior() {
            Err(err) => {
                proof {
                    if inferior.issued() != mid {
                        assert(inferior.issued().drop_last() =~= mid);
                    }
                }
                self.inferior = Some(inferior);
                Err(err)
            },
            Ok(status) => {
                proof {
                    assert(inferior.issued().drop_last() =~= mid);
                }
                match status {
                    Status::Exited(_) => {},
                    _ => {
                        self.inferior = Some(inferior);
                    },
                }
                self.last = Some(status);
                Ok(status)
            },
        }
    }

    /// Lets the held process run to its next stop, stepping over the
    /// breakpoint it stands on, if any. Without a process nothing happens
    /// and `Ok(None)` is returned. If the instruction pointer cannot be
    /// read, nothing has changed.
    pub fn cont(&mut self) -> (outcome: Result<Option<Status>, TraceError>)
        requires
            old(self).well_formed(),
        ensures
            final(self).well_formed(),
            final(self).table() == old(self).table(),
            old(self).process() is None ==> outcome == Ok::<Option<Status>, TraceError>(None)
                && final(self).process() is None && final(self).last_status() == old(
                self,
            ).last_status(),
            old(self).process() is Some ==> match outcome {
                Ok(None) => false,
                Ok(Some(status)) => exists|ip: usize|
                    final(self).continued_from(*old(self), ip, Ok(status)),
                Err(err) => exists|ip: usize| final(self).continued_from(*old(self), ip, Err(err)),
            },
    {
        let ip: usize = match &self.inferior {
            None => {
                return Ok(None);
            },
            Some(inferior) => match inferior.rip() {
                Ok(ip) => ip,
                Err(err) => {
                    assert(self.continued_from(*old(self), 0, Err(err)));
                    return Err(err);
                },
            },
        };
        match self.cont_from(ip) {
            Ok(status) => Ok(Some(status)),
            Err(err) => Err(err),
        }
    }

    /// Adds a breakpoint at `addr` and returns its ordinal. Without a
    /// process the address is only recorded. With one, the trap is put in
    /// at once and the byte that stood there before any trap is stored: the
    /// byte replaced, or, where the table already has an entry at that
    /// address, the byte which that entry holds. If the patch fails, the
    /// table is left as it was.
    pub fn add_breakpoint(&mut self, addr: usize) -> (outcome: Result<usize, TraceError>)
        requires
            old(self).well_formed(),
        ensures
            final(self).well_formed(),
            final(self).last_status() == old(self).last_status(),
            final(self).process() is Some == old(self).process() is Some,
            old(self).process() is None ==> outcome == Ok::<usize, TraceError>(
                old(self).table().len() as usize,
            ) && final(self).table() == old(self).table().push(Breakpoint { addr, saved: None }),
            old(self).process() is Some ==> {
                let before = old(self).process()->0.issued();
                let after = final(self).process()->0.issued();
                &&& final(self).process()->0.spec_pid() == old(self).process()->0.spec_pid()
                &&& final(self).process()->0.reads() == old(self).process()->0.reads()
                &&& match outcome {
                    Ok(index) => {
                        &&& index == old(self).table().len()
                        &&& after.len() == before.len() + 1
                        &&& after.drop_last() == before
                        &&& is_patch(after.last(), addr, TRAP_BYTE)
                        &&& final(self).table() == old(self).table().push(
                            Breakpoint {
                                addr,
                                saved: Some(
                                    original_byte(
                                        old(self).table(),
                                        addr,
                                        replaced_byte(after.last(), addr),
                                    ),
                                ),
                            },
                        )
                    },
                    Err(err) => {
                        &&& final(self).table() == old(self).table()
                        &&& after == before
                        &&& is_call_failure(err, true)
                    },
                }
            },
    {
        match self.inferior.take() {
            None => Ok(self.breakpoints.request(addr)),
            Some(mut inferior) => {
                let patched = inferior.write_byte(addr, TRAP_BYTE);
                self.inferior = Some(inferior);
                match patched {
                    Ok(read) => Ok(self.breakpoints.record_patched(addr, read)),
                    Err(err) => Err(err),
                }
            },
        }
    }

    /// One step of unwinding in the held process: that of
    /// [`Inferior::next_frame`]. It changes nothing but the record of
    /// reads.
    pub fn next_frame(&mut self, frame: Frame, in_entry_function: bool) -> (next: Result<
        Option<Frame>,
        TraceError,
    >)
        requires
            old(self).well_formed(),
            old(self).process() is Some,
        ensures
            final(self).well_formed(),
            final(self).table() == old(self).table(),
            final(self).last_status() == old(self).last_status(),
            final(self).process() is Some,
            final(self).process()->0.spec_pid() == old(self).process()->0.spec_pid(),
            final(self).process()->0.issued() == old(self).process()->0.issued(),
            unwound(
                old(self).process()->0.reads(),
                final(self).process()->0.reads(),
                frame,
                in_entry_function,
                next,
            ),
    {
        let mut inferior = self.inferior.take().unwrap();
        let next = inferior.next_frame(frame, in_entry_function);
        self.inferior = Some(inferior);
        next
    }
}

/// Between the records `before` and `after`, letting a process run from
/// `ip` was begun and ended in a failure: either the step-over of the
/// breakpoint just behind `ip` was cut short, or it was completed and the
/// resume failed, before or after the process was let go on.
///
/// The error is that of the operation that failed: see
/// [`step_over_failure`] and [`is_resume_failure`].
pub open spec fn resume_cut_short(
    before: Seq<TraceOp>,
    after: Seq<TraceOp>,
    table: Seq<Breakpoint>,
    ip: usize,
    err: TraceError,
) -> bool {
    if at_breakpoint(table, ip) {
        let entry = table[first_at(table, (ip - TRAP_WIDTH) as usize)->0];
        ||| {
            &&& step_over_cut_short(before, after, entry.addr, entry.saved->0)
            &&& step_over_failure(after.len() - before.len(), err)
        }
        ||| {
            &&& stepped_over(before, after, entry.addr, entry.saved->0)
            &&& is_resume_failure(err)
        }
        ||| {
            &&& after.len() == before.len() + 5
            &&& stepped_over(before, after.drop_last(), entry.addr, entry.saved->0)
            &&& after.last() == TraceOp::Resume
            &&& is_resume_failure(err)
        }
    } else {
        (after == before || after == before.push(TraceOp::Resume)) && is_resume_failure(err)
    }
}

/// `err` is how a failed resume, or a failed read of the instruction
/// pointer, is reported: a failed call that is no memory access, or a
/// state of the child that tracing never produces.
pub open spec fn is_resume_failure(err: TraceError) -> bool {
    err == TraceError::UnexpectedStatus || is_call_failure(err, false)
}

} // verus!
