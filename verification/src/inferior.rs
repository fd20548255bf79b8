//! The handle on a traced child process: resuming, single-stepping, reading
//! the instruction pointer and patching single bytes of its memory.
//!
//! What the operating system answers cannot be predicted, so the handle keeps
//! two ghost records: one of every operation that changed the child, and one
//! of every word that unwinding read from its stack. Contracts state exactly
//! which operations a call issued, with which operands, and how its result
//! comes from what was read.

use crate::memory::{
    align_addr_to_word, byte_of, splice_byte, spliced, word_base, word_offset, TRAP_WIDTH,
    WORD_BYTES,
};
use crate::command::same_text;
use vstd::prelude::*;

verus! {

/// The error type of the tracing calls. Opaque here: only
/// [`TraceError::from_errno`] looks at the number it carries.
#[verifier::external_type_specification]
#[verifier::external_body]
pub struct ExTraceFault(nix::Error);

/// The general-purpose register snapshot of an x86-64 process. Opaque here.
#[verifier::external_type_specification]
#[verifier::external_body]
pub struct ExRegisters(nix::libc::user_regs_struct);

/// "No such process": the child is gone, not traced or not stopped.
pub const ESRCH: i32 = 3;

/// "I/O error": the tracing call touched an unmapped address.
pub const EIO: i32 = 5;

/// "Bad address": the tracing call touched an unmapped address.
pub const EFAULT: i32 = 14;

/// Why a tracing operation failed.
#[derive(Clone, Copy, Debug, PartialEq, Eq, Structural)]
pub enum TraceError {
    /// A memory access hit an address that is not mapped in the child.
    InvalidAddress,
    /// The child is gone, or is not stopped under this tracer.
    NoSuchProcess,
    /// The child changed state in a way that tracing never produces.
    UnexpectedStatus,
    /// Any other failure of the operating system, with its error number.
    Os(i32),
    /// A failure that carries no error number.
    Other,
}

impl TraceError {
    /// The error that an error number stands for. Only a memory access can
    /// fail with an invalid address.
    pub open spec fn spec_from_errno(code: Option<i32>, memory_access: bool) -> TraceError {
        match code {
            None => TraceError::Other,
            Some(n) => if n == ESRCH {
                TraceError::NoSuchProcess
            } else if memory_access && (n == EIO || n == EFAULT) {
                TraceError::InvalidAddress
            } else {
                TraceError::Os(n)
            },
        }
    }

    /// Classifies an error number of a failed tracing call.
    pub fn from_errno(code: Option<i32>, memory_access: bool) -> (err: TraceError)
        ensures
            err == Self::spec_from_errno(code, memory_access),
    {
        match code {
            None => TraceError::Other,
            Some(n) => if n == ESRCH {
                TraceError::NoSuchProcess
            } else if memory_access && (n == EIO || n == EFAULT) {
                TraceError::InvalidAddress
            } else {
                TraceError::Os(n)
            },
        }
    }
}

/// What a wait on the child reported, before the instruction pointer is
/// known. Signals are carried by number.
#[derive(Clone, Copy, Debug, PartialEq, Eq, Structural)]
pub enum WaitEvent {
    Exited(i32),
    Signaled(i32),
    Stopped(i32),
    /// Any report that a traced, blocking wait should never give.
    Unexpected,
}

/// The state of the child after it last changed state.
#[derive(Clone, Copy, Debug, PartialEq, Eq, Structural)]
pub enum Status {
    /// Stopped by the given signal at the given instruction pointer.
    Stopped(i32, usize),
    /// Exited normally with the given code.
    Exited(i32),
    /// Killed by the given signal.
    Signaled(i32),
}

impl Status {
    /// The status for a wait report, given the instruction pointer at which
    /// a stopped child stands.
    pub open spec fn spec_from_event(event: WaitEvent, ip: usize) -> Result<Status, TraceError> {
        match event {
            WaitEvent::Exited(code) => Ok(Status::Exited(code)),
            WaitEvent::Signaled(signal) => Ok(Status::Signaled(signal)),
            WaitEvent::Stopped(signal) => Ok(Status::Stopped(signal, ip)),
            WaitEvent::Unexpected => Err(TraceError::UnexpectedStatus),
        }
    }

    /// Turns a wait report into a status; `ip` is used for a stop only.
    pub fn from_event(event: WaitEvent, ip: usize) -> (status: Result<Status, TraceError>)
        ensures
            status == Self::spec_from_event(event, ip),
    {
        match event {
            WaitEvent::Exited(code) => Ok(Status::Exited(code)),
            WaitEvent::Signaled(signal) => Ok(Status::Signaled(signal)),
            WaitEvent::Stopped(signal) => Ok(Status::Stopped(signal, ip)),
            WaitEvent::Unexpected => Err(TraceError::UnexpectedStatus),
        }
    }
}

/// One operation that changed the child.
pub enum TraceOp {
    /// The word at `addr` was read as `before` and overwritten with `after`.
    Poke { addr: usize, before: u64, after: u64 },
    /// The instruction pointer was read as `from` and set back by the width
    /// of the trap instruction, to `from - 1`.
    Rewind { from: usize },
    /// One instruction was executed.
    Step,
    /// The child ran until its next stop.
    Resume,
}

/// `op` replaced the byte at `addr` by `val` and left the other bytes of the
/// word as they were read.
pub open spec fn is_patch(op: TraceOp, addr: usize, val: u8) -> bool {
    &&& op is Poke
    &&& op->addr as int == word_base(addr as int)
    &&& op->after == spliced(op->before, word_offset(addr as int) as u64, val)
}

/// The byte that stood at `addr` when the patch `op` read its word.
pub open spec fn replaced_byte(op: TraceOp, addr: usize) -> u8 {
    byte_of(op->before, word_offset(addr as int) as u64)
}

/// A call frame: where it executes and where its frame base lies.
#[derive(Clone, Copy, Debug, PartialEq, Eq, Structural)]
pub struct Frame {
    pub ip: usize,
    pub base: usize,
}

/// The error number inside a failure of a tracing call, by
/// `nix::Error::as_errno`; `None` for a failure that carries none. Nothing
/// is claimed of the number.
#[verifier::external_body]
fn errno_code(fault: &nix::Error) -> (code: Option<i32>) {
    fault.as_errno().map(|errno| errno as i32)
}

/// `nix::sys::ptrace::read`: one word of the child's memory. Nothing is
/// claimed of the word.
#[verifier::external_body]
fn peek_word(pid: i32, addr: usize) -> (word: Result<u64, nix::Error>) {
    nix::sys::ptrace::read(
        nix::unistd::Pid::from_raw(pid),
        addr as nix::sys::ptrace::AddressType,
    ).map(|word| word as u64)
}

/// `nix::sys::ptrace::write`: stores one word into the child's memory.
/// Nothing is claimed of whether it succeeds.
#[verifier::external_body]
fn poke_word(pid: i32, addr: usize, word: u64) -> (done: Result<(), nix::Error>) {
    nix::sys::ptrace::write(
        nix::unistd::Pid::from_raw(pid),
        addr as nix::sys::ptrace::AddressType,
        word as nix::sys::ptrace::AddressType,
    )
}

/// `nix::sys::ptrace::getregs`: the child's registers. Nothing is claimed
/// of them.
#[verifier::external_body]
fn get_registers(pid: i32) -> (regs: Result<nix::libc::user_regs_struct, nix::Error>) {
    nix::sys::ptrace::getregs(nix::unistd::Pid::from_raw(pid))
}

/// `nix::sys::ptrace::setregs`: replaces the child's registers. Nothing is
/// claimed of whether it succeeds.
#[verifier::external_body]
fn set_registers(pid: i32, regs: nix::libc::user_regs_struct) -> (done: Result<(), nix::Error>) {
    nix::sys::ptrace::setregs(nix::unistd::Pid::from_raw(pid), regs)
}

/// The field `rip` of a `libc::user_regs_struct`, the instruction pointer.
/// The snapshot is opaque here, so nothing is claimed of the value.
#[verifier::external_body]
fn register_ip(regs: &nix::libc::user_regs_struct) -> (ip: usize) {
    regs.rip as usize
}

/// The field `rbp` of a `libc::user_regs_struct`, the frame base. The
/// snapshot is opaque here, so nothing is claimed of the value.
#[verifier::external_body]
fn register_frame_base(regs: &nix::libc::user_regs_struct) -> (base: usize) {
    regs.rbp as usize
}

/// A `libc::user_regs_struct` with its field `rip` replaced. The snapshot
/// is opaque here, so nothing is claimed of the result.
#[verifier::external_body]
fn with_ip(regs: nix::libc::user_regs_struct, ip: usize) -> (out: nix::libc::user_regs_struct) {
    let mut out = regs;
    out.rip = ip as u64;
    out
}

/// `nix::sys::ptrace::cont` with no signal: lets the child run. Nothing is
/// claimed of whether it succeeds.
#[verifier::external_body]
fn resume_traced(pid: i32) -> (done: Result<(), nix::Error>) {
    nix::sys::ptrace::cont(nix::unistd::Pid::from_raw(pid), None)
}

/// `nix::sys::ptrace::step` with no signal: lets the child execute one
/// instruction. Nothing is claimed of whether it succeeds.
#[verifier::external_body]
fn step_traced(pid: i32) -> (done: Result<(), nix::Error>) {
    nix::sys::ptrace::step(nix::unistd::Pid::from_raw(pid), None)
}

/// `nix::sys::wait::waitpid` with no flags: blocks until the child changes
/// state. Nothing is claimed of the report.
#[verifier::external_body]
fn wait_for(pid: i32) -> (event: Result<WaitEvent, nix::Error>) {
    nix::sys::wait::waitpid(nix::unistd::Pid::from_raw(pid), None).map(
        |status| match status {
            nix::sys::wait::WaitStatus::Exited(_, code) => WaitEvent::Exited(code),
            nix::sys::wait::WaitStatus::Signaled(_, signal, _) => WaitEvent::Signaled(signal as i32),
            nix::sys::wait::WaitStatus::Stopped(_, signal) => WaitEvent::Stopped(signal as i32),
            _ => WaitEvent::Unexpected,
        },
    )
}

/// The library's error for the number inside a failed tracing call.
fn fault_of(fault: &nix::Error, memory_access: bool) -> (err: TraceError)
    ensures
        is_call_failure(err, memory_access),
        memory_access || err != TraceError::InvalidAddress,
        err != TraceError::UnexpectedStatus,
{
    let code: Option<i32> = errno_code(fault);
    let err: TraceError = TraceError::from_errno(code, memory_access);
    assert(err == TraceError::spec_from_errno(code, memory_access));
    err
}

/// A traced child process, known by its process identifier.
pub struct Inferior {
    pid: i32,
    issued: Ghost<Seq<TraceOp>>,
    reads: Ghost<Seq<MemoryRead>>,
}

impl Inferior {
    /// The process identifier of the child.
    pub closed spec fn spec_pid(&self) -> i32 {
        self.pid
    }

    /// The operations that changed the child through this handle, oldest
    /// first.
    pub closed spec fn issued(&self) -> Seq<TraceOp> {
        self.issued@
    }

    /// The words that unwinding read from the child's stack through this
    /// handle, oldest first.
    pub closed spec fn reads(&self) -> Seq<MemoryRead> {
        self.reads@
    }

    /// A handle on a child that was spawned with tracing requested and is
    /// stopped before its first instruction. The identifier is meant to be
    /// that of one child, a positive number: for zero or a negative number
    /// the operating system takes a wait to mean any child of a group.
    pub fn from_pid(pid: i32) -> (inferior: Inferior)
        ensures
            inferior.spec_pid() == pid,
            inferior.issued() == Seq::<TraceOp>::empty(),
            inferior.reads() == Seq::<MemoryRead>::empty(),
    {
        Inferior { pid, issued: Ghost(Seq::empty()), reads: Ghost(Seq::empty()) }
    }

    pub fn pid(&self) -> (pid: i32)
        ensures
            pid == self.spec_pid(),
    {
        self.pid
    }

    /// The instruction pointer of the stopped child. It fails only if the
    /// registers cannot be read.
    pub fn rip(&self) -> (ip: Result<usize, TraceError>)
        ensures
            ip is Err ==> is_call_failure(ip->Err_0, false),
            ip is Err ==> ip != Err::<usize, TraceError>(TraceError::InvalidAddress),
    {
        match get_registers(self.pid) {
            Ok(regs) => Ok(register_ip(&regs)),
            Err(fault) => Err(fault_of(&fault, false)),
        }
    }

    /// Blocks until the child changes state and classifies the change. For
    /// a stop the instruction pointer is read as well. It fails if the wait
    /// or that read fails, or if the change is none that tracing produces.
    pub fn wait(&self) -> (status: Result<Status, TraceError>)
        ensures
            status is Err ==> status->Err_0 == TraceError::UnexpectedStatus || is_call_failure(
                status->Err_0,
                false,
            ),
            status is Err ==> status != Err::<Status, TraceError>(TraceError::InvalidAddress),
    {
        match wait_for(self.pid) {
            Err(fault) => Err(fault_of(&fault, false)),
            Ok(WaitEvent::Stopped(signal)) => match self.rip() {
                Ok(ip) => Status::from_event(WaitEvent::Stopped(signal), ip),
                Err(err) => Err(err),
            },
            Ok(event) => Status::from_event(event, 0),
        }
    }

    /// Lets the child run until it stops or ends.
    pub fn continue_inferior(&mut self) -> (status: Result<Status, TraceError>)
        ensures
            final(self).spec_pid() == old(self).spec_pid(),
            final(self).reads() == old(self).reads(),
            status is Ok ==> final(self).issued() == old(self).issued().push(TraceOp::Resume),
            status is Err ==> final(self).issued() == old(self).issued() || final(self).issued()
                == old(self).issued().push(TraceOp::Resume),
            status is Err ==> status->Err_0 == TraceError::UnexpectedStatus || is_call_failure(
                status->Err_0,
                false,
            ),
            status is Err ==> status != Err::<Status, TraceError>(TraceError::InvalidAddress),
    {
        match resume_traced(self.pid) {
            Err(fault) => Err(fault_of(&fault, false)),
            Ok(()) => {
                self.issued = Ghost(self.issued@.push(TraceOp::Resume));
                self.wait()
            },
        }
    }

    /// Lets the child execute exactly one instruction.
    pub fn step(&mut self) -> (status: Result<Status, TraceError>)
        ensures
            final(self).spec_pid() == old(self).spec_pid(),
            final(self).reads() == old(self).reads(),
            status is Ok ==> final(self).issued() == old(self).issued().push(TraceOp::Step),
            status is Err ==> final(self).issued() == old(self).issued() || final(self).issued()
                == old(self).issued().push(TraceOp::Step),
            status is Err ==> status->Err_0 == TraceError::UnexpectedStatus || is_call_failure(
                status->Err_0,
                false,
            ),
            status is Err ==> status != Err::<Status, TraceError>(TraceError::InvalidAddress),
    {
        match step_traced(self.pid) {
            Err(fault) => Err(fault_of(&fault, false)),
            Ok(()) => {
                self.issued = Ghost(self.issued@.push(TraceOp::Step));
                self.wait()
            },
        }
    }

    /// Moves the instruction pointer back by the width of the trap
    /// instruction: reads the registers, moves the pointer as
    /// [`rewound_ip`] says and writes the registers back. It fails, with
    /// the child untouched, if the registers cannot be read or written or
    /// if the pointer cannot be moved back.
    pub fn back_rip(&mut self) -> (done: Result<(), TraceError>)
        ensures
            final(self).spec_pid() == old(self).spec_pid(),
            final(self).reads() == old(self).reads(),
            done is Ok ==> final(self).issued().len() == old(self).issued().len() + 1
                && final(self).issued().drop_last() == old(self).issued()
                && final(self).issued().last() is Rewind
                && spec_rewound_ip(final(self).issued().last()->from) is Ok
                && final(self).issued().last()->from > 0,
            done is Err ==> final(self).issued() == old(self).issued(),
            done is Err ==> done->Err_0 == TraceError::InvalidAddress || is_call_failure(
                done->Err_0,
                false,
            ),
    {
        let regs = match get_registers(self.pid) {
            Ok(regs) => regs,
            Err(fault) => {
                return Err(fault_of(&fault, false));
            },
        };
        let ip: usize = register_ip(&regs);
        let back: usize = match rewound_ip(ip) {
            Ok(back) => back,
            Err(err) => {
                return Err(err);
            },
        };
        match set_registers(self.pid, with_ip(regs, back)) {
            Err(fault) => Err(fault_of(&fault, false)),
            Ok(()) => {
                self.issued = Ghost(self.issued@.push(TraceOp::Rewind { from: ip }));
                assert(self.issued@.drop_last() =~= old(self).issued@);
                Ok(())
            },
        }
    }

    /// Overwrites the byte at `addr` with `val` and returns the byte that
    /// was there. The word that holds the byte is read, spliced and written
    /// back, so its other bytes are rewritten with the values just read.
    pub fn write_byte(&mut self, addr: usize, val: u8) -> (original: Result<u8, TraceError>)
        ensures
            final(self).spec_pid() == old(self).spec_pid(),
            final(self).reads() == old(self).reads(),
            original is Ok ==> final(self).issued().len() == old(self).issued().len() + 1
                && final(self).issued().drop_last() == old(self).issued()
                && is_patch(final(self).issued().last(), addr, val)
                && original->Ok_0 == replaced_byte(final(self).issued().last(), addr),
            original is Err ==> final(self).issued() == old(self).issued(),
            original is Err ==> is_call_failure(original->Err_0, true),
            original is Err ==> original != Err::<u8, TraceError>(TraceError::UnexpectedStatus),
    {
        let base: usize = align_addr_to_word(addr);
        let offset: usize = addr - base;
        let word: u64 = match peek_word(self.pid, base) {
            Ok(word) => word,
            Err(fault) => {
                return Err(fault_of(&fault, true));
            },
        };
        let (original, updated) = splice_byte(word, offset, val);
        match poke_word(self.pid, base, updated) {
            Err(fault) => Err(fault_of(&fault, true)),
            Ok(()) => {
                self.issued = Ghost(
                    self.issued@.push(TraceOp::Poke { addr: base, before: word, after: updated }),
                );
                assert(self.issued@.drop_last() =~= old(self).issued@);
                Ok(original)
            },
        }
    }

    /// The frame in which the stopped child executes. It fails only if the
    /// registers cannot be read.
    pub fn frame(&self) -> (frame: Result<Frame, TraceError>)
        ensures
            frame is Err ==> is_call_failure(frame->Err_0, false),
            frame is Err ==> frame != Err::<Frame, TraceError>(TraceError::InvalidAddress),
    {
        match get_registers(self.pid) {
            Ok(regs) => Ok(Frame { ip: register_ip(&regs), base: register_frame_base(&regs) }),
            Err(fault) => Err(fault_of(&fault, false)),
        }
    }

    /// The frame that called `frame`: its instruction pointer is the return
    /// address saved one word above the frame base, its frame base the value
    /// saved at the frame base. The word above is read first, then the word
    /// at the frame base, and both reads are recorded. A frame base within a
    /// word of the top of the address space has no word above it and is an
    /// invalid address; nothing is read then. A read that fails ends the
    /// call with its error.
    pub fn caller_frame(&mut self, frame: Frame) -> (caller: Result<Frame, TraceError>)
        ensures
            final(self).spec_pid() == old(self).spec_pid(),
            final(self).issued() == old(self).issued(),
            stepped_out(old(self).reads(), final(self).reads(), frame, caller),
    {
        if frame.base > usize::MAX - WORD_BYTES {
            return Err(TraceError::InvalidAddress);
        }
        assert(self.reads@.subrange(0, self.reads@.len() as int) =~= self.reads@);
        let above: usize = frame.base + WORD_BYTES;
        let ret: u64 = match peek_word(self.pid, above) {
            Ok(word) => word,
            Err(fault) => {
                return Err(fault_of(&fault, true));
            },
        };
        self.reads = Ghost(self.reads@.push(MemoryRead { addr: above, word: ret }));
        assert(self.reads@.drop_last() =~= old(self).reads@);
        let saved: u64 = match peek_word(self.pid, frame.base) {
            Ok(word) => word,
            Err(fault) => {
                return Err(fault_of(&fault, true));
            },
        };
        self.reads = Ghost(self.reads@.push(MemoryRead { addr: frame.base, word: saved }));
        assert(self.reads@.subrange(0, old(self).reads@.len() as int) =~= old(self).reads@);
        frame_from_words(ret, saved)
    }

    /// One step of unwinding from `frame`. A frame of the entry function
    /// is the outermost one: unwinding ends there and nothing is read.
    /// Otherwise the step is that of [`Inferior::caller_frame`]. The target
    /// must have been built with frame pointers kept.
    pub fn next_frame(&mut self, frame: Frame, in_entry_function: bool) -> (next: Result<
        Option<Frame>,
        TraceError,
    >)
        ensures
            final(self).spec_pid() == old(self).spec_pid(),
            final(self).issued() == old(self).issued(),
            unwound(old(self).reads(), final(self).reads(), frame, in_entry_function, next),
    {
        if in_entry_function {
            Ok(None)
        } else {
            match self.caller_frame(frame) {
                Ok(caller) => Ok(Some(caller)),
                Err(err) => Err(err),
            }
        }
    }
}

/// The caller's frame, given the saved return address and the saved frame
/// base as they were read from the stack. A word that is no address on this
/// machine is an invalid address.
pub fn frame_from_words(return_address: u64, saved_base: u64) -> (frame: Result<Frame, TraceError>)
    ensures
        frame == spec_frame_from_words(return_address, saved_base),
{
    if return_address <= usize::MAX as u64 && saved_base <= usize::MAX as u64 {
        Ok(Frame { ip: return_address as usize, base: saved_base as usize })
    } else {
        Err(TraceError::InvalidAddress)
    }
}

/// `err` is how a failed tracing call is reported: it is the error that
/// some error number, or the lack of one, stands for.
pub open spec fn is_call_failure(err: TraceError, memory_access: bool) -> bool {
    exists|code: Option<i32>| err == #[trigger] TraceError::spec_from_errno(code, memory_access)
}

/// Where the instruction pointer stands after it is moved back by the width
/// of the trap instruction; an instruction pointer below that width cannot
/// be moved back and is an invalid address.
pub open spec fn spec_rewound_ip(ip: usize) -> Result<usize, TraceError> {
    if ip >= TRAP_WIDTH {
        Ok((ip - TRAP_WIDTH) as usize)
    } else {
        Err(TraceError::InvalidAddress)
    }
}

/// Moves an instruction pointer back by the width of the trap instruction.
pub fn rewound_ip(ip: usize) -> (back: Result<usize, TraceError>)
    ensures
        back == spec_rewound_ip(ip),
{
    if ip >= TRAP_WIDTH {
        Ok(ip - TRAP_WIDTH)
    } else {
        Err(TraceError::InvalidAddress)
    }
}

/// One word that was read from the child's memory.
pub struct MemoryRead {
    pub addr: usize,
    pub word: u64,
}

/// The caller's frame for the two words saved in a frame: the return
/// address becomes the instruction pointer, the saved frame base the frame
/// base. A word that is no address on this machine is an invalid address.
pub open spec fn spec_frame_from_words(return_address: u64, saved_base: u64) -> Result<
    Frame,
    TraceError,
> {
    if return_address <= usize::MAX && saved_base <= usize::MAX {
        Ok(Frame { ip: return_address as usize, base: saved_base as usize })
    } else {
        Err(TraceError::InvalidAddress)
    }
}

/// Between the records of reads `before` and `after`, one step from `frame`
/// to its caller was made and gave `caller`.
///
/// With the frame base within a word of the top of the address space
/// nothing is read and the step is an invalid address. Otherwise the word
/// one word above the frame base is read first, then the word at the frame
/// base. If both reads succeed, the result is that of
/// [`spec_frame_from_words`] on the two words, in that order. If a read
/// fails, the step ends there with that read's failure.
pub open spec fn stepped_out(
    before: Seq<MemoryRead>,
    after: Seq<MemoryRead>,
    frame: Frame,
    caller: Result<Frame, TraceError>,
) -> bool {
    let n = before.len() as int;
    if frame.base > usize::MAX - WORD_BYTES {
        after == before && caller == Err::<Frame, TraceError>(TraceError::InvalidAddress)
    } else {
        &&& n <= after.len() <= n + 2
        &&& after.subrange(0, n) == before
        &&& after.len() >= n + 1 ==> after[n].addr == frame.base + WORD_BYTES
        &&& after.len() == n + 2 ==> after[n + 1].addr == frame.base && caller
            == spec_frame_from_words(after[n].word, after[n + 1].word)
        &&& after.len() < n + 2 ==> caller is Err && is_call_failure(caller->Err_0, true)
        &&& caller is Ok ==> after.len() == n + 2
    }
}

/// Between the records of reads `before` and `after`, one step of unwinding
/// from `frame` was made and gave `next`: in the entry function nothing is
/// read and unwinding ends; elsewhere the step is [`stepped_out`], with the
/// caller's frame as the next one.
pub open spec fn unwound(
    before: Seq<MemoryRead>,
    after: Seq<MemoryRead>,
    frame: Frame,
    in_entry_function: bool,
    next: Result<Option<Frame>, TraceError>,
) -> bool {
    if in_entry_function {
        after == before && next == Ok::<Option<Frame>, TraceError>(None)
    } else {
        match next {
            Ok(Some(caller)) => stepped_out(before, after, frame, Ok(caller)),
            Ok(None) => false,
            Err(err) => stepped_out(before, after, frame, Err(err)),
        }
    }
}

/// The name of the function at which unwinding ends.
pub open spec fn entry_function_name() -> Seq<char> {
    "main"@
}

/// Whether `name` is the program's entry function, the outermost frame of
/// every call stack.
pub fn is_entry_function(name: &str) -> (entry: bool)
    ensures
        entry == (name@ == entry_function_name()),
{
    same_text(name, "main")
}

/// A whole walk up the stack: `frames` are the frames visited, innermost
/// first, and `records[k]` is the record of reads before the step from
/// frame `k`. Every frame but the last lies outside the entry function and
/// its step gave the frame after it; the last frame lies in the entry
/// function, where the walk ends.
pub open spec fn walked(frames: Seq<Frame>, records: Seq<Seq<MemoryRead>>) -> bool {
    &&& frames.len() >= 1
    &&& records.len() == frames.len() + 1
    &&& forall|k: int|
        0 <= k < frames.len() - 1 ==> unwound(
            records[k],
            records[k + 1],
            #[trigger] frames[k],
            false,
            Ok(Some(frames[k + 1])),
        )
    &&& unwound(
        records[frames.len() - 1],
        records[frames.len() as int],
        frames.last(),
        true,
        Ok(None),
    )
}

/// From the record `start` to the record `now`, the first `steps` frames
/// of `frames` were left for their callers: two words were read for each,
/// first the word one word above its frame base and then the word at it,
/// and the two words give the frame after it.
pub open spec fn walk_reads(
    start: Seq<MemoryRead>,
    now: Seq<MemoryRead>,
    frames: Seq<Frame>,
    steps: int,
) -> bool {
    let n = start.len() as int;
    &&& now.len() == n + 2 * steps
    &&& now.subrange(0, n) == start
    &&& forall|k: int|
        0 <= k < steps ==> {
            &&& now[n + 2 * k].addr == (#[trigger] frames[k]).base + WORD_BYTES
            &&& now[n + 2 * k + 1].addr == frames[k].base
            &&& spec_frame_from_words(now[n + 2 * k].word, now[n + 2 * k + 1].word) == Ok::<
                Frame,
                TraceError,
            >(frames[k + 1])
        }
}

proof fn lemma_walk_prefix(frames: Seq<Frame>, records: Seq<Seq<MemoryRead>>, m: int)
    requires
        walked(frames, records),
        0 <= m <= frames.len() - 1,
    ensures
        walk_reads(records[0], records[m], frames, m),
    decreases m,
{
    let start = records[0];
    let n = start.len() as int;
    if m == 0 {
        assert(start.subrange(0, n) =~= start);
    } else {
        lemma_walk_prefix(frames, records, m - 1);
        let before = records[m - 1];
        let now = records[m];
        let left = frames[m - 1];
        assert(unwound(before, now, left, false, Ok(Some(frames[m]))));
        assert(stepped_out(before, now, left, Ok(frames[m])));
        let b = before.len() as int;
        assert(now.len() == b + 2);
        assert forall|i: int| 0 <= i < b implies now[i] == before[i] by {
            assert(now.subrange(0, b)[i] == now[i]);
        }
        assert(now.subrange(0, n) =~= before.subrange(0, n));
        assert forall|k: int| 0 <= k < m implies {
            &&& now[n + 2 * k].addr == (#[trigger] frames[k]).base + WORD_BYTES
            &&& now[n + 2 * k + 1].addr == frames[k].base
            &&& spec_frame_from_words(now[n + 2 * k].word, now[n + 2 * k + 1].word) == Ok::<
                Frame,
                TraceError,
            >(frames[k + 1])
        } by {
            if k < m - 1 {
                assert(now[n + 2 * k] == before[n + 2 * k]);
                assert(now[n + 2 * k + 1] == before[n + 2 * k + 1]);
            }
        }
    }
}

/// A walk from a frame that lies `depth` calls below the entry function
/// visits `depth + 1` frames and reads exactly two words for each call: for
/// the frame at position `k`, first the word one word above its frame base
/// and then the word at its frame base. Those two words are the
/// instruction pointer and the frame base of the frame at position
/// `k + 1`. In the entry function nothing is read.
pub proof fn lemma_walk_reads_two_words_per_call(
    frames: Seq<Frame>,
    records: Seq<Seq<MemoryRead>>,
)
    requires
        walked(frames, records),
    ensures
        walk_reads(records[0], records.last(), frames, frames.len() - 1),
{
    let depth = frames.len() - 1;
    lemma_walk_prefix(frames, records, depth);
    assert(records[depth + 1] == records[depth]);
}

} // verus!
