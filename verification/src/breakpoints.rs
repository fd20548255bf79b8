//! The breakpoint table: the requested addresses, in the order in which they
//! were requested, each with the byte that its trap replaced once it is
//! installed in a process.

use crate::inferior::{
    is_call_failure, is_patch, replaced_byte, Inferior, TraceError, TraceOp,
};
use crate::memory::{
    byte_of, lemma_restore_round_trip, lemma_splice_reads_back, word_offset, TRAP_BYTE,
};
use vstd::prelude::*;

verus! {

/// One requested trap location.
#[derive(Clone, Copy, Debug, PartialEq, Eq)]
pub struct Breakpoint {
    /// The absolute address of the trap.
    pub addr: usize,
    /// The byte that the trap replaced; `None` until the trap is installed.
    pub saved: Option<u8>,
}

/// The index of the first entry at `addr`, if there is one.
pub open spec fn first_at(table: Seq<Breakpoint>, addr: usize) -> Option<int> {
    if exists|i: int| 0 <= i < table.len() && table[i].addr == addr {
        Some(
            choose|i: int|
                0 <= i < table.len() && table[i].addr == addr && forall|j: int|
                    0 <= j < i ==> table[j].addr != addr,
        )
    } else {
        None
    }
}

/// Both tables hold the same addresses in the same order.
pub open spec fn same_addresses(a: Seq<Breakpoint>, b: Seq<Breakpoint>) -> bool {
    &&& a.len() == b.len()
    &&& forall|i: int| 0 <= i < a.len() ==> (#[trigger] a[i]).addr == b[i].addr
}

/// Every entry holds the byte that its trap replaced.
pub open spec fn all_installed(table: Seq<Breakpoint>) -> bool {
    forall|i: int| 0 <= i < table.len() ==> (#[trigger] table[i]).saved is Some
}

/// Entry `j` is the first entry of `table` at `addr`.
pub open spec fn is_first_at(table: Seq<Breakpoint>, j: int, addr: usize) -> bool {
    &&& 0 <= j < table.len()
    &&& table[j].addr == addr
    &&& forall|k: int| 0 <= k < j ==> (#[trigger] table[k]).addr != addr
}

/// Between the records `before` and `after`, exactly the first `count`
/// entries of `table` were patched with the trap, in order. Each of them
/// holds the byte that stood at its address before any of these traps went
/// in: the byte that the patch of the first entry at that address replaced.
pub open spec fn installs(
    before: Seq<TraceOp>,
    after: Seq<TraceOp>,
    table: Seq<Breakpoint>,
    count: int,
) -> bool {
    &&& 0 <= count <= table.len()
    &&& after.len() == before.len() + count
    &&& after.subrange(0, before.len() as int) == before
    &&& forall|i: int|
        0 <= i < count ==> {
            &&& is_patch(after[before.len() + i], (#[trigger] table[i]).addr, TRAP_BYTE)
            &&& table[i].saved is Some
        }
    &&& forall|i: int, j: int|
        0 <= j <= i < count && #[trigger] is_first_at(table, j, table[i].addr) ==> table[i].saved
            == Some(replaced_byte(after[before.len() + j], table[i].addr))
}

/// The byte that stood at `addr` before any trap, for a patch that has just
/// read `read` there: the saved byte of the first installed entry at that
/// address, if the table has one, and else the byte read.
pub open spec fn original_byte(table: Seq<Breakpoint>, addr: usize, read: u8) -> u8 {
    match first_at(table, addr) {
        Some(j) => match table[j].saved {
            Some(byte) => byte,
            None => read,
        },
        None => read,
    }
}

/// Between the records `before` and `after`, the breakpoint at `addr` was
/// stepped over: the original byte was put back, the instruction pointer
/// moved back onto it, one instruction executed and the trap put in again.
pub open spec fn stepped_over(
    before: Seq<TraceOp>,
    after: Seq<TraceOp>,
    addr: usize,
    original: u8,
) -> bool {
    &&& after.len() == before.len() + 4
    &&& after.subrange(0, before.len() as int) == before
    &&& is_patch(after[before.len() as int], addr, original)
    &&& after[before.len() as int + 1] is Rewind
    &&& after[before.len() as int + 2] == TraceOp::Step
    &&& is_patch(after[before.len() as int + 3], addr, TRAP_BYTE)
}

/// After a patch, the byte at the patched address reads as the byte that
/// was written, and every other byte of its word is as it was read.
pub proof fn lemma_patch_reads_back(op: TraceOp, addr: usize, val: u8, other: u64)
    requires
        is_patch(op, addr, val),
        other < 8,
    ensures
        byte_of(op->after, word_offset(addr as int) as u64) == val,
        other != word_offset(addr as int) ==> byte_of(op->after, other) == byte_of(
            op->before,
            other,
        ),
{
    lemma_splice_reads_back(op->before, word_offset(addr as int) as u64, val, other);
}

/// Stepping over an installed breakpoint restores the word exactly as it
/// was before the trap went in, and then puts back exactly the patched
/// word, provided that nothing else wrote to the word: the step-over finds
/// the word as the installation left it, and the stepped instruction leaves
/// it as the restoration wrote it. So the byte at the breakpoint reads as
/// the original byte during the step and as the trap again afterwards, and
/// no other byte of the word ever changes.
pub proof fn lemma_step_over_round_trip(
    install: TraceOp,
    before: Seq<TraceOp>,
    after: Seq<TraceOp>,
    addr: usize,
)
    requires
        is_patch(install, addr, TRAP_BYTE),
        stepped_over(before, after, addr, replaced_byte(install, addr)),
        after[before.len() as int]->before == install->after,
        after[before.len() as int + 3]->before == after[before.len() as int]->after,
    ensures
        after[before.len() as int]->after == install->before,
        after[before.len() as int + 3]->after == install->after,
        byte_of(after[before.len() as int + 3]->after, word_offset(addr as int) as u64)
            == TRAP_BYTE,
{
    let offset = word_offset(addr as int) as u64;
    lemma_restore_round_trip(install->before, offset, TRAP_BYTE);
    lemma_splice_reads_back(install->before, offset, TRAP_BYTE, offset);
}

pub struct BreakpointTable {
    entries: Vec<Breakpoint>,
}

impl View for BreakpointTable {
    type V = Seq<Breakpoint>;

    closed spec fn view(&self) -> Seq<Breakpoint> {
        self.entries@
    }
}

impl BreakpointTable {
    pub fn new() -> (table: BreakpointTable)
        ensures
            table@ == Seq::<Breakpoint>::empty(),
    {
        BreakpointTable { entries: Vec::new() }
    }

    pub fn len(&self) -> (n: usize)
        ensures
            n == self@.len(),
    {
        self.entries.len()
    }

    /// The entry with the given ordinal.
    pub fn get(&self, index: usize) -> (entry: Option<Breakpoint>)
        ensures
            index < self@.len() ==> entry == Some(self@[index as int]),
            index >= self@.len() ==> entry.is_none(),
    {
        if index < self.entries.len() {
            Some(self.entries[index])
        } else {
            None
        }
    }

    /// Appends an entry that is not installed yet and returns its ordinal.
    pub fn request(&mut self, addr: usize) -> (index: usize)
        ensures
            final(self)@ == old(self)@.push(Breakpoint { addr, saved: None }),
            index == old(self)@.len(),
    {
        let index: usize = self.entries.len();
        self.entries.push(Breakpoint { addr, saved: None });
        index
    }

    /// Appends an entry whose trap is already in place over `original` and
    /// returns its ordinal.
    pub fn record(&mut self, addr: usize, original: u8) -> (index: usize)
        ensures
            final(self)@ == old(self)@.push(Breakpoint { addr, saved: Some(original) }),
            index == old(self)@.len(),
    {
        let index: usize = self.entries.len();
        self.entries.push(Breakpoint { addr, saved: Some(original) });
        index
    }

    /// Appends an entry whose trap has just been put in over the byte
    /// `read`, and returns its ordinal. Where an installed entry at the
    /// same address exists, `read` is that entry's trap, and the new entry
    /// takes the byte that the first such entry holds.
    pub fn record_patched(&mut self, addr: usize, read: u8) -> (index: usize)
        ensures
            final(self)@ == old(self)@.push(
                Breakpoint { addr, saved: Some(original_byte(old(self)@, addr, read)) },
            ),
            index == old(self)@.len(),
    {
        let original: u8 = match self.lookup(addr) {
            Some(first) => match self.entries[first].saved {
                Some(byte) => byte,
                None => read,
            },
            None => read,
        };
        self.record(addr, original)
    }

    /// The ordinal of the first entry at `addr`.
    pub fn lookup(&self, addr: usize) -> (found: Option<usize>)
        ensures
            match found {
                Some(i) => i < self@.len() && self@[i as int].addr == addr && forall|j: int|
                    0 <= j < i ==> self@[j].addr != addr,
                None => forall|j: int| 0 <= j < self@.len() ==> self@[j].addr != addr,
            },
            found.is_some() == first_at(self@, addr).is_some(),
            found.is_some() ==> found.unwrap() as int == first_at(self@, addr).unwrap(),
    {
        let n: usize = self.entries.len();
        let mut i: usize = 0;
        while i < n
            invariant
                i <= n,
                n == self.entries@.len(),
                forall|j: int| 0 <= j < i ==> self.entries@[j].addr != addr,
            decreases n - i,
        {
            if self.entries[i].addr == addr {
                proof {
                    let c = first_at(self@, addr).unwrap();
                    assert(0 <= c < self@.len() && self@[c].addr == addr && forall|j: int|
                        0 <= j < c ==> self@[j].addr != addr);
                    assert(c == i);
                }
                return Some(i);
            }
            i += 1;
        }
        None
    }

    /// Puts the trap at every entry's address, in order, and stores in each
    /// entry the byte that stood there before any trap: the byte that the
    /// patch of the first entry at that address replaced. Stops at the
    /// first entry that cannot be patched and reports its error; the
    /// entries from that one on are left as they were.
    pub fn install_all(&mut self, inferior: &mut Inferior) -> (done: Result<(), TraceError>)
        ensures
            same_addresses(final(self)@, old(self)@),
            final(inferior).spec_pid() == old(inferior).spec_pid(),
            final(inferior).reads() == old(inferior).reads(),
            installs(
                old(inferior).issued(),
                final(inferior).issued(),
                final(self)@,
                final(inferior).issued().len() - old(inferior).issued().len(),
            ),
            done is Ok ==> final(inferior).issued().len() == old(inferior).issued().len() + old(
                self,
            )@.len() && all_installed(final(self)@),
            done is Err ==> final(inferior).issued().len() < old(inferior).issued().len() + old(
                self,
            )@.len(),
            done is Err ==> is_call_failure(done->Err_0, true),
            forall|j: int|
                final(inferior).issued().len() - old(inferior).issued().len() <= j < old(self)@.len()
                    ==> final(self)@[j] == old(self)@[j],
    {
        let n: usize = self.entries.len();
        let mut i: usize = 0;
        assert(inferior.issued().subrange(0, inferior.issued().len() as int) =~= inferior.issued());
        while i < n
            invariant
                i <= n,
                n == self.entries@.len(),
                same_addresses(self@, old(self)@),
                inferior.spec_pid() == old(inferior).spec_pid(),
                inferior.reads() == old(inferior).reads(),
                inferior.issued().len() == old(inferior).issued().len() + i,
                installs(old(inferior).issued(), inferior.issued(), self@, i as int),
                forall|j: int| i <= j < n ==> self@[j] == old(self)@[j],
            decreases n - i,
        {
            let addr: usize = self.entries[i].addr;
            let ghost log = inferior.issued();
            let ghost table = self@;
            match inferior.write_byte(addr, TRAP_BYTE) {
                Err(err) => {
                    return Err(err);
                },
                Ok(read) => {
                    let first: usize = match self.lookup(addr) {
                        Some(first) => first,
                        None => i,
                    };
                    assert(first <= i);
                    let saved: Option<u8> = if first < i {
                        self.entries[first].saved
                    } else {
                        Some(read)
                    };
                    self.entries.set(i, Breakpoint { addr, saved });
                    proof {
                        let base = old(inferior).issued();
                        let now = inferior.issued();
                        assert(now.drop_last() == log);
                        assert(now.subrange(0, base.len() as int) =~= log.subrange(
                            0,
                            base.len() as int,
                        ));
                        assert(is_first_at(table, first as int, addr));
                        assert forall|k: int| 0 <= k < i + 1 implies {
                            &&& is_patch(now[base.len() + k], (#[trigger] self@[k]).addr, TRAP_BYTE)
                            &&& self@[k].saved is Some
                        } by {
                            if k < i {
                                assert(self@[k] == table[k]);
                                assert(now[base.len() + k] == log[base.len() + k]);
                            } else {
                                assert(now[base.len() + k] == now.last());
                                if first < i {
                                    assert(table[first as int].saved is Some);
                                }
                            }
                        }
                        assert forall|k: int, j: int|
                            0 <= j <= k < i + 1 && #[trigger] is_first_at(
                                self@,
                                j,
                                self@[k].addr,
                            ) implies self@[k].saved == Some(
                            replaced_byte(now[base.len() + j], self@[k].addr),
                        ) by {
                            assert forall|m: int| 0 <= m < j implies (#[trigger] table[m]).addr
                                != self@[k].addr by {
                                assert(self@[m].addr != self@[k].addr);
                            }
                            assert(table[j].addr == self@[j].addr);
                            assert(is_first_at(table, j, table[k].addr));
                            if k < i {
                                assert(self@[k] == table[k]);
                                assert(now[base.len() + j] == log[base.len() + j]);
                            } else {
                                if j < first {
                                    assert(table[j].addr != addr);
                                }
                                if first < j {
                                    assert(table[first as int].addr != addr);
                                }
                                assert(j == first);
                                if first < i {
                                    assert(is_first_at(table, j, table[j].addr));
                                    assert(now[base.len() + j] == log[base.len() + j]);
                                } else {
                                    assert(now[base.len() + j] == now.last());
                                }
                            }
                        }
                    }
                },
            }
            i += 1;
        }
        Ok(())
    }

    /// Carries the process past the installed breakpoint with the given
    /// ordinal, on which it has just stopped: the original byte goes back,
    /// the instruction pointer moves back onto it, the instruction is
    /// executed alone, and the trap goes in again. Stops at the first
    /// operation that fails and reports its error; what was done up to
    /// there stays done, so the trap may then be missing.
    pub fn step_over(&self, inferior: &mut Inferior, index: usize) -> (done: Result<
        (),
        TraceError,
    >)
        requires
            index < self@.len(),
            self@[index as int].saved is Some,
        ensures
            final(inferior).spec_pid() == old(inferior).spec_pid(),
            final(inferior).reads() == old(inferior).reads(),
            done is Ok ==> stepped_over(
                old(inferior).issued(),
                final(inferior).issued(),
                self@[index as int].addr,
                self@[index as int].saved->0,
            ),
            done is Err ==> step_over_cut_short(
                old(inferior).issued(),
                final(inferior).issued(),
                self@[index as int].addr,
                self@[index as int].saved->0,
            ),
            done is Err ==> step_over_failure(
                final(inferior).issued().len() - old(inferior).issued().len(),
                done->Err_0,
            ),
    {
        let entry: Breakpoint = self.entries[index];
        let original: u8 = entry.saved.unwrap();
        let ghost l0 = inferior.issued();
        assert(l0.subrange(0, l0.len() as int) =~= l0);
        match inferior.write_byte(entry.addr, original) {
            Err(err) => { return Err(err); },
            Ok(_) => {},
        }
        let ghost l1 = inferior.issued();
        assert(l1.subrange(0, l0.len() as int) =~= l0);
        match inferior.back_rip() {
            Err(err) => { return Err(err); },
            Ok(()) => {},
        }
        let ghost l2 = inferior.issued();
        assert(l2.subrange(0, l0.len() as int) =~= l0);
        assert(l2[l0.len() as int] == l1[l0.len() as int]);
        match inferior.step() {
            Err(err) => {
                assert(inferior.issued().subrange(0, l0.len() as int) =~= l0);
                assert(inferior.issued()[l0.len() as int] == l1[l0.len() as int]);
                assert(inferior.issued()[l0.len() as int + 1] == l2[l0.len() as int + 1]);
                return Err(err);
            },
            Ok(_) => {},
        }
        let ghost l3 = inferior.issued();
        assert(l3.subrange(0, l0.len() as int) =~= l0);
        match inferior.write_byte(entry.addr, TRAP_BYTE) {
            Err(err) => { Err(err) },
            Ok(_) => {
                let ghost l4 = inferior.issued();
                assert(l4.drop_last() == l3);
                assert(l4.subrange(0, l0.len() as int) =~= l0);
                assert(l4[l0.len() as int] == l3[l0.len() as int]);
                assert(l4[l0.len() as int + 1] == l3[l0.len() as int + 1]);
                assert(l4[l0.len() as int + 2] == l3[l0.len() as int + 2]);
                Ok(())
            },
        }
    }
}

/// Between the records `before` and `after`, a step-over of the breakpoint
/// at `addr` was begun and cut short by a failure: of its four operations
/// the first few were carried out, in order, and the last one was not.
pub open spec fn step_over_cut_short(
    before: Seq<TraceOp>,
    after: Seq<TraceOp>,
    addr: usize,
    original: u8,
) -> bool {
    &&& before.len() <= after.len() <= before.len() + 3
    &&& after.subrange(0, before.len() as int) == before
    &&& after.len() >= before.len() + 1 ==> is_patch(after[before.len() as int], addr, original)
    &&& after.len() >= before.len() + 2 ==> after[before.len() as int + 1] is Rewind
    &&& after.len() >= before.len() + 3 ==> after[before.len() as int + 2] == TraceOp::Step
}

/// The error of a step-over that was cut short after `done` of its
/// operations: a failed patch is a failed memory access, a failed rewind is
/// an instruction pointer that cannot be moved back or a failed register
/// access, and a failed step is a failed call or a state of the child that
/// tracing never produces.
pub open spec fn step_over_failure(done: int, err: TraceError) -> bool {
    if done == 0 {
        is_call_failure(err, true)
    } else if done == 1 {
        err == TraceError::InvalidAddress || is_call_failure(err, false)
    } else if done == 2 {
        err == TraceError::UnexpectedStatus || is_call_failure(err, false)
    } else {
        err == TraceError::UnexpectedStatus || is_call_failure(err, false) || is_call_failure(
            err,
            true,
        )
    }
}

} // verus!
