use deet::breakpoints::Breakpoint;
use deet::debugger::{ControllerState, Debugger};
use deet::inferior::{Frame, Inferior, Status, TraceError};
use nix::sys::ptrace;
use nix::sys::signal::{kill, raise, Signal};
use nix::unistd::{fork, ForkResult, Pid};
use std::hint::black_box;

const SIGTRAP: i32 = 5;
const SIGSTOP: i32 = 19;
const EXIT_CODE: i32 = 0;

fn first_stop() {
    black_box(1u32);
}

fn second_stop() {
    black_box(2u32);
}

fn idle() {}

fn visit_each_once() {
    let first: fn() = black_box(first_stop);
    let second: fn() = black_box(second_stop);
    first();
    second();
}

fn visit_first_three_times() {
    let first: fn() = black_box(first_stop);
    first();
    first();
    first();
}

/// Forks a child that asks to be traced, stops itself, and, once resumed,
/// does `work`. In the parent the child's process identifier is returned
/// once the child has stopped. In the child `None` is returned after the
/// work: the caller returns at once, and the child ends with its last thread.
fn spawn_stopped_child(work: fn()) -> Option<i32> {
    match fork().expect("fork") {
        ForkResult::Child => {
            if ptrace::traceme().is_ok() {
                let _ = raise(Signal::SIGSTOP);
                work();
            }
            None
        }
        ForkResult::Parent { child } => {
            let pid = child.as_raw();
            match Inferior::from_pid(pid).wait() {
                Ok(Status::Stopped(signal, _)) => assert_eq!(signal, SIGSTOP),
                other => panic!("the child did not stop: {:?}", other),
            }
            Some(pid)
        }
    }
}

fn terminate(pid: i32) {
    let _ = kill(Pid::from_raw(pid), Signal::SIGKILL);
    let _ = Inferior::from_pid(pid).wait();
}

#[test]
fn patched_byte_reads_back_and_neighbours_stay() {
    let data: [u8; 24] = [
        0x10, 0x11, 0x12, 0x13, 0x14, 0x15, 0x16, 0x17, 0x18, 0x19, 0x1a, 0x1b, 0x1c, 0x1d, 0x1e,
        0x1f, 0x20, 0x21, 0x22, 0x23, 0x24, 0x25, 0x26, 0x27,
    ];
    let start = black_box(&data).as_ptr() as usize;
    let pid = match spawn_stopped_child(idle) {
        Some(pid) => pid,
        None => return,
    };
    let mut inferior = Inferior::from_pid(pid);
    for i in 8..16usize {
        let addr = start + i;
        assert_eq!(inferior.write_byte(addr, 0xcc), Ok(data[i]));
        assert_eq!(inferior.write_byte(addr - 1, data[i - 1]), Ok(data[i - 1]));
        assert_eq!(inferior.write_byte(addr + 1, data[i + 1]), Ok(data[i + 1]));
        assert_eq!(inferior.write_byte(addr, data[i]), Ok(0xcc));
        assert_eq!(inferior.write_byte(addr, data[i]), Ok(data[i]));
    }
    terminate(pid);
}

#[test]
fn unmapped_address_is_invalid() {
    let pid = match spawn_stopped_child(idle) {
        Some(pid) => pid,
        None => return,
    };
    let mut inferior = Inferior::from_pid(pid);
    assert_eq!(inferior.write_byte(0xdeadbeef, 0xcc), Err(TraceError::InvalidAddress));
    terminate(pid);
}

#[test]
fn rewinding_moves_the_instruction_pointer_back_by_one() {
    let pid = match spawn_stopped_child(idle) {
        Some(pid) => pid,
        None => return,
    };
    let mut inferior = Inferior::from_pid(pid);
    let ip = inferior.rip().expect("registers");
    let frame = inferior.frame().expect("registers");
    assert_eq!(frame.ip, ip);
    assert_eq!(inferior.back_rip(), Ok(()));
    assert_eq!(inferior.rip(), Ok(ip - 1));
    terminate(pid);
}

#[test]
fn pending_breakpoints_are_hit_in_turn_until_exit() {
    let first = first_stop as fn() as usize;
    let second = second_stop as fn() as usize;
    let mut debugger = Debugger::new();
    assert_eq!(debugger.add_breakpoint(first), Ok(0));
    assert_eq!(debugger.add_breakpoint(second), Ok(1));
    let pid = match spawn_stopped_child(visit_each_once) {
        Some(pid) => pid,
        None => return,
    };

    assert_eq!(debugger.start(pid), Ok(Status::Stopped(SIGTRAP, first + 1)));
    assert_eq!(debugger.state(), ControllerState::StoppedAtBreakpoint);
    let installed = debugger.breakpoints().get(0).expect("first entry");
    assert_eq!(installed.addr, first);
    assert!(installed.saved.is_some());
    assert!(installed.saved != Some(0xcc));
    assert!(debugger.breakpoints().get(1).expect("second entry").saved.is_some());

    assert_eq!(debugger.cont(), Ok(Some(Status::Stopped(SIGTRAP, second + 1))));
    assert_eq!(debugger.state(), ControllerState::StoppedAtBreakpoint);

    assert_eq!(debugger.cont(), Ok(Some(Status::Exited(EXIT_CODE))));
    assert_eq!(debugger.state(), ControllerState::Exited);
    assert!(debugger.inferior().is_none());
    assert_eq!(debugger.breakpoints().len(), 2);
    assert_eq!(debugger.cont(), Ok(None));
}

#[test]
fn a_breakpoint_is_hit_every_time_it_is_passed() {
    let first = first_stop as fn() as usize;
    let mut debugger = Debugger::new();
    assert_eq!(debugger.add_breakpoint(first), Ok(0));
    let pid = match spawn_stopped_child(visit_first_three_times) {
        Some(pid) => pid,
        None => return,
    };
    assert_eq!(debugger.start(pid), Ok(Status::Stopped(SIGTRAP, first + 1)));
    let saved = debugger.breakpoints().get(0).expect("entry").saved;
    assert_eq!(debugger.cont(), Ok(Some(Status::Stopped(SIGTRAP, first + 1))));
    assert_eq!(debugger.cont(), Ok(Some(Status::Stopped(SIGTRAP, first + 1))));
    assert_eq!(debugger.breakpoints().get(0).expect("entry").saved, saved);
    assert_eq!(debugger.cont(), Ok(Some(Status::Exited(EXIT_CODE))));
    assert_eq!(debugger.state(), ControllerState::Exited);
}

#[test]
fn breakpoint_in_a_live_process_is_patched_at_once() {
    let first = first_stop as fn() as usize;
    let second = second_stop as fn() as usize;
    let mut debugger = Debugger::new();
    assert_eq!(debugger.add_breakpoint(first), Ok(0));
    let pid = match spawn_stopped_child(visit_each_once) {
        Some(pid) => pid,
        None => return,
    };
    assert_eq!(debugger.start(pid), Ok(Status::Stopped(SIGTRAP, first + 1)));
    assert_eq!(debugger.add_breakpoint(second), Ok(1));
    let entry = debugger.breakpoints().get(1).expect("second entry");
    assert_eq!(entry.addr, second);
    assert!(entry.saved.is_some());
    assert_eq!(debugger.cont(), Ok(Some(Status::Stopped(SIGTRAP, second + 1))));
    assert_eq!(debugger.cont(), Ok(Some(Status::Exited(EXIT_CODE))));
}

#[test]
fn bad_address_leaves_the_table_as_it_was() {
    let first = first_stop as fn() as usize;
    let mut debugger = Debugger::new();
    assert_eq!(debugger.add_breakpoint(first), Ok(0));
    let pid = match spawn_stopped_child(visit_each_once) {
        Some(pid) => pid,
        None => return,
    };
    assert_eq!(debugger.start(pid), Ok(Status::Stopped(SIGTRAP, first + 1)));
    let before = debugger.breakpoints().get(0);
    assert_eq!(debugger.add_breakpoint(0xdeadbeef), Err(TraceError::InvalidAddress));
    assert_eq!(debugger.breakpoints().len(), 1);
    assert_eq!(debugger.breakpoints().get(0), before);
    assert_eq!(debugger.state(), ControllerState::StoppedAtBreakpoint);
    let held = debugger.release().expect("a held process");
    assert_eq!(held.pid(), pid);
    assert_eq!(debugger.state(), ControllerState::NoProcess);
    assert_eq!(
        debugger.breakpoints().get(0).map(|entry: Breakpoint| entry.addr),
        Some(first)
    );
    terminate(pid);
}

#[test]
fn single_step_stops_with_a_trap() {
    let pid = match spawn_stopped_child(idle) {
        Some(pid) => pid,
        None => return,
    };
    let mut inferior = Inferior::from_pid(pid);
    match inferior.step() {
        Ok(Status::Stopped(signal, _)) => assert_eq!(signal, SIGTRAP),
        other => panic!("the child did not stop after one step: {:?}", other),
    }
    terminate(pid);
}

#[test]
fn unwinding_nested_calls_gives_one_frame_more_than_the_depth() {
    const DEPTH: usize = 3;
    const ENTRY_IP: usize = 0x40_1000;
    let returns: [usize; DEPTH] = [0x40_1300, 0x40_1200, ENTRY_IP];
    // Frame k keeps its caller's frame base at word 2k and its return
    // address one word above.
    let mut stack: [u64; 2 * DEPTH + 2] = [0; 2 * DEPTH + 2];
    let bottom = stack.as_ptr() as usize;
    for k in 0..DEPTH {
        stack[2 * k] = (bottom + 16 * (k + 1)) as u64;
        stack[2 * k + 1] = returns[k] as u64;
    }
    black_box(&stack);
    let pid = match spawn_stopped_child(idle) {
        Some(pid) => pid,
        None => return,
    };
    let mut inferior = Inferior::from_pid(pid);
    let mut frame = Frame { ip: 0x40_1400, base: bottom };
    let mut seen: Vec<Frame> = vec![frame];
    loop {
        match inferior.next_frame(frame, frame.ip == ENTRY_IP) {
            Ok(Some(caller)) => {
                seen.push(caller);
                frame = caller;
            }
            Ok(None) => break,
            Err(err) => panic!("unwinding failed: {:?}", err),
        }
    }
    assert_eq!(
        seen,
        vec![
            Frame { ip: 0x40_1400, base: bottom },
            Frame { ip: 0x40_1300, base: bottom + 16 },
            Frame { ip: 0x40_1200, base: bottom + 32 },
            Frame { ip: ENTRY_IP, base: bottom + 48 },
        ]
    );
    assert_eq!(seen.len(), DEPTH + 1);
    assert_eq!(
        inferior.next_frame(Frame { ip: 0, base: 0xdead_0000 }, false),
        Err(TraceError::InvalidAddress)
    );
    terminate(pid);
}

#[test]
fn caller_frame_takes_the_word_above_as_the_instruction_pointer() {
    let stack: [u64; 2] = [0x7ffd_0000_2000, 0x40_1234];
    let bottom = black_box(&stack).as_ptr() as usize;
    let pid = match spawn_stopped_child(idle) {
        Some(pid) => pid,
        None => return,
    };
    let mut inferior = Inferior::from_pid(pid);
    assert_eq!(
        inferior.caller_frame(Frame { ip: 0x40_1000, base: bottom }),
        Ok(Frame { ip: 0x40_1234, base: 0x7ffd_0000_2000 })
    );
    assert_eq!(
        inferior.caller_frame(Frame { ip: 0x40_1000, base: 0xdead_0000 }),
        Err(TraceError::InvalidAddress)
    );
    terminate(pid);
}

#[test]
fn controller_unwinds_in_the_held_process() {
    let first = first_stop as fn() as usize;
    let stack: [u64; 2] = [0x7ffd_0000_2000, 0x40_1234];
    let bottom = black_box(&stack).as_ptr() as usize;
    let mut debugger = Debugger::new();
    assert_eq!(debugger.add_breakpoint(first), Ok(0));
    let pid = match spawn_stopped_child(visit_each_once) {
        Some(pid) => pid,
        None => return,
    };
    assert_eq!(debugger.start(pid), Ok(Status::Stopped(SIGTRAP, first + 1)));
    let here = Frame { ip: first + 1, base: bottom };
    assert_eq!(debugger.next_frame(here, true), Ok(None));
    assert_eq!(
        debugger.next_frame(here, false),
        Ok(Some(Frame { ip: 0x40_1234, base: 0x7ffd_0000_2000 }))
    );
    assert_eq!(debugger.state(), ControllerState::StoppedAtBreakpoint);
    let _ = debugger.release();
    terminate(pid);
}

#[test]
fn entries_at_one_address_all_hold_the_byte_before_any_trap() {
    let first = first_stop as fn() as usize;
    let mut debugger = Debugger::new();
    assert_eq!(debugger.add_breakpoint(first), Ok(0));
    assert_eq!(debugger.add_breakpoint(first), Ok(1));
    let pid = match spawn_stopped_child(visit_each_once) {
        Some(pid) => pid,
        None => return,
    };
    assert_eq!(debugger.start(pid), Ok(Status::Stopped(SIGTRAP, first + 1)));
    let saved = debugger.breakpoints().get(0).expect("first entry").saved;
    assert!(saved.is_some());
    assert!(saved != Some(0xcc));
    assert_eq!(debugger.breakpoints().get(1).expect("second entry").saved, saved);
    assert_eq!(debugger.add_breakpoint(first), Ok(2));
    assert_eq!(debugger.breakpoints().get(2).expect("third entry").saved, saved);
    assert_eq!(debugger.cont(), Ok(Some(Status::Exited(EXIT_CODE))));
}
