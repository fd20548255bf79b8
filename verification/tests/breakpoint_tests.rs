use deet::breakpoints::{Breakpoint, BreakpointTable};
use deet::debugger::{ControllerState, Debugger};
use deet::inferior::{
    frame_from_words, is_entry_function, rewound_ip, Frame, Inferior, Status, TraceError,
    WaitEvent, EFAULT, EIO, ESRCH,
};

/// A process identifier that no process has: above the largest the kernel
/// hands out.
const NO_SUCH_PID: i32 = i32::MAX;

#[test]
fn request_returns_ordinals_in_order() {
    let mut table = BreakpointTable::new();
    assert_eq!(table.len(), 0);
    assert_eq!(table.request(0x401020), 0);
    assert_eq!(table.request(0x401136), 1);
    assert_eq!(table.record(0x401150, 0x55), 2);
    assert_eq!(table.len(), 3);
    assert_eq!(table.get(0), Some(Breakpoint { addr: 0x401020, saved: None }));
    assert_eq!(table.get(2), Some(Breakpoint { addr: 0x401150, saved: Some(0x55) }));
    assert_eq!(table.get(3), None);
}

#[test]
fn lookup_finds_the_first_entry_at_an_address() {
    let mut table = BreakpointTable::new();
    assert_eq!(table.lookup(0x401020), None);
    table.request(0x401020);
    table.record(0x401136, 0x48);
    table.record(0x401020, 0xcc);
    assert_eq!(table.lookup(0x401020), Some(0));
    assert_eq!(table.lookup(0x401136), Some(1));
    assert_eq!(table.lookup(0x401137), None);
}

#[test]
fn error_numbers_are_classified() {
    assert_eq!(TraceError::from_errno(Some(ESRCH), true), TraceError::NoSuchProcess);
    assert_eq!(TraceError::from_errno(Some(ESRCH), false), TraceError::NoSuchProcess);
    assert_eq!(TraceError::from_errno(Some(EIO), true), TraceError::InvalidAddress);
    assert_eq!(TraceError::from_errno(Some(EFAULT), true), TraceError::InvalidAddress);
    assert_eq!(TraceError::from_errno(Some(EIO), false), TraceError::Os(5));
    assert_eq!(TraceError::from_errno(Some(EFAULT), false), TraceError::Os(14));
    assert_eq!(TraceError::from_errno(Some(1), true), TraceError::Os(1));
    assert_eq!(TraceError::from_errno(None, true), TraceError::Other);
}

#[test]
fn wait_reports_become_statuses() {
    assert_eq!(Status::from_event(WaitEvent::Exited(3), 0x10), Ok(Status::Exited(3)));
    assert_eq!(Status::from_event(WaitEvent::Signaled(9), 0x10), Ok(Status::Signaled(9)));
    assert_eq!(
        Status::from_event(WaitEvent::Stopped(5), 0x401021),
        Ok(Status::Stopped(5, 0x401021))
    );
    assert_eq!(
        Status::from_event(WaitEvent::Unexpected, 0),
        Err(TraceError::UnexpectedStatus)
    );
}

#[test]
fn caller_frame_comes_from_the_two_saved_words() {
    assert_eq!(
        frame_from_words(0x401150, 0x7ffd_0000_1000),
        Ok(Frame { ip: 0x401150, base: 0x7ffd_0000_1000 })
    );
}

#[test]
fn operations_on_a_missing_process_fail() {
    let mut inferior = Inferior::from_pid(NO_SUCH_PID);
    assert_eq!(inferior.pid(), NO_SUCH_PID);
    assert!(inferior.rip().is_err());
    assert!(inferior.write_byte(0x401020, 0xcc).is_err());
    assert!(inferior.back_rip().is_err());
    assert!(inferior.step().is_err());
    assert!(inferior.continue_inferior().is_err());
    assert!(inferior.frame().is_err());
    assert!(inferior.caller_frame(Frame { ip: 0, base: 0x1000 }).is_err());
    assert_eq!(
        inferior.caller_frame(Frame { ip: 0, base: usize::MAX }),
        Err(TraceError::InvalidAddress)
    );
}

#[test]
fn breakpoints_are_recorded_without_a_process() {
    let mut debugger = Debugger::new();
    assert_eq!(debugger.state(), ControllerState::NoProcess);
    assert_eq!(debugger.add_breakpoint(0x401136), Ok(0));
    assert_eq!(debugger.add_breakpoint(0x401150), Ok(1));
    assert_eq!(debugger.breakpoints().len(), 2);
    assert_eq!(
        debugger.breakpoints().get(1),
        Some(Breakpoint { addr: 0x401150, saved: None })
    );
    assert!(debugger.inferior().is_none());
    assert_eq!(debugger.state(), ControllerState::NoProcess);
}

#[test]
fn cont_without_a_process_changes_nothing() {
    let mut debugger = Debugger::new();
    debugger.add_breakpoint(0x401136).expect("recorded");
    assert_eq!(debugger.cont(), Ok(None));
    assert_eq!(debugger.state(), ControllerState::NoProcess);
    assert_eq!(debugger.breakpoints().len(), 1);
    assert!(debugger.release().is_none());
}

#[test]
fn failed_start_keeps_the_breakpoints_and_no_process() {
    let mut debugger = Debugger::new();
    debugger.add_breakpoint(0x401136).expect("recorded");
    debugger.add_breakpoint(0x401150).expect("recorded");
    assert!(debugger.start(NO_SUCH_PID).is_err());
    assert!(debugger.inferior().is_none());
    assert_eq!(debugger.state(), ControllerState::NoProcess);
    assert_eq!(debugger.breakpoints().len(), 2);
    assert_eq!(
        debugger.breakpoints().get(0),
        Some(Breakpoint { addr: 0x401136, saved: None })
    );
    assert_eq!(
        debugger.breakpoints().get(1),
        Some(Breakpoint { addr: 0x401150, saved: None })
    );
}

#[test]
fn instruction_pointer_moves_back_by_the_trap_width() {
    assert_eq!(rewound_ip(0x401021), Ok(0x401020));
    assert_eq!(rewound_ip(1), Ok(0));
    assert_eq!(rewound_ip(usize::MAX), Ok(usize::MAX - 1));
    assert_eq!(rewound_ip(0), Err(TraceError::InvalidAddress));
}

#[test]
fn only_main_is_the_entry_function() {
    assert!(is_entry_function("main"));
    assert!(!is_entry_function("Main"));
    assert!(!is_entry_function("main2"));
    assert!(!is_entry_function("mai"));
    assert!(!is_entry_function(""));
    assert!(!is_entry_function("foo"));
}

#[test]
fn a_patched_entry_takes_the_byte_of_the_first_entry_at_its_address() {
    let mut table = BreakpointTable::new();
    assert_eq!(table.record_patched(0x401020, 0x55), 0);
    assert_eq!(table.record_patched(0x401020, 0xcc), 1);
    assert_eq!(table.record_patched(0x401030, 0x48), 2);
    assert_eq!(table.get(0), Some(Breakpoint { addr: 0x401020, saved: Some(0x55) }));
    assert_eq!(table.get(1), Some(Breakpoint { addr: 0x401020, saved: Some(0x55) }));
    assert_eq!(table.get(2), Some(Breakpoint { addr: 0x401030, saved: Some(0x48) }));
}

#[test]
fn a_word_that_is_no_address_gives_no_frame() {
    if usize::BITS < 64 {
        assert_eq!(frame_from_words(u64::MAX, 0), Err(TraceError::InvalidAddress));
    } else {
        assert_eq!(
            frame_from_words(u64::MAX, 0),
            Ok(Frame { ip: usize::MAX, base: 0 })
        );
    }
}
