use blog_os::gdt::{
    init, GdtEntry, GlobalDescriptorTable, Selectors, TaskStateSegment, DOUBLE_FAULT_IST_INDEX,
    IST_ENTRIES, KERNEL_CODE_SEGMENT,
};
use blog_os::interrupts::{
    check_breakpoint_count, dispatch, has_error_code, init_idt, init_test_idt, raise,
    stack_pointer_at_entry, BreakpointTestResult, Dispatch, Disposition, Entry, Handler,
    HandlerState, InterruptDescriptorTable, Outcome, BREAKPOINT_VECTOR, DOUBLE_FAULT_VECTOR,
    ERROR_CODE_BYTES, STACK_FRAME_BYTES, VECTORS,
};

const STACK_START: u64 = 0x20_0000;
const STACK_SIZE: u64 = 4096;

#[test]
fn constants_of_the_tables() {
    assert_eq!(DOUBLE_FAULT_IST_INDEX, 0);
    assert_eq!(IST_ENTRIES, 7);
    assert_eq!(VECTORS, 256);
    assert_eq!(BREAKPOINT_VECTOR, 3);
    assert_eq!(DOUBLE_FAULT_VECTOR, 8);
    assert_eq!(STACK_FRAME_BYTES, 40);
    assert_eq!(ERROR_CODE_BYTES, 8);
    assert_eq!(KERNEL_CODE_SEGMENT, 0x00af_9b00_0000_ffff);
}

#[test]
fn segment_tables_hold_code_segment_and_double_fault_stack() {
    let tables = init(STACK_START, STACK_SIZE);
    assert_eq!(tables.selectors, Selectors { code_selector: 8, tss_selector: 16 });
    assert_eq!(tables.gdt.len(), 4);
    assert_eq!(tables.gdt.entry(0), Some(GdtEntry::Null));
    assert_eq!(tables.gdt.entry(1), Some(GdtEntry::UserSegment(0x00af_9b00_0000_ffff)));
    assert_eq!(tables.gdt.entry(2), Some(GdtEntry::TssLow));
    assert_eq!(tables.gdt.entry(3), Some(GdtEntry::TssHigh));
    assert_eq!(tables.gdt.entry(4), None);
    assert_eq!(
        tables.tss.interrupt_stack_table,
        [STACK_START + STACK_SIZE, 0, 0, 0, 0, 0, 0]
    );
    assert_eq!(tables.tss.interrupt_stack(0), Some(STACK_START + STACK_SIZE));
    assert_eq!(tables.tss.interrupt_stack(1), Some(0));
    assert_eq!(tables.tss.interrupt_stack(6), Some(0));
    assert_eq!(tables.tss.interrupt_stack(7), None);
}

#[test]
fn segment_tables_agree_with_the_x86_64_crate() {
    let mut theirs = x86_64::structures::gdt::GlobalDescriptorTable::new();
    let code = theirs.append(x86_64::structures::gdt::Descriptor::kernel_code_segment());
    let tables = init(STACK_START, STACK_SIZE);
    assert_eq!(tables.selectors.code_selector, code.0);
    assert_eq!(
        tables.gdt.entry(1),
        Some(GdtEntry::UserSegment(theirs.entries()[1].raw()))
    );
    assert_eq!(
        tables.selectors.tss_selector,
        x86_64::registers::segmentation::SegmentSelector::new(2, x86_64::PrivilegeLevel::Ring0).0
    );
}

#[test]
fn descriptor_table_gives_selectors_by_index() {
    let mut gdt = GlobalDescriptorTable::new();
    assert_eq!(gdt.len(), 1);
    assert_eq!(gdt.append_tss_segment(), 8);
    assert_eq!(gdt.append_user_segment(5), 24);
    assert_eq!(gdt.append_user_segment(6), 32);
    assert_eq!(gdt.len(), 5);
    assert_eq!(gdt.entry(3), Some(GdtEntry::UserSegment(5)));
    assert_eq!(gdt.entry(4), Some(GdtEntry::UserSegment(6)));
}

#[test]
fn task_state_segment_keeps_its_stacks() {
    let mut tss = TaskStateSegment::new();
    assert_eq!(tss.interrupt_stack_table, [0; 7]);
    tss.set_interrupt_stack(6, 0x9000);
    tss.set_interrupt_stack(2, 0x7000);
    assert_eq!(tss.interrupt_stack_table, [0, 0, 0x7000, 0, 0, 0, 0x9000]);
}

#[test]
fn kernel_table_has_breakpoint_and_double_fault_handlers() {
    let idt = init_idt();
    for vector in 0..=255u8 {
        let expected = if vector == 3 {
            Entry { handler: Some(Handler::Breakpoint), stack_index: None }
        } else if vector == 8 {
            Entry { handler: Some(Handler::DoubleFault), stack_index: Some(0) }
        } else {
            Entry { handler: None, stack_index: None }
        };
        assert_eq!(idt.entry(vector), expected);
    }
}

#[test]
fn test_table_has_the_counting_breakpoint_handler_only() {
    let idt = init_test_idt();
    for vector in 0..=255u8 {
        let expected = if vector == 3 {
            Entry { handler: Some(Handler::CountBreakpoint), stack_index: None }
        } else {
            Entry { handler: None, stack_index: None }
        };
        assert_eq!(idt.entry(vector), expected);
    }
}

#[test]
fn table_entries_can_be_set() {
    let mut idt = InterruptDescriptorTable::new();
    assert_eq!(idt.entry(14), Entry { handler: None, stack_index: None });
    idt.set_handler(14, Handler::DoubleFault);
    assert_eq!(idt.entry(14), Entry { handler: Some(Handler::DoubleFault), stack_index: None });
    idt.set_stack_index(14, 6);
    assert_eq!(
        idt.entry(14),
        Entry { handler: Some(Handler::DoubleFault), stack_index: Some(6) }
    );
    idt.set_handler(14, Handler::Breakpoint);
    assert_eq!(idt.entry(14), Entry { handler: Some(Handler::Breakpoint), stack_index: None });
    assert_eq!(idt.entry(13), Entry { handler: None, stack_index: None });
    assert_eq!(idt.entry(255), Entry { handler: None, stack_index: None });
}

#[test]
fn breakpoint_once_counts_one() {
    let idt = init_test_idt();
    let tss = TaskStateSegment::new();
    let mut state = HandlerState { breakpoint_handler_called: 0 };
    let outcome = raise(&idt, &tss, BREAKPOINT_VECTOR, 0x8000, &mut state);
    assert_eq!(state.breakpoint_handler_called, 1);
    assert_eq!(
        outcome,
        Outcome::Handled {
            vector: 3,
            handler: Handler::CountBreakpoint,
            stack_top: 0x8000,
            disposition: Disposition::Resume,
        }
    );
    assert_eq!(check_breakpoint_count(state.breakpoint_handler_called), BreakpointTestResult::Passed);
    raise(&idt, &tss, BREAKPOINT_VECTOR, 0x8000, &mut state);
    assert_eq!(state.breakpoint_handler_called, 2);
    assert_eq!(
        check_breakpoint_count(state.breakpoint_handler_called),
        BreakpointTestResult::CalledTimes(2)
    );
}

#[test]
fn breakpoint_count_is_judged() {
    assert_eq!(check_breakpoint_count(1), BreakpointTestResult::Passed);
    assert_eq!(check_breakpoint_count(0), BreakpointTestResult::NotCalled);
    assert_eq!(check_breakpoint_count(2), BreakpointTestResult::CalledTimes(2));
    assert_eq!(
        check_breakpoint_count(usize::MAX),
        BreakpointTestResult::CalledTimes(usize::MAX)
    );
}

#[test]
fn breakpoint_count_goes_round_behind_the_greatest() {
    let mut state = HandlerState { breakpoint_handler_called: usize::MAX };
    assert_eq!(Handler::CountBreakpoint.run(&mut state), Disposition::Resume);
    assert_eq!(state.breakpoint_handler_called, 0);
}

#[test]
fn kernel_breakpoint_resumes_on_the_interrupted_stack() {
    let idt = init_idt();
    let tables = init(STACK_START, STACK_SIZE);
    let mut state = HandlerState { breakpoint_handler_called: 0 };
    let outcome = raise(&idt, &tables.tss, BREAKPOINT_VECTOR, 0x7fff_0000, &mut state);
    assert_eq!(
        outcome,
        Outcome::Handled {
            vector: 3,
            handler: Handler::Breakpoint,
            stack_top: 0x7fff_0000,
            disposition: Disposition::Resume,
        }
    );
    assert_eq!(state.breakpoint_handler_called, 0);
}

#[test]
fn double_fault_runs_on_its_own_stack_and_halts() {
    let idt = init_idt();
    let tables = init(STACK_START, STACK_SIZE);
    for stack_pointer in [0u64, 8, 0x7fff_0000, STACK_START + 16, u64::MAX] {
        let mut state = HandlerState { breakpoint_handler_called: 0 };
        let outcome = raise(&idt, &tables.tss, DOUBLE_FAULT_VECTOR, stack_pointer, &mut state);
        assert_eq!(
            outcome,
            Outcome::Handled {
                vector: 8,
                handler: Handler::DoubleFault,
                stack_top: STACK_START + STACK_SIZE,
                disposition: Disposition::Halt,
            }
        );
        let pointer = stack_pointer_at_entry(STACK_START + STACK_SIZE, 8).expect("room");
        assert_eq!(pointer, STACK_START + STACK_SIZE - 48);
        assert!(STACK_START <= pointer && pointer < STACK_START + STACK_SIZE);
    }
}

#[test]
fn exception_without_handler_becomes_a_double_fault() {
    let idt = init_idt();
    let tables = init(STACK_START, STACK_SIZE);
    for vector in [0u8, 6, 13, 14, 32, 255] {
        assert_eq!(
            dispatch(&idt, &tables.tss, vector, 0x9000),
            Dispatch::Enter {
                vector: 8,
                handler: Handler::DoubleFault,
                stack_top: STACK_START + STACK_SIZE,
            }
        );
    }
}

#[test]
fn exception_without_any_handler_resets() {
    let idt = init_test_idt();
    let tss = TaskStateSegment::new();
    let mut state = HandlerState { breakpoint_handler_called: 5 };
    assert_eq!(dispatch(&idt, &tss, 14, 0x9000), Dispatch::Reset);
    assert_eq!(dispatch(&idt, &tss, 8, 0x9000), Dispatch::Reset);
    assert_eq!(raise(&idt, &tss, 14, 0x9000, &mut state), Outcome::Reset);
    assert_eq!(state.breakpoint_handler_called, 5);
    let empty = InterruptDescriptorTable::new();
    assert_eq!(dispatch(&empty, &tss, 3, 0x9000), Dispatch::Reset);
}

#[test]
fn handler_runs_on_the_stack_that_its_entry_names() {
    let mut idt = InterruptDescriptorTable::new();
    idt.set_handler(14, Handler::Breakpoint);
    idt.set_stack_index(14, 3);
    let mut tss = TaskStateSegment::new();
    tss.set_interrupt_stack(3, 0x5000);
    assert_eq!(
        dispatch(&idt, &tss, 14, 0x9000),
        Dispatch::Enter { vector: 14, handler: Handler::Breakpoint, stack_top: 0x5000 }
    );
}

#[test]
fn stack_pointer_at_entry_is_below_the_aligned_top() {
    assert_eq!(stack_pointer_at_entry(0x1000, 3), Some(0x1000 - 40));
    assert_eq!(stack_pointer_at_entry(0x1000, 8), Some(0x1000 - 48));
    assert_eq!(stack_pointer_at_entry(0x100f, 3), Some(0x1000 - 40));
    assert_eq!(stack_pointer_at_entry(0x100f, 14), Some(0x1000 - 48));
    assert_eq!(stack_pointer_at_entry(40, 3), None);
    assert_eq!(stack_pointer_at_entry(48, 3), Some(8));
    assert_eq!(stack_pointer_at_entry(48, 8), Some(0));
    assert_eq!(stack_pointer_at_entry(47, 8), None);
    assert_eq!(stack_pointer_at_entry(0, 0), None);
    assert_eq!(stack_pointer_at_entry(u64::MAX, 0), Some(u64::MAX - 15 - 40));
}

#[test]
fn error_codes_come_with_the_known_exceptions() {
    let with: [u8; 10] = [8, 10, 11, 12, 13, 14, 17, 21, 29, 30];
    for vector in 0..=255u8 {
        assert_eq!(has_error_code(vector), with.contains(&vector));
    }
}

#[test]
fn handlers_report_and_dispose() {
    let mut state = HandlerState { breakpoint_handler_called: 7 };
    assert_eq!(Handler::Breakpoint.headline(), Some("EXCEPTION: BREAKPOINT"));
    assert_eq!(Handler::DoubleFault.headline(), Some("EXCEPTION: DOUBLE FAULT"));
    assert_eq!(Handler::CountBreakpoint.headline(), None);
    assert_eq!(Handler::Breakpoint.run(&mut state), Disposition::Resume);
    assert_eq!(Handler::DoubleFault.run(&mut state), Disposition::Halt);
    assert_eq!(state.breakpoint_handler_called, 7);
    assert_eq!(Handler::CountBreakpoint.run(&mut state), Disposition::Resume);
    assert_eq!(state.breakpoint_handler_called, 8);
}
