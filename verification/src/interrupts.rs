//! The interrupt descriptor table: which handler an exception is given to,
//! and on which stack the handler runs.

use vstd::prelude::*;
use crate::gdt::{spec_interrupt_stacks, TaskStateSegment, DOUBLE_FAULT_IST_INDEX};

verus! {

/// The number of vectors.
pub const VECTORS: usize = 256;

/// The vector of the breakpoint exception.
pub const BREAKPOINT_VECTOR: u8 = 3;

/// The vector of the double fault exception.
pub const DOUBLE_FAULT_VECTOR: u8 = 8;

/// The bytes of the interrupted context that the processor pushes before it
/// enters a handler: stack segment, stack pointer, flags, code segment and
/// instruction pointer.
pub const STACK_FRAME_BYTES: u64 = 40;

/// The bytes that the processor pushes for the error code of those
/// exceptions that have one.
pub const ERROR_CODE_BYTES: u64 = 8;

/// What the kernel does at an exception.
#[derive(Clone, Copy, Debug, PartialEq, Eq, Structural)]
pub enum Handler {
    /// Reports the breakpoint, then goes on where the kernel was.
    Breakpoint,
    /// Reports the double fault, then halts for good.
    DoubleFault,
    /// Counts the breakpoint, then goes on where the kernel was.
    CountBreakpoint,
}

/// What follows a handler.
#[derive(Clone, Copy, Debug, PartialEq, Eq, Structural)]
pub enum Disposition {
    /// The interrupted code goes on behind the instruction that trapped.
    Resume,
    /// The processor waits idle and never goes on.
    Halt,
}

/// One entry of the interrupt descriptor table.
#[derive(Clone, Copy, Debug, PartialEq, Eq, Structural)]
pub struct Entry {
    /// The handler, if the entry is present.
    pub handler: Option<Handler>,
    /// The place in the interrupt stack table of the stack to switch to, if
    /// the handler is to run on a stack of its own.
    pub stack_index: Option<u16>,
}

/// The entry of a vector without a handler.
pub open spec fn spec_missing() -> Entry {
    Entry { handler: None, stack_index: None }
}

/// The interrupt descriptor table: one entry for each of the 256 vectors.
pub struct InterruptDescriptorTable {
    entries: Vec<Entry>,
}

impl View for InterruptDescriptorTable {
    type V = Seq<Entry>;

    closed spec fn view(&self) -> Seq<Entry> {
        self.entries@
    }
}

impl InterruptDescriptorTable {
    /// Whether the table has its 256 entries.
    pub open spec fn wf(&self) -> bool {
        self@.len() == 256
    }

    /// A table without handlers.
    pub fn new() -> (idt: InterruptDescriptorTable)
        ensures
            idt.wf(),
            idt@ == Seq::new(256, |i: int| spec_missing()),
    {
        let entries: Vec<Entry> = vec![Entry { handler: None, stack_index: None }; 256];
        assert(entries@ =~= Seq::new(256, |i: int| spec_missing()));
        InterruptDescriptorTable { entries }
    }

    /// Gives `vector` the handler `handler`, to run on the interrupted stack.
    pub fn set_handler(&mut self, vector: u8, handler: Handler)
        requires
            old(self).wf(),
        ensures
            final(self).wf(),
            final(self)@ == old(self)@.update(
                vector as int,
                Entry { handler: Some(handler), stack_index: None },
            ),
    {
        self.entries.set(vector as usize, Entry { handler: Some(handler), stack_index: None });
    }

    /// Lets the handler of `vector` run on the stack at `index` of the
    /// interrupt stack table.
    pub fn set_stack_index(&mut self, vector: u8, index: u16)
        requires
            old(self).wf(),
            index < 7,
        ensures
            final(self).wf(),
            final(self)@ == old(self)@.update(
                vector as int,
                Entry { handler: old(self)@[vector as int].handler, stack_index: Some(index) },
            ),
    {
        let handler = self.entries[vector as usize].handler;
        self.entries.set(vector as usize, Entry { handler, stack_index: Some(index) });
    }

    /// The entry of `vector`.
    pub fn entry(&self, vector: u8) -> (entry: Entry)
        requires
            self.wf(),
        ensures
            entry == self@[vector as int],
    {
        self.entries[vector as usize]
    }
}

/// The table of the kernel: the breakpoint handler on the interrupted stack,
/// the double fault handler on the stack held ready for it, and no other
/// handler.
pub open spec fn spec_idt() -> Seq<Entry> {
    Seq::new(
        256,
        |i: int|
            if i == BREAKPOINT_VECTOR {
                Entry { handler: Some(Handler::Breakpoint), stack_index: None }
            } else if i == DOUBLE_FAULT_VECTOR {
                Entry {
                    handler: Some(Handler::DoubleFault),
                    stack_index: Some(DOUBLE_FAULT_IST_INDEX),
                }
            } else {
                spec_missing()
            },
    )
}

/// The table of the breakpoint test: the counting breakpoint handler, and no
/// other handler.
pub open spec fn spec_test_idt() -> Seq<Entry> {
    Seq::new(
        256,
        |i: int|
            if i == BREAKPOINT_VECTOR {
                Entry { handler: Some(Handler::CountBreakpoint), stack_index: None }
            } else {
                spec_missing()
            },
    )
}

/// Builds the interrupt descriptor table of the kernel, for the processor to
/// load.
pub fn init_idt() -> (idt: InterruptDescriptorTable)
    ensures
        idt.wf(),
        idt@ == spec_idt(),
{
    let mut idt = InterruptDescriptorTable::new();
    idt.set_handler(BREAKPOINT_VECTOR, Handler::Breakpoint);
    idt.set_handler(DOUBLE_FAULT_VECTOR, Handler::DoubleFault);
    idt.set_stack_index(DOUBLE_FAULT_VECTOR, DOUBLE_FAULT_IST_INDEX);
    assert(idt@ =~= spec_idt());
    idt
}

/// Builds the interrupt descriptor table of the breakpoint test, for the
/// processor to load.
pub fn init_test_idt() -> (idt: InterruptDescriptorTable)
    ensures
        idt.wf(),
        idt@ == spec_test_idt(),
{
    let mut idt = InterruptDescriptorTable::new();
    idt.set_handler(BREAKPOINT_VECTOR, Handler::CountBreakpoint);
    assert(idt@ =~= spec_test_idt());
    idt
}

/// Where the processor goes at an exception.
#[derive(Clone, Copy, Debug, PartialEq, Eq, Structural)]
pub enum Dispatch {
    /// It enters a handler.
    Enter {
        /// The vector whose entry it goes by.
        vector: u8,
        /// The handler.
        handler: Handler,
        /// The top of the stack on which the handler runs, before the
        /// processor pushes the interrupted context.
        stack_top: u64,
    },
    /// It finds no handler, also none for the double fault that follows from
    /// that, and resets.
    Reset,
}

/// The top of the stack on which the handler of `entry` runs: the stack that
/// the entry names in the interrupt stack table, or else the interrupted
/// stack.
pub open spec fn spec_stack_top(entry: Entry, stacks: Seq<u64>, stack_pointer: u64) -> u64 {
    match entry.stack_index {
        Some(index) => if index < stacks.len() {
            stacks[index as int]
        } else {
            stack_pointer
        },
        None => stack_pointer,
    }
}

/// Where the processor goes at the exception `vector`, with the stack
/// pointer at `stack_pointer`: to the handler of the vector; without one, to
/// the handler of the double fault; without that either, it resets.
pub open spec fn spec_dispatch(idt: Seq<Entry>, stacks: Seq<u64>, vector: u8, stack_pointer: u64) -> Dispatch {
    let entry = idt[vector as int];
    let double_fault = idt[DOUBLE_FAULT_VECTOR as int];
    match entry.handler {
        Some(handler) => Dispatch::Enter {
            vector,
            handler,
            stack_top: spec_stack_top(entry, stacks, stack_pointer),
        },
        None => match double_fault.handler {
            Some(handler) => Dispatch::Enter {
                vector: DOUBLE_FAULT_VECTOR,
                handler,
                stack_top: spec_stack_top(double_fault, stacks, stack_pointer),
            },
            None => Dispatch::Reset,
        },
    }
}

/// Whether the processor pushes an error code at the exception `vector`.
pub open spec fn spec_has_error_code(vector: u8) -> bool {
    vector == 8 || (10 <= vector <= 14) || vector == 17 || vector == 21 || vector == 29 || vector
        == 30
}

/// The stack pointer with which a handler of `vector` is entered on a stack
/// with its top at `stack_top`: the top, aligned down to 16 bytes, less the
/// bytes of the interrupted context and of the error code, if the exception
/// has one.
pub open spec fn spec_stack_pointer_at_entry(stack_top: u64, vector: u8) -> int {
    stack_top - stack_top % 16 - STACK_FRAME_BYTES - if spec_has_error_code(vector) {
        ERROR_CODE_BYTES as int
    } else {
        0
    }
}

/// Whether the processor pushes an error code at the exception `vector`.
pub fn has_error_code(vector: u8) -> (has: bool)
    ensures
        has == spec_has_error_code(vector),
{
    vector == 8 || (10 <= vector && vector <= 14) || vector == 17 || vector == 21 || vector == 29
        || vector == 30
}

/// The stack pointer with which a handler of `vector` is entered on a stack
/// with its top at `stack_top`, or `None` if the stack has no room for what
/// the processor pushes.
pub fn stack_pointer_at_entry(stack_top: u64, vector: u8) -> (pointer: Option<u64>)
    ensures
        pointer == if spec_stack_pointer_at_entry(stack_top, vector) >= 0 {
            Some(spec_stack_pointer_at_entry(stack_top, vector) as u64)
        } else {
            None::<u64>
        },
{
    let aligned: u64 = stack_top - stack_top % 16;
    let pushed: u64 = if has_error_code(vector) {
        STACK_FRAME_BYTES + ERROR_CODE_BYTES
    } else {
        STACK_FRAME_BYTES
    };
    if aligned >= pushed {
        Some(aligned - pushed)
    } else {
        None
    }
}

/// Where the processor goes at the exception `vector`, by the table `idt`
/// and the stacks of `tss`, with the stack pointer at `stack_pointer`.
pub fn dispatch(idt: &InterruptDescriptorTable, tss: &TaskStateSegment, vector: u8, stack_pointer: u64) -> (to:
    Dispatch)
    requires
        idt.wf(),
    ensures
        to == spec_dispatch(idt@, tss@, vector, stack_pointer),
{
    let entry = idt.entry(vector);
    match entry.handler {
        Some(handler) => Dispatch::Enter {
            vector,
            handler,
            stack_top: stack_top(entry, tss, stack_pointer),
        },
        None => {
            let double_fault = idt.entry(DOUBLE_FAULT_VECTOR);
            match double_fault.handler {
                Some(handler) => Dispatch::Enter {
                    vector: DOUBLE_FAULT_VECTOR,
                    handler,
                    stack_top: stack_top(double_fault, tss, stack_pointer),
                },
                None => Dispatch::Reset,
            }
        },
    }
}

/// The top of the stack on which the handler of `entry` runs.
fn stack_top(entry: Entry, tss: &TaskStateSegment, stack_pointer: u64) -> (top: u64)
    ensures
        top == spec_stack_top(entry, tss@, stack_pointer),
{
    match entry.stack_index {
        Some(index) => match tss.interrupt_stack(index) {
            Some(top) => top,
            None => stack_pointer,
        },
        None => stack_pointer,
    }
}

/// What the handlers keep between exceptions.
#[derive(Clone, Copy, Debug, PartialEq, Eq, Structural)]
pub struct HandlerState {
    /// How often the counting breakpoint handler ran.
    pub breakpoint_handler_called: usize,
}

/// The state after `handler` ran in `state`: the counting handler counts one
/// up, and goes round to zero behind the greatest count; the others keep
/// nothing.
pub open spec fn spec_state_after(handler: Handler, state: HandlerState) -> HandlerState {
    match handler {
        Handler::CountBreakpoint => HandlerState {
            breakpoint_handler_called: if state.breakpoint_handler_called == usize::MAX {
                0
            } else {
                (state.breakpoint_handler_called + 1) as usize
            },
        },
        _ => state,
    }
}

/// What follows `handler`: the double fault handler halts, the others let
/// the interrupted code go on.
pub open spec fn spec_disposition(handler: Handler) -> Disposition {
    match handler {
        Handler::DoubleFault => Disposition::Halt,
        _ => Disposition::Resume,
    }
}

impl Handler {
    /// The line with which the handler reports its exception, if it reports.
    pub fn headline(self) -> (line: Option<&'static str>)
        ensures
            match self {
                Handler::Breakpoint => line matches Some(text) && text@ == "EXCEPTION: BREAKPOINT"@,
                Handler::DoubleFault => line matches Some(text) && text@
                    == "EXCEPTION: DOUBLE FAULT"@,
                Handler::CountBreakpoint => line is None,
            },
    {
        match self {
            Handler::Breakpoint => Some("EXCEPTION: BREAKPOINT"),
            Handler::DoubleFault => Some("EXCEPTION: DOUBLE FAULT"),
            Handler::CountBreakpoint => None,
        }
    }

    /// Runs the handler but for its report: brings the state up to date and
    /// tells what follows.
    pub fn run(self, state: &mut HandlerState) -> (disposition: Disposition)
        ensures
            *final(state) == spec_state_after(self, *old(state)),
            disposition == spec_disposition(self),
    {
        match self {
            Handler::Breakpoint => Disposition::Resume,
            Handler::DoubleFault => Disposition::Halt,
            Handler::CountBreakpoint => {
                state.breakpoint_handler_called = state.breakpoint_handler_called.wrapping_add(1);
                Disposition::Resume
            },
        }
    }
}

/// What came of an exception.
#[derive(Clone, Copy, Debug, PartialEq, Eq, Structural)]
pub enum Outcome {
    /// A handler ran.
    Handled {
        /// Where the processor went.
        vector: u8,
        /// The handler that ran.
        handler: Handler,
        /// The top of the stack on which it ran.
        stack_top: u64,
        /// What follows.
        disposition: Disposition,
    },
    /// The processor found no handler and reset.
    Reset,
}

/// What comes of the exception `vector` in `state`.
pub open spec fn spec_raise(
    idt: Seq<Entry>,
    stacks: Seq<u64>,
    vector: u8,
    stack_pointer: u64,
    state: HandlerState,
) -> (HandlerState, Outcome) {
    match spec_dispatch(idt, stacks, vector, stack_pointer) {
        Dispatch::Enter { vector, handler, stack_top } => (
            spec_state_after(handler, state),
            Outcome::Handled { vector, handler, stack_top, disposition: spec_disposition(handler) },
        ),
        Dispatch::Reset => (state, Outcome::Reset),
    }
}

/// Takes the exception `vector` as the processor would: goes where the table
/// says, on the stack that the table says, and runs the handler there.
pub fn raise(
    idt: &InterruptDescriptorTable,
    tss: &TaskStateSegment,
    vector: u8,
    stack_pointer: u64,
    state: &mut HandlerState,
) -> (outcome: Outcome)
    requires
        idt.wf(),
    ensures
        (*final(state), outcome) == spec_raise(idt@, tss@, vector, stack_pointer, *old(state)),
{
    match dispatch(idt, tss, vector, stack_pointer) {
        Dispatch::Enter { vector, handler, stack_top } => {
            let disposition = handler.run(state);
            Outcome::Handled { vector, handler, stack_top, disposition }
        },
        Dispatch::Reset => Outcome::Reset,
    }
}

/// What the breakpoint test finds.
#[derive(Clone, Copy, Debug, PartialEq, Eq, Structural)]
pub enum BreakpointTestResult {
    /// The handler ran once.
    Passed,
    /// The handler did not run.
    NotCalled,
    /// The handler ran this many times, which is more than once.
    CalledTimes(usize),
}

/// Judges the breakpoint test by the count of the handler's runs after one
/// breakpoint: one run is right.
pub fn check_breakpoint_count(count: usize) -> (result: BreakpointTestResult)
    ensures
        result == match count {
            1 => BreakpointTestResult::Passed,
            0 => BreakpointTestResult::NotCalled,
            _ => BreakpointTestResult::CalledTimes(count),
        },
{
    if count == 1 {
        BreakpointTestResult::Passed
    } else if count == 0 {
        BreakpointTestResult::NotCalled
    } else {
        BreakpointTestResult::CalledTimes(count)
    }
}

/// With the table of the breakpoint test loaded, one breakpoint runs the
/// counting handler once: the count goes up by one, and the interrupted code
/// goes on. From a count of zero the count is one.
pub proof fn lemma_breakpoint_counted_once(stacks: Seq<u64>, stack_pointer: u64, state: HandlerState)
    requires
        state.breakpoint_handler_called < usize::MAX,
    ensures
        spec_raise(spec_test_idt(), stacks, BREAKPOINT_VECTOR, stack_pointer, state).0
            == (HandlerState { breakpoint_handler_called: (state.breakpoint_handler_called + 1) as usize }),
        spec_raise(spec_test_idt(), stacks, BREAKPOINT_VECTOR, stack_pointer, state).1
            == (Outcome::Handled {
            vector: BREAKPOINT_VECTOR,
            handler: Handler::CountBreakpoint,
            stack_top: stack_pointer,
            disposition: Disposition::Resume,
        }),
{
}

/// With the kernel's tables loaded, a double fault is handled on the stack
/// held ready for it, whatever the stack pointer of the interrupted code is:
/// the handler is entered with the stack pointer inside that stack's
/// storage, and it halts. The storage must have room for what the processor
/// pushes.
pub proof fn lemma_double_fault_on_dedicated_stack(stack_start: u64, stack_size: u64, stack_pointer: u64)
    requires
        stack_start + stack_size <= u64::MAX,
        stack_size >= 64,
    ensures
        spec_dispatch(
            spec_idt(),
            spec_interrupt_stacks(stack_start, stack_size),
            DOUBLE_FAULT_VECTOR,
            stack_pointer,
        ) == (Dispatch::Enter {
            vector: DOUBLE_FAULT_VECTOR,
            handler: Handler::DoubleFault,
            stack_top: (stack_start + stack_size) as u64,
        }),
        stack_start <= spec_stack_pointer_at_entry(
            (stack_start + stack_size) as u64,
            DOUBLE_FAULT_VECTOR,
        ) < stack_start + stack_size,
        spec_disposition(Handler::DoubleFault) == Disposition::Halt,
{
}

/// With the kernel's tables loaded, an exception without a handler of its
/// own ends in the double fault handler, on the stack held ready for it.
pub proof fn lemma_unhandled_exception_is_double_fault(
    stack_start: u64,
    stack_size: u64,
    vector: u8,
    stack_pointer: u64,
)
    requires
        stack_start + stack_size <= u64::MAX,
        vector != BREAKPOINT_VECTOR,
    ensures
        spec_dispatch(
            spec_idt(),
            spec_interrupt_stacks(stack_start, stack_size),
            vector,
            stack_pointer,
        ) == (Dispatch::Enter {
            vector: DOUBLE_FAULT_VECTOR,
            handler: Handler::DoubleFault,
            stack_top: (stack_start + stack_size) as u64,
        }),
{
}

} // verus!
