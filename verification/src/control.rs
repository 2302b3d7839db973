//! The vocabulary in which the controller and the code that holds the
//! traced process talk to each other.
//!
//! The controller never touches the process. It says what it needs next (a
//! [`Request`]); whoever holds the process does that and hands back what
//! happened (a [`Reply`]).

use vstd::prelude::*;

verus! {

/// The registers that the controller works with.
#[derive(Clone, Copy, Debug, PartialEq, Eq)]
pub struct Registers {
    /// Program counter.
    pub pc: u64,
    /// Frame pointer: base of the current call frame.
    pub fp: u64,
}

/// What became of the process after it was allowed to run.
#[derive(Clone, Copy, Debug, PartialEq, Eq)]
pub enum Status {
    /// Stopped by the signal with this number, at this program counter. It
    /// can be resumed.
    Stopped(i32, u64),
    /// Exited with this code.
    Exited(i32),
    /// Killed by the signal with this number.
    Signaled(i32),
}

/// A change of state of the process, as the operating system reports it.
#[derive(Clone, Copy, Debug, PartialEq, Eq)]
pub enum WaitEvent {
    Exited(i32),
    Signaled(i32),
    Stopped { signal: i32, regs: Registers },
}

/// How the bytes of a variable are to be read.
#[derive(Clone, Copy, Debug, PartialEq, Eq)]
pub enum ValueKind {
    /// Signed integer of 32 bits.
    Int,
    /// Signed integer of 64 bits.
    Long,
    /// IEEE-754 single precision.
    Float,
    /// IEEE-754 double precision.
    Double,
}

/// The value of a variable. Floating-point values are handed out as their
/// bit patterns.
#[derive(Clone, Copy, Debug, PartialEq, Eq)]
pub enum Value {
    Int(i32),
    Long(i64),
    Float(u32),
    Double(u64),
}

/// Names a variable of the debug information.
#[derive(Clone, Copy, Debug, PartialEq, Eq)]
pub enum VariableRef {
    /// Variable number `index` of function number `function`.
    Local { function: usize, index: usize },
    /// Global variable number `index`.
    Global { index: usize },
}

/// How an operation ended.
#[derive(Clone, Copy, Debug, PartialEq, Eq)]
pub enum Outcome {
    /// The process ran and then changed state.
    Status(Status),
    /// A step ended on another source line: this row of the line table.
    Line { row: usize, pc: u64 },
    /// A step ended on another row that carries the line number it started
    /// from: only the address tells the two apart.
    Instruction { pc: u64 },
    /// A step ended where no source line is known.
    Unmapped { pc: u64 },
    /// The process is stopped where no function or line is known, so there
    /// is no line to step over.
    NoLocation { pc: u64 },
    /// The call chain was walked; `complete` says whether it reached the
    /// entry function.
    Backtrace { complete: bool },
    /// A variable was read.
    Value { variable: VariableRef, value: Value },
    /// No variable of that name is in scope.
    NoSuchVariable,
    /// The variable's declared type is none that can be decoded.
    UnsupportedType { variable: VariableRef },
    /// The variable's location lies outside the address space.
    Unreachable { variable: VariableRef },
    /// A breakpoint was planted and got this number.
    BreakpointSet { index: usize, addr: u64 },
    /// The address has a breakpoint already; nothing changed.
    BreakpointKept { addr: u64 },
    /// The trap could not be written at this address; nothing changed.
    BreakpointRejected { addr: u64 },
    /// The breakpoint was taken out and its byte put back.
    BreakpointRemoved { addr: u64 },
    /// The address had no breakpoint; nothing changed.
    BreakpointAbsent { addr: u64 },
    /// The breakpoints set before the run were planted.
    Merged,
    /// The control primitive failed: the process can no longer be trusted.
    ControlFailure,
    /// The target could not be started.
    SpawnFailed,
    /// The command needs a process, and none is there.
    NoInferior,
    /// What follows `*` is no address.
    InvalidAddress,
    /// No code is known for a line of this number or a later one.
    InvalidLine,
    /// The place is neither an address nor a line nor a function.
    UnknownPlace,
    /// The session is over.
    Quit,
    /// An operation is still under way: the new one was not started.
    Busy,
    /// A reply came though nothing had been asked.
    NothingPending,
}

/// What the controller needs done next.
#[derive(Clone, Copy, Debug, PartialEq, Eq)]
pub enum Request {
    /// Put `value` at `addr` in place of the byte there, leaving every other
    /// byte alone. Answer: `Reply::Byte` with the byte that was replaced.
    PokeByte { addr: u64, value: u8 },
    /// Read the word that starts at `addr`. Answer: `Reply::Word`.
    PeekWord { addr: u64 },
    /// Set the program counter. Answer: `Reply::Done`.
    SetProgramCounter { pc: u64 },
    /// Execute one instruction and wait. Answer: `Reply::Wait`.
    SingleStep,
    /// Let the process run and wait until it changes state. Answer:
    /// `Reply::Wait`.
    Resume,
    /// Start the target with the arguments that the session holds, stopped
    /// before its first instruction. Answer: `Reply::Spawned`.
    Spawn,
    /// End the process and collect it; a process that is gone already is
    /// left alone. Answer: `Reply::Done`.
    Kill { pid: i32 },
    /// Nothing: the operation is over.
    Finished(Outcome),
}

/// What came of a request.
#[derive(Clone, Copy, Debug, PartialEq, Eq)]
pub enum Reply {
    Byte(u8),
    Word(u64),
    Done,
    Wait(WaitEvent),
    /// The target was started as process `pid` and is stopped at `regs`.
    Spawned { pid: i32, regs: Registers },
    /// The control primitive reported an error.
    Failed,
}

/// Why the process is being set in motion.
#[derive(Clone, Copy, Debug, PartialEq, Eq)]
pub enum Goal {
    /// To run until it changes state by itself.
    Resume,
    /// To execute single instructions until it leaves the row of the line
    /// table on which it started (`None`: it started on no row).
    StepInto { start: Option<usize> },
}

/// What the controller waits for.
#[derive(Clone, Copy, Debug, PartialEq, Eq)]
pub enum Phase {
    /// Nothing: no operation is under way.
    Idle,
    /// The trap for the pending breakpoint at `addr`.
    Merging { addr: u64 },
    /// The trap for a breakpoint that the user asked for.
    Inserting { addr: u64 },
    /// The original byte to be back in place of a user's breakpoint.
    Removing { addr: u64 },
    /// The trap for the temporary breakpoint at `addr`.
    Planting { addr: u64 },
    /// The caller's return address.
    ReadingReturn,
    /// The trap for the temporary breakpoint at the return address.
    PlantingReturn { addr: u64 },
    /// The original byte to be back at `addr`, so that its instruction can
    /// run once.
    Disarming { goal: Goal, addr: u64, rewind: bool },
    /// The program counter to be back at `addr`; `step_after` says whether
    /// the instruction there then runs alone, with its trap lifted.
    Rewinding { goal: Goal, addr: u64, step_after: bool },
    /// One instruction to have run; then the trap goes back to `rearm`.
    Stepping { goal: Goal, rearm: Option<u64> },
    /// The trap to be back at `addr`.
    Rearming { goal: Goal, addr: u64 },
    /// The process to change state.
    Resuming,
    /// The last temporary breakpoint to be gone; then the operation ends
    /// with `outcome`.
    Unplanting { outcome: Outcome },
    /// The return address stored in the frame at `fp`.
    WalkingReturn { fp: u64 },
    /// The frame pointer stored in the frame at `fp`.
    WalkingFrame { fp: u64, ret: u64 },
    /// The word that holds a variable.
    Reading { variable: VariableRef, kind: ValueKind },
}

} // verus!
