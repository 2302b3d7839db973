//! The controller as a state machine over mathematical values.
//!
//! A state says which breakpoints are planted, where the process is stopped
//! and what the controller waits for. `advance` is the whole behaviour of the
//! controller: from a state and the reply to the request that is out, to the
//! next state and the next request. The operations that a user can ask for
//! are the functions that start with `begin_`.

use crate::breakpoints::{distinct, holds, saved_byte, with_entry, without, Breakpoint};
use crate::control::{Goal, Outcome, Phase, Registers, Reply, Request, Status, WaitEvent};
use crate::debug_info::{covers, DebugInfo, Function};
use crate::memory::TRAP_BYTE;
use crate::variables::{decoded, kind_named, located};
use vstd::prelude::*;

verus! {

/// Distance from the frame pointer to the return address in the frame.
pub const RETURN_ADDRESS_OFFSET: u64 = 8;

/// The state of the controller of a process as a mathematical value.
pub struct InferiorModel {
    /// Identity of the process.
    pub pid: i32,
    /// The planted breakpoints in the order of planting: those of the user
    /// first, then the temporary ones of the operation under way.
    pub table: Seq<Breakpoint>,
    /// How many entries of `table`, from its start, are the user's.
    pub user_count: nat,
    /// Addresses at which the operation under way has yet to plant
    /// breakpoints.
    pub queue: Seq<u64>,
    /// The addresses found by the last walk of the call chain, innermost
    /// first.
    pub frames: Seq<u64>,
    /// The pending breakpoints that could not be planted.
    pub rejected: Seq<u64>,
    /// The registers at the last stop.
    pub regs: Registers,
    /// The last stop was caused by the trap at `regs.pc - 1`, whose
    /// instruction has yet to run.
    pub trapped: bool,
    pub phase: Phase,
}

impl InferiorModel {
    /// The state is in order: no address has two breakpoints, the user's
    /// breakpoints are all that is planted unless an operation is under
    /// way that plants temporary ones, and a trap that was run into lies
    /// one byte before the program counter.
    pub open spec fn wf(self) -> bool {
        &&& distinct(self.table)
        &&& self.user_count <= self.table.len()
        &&& self.trapped ==> self.regs.pc >= 1
        &&& (self.phase is Idle || self.phase is Merging || self.phase is Inserting
            || self.phase is Removing) ==> self.user_count == self.table.len()
        &&& self.phase is Unplanting ==> self.table.len() > self.user_count
    }

    /// The breakpoints that the user has set.
    pub open spec fn user_table(self) -> Seq<Breakpoint> {
        self.table.take(self.user_count as int)
    }
}

/// The state of a process that has just been started and is stopped at
/// `regs`, before any breakpoint is planted.
pub open spec fn fresh(pid: i32, regs: Registers, pending: Seq<u64>) -> InferiorModel {
    InferiorModel {
        pid,
        table: Seq::empty(),
        user_count: 0,
        queue: pending,
        frames: Seq::empty(),
        rejected: Seq::empty(),
        regs,
        trapped: false,
        phase: Phase::Idle,
    }
}

/// The operation is over and nothing is left to tidy up.
pub open spec fn done(m: InferiorModel, outcome: Outcome) -> (InferiorModel, Request) {
    (InferiorModel { phase: Phase::Idle, ..m }, Request::Finished(outcome))
}

/// Ends the operation with `outcome` once every temporary breakpoint is
/// gone: as long as one is left, the last one is taken out next.
pub open spec fn finish(m: InferiorModel, outcome: Outcome) -> (InferiorModel, Request) {
    if m.table.len() > m.user_count {
        let last = m.table.last();
        (
            InferiorModel { phase: Phase::Unplanting { outcome }, ..m },
            Request::PokeByte { addr: last.addr, value: last.orig_byte },
        )
    } else {
        done(m, outcome)
    }
}

/// Lets the process go: for one instruction when stepping into, freely
/// otherwise.
pub open spec fn go(m: InferiorModel, goal: Goal) -> (InferiorModel, Request) {
    match goal {
        Goal::StepInto { .. } => (
            InferiorModel { phase: Phase::Stepping { goal, rearm: None }, ..m },
            Request::SingleStep,
        ),
        Goal::Resume => (InferiorModel { phase: Phase::Resuming, ..m }, Request::Resume),
    }
}

/// Sets the process in motion. Where it sits one byte past a trap that it
/// has just run into, the instruction under the trap gets its turn first:
/// the original byte goes back, the program counter goes back by one, one
/// instruction runs, and the trap is planted again. Where the breakpoint
/// of that trap is gone by now, only the program counter goes back. A step
/// that starts on a trap which has not been run into lifts it for that one
/// instruction.
pub open spec fn launch(m: InferiorModel, goal: Goal) -> (InferiorModel, Request) {
    if m.trapped {
        let a = (m.regs.pc - 1) as u64;
        if holds(m.table, a) {
            (
                InferiorModel { phase: Phase::Disarming { goal, addr: a, rewind: true }, ..m },
                Request::PokeByte { addr: a, value: saved_byte(m.table, a) },
            )
        } else {
            (
                InferiorModel { phase: Phase::Rewinding { goal, addr: a, step_after: false }, ..m },
                Request::SetProgramCounter { pc: a },
            )
        }
    } else if goal is StepInto && holds(m.table, m.regs.pc) {
        (
            InferiorModel {
                phase: Phase::Disarming { goal, addr: m.regs.pc, rewind: false },
                ..m
            },
            Request::PokeByte { addr: m.regs.pc, value: saved_byte(m.table, m.regs.pc) },
        )
    } else {
        go(m, goal)
    }
}

/// What follows when an instruction has run. A step into goes on while the
/// process is on the row it started from and ends as soon as it is on
/// another row or on none.
pub open spec fn after_step(m: InferiorModel, info: &DebugInfo, goal: Goal) -> (
    InferiorModel,
    Request,
) {
    match goal {
        Goal::Resume => (InferiorModel { phase: Phase::Resuming, ..m }, Request::Resume),
        Goal::StepInto { start } => {
            let pc = m.regs.pc;
            match info.line_at(pc) {
                None => finish(m, Outcome::Unmapped { pc }),
                Some(row) => {
                    if start == Some(row as usize) {
                        launch(m, goal)
                    } else if start is Some && start.unwrap() < info.lines@.len()
                        && info.lines@[start.unwrap() as int].number == info.lines@[row].number {
                        finish(m, Outcome::Instruction { pc })
                    } else {
                        finish(m, Outcome::Line { row: row as usize, pc })
                    }
                },
            }
        },
    }
}

/// `queue` without the addresses at its start that have a breakpoint
/// already.
pub open spec fn drop_held(table: Seq<Breakpoint>, queue: Seq<u64>) -> Seq<u64>
    decreases queue.len(),
{
    if queue.len() == 0 || !holds(table, queue[0]) {
        queue
    } else {
        drop_held(table, queue.drop_first())
    }
}

/// Asks for the caller's return address, which lies one word above the
/// frame pointer.
pub open spec fn read_return(m: InferiorModel) -> (InferiorModel, Request) {
    if m.regs.fp + RETURN_ADDRESS_OFFSET > u64::MAX {
        finish(m, Outcome::ControlFailure)
    } else {
        (
            InferiorModel { phase: Phase::ReadingReturn, ..m },
            Request::PeekWord { addr: (m.regs.fp + RETURN_ADDRESS_OFFSET) as u64 },
        )
    }
}

/// Plants the next temporary breakpoint of the queue, or goes on to the
/// return address when the queue is used up. An address that has a
/// breakpoint is passed over.
pub open spec fn plant_next(m: InferiorModel) -> (InferiorModel, Request) {
    let queue = drop_held(m.table, m.queue);
    if queue.len() > 0 {
        (
            InferiorModel {
                phase: Phase::Planting { addr: queue[0] },
                queue: queue.drop_first(),
                ..m
            },
            Request::PokeByte { addr: queue[0], value: TRAP_BYTE },
        )
    } else {
        read_return(InferiorModel { queue, ..m })
    }
}

/// Plants the next pending breakpoint; all of them become the user's
/// breakpoints. An address that has a breakpoint is passed over.
pub open spec fn merge_next(m: InferiorModel) -> (InferiorModel, Request) {
    let queue = drop_held(m.table, m.queue);
    let m = InferiorModel { user_count: m.table.len(), ..m };
    if queue.len() > 0 {
        (
            InferiorModel {
                phase: Phase::Merging { addr: queue[0] },
                queue: queue.drop_first(),
                ..m
            },
            Request::PokeByte { addr: queue[0], value: TRAP_BYTE },
        )
    } else {
        done(InferiorModel { queue, ..m }, Outcome::Merged)
    }
}

/// The name of the function at which a walk of the call chain ends.
pub open spec fn entry_name() -> Seq<char> {
    "main"@
}

/// One frame of the walk: `pc` is an address in the frame's function and
/// `fp` its frame pointer. The walk notes the frame and goes on to the
/// caller unless the function is the entry function.
pub open spec fn walk(m: InferiorModel, info: &DebugInfo, pc: u64, fp: u64) -> (
    InferiorModel,
    Request,
) {
    match info.function_at(pc) {
        None => finish(m, Outcome::Backtrace { complete: false }),
        Some(f) => {
            let m = InferiorModel { frames: m.frames.push(pc), ..m };
            if info.functions@[f].name@ == entry_name() {
                finish(m, Outcome::Backtrace { complete: true })
            } else if fp + RETURN_ADDRESS_OFFSET > u64::MAX {
                finish(m, Outcome::Backtrace { complete: false })
            } else {
                (
                    InferiorModel { phase: Phase::WalkingReturn { fp }, ..m },
                    Request::PeekWord { addr: (fp + RETURN_ADDRESS_OFFSET) as u64 },
                )
            }
        },
    }
}

/// The addresses at which lines start in the code of `f`, found by asking
/// for line `number`, then for the next, and so on, until a line starts at
/// or behind the end of `f` or no line is left. The address `skip` is left
/// out.
pub open spec fn line_starts(info: &DebugInfo, f: Function, skip: u64, number: u64) -> Seq<u64>
    decreases u64::MAX - number,
{
    match info.line_address(None, number) {
        None => Seq::empty(),
        Some(a) => {
            if a >= f.address && a - f.address >= f.text_length {
                Seq::empty()
            } else {
                let rest = if number < u64::MAX {
                    line_starts(info, f, skip, (number + 1) as u64)
                } else {
                    Seq::empty()
                };
                if covers(f, a) && a != skip {
                    seq![a] + rest
                } else {
                    rest
                }
            }
        },
    }
}

/// Where a step over the line at `pc` may come to rest inside the function
/// that holds `pc`: the starts of its other lines. `None` where `pc` is in
/// no function or on no line.
pub open spec fn sibling_lines(info: &DebugInfo, pc: u64) -> Option<Seq<u64>> {
    if info.function_at(pc) is Some && info.line_at(pc) is Some {
        let f = info.functions@[info.function_at(pc).unwrap()];
        let skip = info.lines@[info.line_at(pc).unwrap()].address;
        match info.line_at(f.address) {
            Some(first) => Some(line_starts(info, f, skip, info.lines@[first].number)),
            None => Some(Seq::empty()),
        }
    } else {
        None
    }
}

/// Translates what the operating system reports into a status.
pub open spec fn status_of(event: WaitEvent) -> Status {
    match event {
        WaitEvent::Exited(code) => Status::Exited(code),
        WaitEvent::Signaled(signal) => Status::Signaled(signal),
        WaitEvent::Stopped { signal, regs } => Status::Stopped(signal, regs.pc),
    }
}

/// The state after the process has changed state by `event`.
pub open spec fn arrived(m: InferiorModel, event: WaitEvent, resumed: bool) -> InferiorModel {
    match event {
        WaitEvent::Stopped { signal, regs } => InferiorModel {
            regs,
            trapped: resumed && regs.pc >= 1 && holds(m.table, (regs.pc - 1) as u64),
            ..m
        },
        _ => InferiorModel { trapped: false, ..m },
    }
}

/// The controller's step: the state after `reply` has come in for the
/// request that was out, and the next request.
pub open spec fn advance(m: InferiorModel, info: &DebugInfo, reply: Reply) -> (
    InferiorModel,
    Request,
) {
    match m.phase {
        Phase::Idle => (m, Request::Finished(Outcome::NothingPending)),
        Phase::Merging { addr } => {
            let m = match reply {
                Reply::Byte(b) => InferiorModel { table: with_entry(m.table, addr, b), ..m },
                _ => InferiorModel { rejected: m.rejected.push(addr), ..m },
            };
            merge_next(m)
        },
        Phase::Inserting { addr } => match reply {
            Reply::Byte(b) => {
                let table = with_entry(m.table, addr, b);
                done(
                    InferiorModel { table, user_count: table.len(), ..m },
                    Outcome::BreakpointSet { index: m.table.len() as usize, addr },
                )
            },
            _ => done(m, Outcome::BreakpointRejected { addr }),
        },
        Phase::Removing { addr } => {
            let table = without(m.table, addr);
            done(
                InferiorModel { table, user_count: table.len(), ..m },
                match reply {
                    Reply::Byte(_) => Outcome::BreakpointRemoved { addr },
                    _ => Outcome::ControlFailure,
                },
            )
        },
        Phase::Planting { addr } => {
            let m = match reply {
                Reply::Byte(b) => InferiorModel { table: with_entry(m.table, addr, b), ..m },
                _ => m,
            };
            plant_next(m)
        },
        Phase::ReadingReturn => match reply {
            Reply::Word(ret) => {
                if holds(m.table, ret) {
                    launch(m, Goal::Resume)
                } else {
                    (
                        InferiorModel { phase: Phase::PlantingReturn { addr: ret }, ..m },
                        Request::PokeByte { addr: ret, value: TRAP_BYTE },
                    )
                }
            },
            _ => finish(m, Outcome::ControlFailure),
        },
        Phase::PlantingReturn { addr } => {
            let m = match reply {
                Reply::Byte(b) => InferiorModel { table: with_entry(m.table, addr, b), ..m },
                _ => m,
            };
            launch(m, Goal::Resume)
        },
        Phase::Disarming { goal, addr, rewind } => match reply {
            Reply::Byte(_) => {
                if rewind {
                    (
                        InferiorModel { phase: Phase::Rewinding { goal, addr, step_after: true }, ..m },
                        Request::SetProgramCounter { pc: addr },
                    )
                } else {
                    (
                        InferiorModel { phase: Phase::Stepping { goal, rearm: Some(addr) }, ..m },
                        Request::SingleStep,
                    )
                }
            },
            _ => finish(m, Outcome::ControlFailure),
        },
        Phase::Rewinding { goal, addr, step_after } => match reply {
            Reply::Done => {
                let m = InferiorModel {
                    regs: Registers { pc: addr, fp: m.regs.fp },
                    trapped: false,
                    ..m
                };
                if step_after {
                    (
                        InferiorModel { phase: Phase::Stepping { goal, rearm: Some(addr) }, ..m },
                        Request::SingleStep,
                    )
                } else {
                    go(m, goal)
                }
            },
            _ => finish(m, Outcome::ControlFailure),
        },
        Phase::Stepping { goal, rearm } => match reply {
            Reply::Wait(event) => {
                let m = arrived(m, event, false);
                if event is Stopped {
                    match rearm {
                        Some(addr) => (
                            InferiorModel { phase: Phase::Rearming { goal, addr }, ..m },
                            Request::PokeByte { addr, value: TRAP_BYTE },
                        ),
                        None => after_step(m, info, goal),
                    }
                } else {
                    finish(m, Outcome::Status(status_of(event)))
                }
            },
            _ => finish(m, Outcome::ControlFailure),
        },
        Phase::Rearming { goal, addr } => match reply {
            Reply::Byte(_) => after_step(m, info, goal),
            _ => finish(m, Outcome::ControlFailure),
        },
        Phase::Resuming => match reply {
            Reply::Wait(event) => finish(arrived(m, event, true), Outcome::Status(status_of(event))),
            _ => finish(m, Outcome::ControlFailure),
        },
        Phase::Unplanting { outcome } => finish(
            InferiorModel { table: without(m.table, m.table.last().addr), ..m },
            outcome,
        ),
        Phase::WalkingReturn { fp } => match reply {
            Reply::Word(ret) => (
                InferiorModel { phase: Phase::WalkingFrame { fp, ret }, ..m },
                Request::PeekWord { addr: fp },
            ),
            _ => finish(m, Outcome::ControlFailure),
        },
        Phase::WalkingFrame { fp, ret } => match reply {
            Reply::Word(caller_fp) => walk(m, info, ret, caller_fp),
            _ => finish(m, Outcome::ControlFailure),
        },
        Phase::Reading { variable, kind } => match reply {
            Reply::Word(word) => finish(m, Outcome::Value { variable, value: decoded(kind, word) }),
            _ => finish(m, Outcome::ControlFailure),
        },
    }
}

/// An operation can start only while none is under way.
pub open spec fn refused(m: InferiorModel) -> (InferiorModel, Request) {
    (m, Request::Finished(Outcome::Busy))
}

/// Plants the breakpoints that were set before the process existed.
pub open spec fn begin_merge(m: InferiorModel) -> (InferiorModel, Request) {
    if m.phase is Idle {
        merge_next(InferiorModel { rejected: Seq::empty(), ..m })
    } else {
        refused(m)
    }
}

/// Plants a breakpoint at `addr` for the user; nothing happens where one is
/// planted already.
pub open spec fn begin_insert(m: InferiorModel, addr: u64) -> (InferiorModel, Request) {
    if !(m.phase is Idle) {
        refused(m)
    } else if holds(m.table, addr) {
        done(m, Outcome::BreakpointKept { addr })
    } else {
        (
            InferiorModel { phase: Phase::Inserting { addr }, ..m },
            Request::PokeByte { addr, value: TRAP_BYTE },
        )
    }
}

/// Takes the user's breakpoint at `addr` out; nothing happens where none is
/// planted.
pub open spec fn begin_remove(m: InferiorModel, addr: u64) -> (InferiorModel, Request) {
    if !(m.phase is Idle) {
        refused(m)
    } else if holds(m.table, addr) {
        (
            InferiorModel { phase: Phase::Removing { addr }, ..m },
            Request::PokeByte { addr, value: saved_byte(m.table, addr) },
        )
    } else {
        done(m, Outcome::BreakpointAbsent { addr })
    }
}

/// Lets the process run until it changes state.
pub open spec fn begin_continue(m: InferiorModel) -> (InferiorModel, Request) {
    if m.phase is Idle {
        launch(m, Goal::Resume)
    } else {
        refused(m)
    }
}

/// Runs the process until it is on another line.
pub open spec fn begin_step_in(m: InferiorModel, info: &DebugInfo) -> (InferiorModel, Request) {
    if m.phase is Idle {
        let start = match info.line_at(m.regs.pc) {
            Some(row) => Some(row as usize),
            None => None,
        };
        launch(m, Goal::StepInto { start })
    } else {
        refused(m)
    }
}

/// Runs the process until the function it is in returns.
pub open spec fn begin_step_out(m: InferiorModel) -> (InferiorModel, Request) {
    if m.phase is Idle {
        read_return(InferiorModel { queue: Seq::empty(), ..m })
    } else {
        refused(m)
    }
}

/// Runs the process until it is on another line of the function it is in,
/// or back in the caller.
pub open spec fn begin_step_over(m: InferiorModel, info: &DebugInfo) -> (InferiorModel, Request) {
    if !(m.phase is Idle) {
        refused(m)
    } else {
        match sibling_lines(info, m.regs.pc) {
            Some(queue) => plant_next(InferiorModel { queue, ..m }),
            None => done(m, Outcome::NoLocation { pc: m.regs.pc }),
        }
    }
}

/// Walks the call chain from where the process is stopped.
pub open spec fn begin_backtrace(m: InferiorModel, info: &DebugInfo) -> (InferiorModel, Request) {
    if m.phase is Idle {
        walk(InferiorModel { frames: Seq::empty(), ..m }, info, m.regs.pc, m.regs.fp)
    } else {
        refused(m)
    }
}

/// Reads the variable that `name` means where the process is stopped.
pub open spec fn begin_print(m: InferiorModel, info: &DebugInfo, name: Seq<char>) -> (
    InferiorModel,
    Request,
) {
    if !(m.phase is Idle) {
        refused(m)
    } else {
        match info.lookup(m.regs.pc, name) {
            None => done(m, Outcome::NoSuchVariable),
            Some(variable) => {
                let v = info.variable_at(variable);
                match kind_named(v.declared_type@) {
                    None => done(m, Outcome::UnsupportedType { variable }),
                    Some(kind) => match located(v.location, m.regs.fp) {
                        None => done(m, Outcome::Unreachable { variable }),
                        Some(addr) => (
                            InferiorModel { phase: Phase::Reading { variable, kind }, ..m },
                            Request::PeekWord { addr },
                        ),
                    },
                }
            },
        }
    }
}

} // verus!
