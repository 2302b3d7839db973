//! What the controller does to the memory of the process.
//!
//! The memory is taken as a map from addresses to bytes that changes only
//! when the controller writes a byte. Whatever the process does otherwise
//! and whatever it reports, the bytes that the controller has replaced are
//! those of its breakpoints, and it knows what was there before.

use crate::breakpoints::{
    distinct, holds, lemma_distinct_push, lemma_holds_push, lemma_position_unique, lemma_without,
    saved_byte, with_entry, without, Breakpoint,
};
use crate::control::{Goal, Outcome, Phase, Reply, Request, Status};
use crate::debug_info::DebugInfo;
use crate::laws::{lemma_drop_held, serve};
use crate::memory::TRAP_BYTE;
use crate::model::{
    advance, after_step, arrived, begin_backtrace, begin_continue, begin_insert, begin_merge,
    begin_print, begin_remove, begin_step_in, begin_step_out, begin_step_over, drop_held, finish,
    launch, merge_next, plant_next, sibling_lines, walk, InferiorModel,
};
use vstd::prelude::*;

verus! {

/// The address whose trap is lifted while its instruction runs.
pub open spec fn lifted(phase: Phase) -> Option<u64> {
    match phase {
        Phase::Rewinding { addr, step_after, .. } => if step_after {
            Some(addr)
        } else {
            None
        },
        Phase::Stepping { rearm, .. } => rearm,
        Phase::Rearming { addr, .. } => Some(addr),
        _ => None,
    }
}

/// `mem` is the memory `base` of the program but for the bytes at the
/// addresses of `table`, and `table` records what `base` has there.
pub open spec fn restorable(mem: Map<u64, u8>, table: Seq<Breakpoint>, base: Map<u64, u8>) -> bool {
    &&& mem.dom() == base.dom()
    &&& forall|i: int|
        0 <= i < table.len() ==> base.dom().contains((#[trigger] table[i]).addr)
            && table[i].orig_byte == base[table[i].addr]
    &&& forall|x: u64| base.dom().contains(x) && !holds(table, x) ==> #[trigger] mem[x] == base[x]
}

/// At every address of `table` the memory holds the trap byte, but for
/// the address `but`, where it holds the byte of the program.
pub open spec fn armed(mem: Map<u64, u8>, table: Seq<Breakpoint>, but: Option<u64>) -> bool {
    forall|i: int|
        0 <= i < table.len() ==> mem[(#[trigger] table[i]).addr] == (if but == Some(table[i].addr) {
            table[i].orig_byte
        } else {
            TRAP_BYTE
        })
}

/// With this outcome the process is gone or out of control, and its
/// memory is of no account.
pub open spec fn hopeless(outcome: Outcome) -> bool {
    match outcome {
        Outcome::Status(Status::Exited(_)) => true,
        Outcome::Status(Status::Signaled(_)) => true,
        Outcome::ControlFailure => true,
        _ => false,
    }
}

/// The operation is on its way to an outcome of that kind.
pub open spec fn doomed(m: InferiorModel, request: Request) -> bool {
    ||| m.phase matches Phase::Unplanting { outcome } && hopeless(outcome)
    ||| request matches Request::Finished(outcome) && hopeless(outcome)
}

/// `request` is the request that belongs to the state `m`, and the
/// address that it concerns has a breakpoint or has none as the state
/// needs it.
pub open spec fn coherent(m: InferiorModel, request: Request) -> bool {
    match m.phase {
        Phase::Idle => request is Finished,
        Phase::Merging { addr } => request == (Request::PokeByte { addr, value: TRAP_BYTE })
            && !holds(m.table, addr),
        Phase::Inserting { addr } => request == (Request::PokeByte { addr, value: TRAP_BYTE })
            && !holds(m.table, addr),
        Phase::Planting { addr } => request == (Request::PokeByte { addr, value: TRAP_BYTE })
            && !holds(m.table, addr),
        Phase::PlantingReturn { addr } => request == (Request::PokeByte {
            addr,
            value: TRAP_BYTE,
        }) && !holds(m.table, addr),
        Phase::Removing { addr } => request == (Request::PokeByte {
            addr,
            value: saved_byte(m.table, addr),
        }) && holds(m.table, addr),
        Phase::Disarming { addr, .. } => request == (Request::PokeByte {
            addr,
            value: saved_byte(m.table, addr),
        }) && holds(m.table, addr),
        Phase::Rewinding { addr, step_after, .. } => request is SetProgramCounter && (step_after
            ==> holds(m.table, addr)),
        Phase::Stepping { rearm, .. } => request is SingleStep && (rearm matches Some(addr)
            ==> holds(m.table, addr)),
        Phase::Rearming { addr, .. } => request == (Request::PokeByte { addr, value: TRAP_BYTE })
            && holds(m.table, addr),
        Phase::Resuming => request is Resume,
        Phase::Unplanting { .. } => m.table.len() > 0 && request == (Request::PokeByte {
            addr: m.table.last().addr,
            value: m.table.last().orig_byte,
        }),
        Phase::ReadingReturn => request is PeekWord,
        Phase::WalkingReturn { .. } => request is PeekWord,
        Phase::WalkingFrame { .. } => request is PeekWord,
        Phase::Reading { .. } => request is PeekWord,
    }
}

/// What holds between the controller in state `m` with `request` out and
/// the memory `mem` of a process whose program is `base`.
pub open spec fn in_step(m: InferiorModel, request: Request, mem: Map<u64, u8>, base: Map<u64, u8>) -> bool {
    &&& m.wf()
    &&& coherent(m, request)
    &&& restorable(mem, m.table, base)
    &&& armed(mem, m.table, lifted(m.phase)) || doomed(m, request)
}

/// The reply that comes for `request`: from the memory for a byte that is
/// to be written, else the one that is given.
pub open spec fn answer(mem: Map<u64, u8>, request: Request, given: Reply) -> (Map<u64, u8>, Reply) {
    if request is PokeByte {
        serve(mem, request)
    } else {
        (mem, given)
    }
}

/// The controller fed with the replies of the memory and, for what does
/// not concern the memory, with `replies`, one for each request.
pub open spec fn run_on(
    m: InferiorModel,
    info: &DebugInfo,
    mem: Map<u64, u8>,
    request: Request,
    replies: Seq<Reply>,
) -> (InferiorModel, Map<u64, u8>, Request)
    decreases replies.len(),
{
    if replies.len() == 0 || request is Finished {
        (m, mem, request)
    } else {
        let got = answer(mem, request, replies[0]);
        let next = advance(m, info, got.1);
        run_on(next.0, info, got.0, next.1, replies.drop_first())
    }
}

proof fn lemma_planted(mem: Map<u64, u8>, table: Seq<Breakpoint>, base: Map<u64, u8>, addr: u64)
    requires
        distinct(table),
        restorable(mem, table, base),
        !holds(table, addr),
        mem.dom().contains(addr),
    ensures
        restorable(mem.insert(addr, TRAP_BYTE), with_entry(table, addr, mem[addr]), base),
        distinct(with_entry(table, addr, mem[addr])),
        forall|but: Option<u64>|
            armed(mem, table, but) && but != Some(addr) ==> armed(
                mem.insert(addr, TRAP_BYTE),
                with_entry(table, addr, mem[addr]),
                but,
            ),
{
    let b = Breakpoint { addr, orig_byte: mem[addr] };
    let after = table.push(b);
    let patched = mem.insert(addr, TRAP_BYTE);
    lemma_distinct_push(table, b);
    assert(patched.dom() =~= base.dom());
    assert forall|i: int| 0 <= i < after.len() implies base.dom().contains(
        (#[trigger] after[i]).addr,
    ) && after[i].orig_byte == base[after[i].addr] by {
        if i < table.len() {
            assert(after[i] == table[i]);
        }
    }
    assert forall|x: u64| base.dom().contains(x) && !holds(after, x) implies #[trigger] patched[x]
        == base[x] by {
        lemma_holds_push(table, b, x);
    }
    assert forall|but: Option<u64>| armed(mem, table, but) && but != Some(addr) implies armed(
        patched,
        after,
        but,
    ) by {
        assert forall|i: int| 0 <= i < after.len() implies patched[(#[trigger] after[i]).addr] == (
        if but == Some(after[i].addr) {
            after[i].orig_byte
        } else {
            TRAP_BYTE
        }) by {
            if i < table.len() {
                assert(after[i] == table[i]);
                assert(table[i].addr != addr);
            }
        }
    }
}

proof fn lemma_taken_out(mem: Map<u64, u8>, table: Seq<Breakpoint>, base: Map<u64, u8>, addr: u64)
    requires
        distinct(table),
        restorable(mem, table, base),
        holds(table, addr),
    ensures
        mem.dom().contains(addr),
        restorable(mem.insert(addr, saved_byte(table, addr)), without(table, addr), base),
        distinct(without(table, addr)),
        forall|but: Option<u64>|
            armed(mem, table, but) && but != Some(addr) ==> armed(
                mem.insert(addr, saved_byte(table, addr)),
                without(table, addr),
                but,
            ),
{
    let p = crate::breakpoints::position(table, addr);
    let after = without(table, addr);
    let patched = mem.insert(addr, saved_byte(table, addr));
    lemma_without(table, addr);
    assert(table[p].addr == addr);
    assert(patched.dom() =~= base.dom());
    assert forall|i: int| 0 <= i < after.len() implies base.dom().contains(
        (#[trigger] after[i]).addr,
    ) && after[i].orig_byte == base[after[i].addr] && after[i].addr != addr by {
        let k = if i < p {
            i
        } else {
            i + 1
        };
        assert(after[i] == table[k]);
        if k < p {
            assert(table[k].addr != table[p].addr);
        } else {
            assert(table[p].addr != table[k].addr);
        }
    }
    assert forall|x: u64| base.dom().contains(x) && !holds(after, x) implies #[trigger] patched[x]
        == base[x] by {
        if x != addr {
            assert(!holds(table, x));
        }
    }
    assert forall|but: Option<u64>| armed(mem, table, but) && but != Some(addr) implies armed(
        patched,
        after,
        but,
    ) by {
        assert forall|i: int| 0 <= i < after.len() implies patched[(#[trigger] after[i]).addr] == (
        if but == Some(after[i].addr) {
            after[i].orig_byte
        } else {
            TRAP_BYTE
        }) by {
            let k = if i < p {
                i
            } else {
                i + 1
            };
            assert(after[i] == table[k]);
        }
    }
}

proof fn lemma_lifted(
    mem: Map<u64, u8>,
    table: Seq<Breakpoint>,
    base: Map<u64, u8>,
    addr: u64,
    down: bool,
)
    requires
        distinct(table),
        restorable(mem, table, base),
        holds(table, addr),
    ensures
        mem.dom().contains(addr),
        restorable(
            mem.insert(
                addr,
                if down {
                    TRAP_BYTE
                } else {
                    saved_byte(table, addr)
                },
            ),
            table,
            base,
        ),
        !down && armed(mem, table, None) ==> armed(
            mem.insert(addr, saved_byte(table, addr)),
            table,
            Some(addr),
        ),
        down && armed(mem, table, Some(addr)) ==> armed(mem.insert(addr, TRAP_BYTE), table, None),
{
    let p = crate::breakpoints::position(table, addr);
    assert(table[p].addr == addr);
    let byte = if down {
        TRAP_BYTE
    } else {
        saved_byte(table, addr)
    };
    let patched = mem.insert(addr, byte);
    assert(patched.dom() =~= base.dom());
    assert forall|i: int| 0 <= i < table.len() && (#[trigger] table[i]).addr == addr implies i
        == p by {
        lemma_position_unique(table, addr, i);
    }
}

proof fn lemma_finish_in_step(
    m: InferiorModel,
    outcome: Outcome,
    mem: Map<u64, u8>,
    base: Map<u64, u8>,
)
    requires
        distinct(m.table),
        m.user_count <= m.table.len(),
        m.trapped ==> m.regs.pc >= 1,
        restorable(mem, m.table, base),
        armed(mem, m.table, None) || hopeless(outcome),
    ensures
        in_step(finish(m, outcome).0, finish(m, outcome).1, mem, base),
{
}

proof fn lemma_launch_in_step(m: InferiorModel, goal: Goal, mem: Map<u64, u8>, base: Map<u64, u8>)
    requires
        distinct(m.table),
        m.user_count <= m.table.len(),
        m.trapped ==> m.regs.pc >= 1,
        restorable(mem, m.table, base),
        armed(mem, m.table, None),
    ensures
        in_step(launch(m, goal).0, launch(m, goal).1, mem, base),
{
}

proof fn lemma_after_step_in_step(
    m: InferiorModel,
    info: &DebugInfo,
    goal: Goal,
    mem: Map<u64, u8>,
    base: Map<u64, u8>,
)
    requires
        distinct(m.table),
        m.user_count <= m.table.len(),
        m.trapped ==> m.regs.pc >= 1,
        restorable(mem, m.table, base),
        armed(mem, m.table, None),
    ensures
        in_step(after_step(m, info, goal).0, after_step(m, info, goal).1, mem, base),
{
    lemma_launch_in_step(m, goal, mem, base);
    let pc = m.regs.pc;
    lemma_finish_in_step(m, Outcome::Unmapped { pc }, mem, base);
    lemma_finish_in_step(m, Outcome::Instruction { pc }, mem, base);
    if let Some(row) = info.line_at(pc) {
        lemma_finish_in_step(m, Outcome::Line { row: row as usize, pc }, mem, base);
    }
}

proof fn lemma_plant_next_in_step(m: InferiorModel, mem: Map<u64, u8>, base: Map<u64, u8>)
    requires
        distinct(m.table),
        m.user_count <= m.table.len(),
        m.trapped ==> m.regs.pc >= 1,
        restorable(mem, m.table, base),
        armed(mem, m.table, None),
    ensures
        in_step(plant_next(m).0, plant_next(m).1, mem, base),
{
    lemma_drop_held(m.table, m.queue);
    let queue = drop_held(m.table, m.queue);
    lemma_finish_in_step(InferiorModel { queue, ..m }, Outcome::ControlFailure, mem, base);
}

proof fn lemma_merge_next_in_step(m: InferiorModel, mem: Map<u64, u8>, base: Map<u64, u8>)
    requires
        distinct(m.table),
        m.trapped ==> m.regs.pc >= 1,
        restorable(mem, m.table, base),
        armed(mem, m.table, None),
    ensures
        in_step(merge_next(m).0, merge_next(m).1, mem, base),
{
    lemma_drop_held(m.table, m.queue);
}

proof fn lemma_walk_in_step(
    m: InferiorModel,
    info: &DebugInfo,
    pc: u64,
    fp: u64,
    mem: Map<u64, u8>,
    base: Map<u64, u8>,
)
    requires
        distinct(m.table),
        m.user_count <= m.table.len(),
        m.trapped ==> m.regs.pc >= 1,
        restorable(mem, m.table, base),
        armed(mem, m.table, None),
    ensures
        in_step(walk(m, info, pc, fp).0, walk(m, info, pc, fp).1, mem, base),
{
    lemma_finish_in_step(m, Outcome::Backtrace { complete: false }, mem, base);
    let noted = InferiorModel { frames: m.frames.push(pc), ..m };
    lemma_finish_in_step(noted, Outcome::Backtrace { complete: true }, mem, base);
    lemma_finish_in_step(noted, Outcome::Backtrace { complete: false }, mem, base);
}

/// The state after a trap that is to be recorded has been asked for at
/// `addr`, where no breakpoint is.
proof fn lemma_recorded(
    m: InferiorModel,
    addr: u64,
    mem: Map<u64, u8>,
    base: Map<u64, u8>,
    given: Reply,
)
    requires
        distinct(m.table),
        restorable(mem, m.table, base),
        !holds(m.table, addr),
    ensures
        ({
            let got = answer(mem, Request::PokeByte { addr, value: TRAP_BYTE }, given);
            let table = match got.1 {
                Reply::Byte(b) => with_entry(m.table, addr, b),
                _ => m.table,
            };
            &&& distinct(table)
            &&& table.len() >= m.table.len()
            &&& restorable(got.0, table, base)
            &&& armed(mem, m.table, None) ==> armed(got.0, table, None)
        }),
{
    if mem.dom().contains(addr) {
        lemma_planted(mem, m.table, base, addr);
    }
}

/// One step of the controller with the memory keeps them in step.
pub proof fn lemma_advance_in_step(
    m: InferiorModel,
    info: &DebugInfo,
    request: Request,
    mem: Map<u64, u8>,
    base: Map<u64, u8>,
    given: Reply,
)
    requires
        in_step(m, request, mem, base),
        !(m.phase is Idle),
    ensures
        ({
            let got = answer(mem, request, given);
            let next = advance(m, info, got.1);
            in_step(next.0, next.1, got.0, base)
        }),
{
    let got = answer(mem, request, given);
    let after = got.0;
    let reply = got.1;
    let bad = doomed(m, request);
    match m.phase {
        Phase::Idle => {},
        Phase::Merging { addr } => {
            lemma_recorded(m, addr, mem, base, given);
            let noted = match reply {
                Reply::Byte(b) => InferiorModel { table: with_entry(m.table, addr, b), ..m },
                _ => InferiorModel { rejected: m.rejected.push(addr), ..m },
            };
            lemma_merge_next_in_step(noted, after, base);
        },
        Phase::Inserting { addr } => {
            lemma_recorded(m, addr, mem, base, given);
        },
        Phase::Removing { addr } => {
            lemma_taken_out(mem, m.table, base, addr);
        },
        Phase::Planting { addr } => {
            lemma_recorded(m, addr, mem, base, given);
            let noted = match reply {
                Reply::Byte(b) => InferiorModel { table: with_entry(m.table, addr, b), ..m },
                _ => m,
            };
            lemma_plant_next_in_step(noted, after, base);
        },
        Phase::ReadingReturn => {
            lemma_launch_in_step(m, Goal::Resume, mem, base);
            lemma_finish_in_step(m, Outcome::ControlFailure, mem, base);
        },
        Phase::PlantingReturn { addr } => {
            lemma_recorded(m, addr, mem, base, given);
            let noted = match reply {
                Reply::Byte(b) => InferiorModel { table: with_entry(m.table, addr, b), ..m },
                _ => m,
            };
            lemma_launch_in_step(noted, Goal::Resume, after, base);
        },
        Phase::Disarming { goal, addr, rewind } => {
            lemma_lifted(mem, m.table, base, addr, false);
        },
        Phase::Rewinding { goal, addr, step_after } => {
            lemma_finish_in_step(m, Outcome::ControlFailure, mem, base);
        },
        Phase::Stepping { goal, rearm } => {
            lemma_finish_in_step(m, Outcome::ControlFailure, mem, base);
            if let Reply::Wait(event) = reply {
                let there = arrived(m, event, false);
                if !(event is Stopped) {
                    lemma_finish_in_step(
                        there,
                        Outcome::Status(crate::model::status_of(event)),
                        mem,
                        base,
                    );
                } else if rearm is None {
                    lemma_after_step_in_step(there, info, goal, mem, base);
                }
            }
        },
        Phase::Rearming { goal, addr } => {
            lemma_lifted(mem, m.table, base, addr, true);
            lemma_after_step_in_step(m, info, goal, after, base);
        },
        Phase::Resuming => {
            lemma_finish_in_step(m, Outcome::ControlFailure, mem, base);
            if let Reply::Wait(event) = reply {
                lemma_finish_in_step(
                    arrived(m, event, true),
                    Outcome::Status(crate::model::status_of(event)),
                    mem,
                    base,
                );
            }
        },
        Phase::Unplanting { outcome } => {
            let last = m.table.last();
            assert(m.table[m.table.len() - 1].addr == last.addr);
            lemma_position_unique(m.table, last.addr, m.table.len() - 1);
            lemma_taken_out(mem, m.table, base, last.addr);
            assert(without(m.table, last.addr) =~= m.table.drop_last());
            lemma_finish_in_step(
                InferiorModel { table: without(m.table, last.addr), ..m },
                outcome,
                after,
                base,
            );
        },
        Phase::WalkingReturn { fp } => {
            lemma_finish_in_step(m, Outcome::ControlFailure, mem, base);
        },
        Phase::WalkingFrame { fp, ret } => {
            lemma_finish_in_step(m, Outcome::ControlFailure, mem, base);
            if let Reply::Word(caller_fp) = reply {
                lemma_walk_in_step(m, info, ret, caller_fp, mem, base);
            }
        },
        Phase::Reading { variable, kind } => {
            lemma_finish_in_step(m, Outcome::ControlFailure, mem, base);
            if let Reply::Word(word) = reply {
                lemma_finish_in_step(
                    m,
                    Outcome::Value { variable, value: crate::variables::decoded(kind, word) },
                    mem,
                    base,
                );
            }
        },
    }
}

/// However long an operation goes on, the controller and the memory stay
/// in step.
pub proof fn lemma_run_in_step(
    m: InferiorModel,
    info: &DebugInfo,
    mem: Map<u64, u8>,
    request: Request,
    replies: Seq<Reply>,
    base: Map<u64, u8>,
)
    requires
        in_step(m, request, mem, base),
    ensures
        ({
            let ended = run_on(m, info, mem, request, replies);
            in_step(ended.0, ended.2, ended.1, base)
        }),
    decreases replies.len(),
{
    if replies.len() == 0 || request is Finished {
    } else {
        lemma_advance_in_step(m, info, request, mem, base, replies[0]);
        let got = answer(mem, request, replies[0]);
        let next = advance(m, info, got.1);
        lemma_run_in_step(next.0, info, got.0, next.1, replies.drop_first(), base);
    }
}

/// A step over a line begins in step with the memory.
proof fn lemma_begin_step_over(
    m: InferiorModel,
    info: &DebugInfo,
    mem: Map<u64, u8>,
    base: Map<u64, u8>,
)
    requires
        m.wf(),
        m.phase is Idle,
        restorable(mem, m.table, base),
        armed(mem, m.table, None),
    ensures
        in_step(begin_step_over(m, info).0, begin_step_over(m, info).1, mem, base),
{
    if let Some(queue) = sibling_lines(info, m.regs.pc) {
        lemma_plant_next_in_step(InferiorModel { queue, ..m }, mem, base);
    }
}

/// So do the operations that set the process in motion otherwise.
proof fn lemma_begin_motion(m: InferiorModel, info: &DebugInfo, mem: Map<u64, u8>, base: Map<u64, u8>)
    requires
        m.wf(),
        m.phase is Idle,
        restorable(mem, m.table, base),
        armed(mem, m.table, None),
    ensures
        in_step(begin_continue(m).0, begin_continue(m).1, mem, base),
        in_step(begin_step_in(m, info).0, begin_step_in(m, info).1, mem, base),
        in_step(begin_step_out(m).0, begin_step_out(m).1, mem, base),
{
    lemma_launch_in_step(m, Goal::Resume, mem, base);
    let start = match info.line_at(m.regs.pc) {
        Some(row) => Some(row as usize),
        None => None,
    };
    lemma_launch_in_step(m, Goal::StepInto { start }, mem, base);
    lemma_finish_in_step(
        InferiorModel { queue: Seq::empty(), ..m },
        Outcome::ControlFailure,
        mem,
        base,
    );
}

/// So do the operations on breakpoints.
proof fn lemma_begin_breakpoint(m: InferiorModel, mem: Map<u64, u8>, base: Map<u64, u8>, addr: u64)
    requires
        m.wf(),
        m.phase is Idle,
        restorable(mem, m.table, base),
        armed(mem, m.table, None),
    ensures
        in_step(begin_merge(m).0, begin_merge(m).1, mem, base),
        in_step(begin_insert(m, addr).0, begin_insert(m, addr).1, mem, base),
        in_step(begin_remove(m, addr).0, begin_remove(m, addr).1, mem, base),
{
    lemma_merge_next_in_step(InferiorModel { rejected: Seq::empty(), ..m }, mem, base);
}

/// So do the operations that only read.
proof fn lemma_begin_reading(
    m: InferiorModel,
    info: &DebugInfo,
    mem: Map<u64, u8>,
    base: Map<u64, u8>,
    name: Seq<char>,
)
    requires
        m.wf(),
        m.phase is Idle,
        restorable(mem, m.table, base),
        armed(mem, m.table, None),
    ensures
        in_step(begin_backtrace(m, info).0, begin_backtrace(m, info).1, mem, base),
        in_step(begin_print(m, info, name).0, begin_print(m, info, name).1, mem, base),
{
    lemma_walk_in_step(
        InferiorModel { frames: Seq::empty(), ..m },
        info,
        m.regs.pc,
        m.regs.fp,
        mem,
        base,
    );
}

/// What a run that is in step comes to: the controller knows the byte of
/// the program wherever it has put another; and when the run is over with
/// the breakpoints of `table` planted and the process fit to go on, the
/// memory is the one in which `table` was planted before.
proof fn lemma_run_restores(
    m: InferiorModel,
    info: &DebugInfo,
    mem: Map<u64, u8>,
    request: Request,
    replies: Seq<Reply>,
    base: Map<u64, u8>,
    before: Map<u64, u8>,
    table: Seq<Breakpoint>,
)
    requires
        in_step(m, request, mem, base),
        restorable(before, table, base),
        armed(before, table, None),
    ensures
        ({
            let ended = run_on(m, info, mem, request, replies);
            &&& restorable(ended.1, ended.0.table, base)
            &&& ended.2 matches Request::Finished(outcome) ==> (!hopeless(outcome)
                && ended.0.table == table ==> ended.1 == before)
        }),
{
    lemma_run_in_step(m, info, mem, request, replies, base);
    let ended = run_on(m, info, mem, request, replies);
    if let Request::Finished(outcome) = ended.2 {
        if !hopeless(outcome) && ended.0.table == table {
            lemma_same_memory(before, ended.1, table, base);
        }
    }
}

/// The table at the end of a run on a memory is the table at the end of
/// the run with the replies that the memory gives.
proof fn lemma_run_table(
    m: InferiorModel,
    info: &DebugInfo,
    mem: Map<u64, u8>,
    request: Request,
    replies: Seq<Reply>,
    table: Seq<Breakpoint>,
)
    requires
        crate::laws::keeps(m, request, table),
    ensures
        ({
            let ended = run_on(m, info, mem, request, replies);
            ended.2 is Finished ==> ended.0.table == table
        }),
{
    lemma_run_matches(m, info, mem, request, replies);
    crate::laws::lemma_run_keeps(
        m,
        info,
        request,
        run_replies(m, info, mem, request, replies),
        table,
    );
}

/// A step over a line leaves the memory of the process as it found it.
///
/// Let the breakpoints of the user be planted in the memory of a process
/// that is stopped. Then, whatever the process does and reports while
/// the step goes on: where the controller has put a byte in place of
/// another, it has a breakpoint and knows the byte of the program; and
/// when the step is over and the process can go on, the memory is what
/// it was, with the traps of the user's breakpoints in it and no other.
pub proof fn law_step_over_restores_memory(
    m: InferiorModel,
    info: &DebugInfo,
    mem: Map<u64, u8>,
    base: Map<u64, u8>,
    replies: Seq<Reply>,
)
    requires
        m.wf(),
        m.phase is Idle,
        restorable(mem, m.table, base),
        armed(mem, m.table, None),
    ensures
        ({
            let begun = begin_step_over(m, info);
            let ended = run_on(begun.0, info, mem, begun.1, replies);
            &&& restorable(ended.1, ended.0.table, base)
            &&& ended.2 matches Request::Finished(outcome) ==> ended.0.table == m.table && (
            !hopeless(outcome) ==> ended.1 == mem)
        }),
{
    lemma_begin_step_over(m, info, mem, base);
    let begun = begin_step_over(m, info);
    lemma_run_restores(begun.0, info, mem, begun.1, replies, base, mem, m.table);
    crate::laws::lemma_begin_keeps(m, info, Seq::empty());
    lemma_run_table(begun.0, info, mem, begun.1, replies, m.table);
}

/// The same of the other operations that leave the breakpoints of the
/// user alone: a resume, a step into, a step out, a walk of the call
/// chain and the reading of a variable.
pub proof fn law_operations_restore_memory(
    m: InferiorModel,
    info: &DebugInfo,
    mem: Map<u64, u8>,
    base: Map<u64, u8>,
    name: Seq<char>,
    replies: Seq<Reply>,
)
    requires
        m.wf(),
        m.phase is Idle,
        restorable(mem, m.table, base),
        armed(mem, m.table, None),
    ensures
        restored(m, info, mem, base, begin_continue(m), replies),
        restored(m, info, mem, base, begin_step_in(m, info), replies),
        restored(m, info, mem, base, begin_step_out(m), replies),
        restored(m, info, mem, base, begin_backtrace(m, info), replies),
        restored(m, info, mem, base, begin_print(m, info, name), replies),
{
    lemma_begin_motion(m, info, mem, base);
    lemma_begin_reading(m, info, mem, base, name);
    crate::laws::lemma_begin_keeps(m, info, name);
    let a = begin_continue(m);
    lemma_run_restores(a.0, info, mem, a.1, replies, base, mem, m.table);
    lemma_run_table(a.0, info, mem, a.1, replies, m.table);
    let b = begin_step_in(m, info);
    lemma_run_restores(b.0, info, mem, b.1, replies, base, mem, m.table);
    lemma_run_table(b.0, info, mem, b.1, replies, m.table);
    let c = begin_step_out(m);
    lemma_run_restores(c.0, info, mem, c.1, replies, base, mem, m.table);
    lemma_run_table(c.0, info, mem, c.1, replies, m.table);
    let d = begin_backtrace(m, info);
    lemma_run_restores(d.0, info, mem, d.1, replies, base, mem, m.table);
    lemma_run_table(d.0, info, mem, d.1, replies, m.table);
    let e = begin_print(m, info, name);
    lemma_run_restores(e.0, info, mem, e.1, replies, base, mem, m.table);
    lemma_run_table(e.0, info, mem, e.1, replies, m.table);
}

/// The operation that begins with `begun`, run on the memory `mem` with
/// the breakpoints of `m` planted in it, ends with these breakpoints and,
/// where the process can go on, with this memory.
pub open spec fn restored(
    m: InferiorModel,
    info: &DebugInfo,
    mem: Map<u64, u8>,
    base: Map<u64, u8>,
    begun: (InferiorModel, Request),
    replies: Seq<Reply>,
) -> bool {
    let ended = run_on(begun.0, info, mem, begun.1, replies);
    &&& restorable(ended.1, ended.0.table, base)
    &&& ended.2 matches Request::Finished(outcome) ==> ended.0.table == m.table && (!hopeless(
        outcome,
    ) ==> ended.1 == mem)
}

/// Setting and taking out breakpoints, and planting the pending ones,
/// leaves every byte of the program where no breakpoint is, and a trap at
/// every breakpoint.
pub proof fn law_breakpoints_patch_memory(
    m: InferiorModel,
    info: &DebugInfo,
    mem: Map<u64, u8>,
    base: Map<u64, u8>,
    addr: u64,
    replies: Seq<Reply>,
)
    requires
        m.wf(),
        m.phase is Idle,
        restorable(mem, m.table, base),
        armed(mem, m.table, None),
    ensures
        patched(info, mem, base, begin_merge(m), replies),
        patched(info, mem, base, begin_insert(m, addr), replies),
        patched(info, mem, base, begin_remove(m, addr), replies),
{
    lemma_begin_breakpoint(m, mem, base, addr);
    let a = begin_merge(m);
    lemma_run_in_step(a.0, info, mem, a.1, replies, base);
    let b = begin_insert(m, addr);
    lemma_run_in_step(b.0, info, mem, b.1, replies, base);
    let c = begin_remove(m, addr);
    lemma_run_in_step(c.0, info, mem, c.1, replies, base);
}

/// The operation that begins with `begun`, run on the memory `mem`, ends
/// with a memory that is the program but for the traps of the
/// breakpoints that are then planted.
pub open spec fn patched(
    info: &DebugInfo,
    mem: Map<u64, u8>,
    base: Map<u64, u8>,
    begun: (InferiorModel, Request),
    replies: Seq<Reply>,
) -> bool {
    let ended = run_on(begun.0, info, mem, begun.1, replies);
    &&& restorable(ended.1, ended.0.table, base)
    &&& ended.2 matches Request::Finished(outcome) ==> (!hopeless(outcome) ==> armed(
        ended.1,
        ended.0.table,
        None,
    ))
}

/// Two memories in which the same breakpoints are planted over the same
/// program are the same.
proof fn lemma_same_memory(
    a: Map<u64, u8>,
    b: Map<u64, u8>,
    table: Seq<Breakpoint>,
    base: Map<u64, u8>,
)
    requires
        restorable(a, table, base),
        restorable(b, table, base),
        armed(a, table, None),
        armed(b, table, None),
    ensures
        a == b,
{
    assert forall|x: u64| a.dom().contains(x) implies a[x] == b[x] by {
        if holds(table, x) {
            let i = crate::breakpoints::position(table, x);
            assert(table[i].addr == x);
        }
    }
    assert(a =~= b);
}

/// The replies that the controller gets in a run on a memory.
pub open spec fn run_replies(
    m: InferiorModel,
    info: &DebugInfo,
    mem: Map<u64, u8>,
    request: Request,
    replies: Seq<Reply>,
) -> Seq<Reply>
    decreases replies.len(),
{
    if replies.len() == 0 || request is Finished {
        replies
    } else {
        let got = answer(mem, request, replies[0]);
        let next = advance(m, info, got.1);
        seq![got.1] + run_replies(next.0, info, got.0, next.1, replies.drop_first())
    }
}

/// A run on a memory is a run with the replies that the memory gives.
proof fn lemma_run_matches(
    m: InferiorModel,
    info: &DebugInfo,
    mem: Map<u64, u8>,
    request: Request,
    replies: Seq<Reply>,
)
    ensures
        ({
            let ended = run_on(m, info, mem, request, replies);
            let plain = crate::laws::run(m, info, request, run_replies(m, info, mem, request, replies));
            ended.0 == plain.0 && ended.2 == plain.1
        }),
    decreases replies.len(),
{
    if replies.len() == 0 || request is Finished {
    } else {
        let got = answer(mem, request, replies[0]);
        let next = advance(m, info, got.1);
        let rest = run_replies(next.0, info, got.0, next.1, replies.drop_first());
        lemma_run_matches(next.0, info, got.0, next.1, replies.drop_first());
        let all = run_replies(m, info, mem, request, replies);
        assert(all =~= seq![got.1] + rest);
        assert(all.drop_first() =~= rest);
        assert(all[0] == got.1);
    }
}

} // verus!
