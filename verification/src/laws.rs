//! What holds of the controller whatever the process does.

use crate::breakpoints::{
    distinct, holds, lemma_distinct_push, lemma_position_unique, lemma_without,
    lemma_without_pushed, saved_byte, with_entry, without, Breakpoint,
};
use crate::control::{Goal, Outcome, Phase, Registers, Reply, Request, WaitEvent};
use crate::debug_info::DebugInfo;
use crate::debugger::{dispatch, lost, place_address, proceed, SessionModel, Stage};
use crate::debugger_command::DebuggerCommand;
use crate::memory::{byte_index, word_bytes, TRAP_BYTE};
use crate::model::{
    advance, after_step, arrived, begin_backtrace, begin_continue, begin_insert, begin_merge,
    begin_print, begin_remove, begin_step_in, begin_step_out, begin_step_over, finish, fresh,
    drop_held, launch, merge_next, plant_next, sibling_lines, InferiorModel,
};
use vstd::prelude::*;

verus! {

/// What a request does to a memory that holds a byte at each address of
/// `mem`, and what the answer is. Only `PokeByte` touches the memory; a
/// byte that is not there cannot be replaced.
pub open spec fn serve(mem: Map<u64, u8>, request: Request) -> (Map<u64, u8>, Reply) {
    match request {
        Request::PokeByte { addr, value } => {
            if mem.dom().contains(addr) {
                (mem.insert(addr, value), Reply::Byte(mem[addr]))
            } else {
                (mem, Reply::Failed)
            }
        },
        _ => (mem, Reply::Failed),
    }
}

/// The operation under way is one that sets the process in motion or only
/// reads from it: it plants temporary breakpoints at most.
pub open spec fn transient(phase: Phase) -> bool {
    !(phase is Idle || phase is Merging || phase is Inserting || phase is Removing)
}

/// The controller fed with `replies`, one after the other, for as long as
/// it asks for something.
pub open spec fn run(m: InferiorModel, info: &DebugInfo, request: Request, replies: Seq<Reply>) -> (
    InferiorModel,
    Request,
)
    decreases replies.len(),
{
    if replies.len() == 0 || request is Finished {
        (m, request)
    } else {
        let next = advance(m, info, replies[0]);
        run(next.0, info, next.1, replies.drop_first())
    }
}

/// A state between two requests of an operation that leaves the user's
/// breakpoints alone: `table` is what the user's breakpoints were when the
/// operation began.
pub open spec fn keeps(m: InferiorModel, request: Request, table: Seq<Breakpoint>) -> bool {
    &&& m.wf()
    &&& m.user_table() == table
    &&& (m.phase is Idle || transient(m.phase))
    &&& request is Finished <==> m.phase is Idle
}

proof fn lemma_with_entry(s: Seq<Breakpoint>, addr: u64, byte: u8, n: nat)
    requires
        distinct(s),
        n <= s.len(),
    ensures
        distinct(with_entry(s, addr, byte)),
        with_entry(s, addr, byte).take(n as int) == s.take(n as int),
        with_entry(s, addr, byte).len() >= s.len(),
{
    if !holds(s, addr) {
        lemma_distinct_push(s, Breakpoint { addr, orig_byte: byte });
    }
    assert(with_entry(s, addr, byte).take(n as int) =~= s.take(n as int));
}

proof fn lemma_without_last(s: Seq<Breakpoint>, n: nat)
    requires
        distinct(s),
        n < s.len(),
    ensures
        without(s, s.last().addr) == s.drop_last(),
        distinct(s.drop_last()),
        s.drop_last().take(n as int) == s.take(n as int),
{
    lemma_position_unique(s, s.last().addr, s.len() - 1);
    lemma_without(s, s.last().addr);
    assert(s.remove(s.len() - 1) =~= s.drop_last());
    assert(s.drop_last().take(n as int) =~= s.take(n as int));
}

/// What is left of a queue is its end; its first address, if it has one,
/// has no breakpoint, and the addresses that were passed over have one.
pub proof fn lemma_drop_held(table: Seq<Breakpoint>, queue: Seq<u64>)
    ensures
        drop_held(table, queue).len() <= queue.len(),
        drop_held(table, queue) == queue.skip(queue.len() - drop_held(table, queue).len()),
        drop_held(table, queue).len() > 0 ==> !holds(table, drop_held(table, queue)[0]),
        forall|j: int|
            0 <= j < queue.len() - drop_held(table, queue).len() ==> holds(
                table,
                #[trigger] queue[j],
            ),
    decreases queue.len(),
{
    if queue.len() == 0 || !holds(table, queue[0]) {
        assert(queue.skip(0) =~= queue);
    } else {
        let rest = queue.drop_first();
        lemma_drop_held(table, rest);
        let left = drop_held(table, rest);
        assert(rest.skip(rest.len() - left.len()) =~= queue.skip(queue.len() - left.len()));
        assert forall|j: int| 0 <= j < queue.len() - left.len() implies holds(
            table,
            #[trigger] queue[j],
        ) by {
            if j > 0 {
                assert(queue[j] == rest[j - 1]);
            }
        }
    }
}

proof fn lemma_plant_next_keeps(m: InferiorModel, table: Seq<Breakpoint>)
    requires
        distinct(m.table),
        m.user_count <= m.table.len(),
        m.trapped ==> m.regs.pc >= 1,
        m.user_table() == table,
    ensures
        keeps(plant_next(m).0, plant_next(m).1, table),
{
}

proof fn lemma_finish_keeps(m: InferiorModel, outcome: Outcome, table: Seq<Breakpoint>)
    requires
        distinct(m.table),
        m.user_count <= m.table.len(),
        m.trapped ==> m.regs.pc >= 1,
        m.user_table() == table,
    ensures
        keeps(finish(m, outcome).0, finish(m, outcome).1, table),
{
}

proof fn lemma_launch_keeps(m: InferiorModel, goal: Goal, table: Seq<Breakpoint>)
    requires
        distinct(m.table),
        m.user_count <= m.table.len(),
        m.trapped ==> m.regs.pc >= 1,
        m.user_table() == table,
    ensures
        keeps(launch(m, goal).0, launch(m, goal).1, table),
{
}

proof fn lemma_after_step_keeps(
    m: InferiorModel,
    info: &DebugInfo,
    goal: Goal,
    table: Seq<Breakpoint>,
)
    requires
        distinct(m.table),
        m.user_count <= m.table.len(),
        m.trapped ==> m.regs.pc >= 1,
        m.user_table() == table,
    ensures
        keeps(after_step(m, info, goal).0, after_step(m, info, goal).1, table),
{
    lemma_launch_keeps(m, goal, table);
}

/// One step of an operation that sets the process in motion or reads from
/// it leaves the user's breakpoints as they are, whatever the reply.
pub proof fn lemma_advance_keeps(
    m: InferiorModel,
    info: &DebugInfo,
    reply: Reply,
    table: Seq<Breakpoint>,
)
    requires
        m.wf(),
        transient(m.phase),
        m.user_table() == table,
    ensures
        keeps(advance(m, info, reply).0, advance(m, info, reply).1, table),
{
    match m.phase {
        Phase::Planting { addr } => {
            if let Reply::Byte(b) = reply {
                lemma_with_entry(m.table, addr, b, m.user_count);
                lemma_plant_next_keeps(
                    InferiorModel { table: with_entry(m.table, addr, b), ..m },
                    table,
                );
            } else {
                lemma_plant_next_keeps(m, table);
            }
        },
        Phase::ReadingReturn => {
            lemma_launch_keeps(m, Goal::Resume, table);
        },
        Phase::PlantingReturn { addr } => {
            if let Reply::Byte(b) = reply {
                lemma_with_entry(m.table, addr, b, m.user_count);
                lemma_launch_keeps(
                    InferiorModel { table: with_entry(m.table, addr, b), ..m },
                    Goal::Resume,
                    table,
                );
            } else {
                lemma_launch_keeps(m, Goal::Resume, table);
            }
        },
        Phase::Stepping { goal, rearm } => {
            if let Reply::Wait(event) = reply {
                lemma_after_step_keeps(arrived(m, event, false), info, goal, table);
            }
        },
        Phase::Rearming { goal, addr } => {
            lemma_after_step_keeps(m, info, goal, table);
        },
        Phase::Unplanting { outcome } => {
            lemma_without_last(m.table, m.user_count);
        },
        _ => {},
    }
}

/// However long an operation of that kind goes on and whatever the
/// replies, the user's breakpoints stay as they are; and when it is over,
/// they are all that is planted.
pub proof fn lemma_run_keeps(
    m: InferiorModel,
    info: &DebugInfo,
    request: Request,
    replies: Seq<Reply>,
    table: Seq<Breakpoint>,
)
    requires
        keeps(m, request, table),
    ensures
        keeps(run(m, info, request, replies).0, run(m, info, request, replies).1, table),
        run(m, info, request, replies).1 is Finished ==> run(m, info, request, replies).0.table
            == table,
    decreases replies.len(),
{
    if replies.len() == 0 || request is Finished {
        assert(m.phase is Idle ==> m.table.take(m.table.len() as int) =~= m.table);
    } else {
        lemma_advance_keeps(m, info, replies[0], table);
        let next = advance(m, info, replies[0]);
        lemma_run_keeps(next.0, info, next.1, replies.drop_first(), table);
    }
}

/// The operations that leave the breakpoints of the user alone begin in
/// a state of that kind.
pub proof fn lemma_begin_keeps(m: InferiorModel, info: &DebugInfo, name: Seq<char>)
    requires
        m.wf(),
        m.phase is Idle,
    ensures
        keeps(begin_step_over(m, info).0, begin_step_over(m, info).1, m.table),
        keeps(begin_step_out(m).0, begin_step_out(m).1, m.table),
        keeps(begin_continue(m).0, begin_continue(m).1, m.table),
        keeps(begin_step_in(m, info).0, begin_step_in(m, info).1, m.table),
        keeps(begin_backtrace(m, info).0, begin_backtrace(m, info).1, m.table),
        keeps(begin_print(m, info, name).0, begin_print(m, info, name).1, m.table),
{
    lemma_idle_user_table(m);
    match sibling_lines(info, m.regs.pc) {
        Some(queue) => {
            lemma_plant_next_keeps(InferiorModel { queue, ..m }, m.table);
        },
        None => {},
    }
    lemma_finish_keeps(InferiorModel { queue: Seq::empty(), ..m }, Outcome::ControlFailure, m.table);
    lemma_launch_keeps(m, Goal::Resume, m.table);
}

proof fn lemma_idle_user_table(m: InferiorModel)
    requires
        m.wf(),
        m.phase is Idle,
    ensures
        m.user_table() == m.table,
{
    assert(m.table.take(m.table.len() as int) =~= m.table);
}

/// A step over a line leaves no breakpoint behind and takes none away:
/// whatever the process does, the user's breakpoints are what they were,
/// and once the step is over nothing else is planted.
pub proof fn law_step_over_restores_table(m: InferiorModel, info: &DebugInfo, replies: Seq<Reply>)
    requires
        m.wf(),
        m.phase is Idle,
    ensures
        ({
            let begun = begin_step_over(m, info);
            let ended = run(begun.0, info, begun.1, replies);
            &&& ended.0.user_table() == m.table
            &&& ended.1 is Finished ==> ended.0.table == m.table
        }),
{
    lemma_begin_keeps(m, info, Seq::empty());
    let begun = begin_step_over(m, info);
    lemma_run_keeps(begun.0, info, begun.1, replies, m.table);
}

/// The operation that begins with `begun` keeps the breakpoints `table`
/// of the user while it goes on, and ends with nothing else planted.
pub open spec fn table_restored(
    info: &DebugInfo,
    begun: (InferiorModel, Request),
    replies: Seq<Reply>,
    table: Seq<Breakpoint>,
) -> bool {
    let ended = run(begun.0, info, begun.1, replies);
    &&& ended.0.user_table() == table
    &&& ended.1 is Finished ==> ended.0.table == table
}

/// The same of a step out of the function, of a resume, of a step into, of
/// a walk of the call chain and of reading a variable.
pub proof fn law_operations_restore_table(
    m: InferiorModel,
    info: &DebugInfo,
    name: Seq<char>,
    replies: Seq<Reply>,
)
    requires
        m.wf(),
        m.phase is Idle,
    ensures
        table_restored(info, begin_step_out(m), replies, m.table),
        table_restored(info, begin_continue(m), replies, m.table),
        table_restored(info, begin_step_in(m, info), replies, m.table),
        table_restored(info, begin_backtrace(m, info), replies, m.table),
        table_restored(info, begin_print(m, info, name), replies, m.table),
{
    lemma_begin_keeps(m, info, name);
    let out = begin_step_out(m);
    lemma_run_keeps(out.0, info, out.1, replies, m.table);
    let cont = begin_continue(m);
    lemma_run_keeps(cont.0, info, cont.1, replies, m.table);
    let into = begin_step_in(m, info);
    lemma_run_keeps(into.0, info, into.1, replies, m.table);
    let back = begin_backtrace(m, info);
    lemma_run_keeps(back.0, info, back.1, replies, m.table);
    let print = begin_print(m, info, name);
    lemma_run_keeps(print.0, info, print.1, replies, m.table);
}

/// Setting a breakpoint where one is set already does nothing: no request
/// goes out, and the table keeps its entries and their bytes.
pub proof fn law_insert_is_idempotent(m: InferiorModel, addr: u64)
    requires
        m.wf(),
        m.phase is Idle,
        holds(m.table, addr),
    ensures
        begin_insert(m, addr) == (m, Request::Finished(Outcome::BreakpointKept { addr })),
        forall|byte: u8| with_entry(m.table, addr, byte) == m.table,
{
}

/// Setting a breakpoint twice leaves what the first time left.
pub proof fn law_table_insert_is_idempotent(s: Seq<Breakpoint>, addr: u64, first: u8, second: u8)
    ensures
        with_entry(with_entry(s, addr, first), addr, second) == with_entry(s, addr, first),
        with_entry(with_entry(s, addr, first), addr, second).len() == with_entry(
            s,
            addr,
            first,
        ).len(),
        distinct(s) ==> saved_byte(with_entry(with_entry(s, addr, first), addr, second), addr)
            == saved_byte(with_entry(s, addr, first), addr),
{
    crate::breakpoints::lemma_holds_push(s, Breakpoint { addr, orig_byte: first }, addr);
}

/// Setting a breakpoint at `addr` puts the trap byte there and changes no
/// other byte; taking it out again puts back the byte that was there, so
/// that the memory and the table are what they were.
pub proof fn law_insert_then_remove_restores(
    m: InferiorModel,
    info: &DebugInfo,
    mem: Map<u64, u8>,
    addr: u64,
)
    requires
        m.wf(),
        m.phase is Idle,
        !holds(m.table, addr),
        mem.dom().contains(addr),
    ensures
        ({
            let set = begin_insert(m, addr);
            let planted = serve(mem, set.1);
            let kept = advance(set.0, info, planted.1);
            let unset = begin_remove(kept.0, addr);
            let restored = serve(planted.0, unset.1);
            let gone = advance(unset.0, info, restored.1);
            &&& planted.0 == mem.insert(addr, TRAP_BYTE)
            &&& kept.1 == Request::Finished(
                Outcome::BreakpointSet { index: m.table.len() as usize, addr },
            )
            &&& kept.0.table == m.table.push(Breakpoint { addr, orig_byte: mem[addr] })
            &&& restored.0 == mem
            &&& gone.1 == Request::Finished(Outcome::BreakpointRemoved { addr })
            &&& gone.0 == m
        }),
{
    let b = Breakpoint { addr, orig_byte: mem[addr] };
    lemma_distinct_push(m.table, b);
    lemma_without_pushed(m.table, b);
    crate::breakpoints::lemma_holds_push(m.table, b, addr);
    assert(mem.insert(addr, TRAP_BYTE).insert(addr, mem[addr]) =~= mem);
}

/// The same one level down, where memory moves in words: writing a byte
/// into a word and then the byte that was there gives the word back, and in
/// between the word holds the new byte at that place and the old bytes at
/// the others.
pub proof fn law_write_byte_round_trip(word: u64, patched: u64, restored: u64, addr: u64, val: u8)
    requires
        word_bytes(patched) == word_bytes(word).update(byte_index(addr) as int, val),
        word_bytes(restored) == word_bytes(patched).update(
            byte_index(addr) as int,
            word_bytes(word)[byte_index(addr) as int],
        ),
    ensures
        word_bytes(patched)[byte_index(addr) as int] == val,
        forall|k: int|
            0 <= k < 8 && k != byte_index(addr) ==> word_bytes(patched)[k] == word_bytes(word)[k],
        restored == word,
{
    assert(word_bytes(restored) =~= word_bytes(word));
    crate::memory::lemma_word_bytes_injective(restored, word);
}

/// A stop that a single instruction ends in is never taken for a trap that
/// was run into: the next step goes on from where the process is and does
/// not put the program counter back.
pub proof fn law_step_goes_forward(m: InferiorModel, info: &DebugInfo, event: WaitEvent)
    requires
        m.wf(),
        m.phase matches Phase::Stepping { goal, rearm } && goal is StepInto && rearm is None,
        m.user_count == m.table.len(),
        event is Stopped,
    ensures
        ({
            let next = advance(m, info, Reply::Wait(event));
            &&& !next.0.trapped
            &&& !(next.1 is SetProgramCounter)
            &&& next.1 is Finished || next.1 is SingleStep || next.1 is PokeByte
            &&& next.1 is Finished <==> (info.line_at(event->regs.pc) is None || info.line_at(
                event->regs.pc,
            ) != (match m.phase->Stepping_goal {
                Goal::StepInto { start: Some(row) } => Some(row as int),
                _ => None,
            }))
        }),
{
    let pc = event->regs.pc;
    assert(info.lines@.len() == info.lines.len());
    if info.line_at(pc) is Some {
        assert(info.is_line_at(pc, info.line_at(pc).unwrap()));
    }
}

/// The address at which the controller waits for a trap to be planted
/// that it will record.
pub open spec fn planting(m: InferiorModel) -> Option<u64> {
    match m.phase {
        Phase::Merging { addr } => Some(addr),
        Phase::Planting { addr } => Some(addr),
        Phase::Inserting { addr } => Some(addr),
        Phase::PlantingReturn { addr } => Some(addr),
        _ => None,
    }
}

/// A trap that is to be recorded goes where no breakpoint is planted.
pub open spec fn plants_where_free(m: InferiorModel, request: Request) -> bool {
    planting(m) matches Some(addr) ==> request == (Request::PokeByte { addr, value: TRAP_BYTE })
        && !holds(m.table, addr)
}

/// The byte that is recorded for a breakpoint is never a trap of the
/// controller's own: whenever it asks for a trap to be planted that it will
/// record, no breakpoint is planted at that address. So the byte that
/// comes back is the one that was there before the address was first
/// patched.
pub proof fn law_records_bytes_of_the_program(m: InferiorModel, info: &DebugInfo, reply: Reply)
    requires
        m.wf(),
        !(m.phase is Idle),
    ensures
        plants_where_free(advance(m, info, reply).0, advance(m, info, reply).1),
{
    match m.phase {
        Phase::Merging { addr } => {
            let after = match reply {
                Reply::Byte(b) => InferiorModel { table: with_entry(m.table, addr, b), ..m },
                _ => InferiorModel { rejected: m.rejected.push(addr), ..m },
            };
            lemma_drop_held(after.table, after.queue);
        },
        Phase::Planting { addr } => {
            let after = match reply {
                Reply::Byte(b) => InferiorModel { table: with_entry(m.table, addr, b), ..m },
                _ => m,
            };
            lemma_drop_held(after.table, after.queue);
        },
        _ => {},
    }
}

/// The same of the first request of each operation.
pub proof fn law_begins_where_free(m: InferiorModel, info: &DebugInfo, addr: u64, name: Seq<char>)
    requires
        m.wf(),
        m.phase is Idle,
    ensures
        plants_where_free(begin_merge(m).0, begin_merge(m).1),
        plants_where_free(begin_insert(m, addr).0, begin_insert(m, addr).1),
        plants_where_free(begin_remove(m, addr).0, begin_remove(m, addr).1),
        plants_where_free(begin_continue(m).0, begin_continue(m).1),
        plants_where_free(begin_step_in(m, info).0, begin_step_in(m, info).1),
        plants_where_free(begin_step_out(m).0, begin_step_out(m).1),
        plants_where_free(begin_step_over(m, info).0, begin_step_over(m, info).1),
        plants_where_free(begin_backtrace(m, info).0, begin_backtrace(m, info).1),
        plants_where_free(begin_print(m, info, name).0, begin_print(m, info, name).1),
{
    lemma_drop_held(m.table, m.queue);
    match sibling_lines(info, m.regs.pc) {
        Some(queue) => {
            lemma_drop_held(m.table, queue);
        },
        None => {},
    }
}

/// Once the process has been let go, the operation only tidies up: it
/// takes its temporary breakpoints out, one with each request, and ends.
/// It does not let the process go a second time.
pub proof fn law_resumes_once(m: InferiorModel, info: &DebugInfo, reply: Reply)
    requires
        m.wf(),
        m.phase is Resuming || m.phase is Unplanting,
    ensures
        ({
            let next = advance(m, info, reply);
            &&& next.0.phase is Unplanting || next.0.phase is Idle
            &&& next.1 is PokeByte || next.1 is Finished
            &&& m.phase is Unplanting ==> next.0.table.len() < m.table.len()
        }),
{
    if m.phase is Unplanting {
        lemma_without_last(m.table, m.user_count);
    }
}

/// Every one of the first `n` pending addresses has a breakpoint or was
/// rejected.
pub open spec fn merged_upto(m: InferiorModel, pending: Seq<u64>, n: int) -> bool {
    forall|j: int|
        0 <= j < n ==> holds(m.table, #[trigger] pending[j]) || m.rejected.contains(pending[j])
}

/// Every breakpoint is at a pending address.
pub open spec fn from_pending(m: InferiorModel, pending: Seq<u64>) -> bool {
    forall|i: int| 0 <= i < m.table.len() ==> pending.contains((#[trigger] m.table[i]).addr)
}

/// A state of the controller while it plants the pending breakpoints
/// `pending` in a new process: the queue is the end of `pending`, and
/// what stands before it has been dealt with, but for the address that
/// is being planted.
pub open spec fn merging(m: InferiorModel, request: Request, pending: Seq<u64>) -> bool {
    let dealt = pending.len() - m.queue.len();
    &&& m.wf()
    &&& m.queue.len() <= pending.len()
    &&& m.queue == pending.skip(dealt)
    &&& from_pending(m, pending)
    &&& m.phase matches Phase::Merging { addr } ==> dealt >= 1 && pending[dealt - 1] == addr
        && merged_upto(m, pending, dealt - 1)
    &&& m.phase is Idle ==> m.queue.len() == 0 && merged_upto(m, pending, dealt)
    &&& m.phase is Idle || m.phase is Merging
    &&& request is Finished <==> m.phase is Idle
    &&& request is Finished ==> request == Request::Finished(Outcome::Merged)
}

proof fn lemma_merge_next(m: InferiorModel, pending: Seq<u64>)
    requires
        distinct(m.table),
        m.user_count <= m.table.len(),
        m.trapped ==> m.regs.pc >= 1,
        m.queue.len() <= pending.len(),
        m.queue == pending.skip(pending.len() - m.queue.len()),
        from_pending(m, pending),
        merged_upto(m, pending, pending.len() - m.queue.len()),
    ensures
        merging(merge_next(m).0, merge_next(m).1, pending),
{
    lemma_drop_held(m.table, m.queue);
    let left = drop_held(m.table, m.queue);
    let after = merge_next(m).0;
    let dealt = pending.len() - m.queue.len();
    let passed = m.queue.len() - left.len();
    assert(left =~= pending.skip(dealt + passed));
    assert forall|j: int| 0 <= j < dealt + passed implies holds(m.table, #[trigger] pending[j])
        || m.rejected.contains(pending[j]) by {
        if j >= dealt {
            assert(pending[j] == m.queue[j - dealt]);
        }
    }
    if left.len() > 0 {
        assert(left.drop_first() =~= pending.skip(dealt + passed + 1));
        assert(pending[dealt + passed] == left[0]);
    }
}

proof fn lemma_merge_step(m: InferiorModel, info: &DebugInfo, reply: Reply, pending: Seq<u64>)
    requires
        merging(m, Request::Resume, pending),
        m.phase is Merging,
    ensures
        merging(advance(m, info, reply).0, advance(m, info, reply).1, pending),
{
    let addr = m.phase->Merging_addr;
    let dealt = pending.len() - m.queue.len();
    let after = match reply {
        Reply::Byte(b) => InferiorModel { table: with_entry(m.table, addr, b), ..m },
        _ => InferiorModel { rejected: m.rejected.push(addr), ..m },
    };
    match reply {
        Reply::Byte(b) => {
            lemma_with_entry(m.table, addr, b, m.user_count);
            assert forall|a: u64| holds(m.table, a) implies holds(after.table, a) by {
                crate::breakpoints::lemma_holds_push(
                    m.table,
                    Breakpoint { addr, orig_byte: b },
                    a,
                );
            }
            crate::breakpoints::lemma_holds_push(m.table, Breakpoint { addr, orig_byte: b }, addr);
            assert forall|i: int| 0 <= i < after.table.len() implies pending.contains(
                (#[trigger] after.table[i]).addr,
            ) by {
                if i < m.table.len() {
                    assert(after.table[i] == m.table[i]);
                } else {
                    assert(after.table[i].addr == addr);
                    assert(pending[dealt - 1] == addr);
                }
            }
        },
        _ => {
            assert(after.rejected[m.rejected.len() as int] == addr);
            assert forall|a: u64| m.rejected.contains(a) implies after.rejected.contains(a) by {
                let i = choose|i: int| 0 <= i < m.rejected.len() && m.rejected[i] == a;
                assert(after.rejected[i] == a);
            }
        },
    }
    assert forall|j: int| 0 <= j < dealt implies holds(after.table, #[trigger] pending[j])
        || after.rejected.contains(pending[j]) by {
        if j < dealt - 1 {
            assert(holds(m.table, pending[j]) || m.rejected.contains(pending[j]));
        }
    }
    lemma_merge_next(after, pending);
}

proof fn lemma_merge_run(
    m: InferiorModel,
    info: &DebugInfo,
    request: Request,
    replies: Seq<Reply>,
    pending: Seq<u64>,
)
    requires
        merging(m, request, pending),
    ensures
        merging(run(m, info, request, replies).0, run(m, info, request, replies).1, pending),
    decreases replies.len(),
{
    if replies.len() == 0 || request is Finished {
    } else {
        lemma_merge_step(m, info, replies[0], pending);
        let next = advance(m, info, replies[0]);
        lemma_merge_run(next.0, info, next.1, replies.drop_first(), pending);
    }
}

/// When a process is started, every breakpoint that the user has asked for
/// is planted in it, once: however the planting goes, when it is over
/// each pending address has its breakpoint or is among those that were
/// rejected, no address has two breakpoints, and no breakpoint is planted
/// that was not asked for.
pub proof fn law_merge_plants_each_pending_once(
    pid: i32,
    regs: Registers,
    pending: Seq<u64>,
    info: &DebugInfo,
    replies: Seq<Reply>,
)
    ensures
        ({
            let begun = begin_merge(fresh(pid, regs, pending));
            let ended = run(begun.0, info, begun.1, replies);
            ended.1 is Finished ==> {
                &&& ended.1 == Request::Finished(Outcome::Merged)
                &&& distinct(ended.0.table)
                &&& ended.0.user_count == ended.0.table.len()
                &&& forall|j: int|
                    0 <= j < pending.len() ==> holds(ended.0.table, #[trigger] pending[j])
                        || ended.0.rejected.contains(pending[j])
                &&& forall|i: int|
                    0 <= i < ended.0.table.len() ==> pending.contains(
                        (#[trigger] ended.0.table[i]).addr,
                    )
            }
        }),
{
    let m = InferiorModel { rejected: Seq::empty(), ..fresh(pid, regs, pending) };
    assert(pending.skip(0) =~= pending);
    lemma_merge_next(m, pending);
    let begun = begin_merge(fresh(pid, regs, pending));
    lemma_merge_run(begun.0, info, begun.1, replies, pending);
}

/// The request is one that the controller of a process makes: it does
/// not start or end processes.
pub open spec fn of_controller(request: Request) -> bool {
    !(request is Spawn) && !(request is Kill)
}

proof fn lemma_finish_request(m: InferiorModel, outcome: Outcome)
    ensures
        of_controller(finish(m, outcome).1),
{
}

proof fn lemma_launch_request(m: InferiorModel, goal: Goal)
    ensures
        of_controller(launch(m, goal).1),
{
}

proof fn lemma_after_step_request(m: InferiorModel, info: &DebugInfo, goal: Goal)
    ensures
        of_controller(after_step(m, info, goal).1),
{
    lemma_launch_request(m, goal);
}

/// The controller of a process never asks for a process to be started or
/// ended.
pub proof fn lemma_controller_requests(
    m: InferiorModel,
    info: &DebugInfo,
    reply: Reply,
    addr: u64,
    name: Seq<char>,
)
    ensures
        of_controller(advance(m, info, reply).1),
        of_controller(begin_merge(m).1),
        of_controller(begin_insert(m, addr).1),
        of_controller(begin_remove(m, addr).1),
        of_controller(begin_continue(m).1),
        of_controller(begin_step_in(m, info).1),
        of_controller(begin_step_out(m).1),
        of_controller(begin_step_over(m, info).1),
        of_controller(begin_backtrace(m, info).1),
        of_controller(begin_print(m, info, name).1),
{
    assert(of_controller(advance(m, info, reply).1)) by {
        match m.phase {
            Phase::ReadingReturn => {
                lemma_launch_request(m, Goal::Resume);
            },
            Phase::PlantingReturn { addr } => {
                let after = match reply {
                    Reply::Byte(b) => InferiorModel { table: with_entry(m.table, addr, b), ..m },
                    _ => m,
                };
                lemma_launch_request(after, Goal::Resume);
            },
            Phase::Stepping { goal, rearm } => {
                if let Reply::Wait(event) = reply {
                    lemma_after_step_request(arrived(m, event, false), info, goal);
                }
            },
            Phase::Rearming { goal, addr } => {
                lemma_after_step_request(m, info, goal);
            },
            _ => {},
        }
    }
    lemma_launch_request(m, Goal::Resume);
    assert(of_controller(begin_step_in(m, info).1)) by {
        let start = match info.line_at(m.regs.pc) {
            Some(row) => Some(row as usize),
            None => None,
        };
        lemma_launch_request(m, Goal::StepInto { start });
    }
}

proof fn lemma_settle(s: SessionModel, inf: InferiorModel, request: Request)
    requires
        of_controller(request),
    ensures
        of_controller(crate::debugger::settle(s, inf, request).1),
        ends_without(crate::debugger::settle(s, inf, request).1) ==> crate::debugger::settle(
            s,
            inf,
            request,
        ).0.inferior is None,
{
}

proof fn lemma_merged(s: SessionModel, inf: InferiorModel, request: Request)
    requires
        of_controller(request),
    ensures
        of_controller(crate::debugger::merged(s, inf, request).1),
        ends_without(crate::debugger::merged(s, inf, request).1) ==> crate::debugger::merged(
            s,
            inf,
            request,
        ).0.inferior is None,
{
    lemma_launch_request(inf, Goal::Resume);
    let begun = begin_continue(inf);
    lemma_settle(s, begun.0, begun.1);
}

proof fn lemma_dispatch(s: SessionModel, info: &DebugInfo, command: &DebuggerCommand)
    ensures
        dispatch(s, info, command).1 is Spawn ==> s.inferior is None && dispatch(
            s,
            info,
            command,
        ).0.inferior is None,
        ends_without(dispatch(s, info, command).1) ==> dispatch(s, info, command).0.inferior
            is None,
{
    if s.stage is Idle && s.inferior is Some {
        let inf = s.inferior.unwrap();
        match *command {
            DebuggerCommand::Quit => {},
            DebuggerCommand::Run(_) => {},
            DebuggerCommand::Breakpoint(place) => {
                if let Ok(addr) = place_address(info, place@) {
                    lemma_controller_requests(inf, info, Reply::Done, addr, Seq::empty());
                    let begun = begin_insert(inf, addr);
                    lemma_settle(s, begun.0, begun.1);
                }
            },
            DebuggerCommand::Print(name) => {
                lemma_controller_requests(inf, info, Reply::Done, 0, name@);
                let begun = begin_print(inf, info, name@);
                lemma_settle(s, begun.0, begun.1);
            },
            _ => {
                lemma_controller_requests(inf, info, Reply::Done, 0, Seq::empty());
                lemma_settle(s, begin_backtrace(inf, info).0, begin_backtrace(inf, info).1);
                lemma_settle(s, begin_step_in(inf, info).0, begin_step_in(inf, info).1);
                lemma_settle(s, begin_step_over(inf, info).0, begin_step_over(inf, info).1);
                lemma_settle(s, begin_step_out(inf).0, begin_step_out(inf).1);
                lemma_settle(s, begin_continue(inf).0, begin_continue(inf).1);
            },
        }
    }
}

proof fn lemma_proceed(s: SessionModel, info: &DebugInfo, reply: Reply)
    ensures
        proceed(s, info, reply).1 is Spawn ==> proceed(s, info, reply).0.inferior is None,
        ends_without(proceed(s, info, reply).1) ==> proceed(s, info, reply).0.inferior is None,
{
    match s.stage {
        Stage::Spawning => {
            if let Reply::Spawned { pid, regs } = reply {
                let m = fresh(pid, regs, s.pending);
                lemma_controller_requests(m, info, reply, 0, Seq::empty());
                lemma_merged(s, begin_merge(m).0, begin_merge(m).1);
            }
        },
        Stage::Merging => {
            if let Some(inf) = s.inferior {
                lemma_controller_requests(inf, info, reply, 0, Seq::empty());
                lemma_merged(s, advance(inf, info, reply).0, advance(inf, info, reply).1);
            }
        },
        Stage::Operating => {
            if let Some(inf) = s.inferior {
                lemma_controller_requests(inf, info, reply, 0, Seq::empty());
                lemma_settle(s, advance(inf, info, reply).0, advance(inf, info, reply).1);
            }
        },
        _ => {},
    }
}

/// A session has one process at most: a new one is asked for only when
/// none is there, and a run that finds one asks for its end first.
pub proof fn law_one_process_at_a_time(
    s: SessionModel,
    info: &DebugInfo,
    command: &DebuggerCommand,
    reply: Reply,
)
    ensures
        dispatch(s, info, command).1 is Spawn ==> s.inferior is None && dispatch(
            s,
            info,
            command,
        ).0.inferior is None,
        proceed(s, info, reply).1 is Spawn ==> proceed(s, info, reply).0.inferior is None,
        s.stage is Idle && *command is Run && s.inferior is Some ==> dispatch(s, info, command).1
            == (Request::Kill { pid: s.inferior.unwrap().pid }),
{
    lemma_dispatch(s, info, command);
    lemma_proceed(s, info, reply);
}

/// The operation is over, and the process has ended or cannot be
/// controlled any more.
pub open spec fn ends_without(request: Request) -> bool {
    match request {
        Request::Finished(outcome) => lost(outcome),
        _ => false,
    }
}

/// A process that has ended, or that the control primitive has failed
/// on, is let go of at once; and where a target could not be started,
/// the session is without a process.
pub proof fn law_lost_process_is_dropped(
    s: SessionModel,
    info: &DebugInfo,
    command: &DebuggerCommand,
    reply: Reply,
)
    ensures
        ends_without(dispatch(s, info, command).1) ==> dispatch(s, info, command).0.inferior
            is None,
        ends_without(proceed(s, info, reply).1) ==> proceed(s, info, reply).0.inferior is None,
        s.stage is Spawning && !(reply is Spawned) ==> proceed(s, info, reply) == (
            SessionModel { inferior: None, stage: Stage::Idle, ..s },
            Request::Finished(Outcome::SpawnFailed),
        ),
{
    lemma_dispatch(s, info, command);
    lemma_proceed(s, info, reply);
}

/// The command asks for a breakpoint at a place that is none.
pub open spec fn names_no_place(info: &DebugInfo, command: &DebuggerCommand) -> bool {
    match *command {
        DebuggerCommand::Breakpoint(place) => place_address(info, place@) is Err,
        _ => false,
    }
}

/// The operation is over because a trap could not be written.
pub open spec fn rejects(request: Request) -> bool {
    match request {
        Request::Finished(Outcome::BreakpointRejected { .. }) => true,
        _ => false,
    }
}

/// A breakpoint command that names no place changes nothing, and one
/// whose trap cannot be written leaves the breakpoints as they were, those
/// that are planted and those that are kept for the runs to come.
pub proof fn law_failed_breakpoint_changes_nothing(
    s: SessionModel,
    info: &DebugInfo,
    command: &DebuggerCommand,
    reply: Reply,
)
    requires
        s.wf(),
        s.inferior matches Some(inf) ==> inf.phase is Inserting,
    ensures
        names_no_place(info, command) ==> dispatch(s, info, command).0 == s,
        s.stage is Operating && rejects(proceed(s, info, reply).1) ==> {
            &&& proceed(s, info, reply).0.pending == s.pending
            &&& proceed(s, info, reply).0.inferior is Some
            &&& proceed(s, info, reply).0.inferior.unwrap().table == s.inferior.unwrap().table
        },
{
}

} // verus!
