//! The controller of one traced process.
//!
//! An `Inferior` keeps what is known of the process (its breakpoints, where
//! it is stopped) and decides what is to be done to it. It does nothing to
//! the process itself: an operation hands out a [`Request`], and
//! [`Inferior::deliver`] takes the reply and hands out the next one, until
//! the request is `Request::Finished`.

use crate::assembly::{bytes_of, disassemble, listing, spells};
use crate::breakpoints::{holds, Breakpoint, BreakpointTable};
use crate::control::{Goal, Outcome, Phase, Registers, Reply, Request, Status, WaitEvent};
use crate::debug_info::{DebugInfo, Function, Line};
use crate::memory::{
    align_addr_to_word, byte_index, extract_byte, replace_byte, word_bytes, TRAP_BYTE,
};
use crate::model::{
    advance, after_step, arrived, begin_backtrace, begin_continue, begin_insert, begin_merge,
    begin_print, begin_remove, begin_step_in, begin_step_out, begin_step_over, done,
    drop_held, finish, fresh, go, launch, line_starts, merge_next, plant_next, read_return,
    status_of, walk, InferiorModel, RETURN_ADDRESS_OFFSET,
};
use crate::text::{line_span, span_from, str_eq};
use crate::variables::{decode, locate, value_kind};
use vstd::prelude::*;
use vstd::string::StringSliceAdditionalSpecFns;

verus! {

/// The controller of a traced process.
pub struct Inferior {
    pid: i32,
    breakpoints: BreakpointTable,
    user_count: usize,
    queue: Vec<u64>,
    cursor: usize,
    frames: Vec<u64>,
    rejected: Vec<u64>,
    regs: Registers,
    trapped: bool,
    phase: Phase,
}

impl View for Inferior {
    type V = InferiorModel;

    closed spec fn view(&self) -> InferiorModel {
        InferiorModel {
            pid: self.pid,
            table: self.breakpoints@,
            user_count: self.user_count as nat,
            queue: self.queue@.skip(self.cursor as int),
            frames: self.frames@,
            rejected: self.rejected@,
            regs: self.regs,
            trapped: self.trapped,
            phase: self.phase,
        }
    }
}

/// What holds of a state whatever it waits for.
pub open spec fn steady(m: InferiorModel) -> bool {
    &&& crate::breakpoints::distinct(m.table)
    &&& m.user_count <= m.table.len()
    &&& m.trapped ==> m.regs.pc >= 1
}

impl Inferior {
    /// The place up to which the queue is used up lies in the queue.
    pub closed spec fn in_queue(&self) -> bool {
        self.cursor <= self.queue@.len()
    }

    /// The controller is in order.
    pub open spec fn wf(&self) -> bool {
        self@.wf() && self.in_queue()
    }

    /// The controller of the process `pid`, which has just been started and
    /// is stopped at `regs`. The first thing it does is to plant the
    /// breakpoints in `pending`.
    pub fn new(pid: i32, regs: Registers, pending: &Vec<u64>) -> (started: (Inferior, Request))
        ensures
            started.0.wf(),
            (started.0@, started.1) == begin_merge(fresh(pid, regs, pending@)),
    {
        let mut queue: Vec<u64> = Vec::new();
        let mut i: usize = 0;
        while i < pending.len()
            invariant
                i <= pending@.len(),
                queue@ == pending@.take(i as int),
            decreases pending@.len() - i,
        {
            queue.push(pending[i]);
            proof {
                assert(pending@.take(i as int).push(pending@[i as int]) =~= pending@.take(i + 1));
            }
            i += 1;
        }
        proof {
            assert(pending@.take(pending@.len() as int) =~= pending@);
        }
        let mut inferior = Inferior {
            pid,
            breakpoints: BreakpointTable::new(),
            user_count: 0,
            queue,
            cursor: 0,
            frames: Vec::new(),
            rejected: Vec::new(),
            regs,
            trapped: false,
            phase: Phase::Idle,
        };
        proof {
            assert(inferior.queue@.skip(0) =~= pending@);
        }
        let request = inferior.merge_next();
        (inferior, request)
    }

    /// The identity of the process.
    pub fn pid(&self) -> (pid: i32)
        ensures
            pid == self@.pid,
    {
        self.pid
    }

    /// The planted breakpoints.
    pub fn breakpoints(&self) -> (table: &BreakpointTable)
        ensures
            table@ == self@.table,
    {
        &self.breakpoints
    }

    /// The registers at the last stop.
    pub fn registers(&self) -> (regs: Registers)
        ensures
            regs == self@.regs,
    {
        self.regs
    }

    /// The addresses that the last walk of the call chain found, innermost
    /// frame first.
    pub fn frames(&self) -> (frames: &Vec<u64>)
        ensures
            frames@ == self@.frames,
    {
        &self.frames
    }

    /// The pending breakpoints that could not be planted when the process
    /// was started.
    pub fn rejected(&self) -> (rejected: &Vec<u64>)
        ensures
            rejected@ == self@.rejected,
    {
        &self.rejected
    }

    /// Whether no operation is under way.
    pub fn is_idle(&self) -> (idle: bool)
        ensures
            idle == (self@.phase is Idle),
    {
        match self.phase {
            Phase::Idle => true,
            _ => false,
        }
    }

    /// The address of the trap that the process has run into and whose
    /// instruction has yet to run.
    pub fn trapped_at(&self) -> (addr: Option<u64>)
        requires
            self.wf(),
        ensures
            addr == (if self@.trapped {
                Some((self@.regs.pc - 1) as u64)
            } else {
                None
            }),
    {
        if self.trapped {
            Some(self.regs.pc - 1)
        } else {
            None
        }
    }

    /// Translates a change of state that the operating system reports.
    pub fn wait(event: WaitEvent) -> (status: Status)
        ensures
            status == status_of(event),
    {
        match event {
            WaitEvent::Exited(code) => Status::Exited(code),
            WaitEvent::Signaled(signal) => Status::Signaled(signal),
            WaitEvent::Stopped { signal, regs } => Status::Stopped(signal, regs.pc),
        }
    }

    /// Computes what a write of the byte `val` to `addr` does to the word
    /// that holds `addr`: the word to write back, in which only that byte
    /// differs, and the byte that was there.
    pub fn write_byte(word: u64, addr: u64, val: u8) -> (out: (u64, u8))
        ensures
            word_bytes(out.0) == word_bytes(word).update(byte_index(addr) as int, val),
            out.1 == word_bytes(word)[byte_index(addr) as int],
    {
        let index: u64 = addr - align_addr_to_word(addr);
        let orig_byte: u8 = extract_byte(word, index);
        let updated: u64 = replace_byte(word, index, val);
        (updated, orig_byte)
    }

    /// Writes the machine code in `word` out as text, one instruction after
    /// the other, as far as the eight bytes go.
    pub fn print_assembly(word: u64) -> (lines: Vec<String>)
        ensures
            spells(lines@, listing(word_bytes(word), 0)),
    {
        let bytes: Vec<u8> = bytes_of(word);
        disassemble(&bytes)
    }

    /// Finds in the text of a source file the line that `line` names: the
    /// places of its first byte and of the byte behind its last. `None`
    /// where the file has no such line.
    pub fn print_source(source: &str, line: &Line) -> (span: Option<(usize, usize)>)
        ensures
            match span {
                Some((first, end)) => span_from(source.spec_bytes(), 0, line.number as nat)
                    == Some((first as int, end as int)) && first <= end
                    <= source.spec_bytes().len(),
                None => span_from(source.spec_bytes(), 0, line.number as nat) is None,
            },
    {
        line_span(source.as_bytes(), line.number)
    }

    /// The request that ends the process.
    pub fn kill(&self) -> (request: Request)
        ensures
            request == (Request::Kill { pid: self@.pid }),
    {
        Request::Kill { pid: self.pid }
    }

    fn done(&mut self, outcome: Outcome) -> (request: Request)
        requires
            steady(old(self)@),
            old(self).in_queue(),
            old(self)@.user_count == old(self)@.table.len(),
        ensures
            final(self).wf(),
            (final(self)@, request) == done(old(self)@, outcome),
    {
        self.phase = Phase::Idle;
        Request::Finished(outcome)
    }

    fn finish(&mut self, outcome: Outcome) -> (request: Request)
        requires
            steady(old(self)@),
            old(self).in_queue(),
        ensures
            final(self).wf(),
            (final(self)@, request) == finish(old(self)@, outcome),
    {
        let n: usize = self.breakpoints.len();
        if n > self.user_count {
            let last: Breakpoint = self.breakpoints.entry(n - 1);
            self.phase = Phase::Unplanting { outcome };
            Request::PokeByte { addr: last.addr, value: last.orig_byte }
        } else {
            self.done(outcome)
        }
    }

    fn go(&mut self, goal: Goal) -> (request: Request)
        requires
            steady(old(self)@),
            old(self).in_queue(),
        ensures
            final(self).wf(),
            (final(self)@, request) == go(old(self)@, goal),
    {
        match goal {
            Goal::StepInto { .. } => {
                self.phase = Phase::Stepping { goal, rearm: None };
                Request::SingleStep
            },
            Goal::Resume => {
                self.phase = Phase::Resuming;
                Request::Resume
            },
        }
    }

    fn lift(&mut self, goal: Goal, addr: u64, rewind: bool) -> (request: Option<Request>)
        requires
            steady(old(self)@),
            old(self).in_queue(),
        ensures
            request is Some == holds(old(self)@.table, addr),
            match request {
                Some(r) => final(self).wf() && final(self)@ == (InferiorModel {
                    phase: Phase::Disarming { goal, addr, rewind },
                    ..old(self)@
                }) && r == (Request::PokeByte {
                    addr,
                    value: crate::breakpoints::saved_byte(old(self)@.table, addr),
                }),
                None => final(self)@ == old(self)@ && *final(self) == *old(self),
            },
    {
        match self.breakpoints.get(addr) {
            Some(byte) => {
                self.phase = Phase::Disarming { goal, addr, rewind };
                Some(Request::PokeByte { addr, value: byte })
            },
            None => None,
        }
    }

    fn launch(&mut self, goal: Goal) -> (request: Request)
        requires
            steady(old(self)@),
            old(self).in_queue(),
        ensures
            final(self).wf(),
            (final(self)@, request) == launch(old(self)@, goal),
    {
        if self.trapped {
            let a: u64 = self.regs.pc - 1;
            match self.lift(goal, a, true) {
                Some(request) => request,
                None => {
                    self.phase = Phase::Rewinding { goal, addr: a, step_after: false };
                    Request::SetProgramCounter { pc: a }
                },
            }
        } else {
            let stepping: bool = match goal {
                Goal::StepInto { .. } => true,
                Goal::Resume => false,
            };
            if stepping {
                let pc: u64 = self.regs.pc;
                match self.lift(goal, pc, false) {
                    Some(request) => request,
                    None => self.go(goal),
                }
            } else {
                self.go(goal)
            }
        }
    }

    fn after_step(&mut self, info: &DebugInfo, goal: Goal) -> (request: Request)
        requires
            steady(old(self)@),
            old(self).in_queue(),
        ensures
            final(self).wf(),
            (final(self)@, request) == after_step(old(self)@, info, goal),
    {
        match goal {
            Goal::Resume => {
                self.phase = Phase::Resuming;
                Request::Resume
            },
            Goal::StepInto { start } => {
                let pc: u64 = self.regs.pc;
                match info.line_index(pc) {
                    None => self.finish(Outcome::Unmapped { pc }),
                    Some(row) => {
                        let same_row: bool = match start {
                            Some(s) => s == row,
                            None => false,
                        };
                        let same_number: bool = match start {
                            Some(s) => s < info.lines.len() && info.lines[s].number
                                == info.lines[row].number,
                            None => false,
                        };
                        if same_row {
                            self.launch(goal)
                        } else if same_number {
                            self.finish(Outcome::Instruction { pc })
                        } else {
                            self.finish(Outcome::Line { row, pc })
                        }
                    },
                }
            },
        }
    }

    /// Passes over the addresses at the start of the queue that have a
    /// breakpoint.
    fn skip_held(&mut self)
        requires
            old(self).in_queue(),
        ensures
            final(self).in_queue(),
            final(self)@ == (InferiorModel {
                queue: drop_held(old(self)@.table, old(self)@.queue),
                ..old(self)@
            }),
            final(self)@.queue.len() > 0 ==> final(self).cursor < final(self).queue@.len()
                && final(self).queue@[final(self).cursor as int] == final(self)@.queue[0],
    {
        while self.cursor < self.queue.len() && self.breakpoints.contains(self.queue[self.cursor])
            invariant
                self.cursor <= self.queue@.len(),
                self.queue == old(self).queue,
                self.breakpoints == old(self).breakpoints,
                self.pid == old(self).pid,
                self.user_count == old(self).user_count,
                self.frames == old(self).frames,
                self.rejected == old(self).rejected,
                self.regs == old(self).regs,
                self.trapped == old(self).trapped,
                self.phase == old(self).phase,
                drop_held(self.breakpoints@, self.queue@.skip(self.cursor as int)) == drop_held(
                    old(self).breakpoints@,
                    old(self).queue@.skip(old(self).cursor as int),
                ),
            decreases self.queue@.len() - self.cursor,
        {
            proof {
                assert(self.queue@.skip(self.cursor as int).drop_first() =~= self.queue@.skip(
                    self.cursor + 1,
                ));
            }
            self.cursor += 1;
        }
    }

    /// Takes the first address off the queue.
    fn take_next(&mut self) -> (addr: u64)
        requires
            old(self).in_queue(),
            old(self)@.queue.len() > 0,
        ensures
            final(self).in_queue(),
            addr == old(self)@.queue[0],
            final(self)@ == (InferiorModel {
                queue: old(self)@.queue.drop_first(),
                ..old(self)@
            }),
    {
        assert(self.cursor < self.queue.len());
        let addr: u64 = self.queue[self.cursor];
        proof {
            assert(self.queue@.skip(self.cursor as int).drop_first() =~= self.queue@.skip(
                self.cursor + 1,
            ));
        }
        self.cursor += 1;
        addr
    }

    fn read_return(&mut self) -> (request: Request)
        requires
            steady(old(self)@),
            old(self).in_queue(),
        ensures
            final(self).wf(),
            (final(self)@, request) == read_return(old(self)@),
    {
        match self.regs.fp.checked_add(RETURN_ADDRESS_OFFSET) {
            Some(addr) => {
                self.phase = Phase::ReadingReturn;
                Request::PeekWord { addr }
            },
            None => self.finish(Outcome::ControlFailure),
        }
    }

    fn plant_next(&mut self) -> (request: Request)
        requires
            steady(old(self)@),
            old(self).in_queue(),
        ensures
            final(self).wf(),
            (final(self)@, request) == plant_next(old(self)@),
    {
        self.skip_held();
        if self.cursor < self.queue.len() {
            let addr: u64 = self.take_next();
            self.phase = Phase::Planting { addr };
            Request::PokeByte { addr, value: TRAP_BYTE }
        } else {
            self.read_return()
        }
    }

    fn merge_next(&mut self) -> (request: Request)
        requires
            steady(old(self)@),
            old(self).in_queue(),
        ensures
            final(self).wf(),
            (final(self)@, request) == merge_next(old(self)@),
    {
        self.skip_held();
        self.user_count = self.breakpoints.len();
        if self.cursor < self.queue.len() {
            let addr: u64 = self.take_next();
            self.phase = Phase::Merging { addr };
            Request::PokeByte { addr, value: TRAP_BYTE }
        } else {
            self.done(Outcome::Merged)
        }
    }

    fn walk(&mut self, info: &DebugInfo, pc: u64, fp: u64) -> (request: Request)
        requires
            steady(old(self)@),
            old(self).in_queue(),
        ensures
            final(self).wf(),
            (final(self)@, request) == walk(old(self)@, info, pc, fp),
    {
        match info.function_index(pc) {
            None => self.finish(Outcome::Backtrace { complete: false }),
            Some(f) => {
                self.frames.push(pc);
                if str_eq(info.functions[f].name.as_str(), "main") {
                    self.finish(Outcome::Backtrace { complete: true })
                } else {
                    match fp.checked_add(RETURN_ADDRESS_OFFSET) {
                        Some(addr) => {
                            self.phase = Phase::WalkingReturn { fp };
                            Request::PeekWord { addr }
                        },
                        None => self.finish(Outcome::Backtrace { complete: false }),
                    }
                }
            },
        }
    }

    fn record(&mut self, addr: u64, reply: Reply)
        requires
            steady(old(self)@),
            old(self).in_queue(),
        ensures
            steady(final(self)@),
            final(self).in_queue(),
            final(self)@ == (InferiorModel {
                table: match reply {
                    Reply::Byte(b) => crate::breakpoints::with_entry(old(self)@.table, addr, b),
                    _ => old(self)@.table,
                },
                ..old(self)@
            }),
    {
        match reply {
            Reply::Byte(b) => {
                self.breakpoints.insert(addr, b);
            },
            _ => {},
        }
    }

    fn arrive(&mut self, event: WaitEvent, resumed: bool)
        requires
            steady(old(self)@),
            old(self).in_queue(),
        ensures
            steady(final(self)@),
            final(self).in_queue(),
            final(self)@ == arrived(old(self)@, event, resumed),
    {
        match event {
            WaitEvent::Stopped { signal, regs } => {
                self.regs = regs;
                self.trapped = resumed && regs.pc >= 1 && self.breakpoints.contains(regs.pc - 1);
            },
            _ => {
                self.trapped = false;
            },
        }
    }

    /// Plants a breakpoint at `addr` for the user. Nothing is done where
    /// the address has one already.
    pub fn set_breakpoint(&mut self, addr: u64) -> (request: Request)
        requires
            old(self).wf(),
        ensures
            final(self).wf(),
            (final(self)@, request) == begin_insert(old(self)@, addr),
    {
        if !self.is_idle() {
            Request::Finished(Outcome::Busy)
        } else if self.breakpoints.contains(addr) {
            self.done(Outcome::BreakpointKept { addr })
        } else {
            self.phase = Phase::Inserting { addr };
            Request::PokeByte { addr, value: TRAP_BYTE }
        }
    }

    /// Takes the breakpoint at `addr` out: the byte it replaced goes back
    /// and its entry is deleted. Nothing is done where the address has
    /// none.
    pub fn remove_breakpoint(&mut self, addr: u64) -> (request: Request)
        requires
            old(self).wf(),
        ensures
            final(self).wf(),
            (final(self)@, request) == begin_remove(old(self)@, addr),
    {
        if !self.is_idle() {
            return Request::Finished(Outcome::Busy);
        }
        match self.breakpoints.get(addr) {
            Some(byte) => {
                self.phase = Phase::Removing { addr };
                Request::PokeByte { addr, value: byte }
            },
            None => self.done(Outcome::BreakpointAbsent { addr }),
        }
    }

    /// Lets the process run until it changes state.
    pub fn continue_run(&mut self) -> (request: Request)
        requires
            old(self).wf(),
        ensures
            final(self).wf(),
            (final(self)@, request) == begin_continue(old(self)@),
    {
        if self.is_idle() {
            self.launch(Goal::Resume)
        } else {
            Request::Finished(Outcome::Busy)
        }
    }

    /// Runs the process, one instruction at a time, until it is on another
    /// line than the one it is on.
    pub fn step_in(&mut self, info: &DebugInfo) -> (request: Request)
        requires
            old(self).wf(),
        ensures
            final(self).wf(),
            (final(self)@, request) == begin_step_in(old(self)@, info),
    {
        if self.is_idle() {
            let start: Option<usize> = info.line_index(self.regs.pc);
            self.launch(Goal::StepInto { start })
        } else {
            Request::Finished(Outcome::Busy)
        }
    }

    /// Runs the process until the function that it is in returns: a
    /// temporary breakpoint waits at the return address.
    pub fn step_out(&mut self) -> (request: Request)
        requires
            old(self).wf(),
        ensures
            final(self).wf(),
            (final(self)@, request) == begin_step_out(old(self)@),
    {
        if self.is_idle() {
            self.queue = Vec::new();
            self.cursor = 0;
            proof {
                assert(self.queue@.skip(0) =~= Seq::<u64>::empty());
            }
            self.read_return()
        } else {
            Request::Finished(Outcome::Busy)
        }
    }

    /// Runs the process until it is on another line of the function that it
    /// is in, or back in the caller: temporary breakpoints wait at the
    /// starts of the other lines and at the return address.
    pub fn step_over(&mut self, info: &DebugInfo) -> (request: Request)
        requires
            old(self).wf(),
        ensures
            final(self).wf(),
            (final(self)@, request) == begin_step_over(old(self)@, info),
    {
        if !self.is_idle() {
            return Request::Finished(Outcome::Busy);
        }
        let pc: u64 = self.regs.pc;
        match info.function_index(pc) {
            Some(f) => match info.line_index(pc) {
                Some(row) => {
                    let function: &Function = &info.functions[f];
                    let skip: u64 = info.lines[row].address;
                    let queue: Vec<u64> = match info.line_index(function.address) {
                        Some(first) => scan_lines(info, function, skip, info.lines[first].number),
                        None => Vec::new(),
                    };
                    self.queue = queue;
                    self.cursor = 0;
                    proof {
                        assert(self.queue@.skip(0) =~= self.queue@);
                    }
                    self.plant_next()
                },
                None => self.done(Outcome::NoLocation { pc }),
            },
            None => self.done(Outcome::NoLocation { pc }),
        }
    }

    /// Walks the call chain from where the process is stopped to the entry
    /// function. The addresses found are kept for [`Inferior::frames`].
    pub fn print_backtrace(&mut self, info: &DebugInfo) -> (request: Request)
        requires
            old(self).wf(),
        ensures
            final(self).wf(),
            (final(self)@, request) == begin_backtrace(old(self)@, info),
    {
        if self.is_idle() {
            self.frames = Vec::new();
            let regs: Registers = self.regs;
            self.walk(info, regs.pc, regs.fp)
        } else {
            Request::Finished(Outcome::Busy)
        }
    }

    /// Reads the variable that `name` means where the process is stopped: a
    /// local variable of the function it is in, or else a global one.
    pub fn print_variable(&mut self, info: &DebugInfo, name: &str) -> (request: Request)
        requires
            old(self).wf(),
        ensures
            final(self).wf(),
            (final(self)@, request) == begin_print(old(self)@, info, name@),
    {
        if !self.is_idle() {
            return Request::Finished(Outcome::Busy);
        }
        match info.resolve(self.regs.pc, name) {
            None => self.done(Outcome::NoSuchVariable),
            Some(variable) => {
                let v = info.variable(variable);
                match value_kind(v.declared_type.as_str()) {
                    None => self.done(Outcome::UnsupportedType { variable }),
                    Some(kind) => match locate(v.location, self.regs.fp) {
                        None => self.done(Outcome::Unreachable { variable }),
                        Some(addr) => {
                            self.phase = Phase::Reading { variable, kind };
                            Request::PeekWord { addr }
                        },
                    },
                }
            },
        }
    }

    /// Takes the reply to the request that is out and says what is to be
    /// done next.
    pub fn deliver(&mut self, info: &DebugInfo, reply: Reply) -> (request: Request)
        requires
            old(self).wf(),
        ensures
            final(self).wf(),
            (final(self)@, request) == advance(old(self)@, info, reply),
    {
        match self.phase {
            Phase::Idle => Request::Finished(Outcome::NothingPending),
            Phase::Merging { addr } => {
                match reply {
                    Reply::Byte(_) => {
                        self.record(addr, reply);
                    },
                    _ => {
                        self.rejected.push(addr);
                    },
                }
                self.merge_next()
            },
            Phase::Inserting { addr } => match reply {
                Reply::Byte(_) => {
                    let index: usize = self.breakpoints.len();
                    self.record(addr, reply);
                    self.user_count = self.breakpoints.len();
                    self.done(Outcome::BreakpointSet { index, addr })
                },
                _ => self.done(Outcome::BreakpointRejected { addr }),
            },
            Phase::Removing { addr } => {
                self.breakpoints.remove(addr);
                self.user_count = self.breakpoints.len();
                self.done(
                    match reply {
                        Reply::Byte(_) => Outcome::BreakpointRemoved { addr },
                        _ => Outcome::ControlFailure,
                    },
                )
            },
            Phase::Planting { addr } => {
                self.record(addr, reply);
                self.plant_next()
            },
            Phase::ReadingReturn => match reply {
                Reply::Word(ret) => {
                    if self.breakpoints.contains(ret) {
                        self.launch(Goal::Resume)
                    } else {
                        self.phase = Phase::PlantingReturn { addr: ret };
                        Request::PokeByte { addr: ret, value: TRAP_BYTE }
                    }
                },
                _ => self.finish(Outcome::ControlFailure),
            },
            Phase::PlantingReturn { addr } => {
                self.record(addr, reply);
                self.launch(Goal::Resume)
            },
            Phase::Disarming { goal, addr, rewind } => match reply {
                Reply::Byte(_) => {
                    if rewind {
                        self.phase = Phase::Rewinding { goal, addr, step_after: true };
                        Request::SetProgramCounter { pc: addr }
                    } else {
                        self.phase = Phase::Stepping { goal, rearm: Some(addr) };
                        Request::SingleStep
                    }
                },
                _ => self.finish(Outcome::ControlFailure),
            },
            Phase::Rewinding { goal, addr, step_after } => match reply {
                Reply::Done => {
                    self.regs = Registers { pc: addr, fp: self.regs.fp };
                    self.trapped = false;
                    if step_after {
                        self.phase = Phase::Stepping { goal, rearm: Some(addr) };
                        Request::SingleStep
                    } else {
                        self.go(goal)
                    }
                },
                _ => self.finish(Outcome::ControlFailure),
            },
            Phase::Stepping { goal, rearm } => match reply {
                Reply::Wait(event) => {
                    self.arrive(event, false);
                    match event {
                        WaitEvent::Stopped { .. } => match rearm {
                            Some(addr) => {
                                self.phase = Phase::Rearming { goal, addr };
                                Request::PokeByte { addr, value: TRAP_BYTE }
                            },
                            None => self.after_step(info, goal),
                        },
                        _ => self.finish(Outcome::Status(Self::wait(event))),
                    }
                },
                _ => self.finish(Outcome::ControlFailure),
            },
            Phase::Rearming { goal, addr } => match reply {
                Reply::Byte(_) => self.after_step(info, goal),
                _ => self.finish(Outcome::ControlFailure),
            },
            Phase::Resuming => match reply {
                Reply::Wait(event) => {
                    self.arrive(event, true);
                    self.finish(Outcome::Status(Self::wait(event)))
                },
                _ => self.finish(Outcome::ControlFailure),
            },
            Phase::Unplanting { outcome } => {
                let n: usize = self.breakpoints.len();
                let last: Breakpoint = self.breakpoints.entry(n - 1);
                proof {
                    assert(self.breakpoints@[n - 1].addr == last.addr);
                    crate::breakpoints::lemma_position_unique(
                        self.breakpoints@,
                        last.addr,
                        n - 1,
                    );
                }
                self.breakpoints.remove(last.addr);
                self.finish(outcome)
            },
            Phase::WalkingReturn { fp } => match reply {
                Reply::Word(ret) => {
                    self.phase = Phase::WalkingFrame { fp, ret };
                    Request::PeekWord { addr: fp }
                },
                _ => self.finish(Outcome::ControlFailure),
            },
            Phase::WalkingFrame { fp, ret } => match reply {
                Reply::Word(caller_fp) => self.walk(info, ret, caller_fp),
                _ => self.finish(Outcome::ControlFailure),
            },
            Phase::Reading { variable, kind } => match reply {
                Reply::Word(word) => self.finish(
                    Outcome::Value { variable, value: decode(kind, word) },
                ),
                _ => self.finish(Outcome::ControlFailure),
            },
        }
    }
}

/// Collects the addresses at which the lines of `f` start, from line
/// `first` on, leaving out `skip`.
pub fn scan_lines(info: &DebugInfo, f: &Function, skip: u64, first: u64) -> (starts: Vec<u64>)
    ensures
        starts@ == line_starts(info, *f, skip, first),
{
    let mut starts: Vec<u64> = Vec::new();
    let mut number: u64 = first;
    let mut open: bool = true;
    while open
        invariant
            open ==> starts@ + line_starts(info, *f, skip, number) == line_starts(
                info,
                *f,
                skip,
                first,
            ),
            !open ==> starts@ == line_starts(info, *f, skip, first),
        decreases
                if open {
                    u64::MAX - number + 1
                } else {
                    0
                },
    {
        let ghost before = starts@;
        let ghost here = line_starts(info, *f, skip, number);
        match info.get_addr_for_line(None, number) {
            None => {
                open = false;
            },
            Some(a) => {
                if a >= f.address && a - f.address >= f.text_length {
                    open = false;
                } else {
                    if f.address <= a && a != skip {
                        starts.push(a);
                    }
                    if number < u64::MAX {
                        number += 1;
                    } else {
                        open = false;
                    }
                }
            },
        }
        proof {
            let rest = if open {
                line_starts(info, *f, skip, number)
            } else {
                Seq::<u64>::empty()
            };
            assert(here == (starts@ + rest).skip(before.len() as int));
            assert(before + (starts@ + rest).skip(before.len() as int) =~= starts@ + rest);
            assert(starts@ + Seq::<u64>::empty() =~= starts@);
        }
    }
    starts
}

} // verus!
