use syslab::control::{
    Outcome, Registers, Reply, Request, Status, Value, ValueKind, VariableRef, WaitEvent,
};
use syslab::debug_info::{DebugInfo, Function, Line, Location, Variable};
use syslab::debugger::Debugger;
use syslab::debugger_command::DebuggerCommand;
use syslab::inferior::Inferior;
use syslab::memory::{align_addr_to_word, TRAP_BYTE};
use syslab::variables::decode;

const SIGILL: i32 = 4;
const SIGTRAP: i32 = 5;

const WORK: u8 = 0x01;
const CALL: u8 = 0x02;
const RET: u8 = 0x03;
const EXIT: u8 = 0x04;
const NOP: u8 = 0x05;

const START: u64 = 0x0f00;
const MAIN: u64 = 0x1000;
const F: u64 = 0x1100;
const G: u64 = 0x1200;
const H: u64 = 0x1300;
const STACK_TOP: u64 = 0x9000;
const MEMORY: usize = 0x10000;

/// A small machine that stands for the traced process. An instruction is
/// one to three bytes long; a call saves the return address and the frame
/// pointer on the stack, the frame pointer above which the return address
/// lies one word higher.
struct Target {
    mem: Vec<u8>,
    pc: u64,
    fp: u64,
    sp: u64,
    gone: bool,
    executed: Vec<(u64, u8)>,
    requests: Vec<Request>,
}

fn put(mem: &mut Vec<u8>, at: u64, bytes: &[u8]) {
    let mut i = 0;
    while i < bytes.len() {
        mem[at as usize + i] = bytes[i];
        i += 1;
    }
}

fn call(target: u64) -> [u8; 3] {
    [CALL, (target & 0xff) as u8, (target >> 8) as u8]
}

impl Target {
    fn new() -> Target {
        let mut mem = vec![0u8; MEMORY];
        put(&mut mem, START, &call(MAIN));
        put(&mut mem, START + 3, &[EXIT, 7]);
        put(&mut mem, MAIN, &[WORK, 0xaa]);
        put(&mut mem, MAIN + 2, &call(F));
        put(&mut mem, MAIN + 5, &call(F));
        put(&mut mem, MAIN + 8, &[EXIT, 0]);
        put(&mut mem, F, &[WORK, 0xaa]);
        put(&mut mem, F + 2, &call(G));
        put(&mut mem, F + 5, &[WORK, 0xaa]);
        put(&mut mem, F + 7, &[RET]);
        put(&mut mem, G, &[WORK, 0xaa]);
        put(&mut mem, G + 2, &call(H));
        put(&mut mem, G + 5, &[WORK, 0xaa]);
        put(&mut mem, G + 7, &[RET]);
        put(&mut mem, H, &[WORK, 0xaa]);
        put(&mut mem, H + 2, &[NOP]);
        put(&mut mem, H + 3, &[WORK, 0xaa]);
        put(&mut mem, H + 5, &[RET]);
        put(&mut mem, 0x4000, &[42, 0, 0, 0, 0xff, 0xff, 0xff, 0xff]);
        put(&mut mem, 0x4008, &3.25f32.to_bits().to_le_bytes());
        put(&mut mem, 0x4010, &(-2i64).to_le_bytes());
        put(&mut mem, 0x4018, &1.5f64.to_bits().to_le_bytes());
        Target {
            mem,
            pc: START,
            fp: 0,
            sp: STACK_TOP,
            gone: false,
            executed: Vec::new(),
            requests: Vec::new(),
        }
    }

    fn regs(&self) -> Registers {
        Registers { pc: self.pc, fp: self.fp }
    }

    fn word(&self, addr: u64) -> u64 {
        let mut bytes = [0u8; 8];
        let mut i = 0;
        while i < 8 {
            bytes[i] = self.mem[addr as usize + i];
            i += 1;
        }
        u64::from_le_bytes(bytes)
    }

    fn set_word(&mut self, addr: u64, word: u64) {
        put(&mut self.mem, addr, &word.to_le_bytes());
    }

    fn push(&mut self, word: u64) {
        self.sp -= 8;
        let sp = self.sp;
        self.set_word(sp, word);
    }

    fn pop(&mut self) -> u64 {
        let word = self.word(self.sp);
        self.sp += 8;
        word
    }

    /// Executes one instruction; says what happened if the process does
    /// not simply go on.
    fn execute(&mut self) -> Option<WaitEvent> {
        let at = self.pc;
        let op = self.mem[at as usize];
        if op == TRAP_BYTE {
            self.pc = at + 1;
            return Some(WaitEvent::Stopped { signal: SIGTRAP, regs: self.regs() });
        }
        self.executed.push((at, op));
        if op == WORK {
            self.pc = at + 2;
        } else if op == NOP {
            self.pc = at + 1;
        } else if op == CALL {
            let target =
                self.mem[at as usize + 1] as u64 | (self.mem[at as usize + 2] as u64) << 8;
            self.push(at + 3);
            let fp = self.fp;
            self.push(fp);
            self.fp = self.sp;
            self.pc = target;
        } else if op == RET {
            self.sp = self.fp;
            self.fp = self.pop();
            self.pc = self.pop();
        } else if op == EXIT {
            self.gone = true;
            return Some(WaitEvent::Exited(self.mem[at as usize + 1] as i32));
        } else {
            self.gone = true;
            return Some(WaitEvent::Signaled(SIGILL));
        }
        None
    }

    fn perform(&mut self, request: Request) -> Reply {
        self.requests.push(request);
        if self.gone {
            return Reply::Failed;
        }
        match request {
            Request::PokeByte { addr, value } => {
                let base = align_addr_to_word(addr);
                if base as usize + 8 > self.mem.len() {
                    return Reply::Failed;
                }
                let (word, orig) = Inferior::write_byte(self.word(base), addr, value);
                self.set_word(base, word);
                Reply::Byte(orig)
            }
            Request::PeekWord { addr } => {
                if addr as usize + 8 > self.mem.len() {
                    return Reply::Failed;
                }
                Reply::Word(self.word(addr))
            }
            Request::SetProgramCounter { pc } => {
                self.pc = pc;
                Reply::Done
            }
            Request::SingleStep => match self.execute() {
                Some(event) => Reply::Wait(event),
                None => Reply::Wait(WaitEvent::Stopped { signal: SIGTRAP, regs: self.regs() }),
            },
            Request::Resume => {
                let mut budget = 10_000;
                while budget > 0 {
                    if let Some(event) = self.execute() {
                        return Reply::Wait(event);
                    }
                    budget -= 1;
                }
                panic!("the target runs without end");
            }
            Request::Spawn => Reply::Spawned { pid: 4242, regs: self.regs() },
            Request::Kill { .. } => {
                self.gone = true;
                Reply::Done
            }
            Request::Finished(_) => unreachable!(),
        }
    }

    fn ran(&self, at: u64) -> usize {
        self.executed.iter().filter(|e| e.0 == at).count()
    }

    fn traps(&self) -> Vec<u64> {
        let mut found = Vec::new();
        let mut a = 0;
        while a < 0x2000 {
            if self.mem[a] == TRAP_BYTE {
                found.push(a as u64);
            }
            a += 1;
        }
        found
    }
}

fn text(s: &str) -> String {
    String::from(s)
}

fn line(number: u64, address: u64) -> Line {
    Line { file: text("prog.c"), number, address }
}

fn variable(name: &str, declared: &str, location: Location) -> Variable {
    Variable { name: text(name), declared_type: text(declared), location }
}

fn function(name: &str, address: u64, text_length: u64, variables: Vec<Variable>) -> Function {
    Function { name: text(name), address, text_length, variables }
}

fn info() -> DebugInfo {
    let lines = vec![
        line(10, MAIN),
        line(11, MAIN + 2),
        line(12, MAIN + 5),
        line(13, MAIN + 8),
        line(20, F),
        line(21, F + 2),
        line(22, F + 5),
        line(23, F + 7),
        line(30, G),
        line(31, G + 2),
        line(32, G + 5),
        line(33, G + 7),
        line(40, H),
        line(41, H + 2),
        line(42, H + 5),
    ];
    let functions = vec![
        function("main", MAIN, 10, vec![]),
        function(
            "f",
            F,
            8,
            vec![variable("g", "long int", Location::FramePointerOffset(-24))],
        ),
        function("g", G, 8, vec![]),
        function("h", H, 6, vec![variable("x", "int", Location::FramePointerOffset(-20))]),
    ];
    let globals = vec![
        variable("g", "int", Location::Address(0x4000)),
        variable("ratio", "float", Location::Address(0x4008)),
        variable("big", "long int", Location::Address(0x4010)),
        variable("mass", "double", Location::Address(0x4018)),
        variable("odd", "char", Location::Address(0x4020)),
    ];
    DebugInfo::new(lines, functions, globals)
}

fn row(info: &DebugInfo, number: u64) -> usize {
    info.lines.iter().position(|l| l.number == number).unwrap()
}

/// Serves the controller until its operation is over.
fn drive(inferior: &mut Inferior, info: &DebugInfo, target: &mut Target, first: Request) -> Outcome {
    let mut request = first;
    let mut budget = 10_000;
    while budget > 0 {
        if let Request::Finished(outcome) = request {
            return outcome;
        }
        let reply = target.perform(request);
        request = inferior.deliver(info, reply);
        budget -= 1;
    }
    panic!("the operation does not end");
}

/// A process that has just started, with the breakpoints of `pending`
/// planted.
fn started(info: &DebugInfo, pending: &[u64]) -> (Target, Inferior) {
    let mut target = Target::new();
    let (mut inferior, first) = Inferior::new(4242, target.regs(), &pending.to_vec());
    let outcome = drive(&mut inferior, info, &mut target, first);
    assert_eq!(outcome, Outcome::Merged);
    (target, inferior)
}

/// A process that has run into the breakpoint at `addr`.
fn stopped_at(info: &DebugInfo, addr: u64) -> (Target, Inferior) {
    let (mut target, mut inferior) = started(info, &[addr]);
    let first = inferior.continue_run();
    let outcome = drive(&mut inferior, info, &mut target, first);
    assert_eq!(outcome, Outcome::Status(Status::Stopped(SIGTRAP, addr + 1)));
    (target, inferior)
}

fn addresses(inferior: &Inferior) -> Vec<u64> {
    let table = inferior.breakpoints();
    let mut found = Vec::new();
    let mut i = 0;
    while i < table.len() {
        found.push(table.entry(i).addr);
        i += 1;
    }
    found
}

#[test]
fn a_new_process_plants_the_pending_breakpoints() {
    let info = info();
    let (target, inferior) = started(&info, &[F, H + 2, F]);
    assert_eq!(inferior.pid(), 4242);
    assert!(inferior.is_idle());
    assert_eq!(addresses(&inferior), vec![F, H + 2]);
    assert_eq!(inferior.breakpoints().get(F), Some(WORK));
    assert_eq!(inferior.breakpoints().get(H + 2), Some(NOP));
    assert_eq!(target.traps(), vec![F, H + 2]);
    assert!(inferior.rejected().is_empty());
    assert_eq!(inferior.registers(), Registers { pc: START, fp: 0 });
    assert_eq!(inferior.trapped_at(), None);
}

#[test]
fn a_pending_breakpoint_outside_the_memory_is_rejected() {
    let info = info();
    let (target, inferior) = started(&info, &[0xffff_0000, G]);
    assert_eq!(addresses(&inferior), vec![G]);
    assert_eq!(inferior.rejected(), &vec![0xffff_0000]);
    assert_eq!(target.traps(), vec![G]);
}

#[test]
fn insert_then_remove_restores_the_memory() {
    let info = info();
    let (mut target, mut inferior) = started(&info, &[]);
    let before = target.mem.clone();
    let first = inferior.set_breakpoint(F + 2);
    assert_eq!(first, Request::PokeByte { addr: F + 2, value: TRAP_BYTE });
    let outcome = drive(&mut inferior, &info, &mut target, first);
    assert_eq!(outcome, Outcome::BreakpointSet { index: 0, addr: F + 2 });
    assert_eq!(target.mem[(F + 2) as usize], TRAP_BYTE);
    let mut a = 0;
    while a < MEMORY {
        if a as u64 != F + 2 {
            assert_eq!(target.mem[a], before[a]);
        }
        a += 1;
    }
    assert_eq!(inferior.breakpoints().get(F + 2), Some(CALL));
    let first = inferior.remove_breakpoint(F + 2);
    assert_eq!(first, Request::PokeByte { addr: F + 2, value: CALL });
    let outcome = drive(&mut inferior, &info, &mut target, first);
    assert_eq!(outcome, Outcome::BreakpointRemoved { addr: F + 2 });
    assert_eq!(target.mem, before);
    assert_eq!(inferior.breakpoints().len(), 0);
}

#[test]
fn removing_what_is_not_there_does_nothing() {
    let info = info();
    let (mut target, mut inferior) = started(&info, &[F]);
    let asked = target.requests.len();
    let first = inferior.remove_breakpoint(G);
    assert_eq!(first, Request::Finished(Outcome::BreakpointAbsent { addr: G }));
    assert_eq!(drive(&mut inferior, &info, &mut target, first), Outcome::BreakpointAbsent { addr: G });
    assert_eq!(target.requests.len(), asked);
    assert_eq!(addresses(&inferior), vec![F]);
}

#[test]
fn a_second_breakpoint_at_an_address_changes_nothing() {
    let info = info();
    let (mut target, mut inferior) = started(&info, &[]);
    let first = inferior.set_breakpoint(G);
    assert_eq!(
        drive(&mut inferior, &info, &mut target, first),
        Outcome::BreakpointSet { index: 0, addr: G }
    );
    let asked = target.requests.len();
    let second = inferior.set_breakpoint(G);
    assert_eq!(second, Request::Finished(Outcome::BreakpointKept { addr: G }));
    assert_eq!(target.requests.len(), asked);
    assert_eq!(inferior.breakpoints().len(), 1);
    assert_eq!(inferior.breakpoints().get(G), Some(WORK));
    let third = inferior.set_breakpoint(H);
    assert_eq!(
        drive(&mut inferior, &info, &mut target, third),
        Outcome::BreakpointSet { index: 1, addr: H }
    );
}

#[test]
fn a_breakpoint_outside_the_memory_is_rejected() {
    let info = info();
    let (mut target, mut inferior) = started(&info, &[]);
    let first = inferior.set_breakpoint(0xffff_0000);
    assert_eq!(
        drive(&mut inferior, &info, &mut target, first),
        Outcome::BreakpointRejected { addr: 0xffff_0000 }
    );
    assert_eq!(inferior.breakpoints().len(), 0);
    assert!(inferior.is_idle());
}

#[test]
fn the_process_stops_at_a_breakpoint_and_goes_on_unharmed() {
    let info = info();
    let (mut target, mut inferior) = stopped_at(&info, F);
    assert_eq!(inferior.trapped_at(), Some(F));
    assert_eq!(inferior.registers().pc, F + 1);
    assert_eq!(target.ran(F), 0);
    let first = inferior.continue_run();
    assert_eq!(first, Request::PokeByte { addr: F, value: WORK });
    let outcome = drive(&mut inferior, &info, &mut target, first);
    assert_eq!(outcome, Outcome::Status(Status::Stopped(SIGTRAP, F + 1)));
    assert_eq!(target.ran(F), 1);
    assert_eq!(target.ran(F + 1), 0);
    assert_eq!(target.executed.iter().filter(|e| e.1 != WORK && e.1 != CALL && e.1 != RET
        && e.1 != NOP).count(), 0);
    assert_eq!(target.traps(), vec![F]);
    let first = inferior.continue_run();
    let outcome = drive(&mut inferior, &info, &mut target, first);
    assert_eq!(outcome, Outcome::Status(Status::Exited(0)));
    assert_eq!(target.ran(F), 2);
    assert_eq!(inferior.trapped_at(), None);
}

#[test]
fn stepping_over_a_trap_asks_for_the_whole_sequence() {
    let info = info();
    let (mut target, mut inferior) = stopped_at(&info, G);
    target.requests.clear();
    let first = inferior.continue_run();
    drive(&mut inferior, &info, &mut target, first);
    assert_eq!(
        target.requests[..5].to_vec(),
        vec![
            Request::PokeByte { addr: G, value: WORK },
            Request::SetProgramCounter { pc: G },
            Request::SingleStep,
            Request::PokeByte { addr: G, value: TRAP_BYTE },
            Request::Resume,
        ]
    );
}

#[test]
fn step_over_leaves_only_the_breakpoints_of_the_user() {
    let info = info();
    let (mut target, mut inferior) = started(&info, &[F, F + 5]);
    let first = inferior.continue_run();
    drive(&mut inferior, &info, &mut target, first);
    let first = inferior.step_over(&info);
    let outcome = drive(&mut inferior, &info, &mut target, first);
    assert_eq!(outcome, Outcome::Status(Status::Stopped(SIGTRAP, F + 3)));
    assert_eq!(addresses(&inferior), vec![F, F + 5]);
    assert_eq!(inferior.breakpoints().get(F), Some(WORK));
    assert_eq!(inferior.breakpoints().get(F + 5), Some(WORK));
    assert_eq!(target.traps(), vec![F, F + 5]);
    assert!(inferior.is_idle());
}

#[test]
fn step_over_plants_at_the_other_lines_and_at_the_return_address() {
    let info = info();
    let (mut target, mut inferior) = stopped_at(&info, F);
    target.requests.clear();
    let first = inferior.step_over(&info);
    drive(&mut inferior, &info, &mut target, first);
    let planted: Vec<u64> = target
        .requests
        .iter()
        .take_while(|r| **r != Request::Resume)
        .filter_map(|r| match r {
            Request::PokeByte { addr, value } if *value == TRAP_BYTE => Some(*addr),
            _ => None,
        })
        .collect();
    assert_eq!(planted, vec![F + 2, F + 5, F + 7, MAIN + 5, F]);
    assert_eq!(target.requests.iter().filter(|r| **r == Request::Resume).count(), 1);
    assert_eq!(target.traps(), vec![F]);
}

#[test]
fn step_over_does_not_stop_in_the_function_that_is_called() {
    let info = info();
    let (mut target, mut inferior) = stopped_at(&info, F + 2);
    let first = inferior.step_over(&info);
    let outcome = drive(&mut inferior, &info, &mut target, first);
    assert_eq!(outcome, Outcome::Status(Status::Stopped(SIGTRAP, F + 6)));
    assert_eq!(target.ran(H), 1);
    assert_eq!(addresses(&inferior), vec![F + 2]);
    assert_eq!(target.traps(), vec![F + 2]);
    let first = inferior.continue_run();
    assert_eq!(first, Request::SetProgramCounter { pc: F + 5 });
    let outcome = drive(&mut inferior, &info, &mut target, first);
    assert_eq!(outcome, Outcome::Status(Status::Stopped(SIGTRAP, F + 3)));
    assert_eq!(target.ran(F + 5), 1);
    assert_eq!(target.ran(F + 6), 0);
}

#[test]
fn step_over_where_no_line_is_known_does_nothing() {
    let info = info();
    let (mut target, mut inferior) = started(&info, &[]);
    let asked = target.requests.len();
    let first = inferior.step_over(&info);
    assert_eq!(first, Request::Finished(Outcome::NoLocation { pc: START }));
    assert_eq!(target.requests.len(), asked);
    assert!(inferior.is_idle());
}

#[test]
fn step_over_the_end_of_the_program_reports_the_exit() {
    let info = info();
    let (mut target, mut inferior) = stopped_at(&info, MAIN + 8);
    let first = inferior.step_over(&info);
    let outcome = drive(&mut inferior, &info, &mut target, first);
    assert_eq!(outcome, Outcome::Status(Status::Exited(0)));
    assert_eq!(addresses(&inferior), vec![MAIN + 8]);
    assert!(inferior.is_idle());
}

#[test]
fn step_out_runs_to_the_caller_and_takes_its_breakpoint_away() {
    let info = info();
    let (mut target, mut inferior) = stopped_at(&info, H);
    let first = inferior.step_out();
    assert_eq!(first, Request::PeekWord { addr: inferior.registers().fp + 8 });
    let outcome = drive(&mut inferior, &info, &mut target, first);
    assert_eq!(outcome, Outcome::Status(Status::Stopped(SIGTRAP, G + 6)));
    assert_eq!(addresses(&inferior), vec![H]);
    assert_eq!(target.traps(), vec![H]);
    assert_eq!(target.ran(H + 5), 1);
    assert_eq!(target.requests.iter().filter(|r| **r == Request::Resume).count(), 2);
}

#[test]
fn step_out_keeps_a_breakpoint_of_the_user_at_the_return_address() {
    let info = info();
    let (mut target, mut inferior) = started(&info, &[H, G + 5]);
    let first = inferior.continue_run();
    drive(&mut inferior, &info, &mut target, first);
    let first = inferior.step_out();
    let outcome = drive(&mut inferior, &info, &mut target, first);
    assert_eq!(outcome, Outcome::Status(Status::Stopped(SIGTRAP, G + 6)));
    assert_eq!(addresses(&inferior), vec![H, G + 5]);
    assert_eq!(target.traps(), vec![G + 5, H]);
}

#[test]
fn step_lands_on_the_next_line() {
    let info = info();
    let (mut target, mut inferior) = stopped_at(&info, F);
    let first = inferior.step_in(&info);
    let outcome = drive(&mut inferior, &info, &mut target, first);
    assert_eq!(outcome, Outcome::Line { row: row(&info, 21), pc: F + 2 });
    assert_eq!(target.ran(F), 1);
    assert_eq!(target.traps(), vec![F]);
    assert_eq!(inferior.trapped_at(), None);
}

#[test]
fn step_goes_into_a_function_that_is_called() {
    let info = info();
    let (mut target, mut inferior) = stopped_at(&info, F + 2);
    let first = inferior.step_in(&info);
    let outcome = drive(&mut inferior, &info, &mut target, first);
    assert_eq!(outcome, Outcome::Line { row: row(&info, 30), pc: G });
}

#[test]
fn step_on_the_last_line_lands_in_the_caller() {
    let info = info();
    let (mut target, mut inferior) = stopped_at(&info, H + 5);
    let first = inferior.step_in(&info);
    let outcome = drive(&mut inferior, &info, &mut target, first);
    assert_eq!(outcome, Outcome::Line { row: row(&info, 32), pc: G + 5 });
    assert_eq!(target.ran(H + 5), 1);
    assert_eq!(target.traps(), vec![H + 5]);
}

#[test]
fn step_does_not_run_an_instruction_twice() {
    let info = info();
    let (mut target, mut inferior) = stopped_at(&info, H + 2);
    assert_eq!(inferior.registers().pc, H + 3);
    target.requests.clear();
    let first = inferior.step_in(&info);
    let outcome = drive(&mut inferior, &info, &mut target, first);
    assert_eq!(outcome, Outcome::Line { row: row(&info, 42), pc: H + 5 });
    assert_eq!(target.ran(H + 2), 1);
    assert_eq!(target.ran(H + 3), 1);
    assert_eq!(
        target.requests,
        vec![
            Request::PokeByte { addr: H + 2, value: NOP },
            Request::SetProgramCounter { pc: H + 2 },
            Request::SingleStep,
            Request::PokeByte { addr: H + 2, value: TRAP_BYTE },
            Request::SingleStep,
        ]
    );
}

#[test]
fn step_lifts_a_trap_that_lies_ahead() {
    let info = info();
    let (mut target, mut inferior) = started(&info, &[H, H + 2, H + 5]);
    let first = inferior.continue_run();
    drive(&mut inferior, &info, &mut target, first);
    let first = inferior.step_in(&info);
    let outcome = drive(&mut inferior, &info, &mut target, first);
    assert_eq!(outcome, Outcome::Line { row: row(&info, 41), pc: H + 2 });
    let first = inferior.step_in(&info);
    assert_eq!(first, Request::PokeByte { addr: H + 2, value: NOP });
    let outcome = drive(&mut inferior, &info, &mut target, first);
    assert_eq!(outcome, Outcome::Line { row: row(&info, 42), pc: H + 5 });
    assert_eq!(target.ran(H + 2), 1);
    assert_eq!(target.ran(H + 3), 1);
    assert_eq!(target.traps(), vec![H, H + 2, H + 5]);
}

#[test]
fn step_out_of_the_known_code_ends_where_no_line_is() {
    let info = info();
    let (mut target, mut inferior) = started(&info, &[]);
    let first = inferior.step_in(&info);
    let outcome = drive(&mut inferior, &info, &mut target, first);
    assert_eq!(outcome, Outcome::Line { row: row(&info, 10), pc: MAIN });
    let mut lost = Target::new();
    lost.pc = MAIN + 8;
    let (mut inferior, first) = Inferior::new(1, lost.regs(), &vec![]);
    drive(&mut inferior, &info, &mut lost, first);
    put(&mut lost.mem, MAIN + 8, &call(0x1800));
    put(&mut lost.mem, 0x1800, &[WORK, 0xaa]);
    let first = inferior.step_in(&info);
    let outcome = drive(&mut inferior, &info, &mut lost, first);
    assert_eq!(outcome, Outcome::Unmapped { pc: 0x1800 });
}

#[test]
fn step_reports_the_end_of_the_process() {
    let info = info();
    let (mut target, mut inferior) = stopped_at(&info, MAIN + 8);
    let first = inferior.step_in(&info);
    let outcome = drive(&mut inferior, &info, &mut target, first);
    assert_eq!(outcome, Outcome::Status(Status::Exited(0)));
}

#[test]
fn step_to_another_row_of_the_same_line_reports_the_address() {
    let lines = vec![line(5, 0x1800), line(5, 0x1802), line(6, 0x1804)];
    let functions = vec![function("loop", 0x1800, 6, vec![])];
    let info = DebugInfo::new(lines, functions, vec![]);
    let mut target = Target::new();
    put(&mut target.mem, 0x1800, &[WORK, 0xaa, WORK, 0xaa, WORK, 0xaa]);
    target.pc = 0x1800;
    let (mut inferior, first) = Inferior::new(7, target.regs(), &vec![]);
    drive(&mut inferior, &info, &mut target, first);
    let first = inferior.step_in(&info);
    let outcome = drive(&mut inferior, &info, &mut target, first);
    assert_eq!(outcome, Outcome::Instruction { pc: 0x1802 });
    let first = inferior.step_in(&info);
    let outcome = drive(&mut inferior, &info, &mut target, first);
    assert_eq!(outcome, Outcome::Line { row: 2, pc: 0x1804 });
}

#[test]
fn backtrace_from_three_levels_below_main_has_four_frames() {
    let info = info();
    let (mut target, mut inferior) = stopped_at(&info, H + 2);
    let first = inferior.print_backtrace(&info);
    let outcome = drive(&mut inferior, &info, &mut target, first);
    assert_eq!(outcome, Outcome::Backtrace { complete: true });
    assert_eq!(inferior.frames(), &vec![H + 3, G + 5, F + 5, MAIN + 5]);
    let names: Vec<&str> = inferior
        .frames()
        .iter()
        .map(|pc| info.get_function_from_addr(*pc).unwrap().as_str())
        .collect();
    assert_eq!(names, vec!["h", "g", "f", "main"]);
    let numbers: Vec<u64> =
        inferior.frames().iter().map(|pc| info.get_line_from_addr(*pc).unwrap().number).collect();
    assert_eq!(numbers, vec![41, 32, 22, 12]);
    assert_eq!(addresses(&inferior), vec![H + 2]);
}

#[test]
fn backtrace_in_main_has_one_frame() {
    let info = info();
    let (mut target, mut inferior) = stopped_at(&info, MAIN);
    let asked = target.requests.len();
    let first = inferior.print_backtrace(&info);
    assert_eq!(first, Request::Finished(Outcome::Backtrace { complete: true }));
    drive(&mut inferior, &info, &mut target, first);
    assert_eq!(inferior.frames(), &vec![MAIN + 1]);
    assert_eq!(target.requests.len(), asked);
}

#[test]
fn backtrace_outside_the_known_code_is_incomplete() {
    let info = info();
    let (mut target, mut inferior) = started(&info, &[]);
    let first = inferior.print_backtrace(&info);
    let outcome = drive(&mut inferior, &info, &mut target, first);
    assert_eq!(outcome, Outcome::Backtrace { complete: false });
    assert!(inferior.frames().is_empty());
}

#[test]
fn a_global_integer_is_printed() {
    let info = info();
    let (mut target, mut inferior) = stopped_at(&info, H);
    let first = inferior.print_variable(&info, "g");
    assert_eq!(first, Request::PeekWord { addr: 0x4000 });
    let outcome = drive(&mut inferior, &info, &mut target, first);
    assert_eq!(
        outcome,
        Outcome::Value { variable: VariableRef::Global { index: 0 }, value: Value::Int(42) }
    );
    assert_eq!(info.variable(VariableRef::Global { index: 0 }).name, "g");
}

#[test]
fn a_local_variable_hides_a_global_one() {
    let info = info();
    let (mut target, mut inferior) = stopped_at(&info, F + 2);
    let fp = inferior.registers().fp;
    target.set_word(fp - 8, (-77i64) as u64);
    let first = inferior.print_variable(&info, "g");
    assert_eq!(first, Request::PeekWord { addr: fp - 8 });
    let outcome = drive(&mut inferior, &info, &mut target, first);
    assert_eq!(
        outcome,
        Outcome::Value {
            variable: VariableRef::Local { function: 1, index: 0 },
            value: Value::Long(-77)
        }
    );
}

#[test]
fn a_local_integer_lies_below_the_frame_pointer() {
    let info = info();
    let (mut target, mut inferior) = stopped_at(&info, H + 2);
    let fp = inferior.registers().fp;
    put(&mut target.mem, fp - 4, &(-5i32).to_le_bytes());
    let first = inferior.print_variable(&info, "x");
    assert_eq!(first, Request::PeekWord { addr: fp - 20 + 16 });
    let outcome = drive(&mut inferior, &info, &mut target, first);
    assert_eq!(
        outcome,
        Outcome::Value {
            variable: VariableRef::Local { function: 3, index: 0 },
            value: Value::Int(-5)
        }
    );
}

#[test]
fn the_other_kinds_of_variables_are_printed() {
    let info = info();
    let (mut target, mut inferior) = stopped_at(&info, H);
    let first = inferior.print_variable(&info, "ratio");
    match drive(&mut inferior, &info, &mut target, first) {
        Outcome::Value { value: Value::Float(bits), .. } => assert_eq!(f32::from_bits(bits), 3.25),
        other => panic!("{:?}", other),
    }
    let first = inferior.print_variable(&info, "big");
    match drive(&mut inferior, &info, &mut target, first) {
        Outcome::Value { value, .. } => assert_eq!(value, Value::Long(-2)),
        other => panic!("{:?}", other),
    }
    let first = inferior.print_variable(&info, "mass");
    match drive(&mut inferior, &info, &mut target, first) {
        Outcome::Value { value: Value::Double(bits), .. } => assert_eq!(f64::from_bits(bits), 1.5),
        other => panic!("{:?}", other),
    }
}

#[test]
fn a_variable_that_is_unknown_or_of_an_unknown_type_is_not_read() {
    let info = info();
    let (mut target, mut inferior) = stopped_at(&info, H);
    let asked = target.requests.len();
    let first = inferior.print_variable(&info, "nothing");
    assert_eq!(first, Request::Finished(Outcome::NoSuchVariable));
    let first = inferior.print_variable(&info, "odd");
    assert_eq!(
        first,
        Request::Finished(Outcome::UnsupportedType { variable: VariableRef::Global { index: 4 } })
    );
    assert_eq!(info.variable(VariableRef::Global { index: 4 }).declared_type, "char");
    let first = inferior.print_variable(&info, "x");
    assert!(matches!(first, Request::PeekWord { .. }));
    drive(&mut inferior, &info, &mut target, first);
    assert_eq!(target.requests.len(), asked + 1);
}

#[test]
fn the_bits_of_a_float_are_not_its_integer_value() {
    let word: u64 = 3.25f32.to_bits() as u64 | 0xdead_beef_0000_0000;
    match decode(ValueKind::Float, word) {
        Value::Float(bits) => assert_eq!(f32::from_bits(bits), 3.25),
        other => panic!("{:?}", other),
    }
    assert_eq!(decode(ValueKind::Int, word), Value::Int(0x4050_0000));
    assert_eq!(decode(ValueKind::Int, word), Value::Int(1_078_984_704));
    assert_eq!(decode(ValueKind::Int, 0xffff_ffff), Value::Int(-1));
    assert_eq!(decode(ValueKind::Int, 0x1_8000_0000), Value::Int(i32::MIN));
    assert_eq!(decode(ValueKind::Long, u64::MAX), Value::Long(-1));
    assert_eq!(decode(ValueKind::Long, 1 << 63), Value::Long(i64::MIN));
    assert_eq!(decode(ValueKind::Long, 12), Value::Long(12));
    assert_eq!(decode(ValueKind::Double, 2.5f64.to_bits()), Value::Double(2.5f64.to_bits()));
}

#[test]
fn an_operation_cannot_start_while_another_is_under_way() {
    let info = info();
    let (mut target, mut inferior) = stopped_at(&info, F);
    let first = inferior.continue_run();
    assert!(!inferior.is_idle());
    assert_eq!(inferior.step_over(&info), Request::Finished(Outcome::Busy));
    assert_eq!(inferior.step_in(&info), Request::Finished(Outcome::Busy));
    assert_eq!(inferior.step_out(), Request::Finished(Outcome::Busy));
    assert_eq!(inferior.set_breakpoint(G), Request::Finished(Outcome::Busy));
    assert_eq!(inferior.remove_breakpoint(F), Request::Finished(Outcome::Busy));
    assert_eq!(inferior.print_backtrace(&info), Request::Finished(Outcome::Busy));
    assert_eq!(inferior.print_variable(&info, "g"), Request::Finished(Outcome::Busy));
    assert_eq!(inferior.continue_run(), Request::Finished(Outcome::Busy));
    let outcome = drive(&mut inferior, &info, &mut target, first);
    assert_eq!(outcome, Outcome::Status(Status::Stopped(SIGTRAP, F + 1)));
    assert_eq!(inferior.deliver(&info, Reply::Done), Request::Finished(Outcome::NothingPending));
}

#[test]
fn a_failure_of_the_control_primitive_ends_the_operation() {
    let info = info();
    let (_, mut inferior) = stopped_at(&info, F);
    let first = inferior.continue_run();
    assert!(matches!(first, Request::PokeByte { .. }));
    assert_eq!(inferior.deliver(&info, Reply::Failed), Request::Finished(Outcome::ControlFailure));
    assert!(inferior.is_idle());
    let (_, mut inferior) = stopped_at(&info, F);
    let first = inferior.step_over(&info);
    assert_eq!(first, Request::PokeByte { addr: F + 2, value: TRAP_BYTE });
    assert_eq!(
        inferior.deliver(&info, Reply::Byte(CALL)),
        Request::PokeByte { addr: F + 5, value: TRAP_BYTE }
    );
    assert_eq!(
        inferior.deliver(&info, Reply::Failed),
        Request::PokeByte { addr: F + 7, value: TRAP_BYTE }
    );
    assert!(matches!(inferior.deliver(&info, Reply::Byte(RET)), Request::PeekWord { .. }));
    assert_eq!(inferior.deliver(&info, Reply::Failed), Request::PokeByte { addr: F + 7, value: RET });
    assert_eq!(
        inferior.deliver(&info, Reply::Failed),
        Request::PokeByte { addr: F + 2, value: CALL }
    );
    assert_eq!(
        inferior.deliver(&info, Reply::Byte(TRAP_BYTE)),
        Request::Finished(Outcome::ControlFailure)
    );
    assert_eq!(addresses(&inferior), vec![F]);
}

#[test]
fn wait_translates_what_the_system_reports() {
    assert_eq!(Inferior::wait(WaitEvent::Exited(3)), Status::Exited(3));
    assert_eq!(Inferior::wait(WaitEvent::Signaled(9)), Status::Signaled(9));
    assert_eq!(
        Inferior::wait(WaitEvent::Stopped {
            signal: SIGTRAP,
            regs: Registers { pc: 0x401000, fp: 0x7ffc_0000 }
        }),
        Status::Stopped(SIGTRAP, 0x401000)
    );
}

#[test]
fn the_request_that_ends_the_process_names_it() {
    let info = info();
    let (_, inferior) = started(&info, &[]);
    assert_eq!(inferior.kill(), Request::Kill { pid: 4242 });
}

#[test]
fn the_line_of_a_stop_is_found_in_its_source_file() {
    let info = info();
    let source = "int h() {\n    int x = 1;\r\n    return x;\n}\n";
    let line = Line { file: String::from("prog.c"), number: 2, address: H };
    assert_eq!(Inferior::print_source(source, &line), Some((10, 24)));
    assert_eq!(&source[10..24], "    int x = 1;");
    let line = Line { file: String::from("prog.c"), number: 5, address: H };
    assert_eq!(Inferior::print_source(source, &line), None);
    assert_eq!(Inferior::print_source(source, &info.lines[0]), None);
}

/// Serves the session until its operation is over.
fn serve(session: &mut Debugger, target: &mut Target, first: Request) -> Outcome {
    let mut request = first;
    let mut budget = 10_000;
    while budget > 0 {
        if let Request::Finished(outcome) = request {
            return outcome;
        }
        if request == Request::Spawn {
            *target = Target::new();
        }
        let reply = target.perform(request);
        request = session.deliver(reply);
        budget -= 1;
    }
    panic!("the operation does not end");
}

fn command(session: &mut Debugger, target: &mut Target, command: DebuggerCommand) -> Outcome {
    let first = session.run(&command);
    serve(session, target, first)
}

fn breakpoint(place: &str) -> DebuggerCommand {
    DebuggerCommand::Breakpoint(text(place))
}

#[test]
fn a_new_session_has_no_process_and_no_breakpoint() {
    let session = Debugger::new("./prog", info());
    assert_eq!(session.target(), "./prog");
    assert!(session.inferior().is_none());
    assert!(session.breakpoints().is_empty());
    assert_eq!(session.debug_data().lines.len(), 15);
}

#[test]
fn commands_that_need_a_process_say_so() {
    let mut session = Debugger::new("./prog", info());
    let mut target = Target::new();
    assert_eq!(command(&mut session, &mut target, DebuggerCommand::Continue), Outcome::NoInferior);
    assert_eq!(command(&mut session, &mut target, DebuggerCommand::Backtrace), Outcome::NoInferior);
    assert_eq!(command(&mut session, &mut target, DebuggerCommand::Step), Outcome::NoInferior);
    assert_eq!(command(&mut session, &mut target, DebuggerCommand::Next), Outcome::NoInferior);
    assert_eq!(command(&mut session, &mut target, DebuggerCommand::Finish), Outcome::NoInferior);
    assert_eq!(
        command(&mut session, &mut target, DebuggerCommand::Print(text("g"))),
        Outcome::NoInferior
    );
    assert!(target.requests.is_empty());
    assert_eq!(command(&mut session, &mut target, DebuggerCommand::Quit), Outcome::Quit);
}

#[test]
fn a_breakpoint_can_be_named_by_address_line_or_function() {
    let mut session = Debugger::new("./prog", info());
    let mut target = Target::new();
    assert_eq!(session.parse_place("*0x1100"), Ok(F));
    assert_eq!(session.parse_place("*1100"), Ok(F));
    assert_eq!(session.parse_place("*0X12aB"), Ok(0x12ab));
    assert_eq!(session.parse_place("*"), Err(Outcome::InvalidAddress));
    assert_eq!(session.parse_place("*0x"), Err(Outcome::InvalidAddress));
    assert_eq!(session.parse_place("*12g"), Err(Outcome::InvalidAddress));
    assert_eq!(session.parse_place("*10000000000000000"), Err(Outcome::InvalidAddress));
    assert_eq!(session.parse_place("*ffffffffffffffff"), Ok(u64::MAX));
    assert_eq!(session.parse_place("21"), Ok(F + 2));
    assert_eq!(session.parse_place("14"), Ok(F));
    assert_eq!(session.parse_place("1"), Ok(MAIN));
    assert_eq!(session.parse_place("43"), Err(Outcome::InvalidLine));
    assert_eq!(session.parse_place("h"), Ok(H));
    assert_eq!(session.parse_place("main"), Ok(MAIN));
    assert_eq!(session.parse_place("nowhere"), Err(Outcome::UnknownPlace));
    assert_eq!(session.parse_place(""), Err(Outcome::UnknownPlace));
    assert_eq!(
        command(&mut session, &mut target, breakpoint("*0x1100")),
        Outcome::BreakpointSet { index: 0, addr: F }
    );
    assert_eq!(
        command(&mut session, &mut target, breakpoint("31")),
        Outcome::BreakpointSet { index: 1, addr: G + 2 }
    );
    assert_eq!(
        command(&mut session, &mut target, breakpoint("f")),
        Outcome::BreakpointKept { addr: F }
    );
    assert_eq!(command(&mut session, &mut target, breakpoint("*xyz")), Outcome::InvalidAddress);
    assert_eq!(session.breakpoints(), &vec![F, G + 2]);
    assert!(target.requests.is_empty());
}

#[test]
fn a_breakpoint_set_before_the_run_stops_the_process() {
    let mut session = Debugger::new("./prog", info());
    let mut target = Target::new();
    command(&mut session, &mut target, breakpoint("f"));
    let first = session.run(&DebuggerCommand::Run(vec![]));
    assert_eq!(first, Request::Spawn);
    let outcome = serve(&mut session, &mut target, first);
    assert_eq!(outcome, Outcome::Status(Status::Stopped(SIGTRAP, F + 1)));
    assert_eq!(session.inferior().unwrap().trapped_at(), Some(F));
    assert_eq!(target.ran(F), 0);
    let outcome = command(&mut session, &mut target, DebuggerCommand::Continue);
    assert_eq!(outcome, Outcome::Status(Status::Stopped(SIGTRAP, F + 1)));
    assert_eq!(target.ran(F), 1);
    assert_eq!(target.ran(F + 1), 0);
    assert_eq!(target.ran(MAIN + 5), 1);
    let outcome = command(&mut session, &mut target, DebuggerCommand::Continue);
    assert_eq!(outcome, Outcome::Status(Status::Exited(0)));
    assert_eq!(target.ran(F), 2);
    assert!(session.inferior().is_none());
    assert_eq!(command(&mut session, &mut target, DebuggerCommand::Continue), Outcome::NoInferior);
}

#[test]
fn a_run_ends_the_process_that_is_there() {
    let mut session = Debugger::new("./prog", info());
    let mut target = Target::new();
    command(&mut session, &mut target, breakpoint("g"));
    assert!(session.arguments().is_empty());
    command(&mut session, &mut target, DebuggerCommand::Run(vec![text("one"), text("two")]));
    assert_eq!(session.arguments(), &vec!["one", "two"]);
    assert_eq!(session.inferior().unwrap().pid(), 4242);
    command(&mut session, &mut target, DebuggerCommand::Continue);
    assert_eq!(session.arguments(), &vec!["one", "two"]);
    let first = session.run(&DebuggerCommand::Run(vec![]));
    assert!(session.arguments().is_empty());
    assert_eq!(first, Request::Kill { pid: 4242 });
    assert_eq!(session.run(&DebuggerCommand::Continue), Request::Finished(Outcome::Busy));
    let outcome = serve(&mut session, &mut target, first);
    assert_eq!(outcome, Outcome::Status(Status::Stopped(SIGTRAP, G + 1)));
    assert_eq!(target.ran(F), 1);
    assert_eq!(target.requests[0], Request::Spawn);
    let first = session.run(&DebuggerCommand::Quit);
    assert_eq!(first, Request::Kill { pid: 4242 });
    assert_eq!(serve(&mut session, &mut target, first), Outcome::Quit);
    assert!(session.inferior().is_none());
}

#[test]
fn a_target_that_cannot_be_started_leaves_the_session_without_a_process() {
    let mut session = Debugger::new("./missing", info());
    let first = session.run(&DebuggerCommand::Run(vec![]));
    assert_eq!(first, Request::Spawn);
    assert_eq!(session.deliver(Reply::Failed), Request::Finished(Outcome::SpawnFailed));
    assert!(session.inferior().is_none());
    assert_eq!(session.run(&DebuggerCommand::Run(vec![])), Request::Spawn);
    assert_eq!(session.deliver(Reply::Done), Request::Finished(Outcome::SpawnFailed));
    assert_eq!(session.deliver(Reply::Done), Request::Finished(Outcome::NothingPending));
}

#[test]
fn a_process_that_cannot_be_controlled_is_let_go() {
    let mut session = Debugger::new("./prog", info());
    let mut target = Target::new();
    command(&mut session, &mut target, breakpoint("f"));
    command(&mut session, &mut target, DebuggerCommand::Run(vec![]));
    let first = session.run(&DebuggerCommand::Continue);
    assert!(matches!(first, Request::PokeByte { .. }));
    assert_eq!(session.deliver(Reply::Failed), Request::Finished(Outcome::ControlFailure));
    assert!(session.inferior().is_none());
    assert_eq!(session.breakpoints(), &vec![F]);
    assert_eq!(session.run(&DebuggerCommand::Step), Request::Finished(Outcome::NoInferior));
    let outcome = command(&mut session, &mut target, DebuggerCommand::Run(vec![]));
    assert_eq!(outcome, Outcome::Status(Status::Stopped(SIGTRAP, F + 1)));
}

#[test]
fn a_process_that_is_killed_by_a_signal_is_let_go() {
    let mut session = Debugger::new("./prog", info());
    let mut target = Target::new();
    command(&mut session, &mut target, DebuggerCommand::Run(vec![]));
    assert!(session.inferior().is_none());
    command(&mut session, &mut target, breakpoint("main"));
    command(&mut session, &mut target, DebuggerCommand::Run(vec![]));
    put(&mut target.mem, MAIN + 2, &[0xee]);
    let outcome = command(&mut session, &mut target, DebuggerCommand::Continue);
    assert_eq!(outcome, Outcome::Status(Status::Signaled(SIGILL)));
    assert!(session.inferior().is_none());
}

#[test]
fn a_breakpoint_set_while_the_process_runs_is_kept_for_the_next_run() {
    let mut session = Debugger::new("./prog", info());
    let mut target = Target::new();
    command(&mut session, &mut target, breakpoint("main"));
    command(&mut session, &mut target, DebuggerCommand::Run(vec![]));
    assert_eq!(
        command(&mut session, &mut target, breakpoint("41")),
        Outcome::BreakpointSet { index: 1, addr: H + 2 }
    );
    assert_eq!(
        command(&mut session, &mut target, breakpoint("*0xffff0000")),
        Outcome::BreakpointRejected { addr: 0xffff_0000 }
    );
    assert_eq!(
        command(&mut session, &mut target, breakpoint("main")),
        Outcome::BreakpointKept { addr: MAIN }
    );
    assert_eq!(session.breakpoints(), &vec![MAIN, H + 2]);
    assert_eq!(target.traps(), vec![MAIN, H + 2]);
    command(&mut session, &mut target, DebuggerCommand::Run(vec![]));
    assert_eq!(target.traps(), vec![MAIN, H + 2]);
    let outcome = command(&mut session, &mut target, DebuggerCommand::Continue);
    assert_eq!(outcome, Outcome::Status(Status::Stopped(SIGTRAP, H + 3)));
}

#[test]
fn the_commands_of_a_session_reach_the_process() {
    let mut session = Debugger::new("./prog", info());
    let mut target = Target::new();
    command(&mut session, &mut target, breakpoint("h"));
    command(&mut session, &mut target, DebuggerCommand::Run(vec![]));
    assert_eq!(
        command(&mut session, &mut target, DebuggerCommand::Backtrace),
        Outcome::Backtrace { complete: true }
    );
    assert_eq!(session.inferior().unwrap().frames().len(), 4);
    assert_eq!(
        command(&mut session, &mut target, DebuggerCommand::Print(text("g"))),
        Outcome::Value { variable: VariableRef::Global { index: 0 }, value: Value::Int(42) }
    );
    assert_eq!(
        command(&mut session, &mut target, DebuggerCommand::Step),
        Outcome::Line { row: 13, pc: H + 2 }
    );
    assert_eq!(
        command(&mut session, &mut target, DebuggerCommand::Next),
        Outcome::Status(Status::Stopped(SIGTRAP, H + 6))
    );
    assert_eq!(
        command(&mut session, &mut target, DebuggerCommand::Finish),
        Outcome::Status(Status::Stopped(SIGTRAP, G + 6))
    );
    assert_eq!(target.ran(H + 5), 1);
    assert_eq!(target.traps(), vec![H]);
    assert_eq!(
        command(&mut session, &mut target, DebuggerCommand::Continue),
        Outcome::Status(Status::Stopped(SIGTRAP, H + 1))
    );
    assert_eq!(target.ran(G + 5), 1);
}
