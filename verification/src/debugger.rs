//! A debugging session: the target, its debug information, the breakpoints
//! that the user wants and, while the target runs, its process.
//!
//! Like the controller of the process, the session does nothing by itself.
//! [`Debugger::run`] takes a command and hands out a request;
//! [`Debugger::deliver`] takes the reply and hands out the next one.

use crate::control::{Outcome, Reply, Request, Status};
use crate::debug_info::DebugInfo;
use crate::debugger_command::DebuggerCommand;
use crate::inferior::Inferior;
use crate::model::{
    advance, begin_backtrace, begin_continue, begin_insert, begin_merge, begin_print,
    begin_step_in, begin_step_out, begin_step_over, fresh, InferiorModel,
};
use crate::text::{parse_address, parse_decimal, parsed, parsed_address};
use vstd::prelude::*;
use vstd::string::StrSliceExecFns;

verus! {

/// What the session waits for.
#[derive(Clone, Copy, Debug, PartialEq, Eq)]
pub enum Stage {
    /// A command.
    Idle,
    /// The old process to be gone; `respawn` says whether a new one follows.
    Killing { respawn: bool },
    /// The new process.
    Spawning,
    /// The pending breakpoints to be planted in the new process.
    Merging,
    /// An operation of the process's controller to end.
    Operating,
}

/// A session as a mathematical value.
pub struct SessionModel {
    /// The controller of the process, while there is one.
    pub inferior: Option<InferiorModel>,
    /// The addresses at which the user wants breakpoints, in the order in
    /// which they were asked for. They are planted in every process that
    /// the session starts.
    pub pending: Seq<u64>,
    /// The arguments that the target is started with.
    pub arguments: Seq<Seq<char>>,
    pub stage: Stage,
}

impl SessionModel {
    /// The state of the process's controller, if there is one, is in order.
    pub open spec fn wf(self) -> bool {
        self.inferior matches Some(inf) ==> inf.wf()
    }
}

/// The address that the argument of a breakpoint command means: after `*`
/// an address in hexadecimal; a decimal number is a line; anything else is
/// the name of a function.
pub open spec fn place_address(info: &DebugInfo, place: Seq<char>) -> Result<u64, Outcome> {
    if place.len() > 0 && place[0] == '*' {
        match parsed_address(place.skip(1)) {
            Some(addr) => Ok(addr),
            None => Err(Outcome::InvalidAddress),
        }
    } else {
        match parsed(place, 10) {
            Some(number) => match info.line_address(None, number) {
                Some(addr) => Ok(addr),
                None => Err(Outcome::InvalidLine),
            },
            None => match info.function_address(place) {
                Some(addr) => Ok(addr),
                None => Err(Outcome::UnknownPlace),
            },
        }
    }
}

/// `pending` with `addr` at its end, unless it is there already.
pub open spec fn remembered(pending: Seq<u64>, addr: u64) -> Seq<u64> {
    if pending.contains(addr) {
        pending
    } else {
        pending.push(addr)
    }
}

/// With this outcome the process is gone or cannot be controlled any more.
pub open spec fn lost(outcome: Outcome) -> bool {
    match outcome {
        Outcome::Status(Status::Exited(_)) => true,
        Outcome::Status(Status::Signaled(_)) => true,
        Outcome::ControlFailure => true,
        _ => false,
    }
}

/// Takes note of what the controller of the process asks for. When its
/// operation is over, the session is idle again; it lets go of a process
/// that is lost, and it remembers a breakpoint that was set for the runs to
/// come.
pub open spec fn settle(s: SessionModel, inf: InferiorModel, request: Request) -> (
    SessionModel,
    Request,
) {
    match request {
        Request::Finished(outcome) => (
            SessionModel {
                inferior: if lost(outcome) {
                    None
                } else {
                    Some(inf)
                },
                pending: match outcome {
                    Outcome::BreakpointSet { addr, .. } => remembered(s.pending, addr),
                    _ => s.pending,
                },
                stage: Stage::Idle,
                ..s
            },
            request,
        ),
        _ => (SessionModel { inferior: Some(inf), stage: Stage::Operating, ..s }, request),
    }
}

/// While pending breakpoints are planted the session waits; when all are
/// planted the process is let go.
pub open spec fn merged(s: SessionModel, inf: InferiorModel, request: Request) -> (
    SessionModel,
    Request,
) {
    if request is Finished {
        let begun = begin_continue(inf);
        settle(s, begun.0, begun.1)
    } else {
        (SessionModel { inferior: Some(inf), stage: Stage::Merging, ..s }, request)
    }
}

/// The texts of `words`.
pub open spec fn texts(words: Seq<String>) -> Seq<Seq<char>> {
    Seq::new(words.len(), |i: int| words[i]@)
}

/// What a command leads to.
pub open spec fn dispatch(s: SessionModel, info: &DebugInfo, command: &DebuggerCommand) -> (
    SessionModel,
    Request,
) {
    if !(s.stage is Idle) {
        (s, Request::Finished(Outcome::Busy))
    } else {
        match *command {
            DebuggerCommand::Quit => match s.inferior {
                Some(inf) => (
                    SessionModel { stage: Stage::Killing { respawn: false }, ..s },
                    Request::Kill { pid: inf.pid },
                ),
                None => (s, Request::Finished(Outcome::Quit)),
            },
            DebuggerCommand::Run(args) => match s.inferior {
                Some(inf) => (
                    SessionModel {
                        arguments: texts(args@),
                        stage: Stage::Killing { respawn: true },
                        ..s
                    },
                    Request::Kill { pid: inf.pid },
                ),
                None => (
                    SessionModel { arguments: texts(args@), stage: Stage::Spawning, ..s },
                    Request::Spawn,
                ),
            },
            DebuggerCommand::Breakpoint(place) => match place_address(info, place@) {
                Err(outcome) => (s, Request::Finished(outcome)),
                Ok(addr) => match s.inferior {
                    Some(inf) => {
                        let begun = begin_insert(inf, addr);
                        settle(s, begun.0, begun.1)
                    },
                    None => (
                        SessionModel { pending: remembered(s.pending, addr), ..s },
                        Request::Finished(
                            if s.pending.contains(addr) {
                                Outcome::BreakpointKept { addr }
                            } else {
                                Outcome::BreakpointSet { index: s.pending.len() as usize, addr }
                            },
                        ),
                    ),
                },
            },
            _ => match s.inferior {
                None => (s, Request::Finished(Outcome::NoInferior)),
                Some(inf) => {
                    let begun = match *command {
                        DebuggerCommand::Backtrace => begin_backtrace(inf, info),
                        DebuggerCommand::Step => begin_step_in(inf, info),
                        DebuggerCommand::Next => begin_step_over(inf, info),
                        DebuggerCommand::Finish => begin_step_out(inf),
                        DebuggerCommand::Print(name) => begin_print(inf, info, name@),
                        _ => begin_continue(inf),
                    };
                    settle(s, begun.0, begun.1)
                },
            },
        }
    }
}

/// What a reply leads to.
pub open spec fn proceed(s: SessionModel, info: &DebugInfo, reply: Reply) -> (
    SessionModel,
    Request,
) {
    match s.stage {
        Stage::Idle => (s, Request::Finished(Outcome::NothingPending)),
        Stage::Killing { respawn } => {
            if respawn {
                (SessionModel { inferior: None, stage: Stage::Spawning, ..s }, Request::Spawn)
            } else {
                (
                    SessionModel { inferior: None, stage: Stage::Idle, ..s },
                    Request::Finished(Outcome::Quit),
                )
            }
        },
        Stage::Spawning => match reply {
            Reply::Spawned { pid, regs } => {
                let begun = begin_merge(fresh(pid, regs, s.pending));
                merged(s, begun.0, begun.1)
            },
            _ => (
                SessionModel { inferior: None, stage: Stage::Idle, ..s },
                Request::Finished(Outcome::SpawnFailed),
            ),
        },
        Stage::Merging => match s.inferior {
            Some(inf) => {
                let next = advance(inf, info, reply);
                merged(s, next.0, next.1)
            },
            None => (SessionModel { stage: Stage::Idle, ..s }, Request::Finished(Outcome::NoInferior)),
        },
        Stage::Operating => match s.inferior {
            Some(inf) => {
                let next = advance(inf, info, reply);
                settle(s, next.0, next.1)
            },
            None => (SessionModel { stage: Stage::Idle, ..s }, Request::Finished(Outcome::NoInferior)),
        },
    }
}

/// A debugging session.
pub struct Debugger {
    target: String,
    debug_data: DebugInfo,
    inferior: Option<Inferior>,
    breakpoints: Vec<u64>,
    arguments: Vec<String>,
    stage: Stage,
}

impl View for Debugger {
    type V = SessionModel;

    closed spec fn view(&self) -> SessionModel {
        SessionModel {
            inferior: match self.inferior {
                Some(inf) => Some(inf@),
                None => None,
            },
            pending: self.breakpoints@,
            arguments: texts(self.arguments@),
            stage: self.stage,
        }
    }
}

impl Debugger {
    /// The controller of the process, if there is one, is in order.
    pub closed spec fn sound(&self) -> bool {
        self.inferior matches Some(inf) ==> inf.wf()
    }

    /// The session is in order.
    pub open spec fn wf(&self) -> bool {
        self@.wf() && self.sound()
    }

    /// The debug information of the target.
    pub closed spec fn info(&self) -> &DebugInfo {
        &self.debug_data
    }

    /// The path of the target.
    pub closed spec fn path(&self) -> Seq<char> {
        self.target@
    }

    /// A session for the target at `target` with its debug information. No
    /// process runs and no breakpoint is set.
    pub fn new(target: &str, debug_data: DebugInfo) -> (session: Debugger)
        ensures
            session.wf(),
            session@ == (SessionModel {
                inferior: None,
                pending: Seq::empty(),
                arguments: Seq::empty(),
                stage: Stage::Idle,
            }),
            *session.info() == debug_data,
            session.path() == target@,
    {
        let session = Debugger {
            target: target.to_owned(),
            debug_data,
            inferior: None,
            breakpoints: Vec::new(),
            arguments: Vec::new(),
            stage: Stage::Idle,
        };
        proof {
            assert(texts(session.arguments@) =~= Seq::empty());
        }
        session
    }

    /// The path of the target.
    pub fn target(&self) -> (path: &String)
        ensures
            path@ == self.path(),
    {
        &self.target
    }

    /// The debug information of the target.
    pub fn debug_data(&self) -> (info: &DebugInfo)
        ensures
            info == self.info(),
    {
        &self.debug_data
    }

    /// The controller of the process, while there is one.
    pub fn inferior(&self) -> (inferior: Option<&Inferior>)
        ensures
            match inferior {
                Some(inf) => self@.inferior == Some(inf@),
                None => self@.inferior is None,
            },
    {
        self.inferior.as_ref()
    }

    /// The arguments that the target is started with: those of the last
    /// command to run it.
    pub fn arguments(&self) -> (args: &Vec<String>)
        ensures
            texts(args@) == self@.arguments,
    {
        &self.arguments
    }

    /// The addresses at which the user wants breakpoints.
    pub fn breakpoints(&self) -> (pending: &Vec<u64>)
        ensures
            pending@ == self@.pending,
    {
        &self.breakpoints
    }

    /// Reads the argument of a breakpoint command.
    pub fn parse_place(&self, place: &str) -> (addr: Result<u64, Outcome>)
        ensures
            addr == place_address(self.info(), place@),
    {
        let len: usize = place.unicode_len();
        if len > 0 && place.get_char(0) == '*' {
            match parse_address(place.substring_char(1, len)) {
                Some(addr) => Ok(addr),
                None => Err(Outcome::InvalidAddress),
            }
        } else {
            match parse_decimal(place) {
                Some(number) => match self.debug_data.get_addr_for_line(None, number) {
                    Some(addr) => Ok(addr),
                    None => Err(Outcome::InvalidLine),
                },
                None => match self.debug_data.get_addr_for_function(place) {
                    Some(addr) => Ok(addr),
                    None => Err(Outcome::UnknownPlace),
                },
            }
        }
    }

    /// Takes note of the arguments for the target.
    fn keep(&mut self, args: &Vec<String>)
        ensures
            *final(self) == (Debugger { arguments: final(self).arguments, ..*old(self) }),
            texts(final(self).arguments@) == texts(args@),
    {
        let mut copy: Vec<String> = Vec::new();
        let mut i: usize = 0;
        while i < args.len()
            invariant
                i <= args@.len(),
                copy@.len() == i,
                forall|k: int| 0 <= k < i ==> #[trigger] copy@[k] == args@[k],
            decreases args@.len() - i,
        {
            copy.push(args[i].clone());
            i += 1;
        }
        proof {
            assert(texts(copy@) =~= texts(args@));
        }
        self.arguments = copy;
    }

    fn remember(&mut self, addr: u64) -> (known: bool)
        ensures
            known == old(self)@.pending.contains(addr),
            *final(self) == (Debugger {
                breakpoints: final(self).breakpoints,
                ..*old(self)
            }),
            final(self)@.pending == remembered(old(self)@.pending, addr),
    {
        let mut i: usize = 0;
        while i < self.breakpoints.len()
            invariant
                i <= self.breakpoints@.len(),
                forall|k: int| 0 <= k < i ==> self.breakpoints@[k] != addr,
            decreases self.breakpoints@.len() - i,
        {
            if self.breakpoints[i] == addr {
                return true;
            }
            i += 1;
        }
        self.breakpoints.push(addr);
        false
    }

    /// Takes note of what the controller of the process asks for and of how
    /// its operation ended.
    fn check_status(&mut self, inferior: Inferior, request: Request) -> (out: Request)
        requires
            inferior.wf(),
        ensures
            final(self).wf(),
            (final(self)@, out) == settle(old(self)@, inferior@, request),
            final(self).info() == old(self).info(),
            final(self).path() == old(self).path(),
    {
        match request {
            Request::Finished(outcome) => {
                let gone: bool = match outcome {
                    Outcome::Status(Status::Exited(_)) => true,
                    Outcome::Status(Status::Signaled(_)) => true,
                    Outcome::ControlFailure => true,
                    _ => false,
                };
                match outcome {
                    Outcome::BreakpointSet { addr, .. } => {
                        self.remember(addr);
                    },
                    _ => {},
                }
                self.inferior = if gone {
                    None
                } else {
                    Some(inferior)
                };
                self.stage = Stage::Idle;
            },
            _ => {
                self.inferior = Some(inferior);
                self.stage = Stage::Operating;
            },
        }
        request
    }

    fn check_merge(&mut self, inferior: Inferior, request: Request) -> (out: Request)
        requires
            inferior.wf(),
        ensures
            final(self).wf(),
            (final(self)@, out) == merged(old(self)@, inferior@, request),
            final(self).info() == old(self).info(),
            final(self).path() == old(self).path(),
    {
        let mut inferior = inferior;
        match request {
            Request::Finished(_) => {
                let next = inferior.continue_run();
                self.check_status(inferior, next)
            },
            _ => {
                self.inferior = Some(inferior);
                self.stage = Stage::Merging;
                request
            },
        }
    }

    /// Carries out a command as far as it can be without the process, and
    /// says what is to be done next.
    pub fn run(&mut self, command: &DebuggerCommand) -> (request: Request)
        requires
            old(self).wf(),
        ensures
            final(self).wf(),
            (final(self)@, request) == dispatch(old(self)@, old(self).info(), command),
            final(self).info() == old(self).info(),
            final(self).path() == old(self).path(),
    {
        match self.stage {
            Stage::Idle => {},
            _ => {
                return Request::Finished(Outcome::Busy);
            },
        }
        match command {
            DebuggerCommand::Quit => match &self.inferior {
                Some(inf) => {
                    let pid: i32 = inf.pid();
                    self.stage = Stage::Killing { respawn: false };
                    Request::Kill { pid }
                },
                None => Request::Finished(Outcome::Quit),
            },
            DebuggerCommand::Run(args) => {
                self.keep(args);
                match &self.inferior {
                    Some(inf) => {
                        let pid: i32 = inf.pid();
                        self.stage = Stage::Killing { respawn: true };
                        Request::Kill { pid }
                    },
                    None => {
                        self.stage = Stage::Spawning;
                        Request::Spawn
                    },
                }
            },
            DebuggerCommand::Breakpoint(place) => match self.parse_place(place.as_str()) {
                Err(outcome) => Request::Finished(outcome),
                Ok(addr) => match self.inferior.take() {
                    Some(inferior) => {
                        let mut inferior = inferior;
                        let next = inferior.set_breakpoint(addr);
                        self.check_status(inferior, next)
                    },
                    None => {
                        let index: usize = self.breakpoints.len();
                        if self.remember(addr) {
                            Request::Finished(Outcome::BreakpointKept { addr })
                        } else {
                            Request::Finished(Outcome::BreakpointSet { index, addr })
                        }
                    },
                },
            },
            _ => match self.inferior.take() {
                None => Request::Finished(Outcome::NoInferior),
                Some(inferior) => {
                    let mut inferior = inferior;
                    let next = match command {
                        DebuggerCommand::Backtrace => inferior.print_backtrace(&self.debug_data),
                        DebuggerCommand::Step => inferior.step_in(&self.debug_data),
                        DebuggerCommand::Next => inferior.step_over(&self.debug_data),
                        DebuggerCommand::Finish => inferior.step_out(),
                        DebuggerCommand::Print(name) => inferior.print_variable(
                            &self.debug_data,
                            name.as_str(),
                        ),
                        _ => inferior.continue_run(),
                    };
                    self.check_status(inferior, next)
                },
            },
        }
    }

    /// Takes the reply to the request that is out and says what is to be
    /// done next.
    pub fn deliver(&mut self, reply: Reply) -> (request: Request)
        requires
            old(self).wf(),
        ensures
            final(self).wf(),
            (final(self)@, request) == proceed(old(self)@, old(self).info(), reply),
            final(self).info() == old(self).info(),
            final(self).path() == old(self).path(),
    {
        match self.stage {
            Stage::Idle => Request::Finished(Outcome::NothingPending),
            Stage::Killing { respawn } => {
                self.inferior = None;
                if respawn {
                    self.stage = Stage::Spawning;
                    Request::Spawn
                } else {
                    self.stage = Stage::Idle;
                    Request::Finished(Outcome::Quit)
                }
            },
            Stage::Spawning => match reply {
                Reply::Spawned { pid, regs } => {
                    let (inferior, next) = Inferior::new(pid, regs, &self.breakpoints);
                    self.check_merge(inferior, next)
                },
                _ => {
                    self.inferior = None;
                    self.stage = Stage::Idle;
                    Request::Finished(Outcome::SpawnFailed)
                },
            },
            Stage::Merging => match self.inferior.take() {
                Some(inferior) => {
                    let mut inferior = inferior;
                    let next = inferior.deliver(&self.debug_data, reply);
                    self.check_merge(inferior, next)
                },
                None => {
                    self.stage = Stage::Idle;
                    Request::Finished(Outcome::NoInferior)
                },
            },
            Stage::Operating => match self.inferior.take() {
                Some(inferior) => {
                    let mut inferior = inferior;
                    let next = inferior.deliver(&self.debug_data, reply);
                    self.check_status(inferior, next)
                },
                None => {
                    self.stage = Stage::Idle;
                    Request::Finished(Outcome::NoInferior)
                },
            },
        }
    }
}

} // verus!
