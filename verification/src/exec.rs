//! The executor: runs an assembled pipeline as a state machine. The machine
//! makes every decision — run-condition gating, stdin resolution, script
//! runtime dispatch, ANSI settling of captured output, and sink selection —
//! and hands the surrounding code an action to perform (read a file, run a
//! built-in, spawn a process, write a sink). The surrounding code reports
//! what happened as the next event.

use vstd::prelude::*;
use vstd::utf8::valid_utf8;

use crate::binfind::get_script_runtime;
use crate::commands::CommandResult;
use crate::outside::ansi_stripped;
use crate::outside::bytes_are_utf8;
use crate::outside::strip_escapes;
use crate::pipeline::cmd_models;
use crate::pipeline::strs;
use crate::pipeline::Command;
use crate::pipeline::CommandModel;
use crate::pipeline::InModel;
use crate::pipeline::InputModifier;
use crate::pipeline::OutModel;
use crate::pipeline::OutputModifier;
use crate::pipeline::RunCondition;
use crate::strutil::chars_of;
use crate::strutil::clone_bytes;
use crate::strutil::clone_strs;
use crate::strutil::concat_str;
use crate::strutil::string_from_chars;

verus! {

/// The ESC byte occurs in the buffer.
pub open spec fn has_esc(b: Seq<u8>) -> bool {
    exists|i: int| 0 <= i < b.len() && b[i] == 0x1b
}

/// What a captured buffer becomes before it reaches a pipe or a file:
/// stripped of ANSI escapes when it is UTF-8 text holding an ESC byte,
/// untouched otherwise.
pub open spec fn spec_settle(b: Seq<u8>) -> Seq<u8> {
    if valid_utf8(b) && has_esc(b) {
        ansi_stripped(b)
    } else {
        b
    }
}

fn contains_esc(b: &Vec<u8>) -> (r: bool)
    ensures
        r == has_esc(b@),
{
    let mut i: usize = 0;
    while i < b.len()
        invariant
            i <= b@.len(),
            forall|j: int| 0 <= j < i ==> b@[j] != 0x1b,
        decreases b@.len() - i,
    {
        if b[i] == 0x1b {
            return true;
        }
        i += 1;
    }
    false
}

/// Settle a captured buffer for handing off to a pipe or a file.
pub fn pipe_settle(b: Vec<u8>) -> (r: Vec<u8>)
    ensures
        r@ == spec_settle(b@),
{
    let is_utf8 = bytes_are_utf8(&b);
    if is_utf8 && contains_esc(&b) {
        strip_escapes(&b)
    } else {
        b
    }
}

/// Whether a command runs, given its run condition and the previous
/// command's outcome. `None` means no prior result and never skips.
pub open spec fn spec_should_run(cond: RunCondition, last: Option<bool>) -> bool {
    match cond {
        RunCondition::Any => true,
        RunCondition::Success => last != Some(false),
        RunCondition::Fail => last != Some(true),
    }
}

/// Decide whether a command runs.
pub fn should_run(cond: RunCondition, last: Option<bool>) -> (r: bool)
    ensures
        r == spec_should_run(cond, last),
{
    match cond {
        RunCondition::Any => true,
        RunCondition::Success => last != Some(false),
        RunCondition::Fail => last != Some(true),
    }
}

/// The index of the last `.` of a keyword, if any.
pub open spec fn last_dot(k: Seq<char>) -> Option<int>
    decreases k.len(),
{
    if k.len() == 0 {
        None
    } else if k[k.len() - 1] == '.' {
        Some(k.len() - 1)
    } else {
        last_dot(k.take(k.len() - 1))
    }
}

/// The runtime for a script file extension.
pub open spec fn spec_script_runtime(ext: Seq<char>) -> Option<Seq<char>> {
    if ext == "py"@ {
        Some("python3"@)
    } else if ext == "js"@ {
        Some("node"@)
    } else if ext == "vbs"@ {
        Some("wscript"@)
    } else {
        None
    }
}

/// The program and arguments actually spawned for a keyword: when the
/// keyword has an extension mapped to a script runtime, the runtime runs
/// the keyword; otherwise the keyword itself runs.
pub open spec fn spec_invocation(k: Seq<char>, args: Seq<Seq<char>>) -> (Seq<char>, Seq<
    Seq<char>,
>) {
    match last_dot(k) {
        Some(i) => {
            match spec_script_runtime(k.skip(i + 1)) {
                Some(rt) => (rt, seq![k] + args),
                None => (k, args),
            }
        },
        None => (k, args),
    }
}

/// Find the last `.` of a string.
pub fn find_last_dot(k: &str) -> (r: Option<usize>)
    ensures
        r matches Some(i) ==> (last_dot(k@) == Some(i as int) && i < k@.len()),
        r is None ==> last_dot(k@) is None,
{
    let chars = chars_of(k);
    let mut i: usize = chars.len();
    proof {
        assert(k@.take(k@.len() as int) =~= k@);
    }
    while i > 0
        invariant
            i <= k@.len(),
            chars@ == k@,
            last_dot(k@.take(i as int)) == last_dot(k@),
        decreases i,
    {
        i -= 1;
        proof {
            assert(k@.take(i + 1).len() == i + 1);
            assert(k@.take(i + 1)[i as int] == k@[i as int]);
            assert(k@.take(i + 1).take(i as int) =~= k@.take(i as int));
        }
        if chars[i] == '.' {
            return Some(i);
        }
    }
    proof {
        assert(k@.take(0) =~= Seq::<char>::empty());
    }
    None
}

/// Compute the effective program and argument list for an external command.
pub fn effective_invocation(keyword: &String, args: &Vec<String>) -> (r: (String, Vec<String>))
    ensures
        r.0@ == spec_invocation(keyword@, strs(args@)).0,
        strs(r.1@) == spec_invocation(keyword@, strs(args@)).1,
{
    let kc = chars_of(keyword.as_str());
    match find_last_dot(keyword.as_str()) {
        Some(i) => {
            let n = kc.len();
            assert(i < n);
            let mut ext_chars: Vec<char> = Vec::new();
            let mut j: usize = i + 1;
            proof {
                assert(ext_chars@ =~= keyword@.subrange(i + 1, j as int));
            }
            while j < kc.len()
                invariant
                    i + 1 <= j <= kc@.len(),
                    kc@ == keyword@,
                    ext_chars@ == keyword@.subrange(i + 1, j as int),
                decreases kc@.len() - j,
            {
                ext_chars.push(kc[j]);
                proof {
                    assert(ext_chars@ =~= keyword@.subrange(i + 1, j + 1 as int));
                }
                j += 1;
            }
            proof {
                assert(ext_chars@ =~= keyword@.skip(i + 1 as int));
            }
            let ext = string_from_chars(&ext_chars);
            match get_script_runtime(ext.as_str()) {
                Some(rt) => {
                    let mut new_args = clone_strs_exact(args);
                    new_args.insert(0, keyword.clone());
                    proof {
                        assert(strs(new_args@) =~= seq![keyword@] + strs(args@));
                    }
                    let mut rts = String::new();
                    rts.append(rt);
                    (rts, new_args)
                },
                None => (keyword.clone(), clone_strs_exact(args)),
            }
        },
        None => (keyword.clone(), clone_strs_exact(args)),
    }
}

fn clone_strs_exact(v: &Vec<String>) -> (r: Vec<String>)
    ensures
        strs(r@) == strs(v@),
{
    let r = clone_strs(v);
    proof {
        assert(strs(r@) =~= strs(v@));
    }
    r
}

/// The message printed when an external command cannot be spawned.
pub open spec fn not_found_message(kw: Seq<char>) -> Seq<char> {
    "file/command '"@ + kw + "' not found! :("@
}

/// Build the not-found message for a keyword.
pub fn format_not_found(kw: &str) -> (r: String)
    ensures
        r@ == not_found_message(kw@),
{
    let a = concat_str("file/command '", kw);
    let r = concat_str(a.as_str(), "' not found! :(");
    proof {
        assert(r@ =~= not_found_message(kw@));
    }
    r
}

/// Where the executor stands between events.
#[derive(Clone, Copy, Debug, PartialEq, Eq, Structural)]
pub enum Phase {
    /// Ready to begin the command at `idx`.
    Ready,
    /// Waiting for the stdin redirection file to be read.
    AwaitInput,
    /// Waiting for the built-in attempt to finish.
    AwaitBuiltin,
    /// Waiting for the spawned process to finish.
    AwaitProcess,
    /// Waiting for the built-in's output to be written to the terminal.
    AwaitTermWrite,
    /// Waiting for the theme change to be applied.
    AwaitTheme,
    /// The pipeline is over.
    Done,
}

/// An event reported to the executor.
pub enum ExecEvent {
    /// Proceed: the initial event, and the acknowledgement of actions that
    /// carry no data back.
    Next,
    /// The requested file was read.
    FileRead(Vec<u8>),
    /// A plumbing I/O operation failed; the pipeline aborts.
    IoError,
    /// The built-in attempt finished: its result and captured output, or
    /// its error message.
    BuiltinDone(Result<(CommandResult, Vec<u8>), String>),
    /// The external process could not be spawned.
    SpawnFailed,
    /// The external process exited: its success, and its captured stdout
    /// when it was piped.
    ProcessDone(bool, Option<Vec<u8>>),
}

/// The model of an event.
#[verifier::ext_equal]
pub ghost enum EvModel {
    Next,
    FileRead(Seq<u8>),
    IoError,
    BuiltinDone(Result<(CommandResult, Seq<u8>), Seq<char>>),
    SpawnFailed,
    ProcessDone(bool, Option<Seq<u8>>),
}

impl View for ExecEvent {
    type V = EvModel;

    open spec fn view(&self) -> EvModel {
        match self {
            ExecEvent::Next => EvModel::Next,
            ExecEvent::FileRead(b) => EvModel::FileRead(b@),
            ExecEvent::IoError => EvModel::IoError,
            ExecEvent::BuiltinDone(res) => EvModel::BuiltinDone(
                match res {
                    Ok((cr, out)) => Ok((*cr, out@)),
                    Err(m) => Err(m@),
                },
            ),
            ExecEvent::SpawnFailed => EvModel::SpawnFailed,
            ExecEvent::ProcessDone(s, cap) => EvModel::ProcessDone(
                *s,
                match cap {
                    Some(b) => Some(b@),
                    None => None,
                },
            ),
        }
    }
}

/// An action the executor asks for.
pub enum ExecAction {
    /// The pipeline is over (normally or after an abort).
    Finished,
    /// The `exit` built-in ran: the shell should stop.
    ExitShell,
    /// The current command was skipped by its run condition; send `Next`.
    Skipped,
    /// Internal bookkeeping only; send `Next`.
    Advance,
    /// Read this file and reply `FileRead` (or `IoError`).
    ReadFile(String),
    /// Attempt the keyword as a built-in with these arguments and stdin
    /// bytes; reply `BuiltinDone`.
    RunBuiltin(String, Vec<String>, Option<Vec<u8>>),
    /// Write these raw bytes to the terminal (decoded leniently); send
    /// `Next`.
    WriteTerminal(Vec<u8>),
    /// Switch to the theme at this index; send `Next`.
    SetTheme(usize),
    /// Spawn this program with these arguments, writing the bytes to its
    /// stdin when given, capturing stdout when the flag is set; reply
    /// `SpawnFailed` or `ProcessDone`.
    Spawn(String, Vec<String>, Option<Vec<u8>>, bool),
    /// Print this message in the error color; send `Next`.
    PrintError(String),
    /// Write these bytes to this file (append mode per the flag); send
    /// `Next` (or `IoError`).
    WriteFile(String, Vec<u8>, bool),
    /// Flush, and emit a newline unless the cursor is at column 0; send
    /// `Next`.
    EnsureNewline,
}

/// The model of an action.
#[verifier::ext_equal]
pub ghost enum ActModel {
    Finished,
    ExitShell,
    Skipped,
    Advance,
    ReadFile(Seq<char>),
    RunBuiltin(Seq<char>, Seq<Seq<char>>, Option<Seq<u8>>),
    WriteTerminal(Seq<u8>),
    SetTheme(int),
    Spawn(Seq<char>, Seq<Seq<char>>, Option<Seq<u8>>, bool),
    PrintError(Seq<char>),
    WriteFile(Seq<char>, Seq<u8>, bool),
    EnsureNewline,
}

impl View for ExecAction {
    type V = ActModel;

    open spec fn view(&self) -> ActModel {
        match self {
            ExecAction::Finished => ActModel::Finished,
            ExecAction::ExitShell => ActModel::ExitShell,
            ExecAction::Skipped => ActModel::Skipped,
            ExecAction::Advance => ActModel::Advance,
            ExecAction::ReadFile(p) => ActModel::ReadFile(p@),
            ExecAction::RunBuiltin(k, a, s) => ActModel::RunBuiltin(
                k@,
                strs(a@),
                match s {
                    Some(b) => Some(b@),
                    None => None,
                },
            ),
            ExecAction::WriteTerminal(b) => ActModel::WriteTerminal(b@),
            ExecAction::SetTheme(i) => ActModel::SetTheme(*i as int),
            ExecAction::Spawn(k, a, s, p) => ActModel::Spawn(
                k@,
                strs(a@),
                match s {
                    Some(b) => Some(b@),
                    None => None,
                },
                *p,
            ),
            ExecAction::PrintError(m) => ActModel::PrintError(m@),
            ExecAction::WriteFile(p, b, a) => ActModel::WriteFile(p@, b@, *a),
            ExecAction::EnsureNewline => ActModel::EnsureNewline,
        }
    }
}

/// The executor's state between events.
pub struct Executor {
    pub commands: Vec<Command>,
    pub idx: usize,
    pub phase: Phase,
    pub last_piped: Option<Vec<u8>>,
    pub last_success: Option<bool>,
    pub stdin_cur: Option<Vec<u8>>,
    pub pending_out: Option<Vec<u8>>,
}

/// The model of the executor's state.
#[verifier::ext_equal]
pub ghost struct ExecModel {
    pub commands: Seq<CommandModel>,
    pub idx: int,
    pub phase: Phase,
    pub last_piped: Option<Seq<u8>>,
    pub last_success: Option<bool>,
    pub stdin_cur: Option<Seq<u8>>,
    pub pending_out: Option<Seq<u8>>,
}

pub open spec fn opt_bytes(o: Option<Vec<u8>>) -> Option<Seq<u8>> {
    match o {
        Some(b) => Some(b@),
        None => None,
    }
}

impl View for Executor {
    type V = ExecModel;

    open spec fn view(&self) -> ExecModel {
        ExecModel {
            commands: cmd_models(self.commands@),
            idx: self.idx as int,
            phase: self.phase,
            last_piped: opt_bytes(self.last_piped),
            last_success: self.last_success,
            stdin_cur: opt_bytes(self.stdin_cur),
            pending_out: opt_bytes(self.pending_out),
        }
    }
}

impl ExecModel {
    /// In every waiting phase the current index is in range.
    pub open spec fn wf(self) -> bool {
        (self.phase is AwaitInput || self.phase is AwaitBuiltin || self.phase is AwaitProcess
            || self.phase is AwaitTermWrite || self.phase is AwaitTheme) ==> 0 <= self.idx
            < self.commands.len()
    }
}

/// The sink: after a command's output has been captured and settled, stash
/// it for the next stage, write it to a file, or ensure a fresh line.
pub open spec fn spec_sink(st: ExecModel, data: Option<Seq<u8>>) -> (ExecModel, ActModel) {
    let cmd = st.commands[st.idx];
    let st2 = ExecModel {
        stdin_cur: None,
        pending_out: None,
        idx: st.idx + 1,
        phase: Phase::Ready,
        ..st
    };
    match cmd.out {
        OutModel::Piped => (ExecModel { last_piped: data, ..st2 }, ActModel::Advance),
        OutModel::WriteTo { path, append } => {
            match data {
                Some(b) => (
                    ExecModel { last_piped: None, ..st2 },
                    ActModel::WriteFile(path, b, append),
                ),
                None => (ExecModel { last_piped: None, ..st2 }, ActModel::Advance),
            }
        },
        OutModel::Default => (ExecModel { last_piped: None, ..st2 }, ActModel::EnsureNewline),
    }
}

/// The executor's transition function: from a state and an event to the
/// next state and the action to perform.
pub open spec fn spec_step(st: ExecModel, ev: EvModel) -> (ExecModel, ActModel) {
    if ev is IoError {
        (ExecModel { phase: Phase::Done, ..st }, ActModel::Finished)
    } else if st.phase is Done {
        (st, ActModel::Finished)
    } else if st.phase is Ready && ev is Next {
        if st.idx >= st.commands.len() {
            (ExecModel { phase: Phase::Done, ..st }, ActModel::Finished)
        } else {
            let cmd = st.commands[st.idx];
            if !spec_should_run(cmd.cond, st.last_success) {
                (ExecModel { idx: st.idx + 1, ..st }, ActModel::Skipped)
            } else if st.last_piped is Some {
                let b = st.last_piped->0;
                (
                    ExecModel {
                        last_piped: None,
                        stdin_cur: Some(b),
                        phase: Phase::AwaitBuiltin,
                        ..st
                    },
                    ActModel::RunBuiltin(cmd.keyword, cmd.args, Some(b)),
                )
            } else {
                match cmd.inp {
                    InModel::ReadFrom { path } => (
                        ExecModel { phase: Phase::AwaitInput, ..st },
                        ActModel::ReadFile(path),
                    ),
                    InModel::Default => (
                        ExecModel { stdin_cur: None, phase: Phase::AwaitBuiltin, ..st },
                        ActModel::RunBuiltin(cmd.keyword, cmd.args, None),
                    ),
                }
            }
        }
    } else if st.phase is AwaitInput && ev is FileRead {
        let b = ev->FileRead_0;
        let cmd = st.commands[st.idx];
        (
            ExecModel { stdin_cur: Some(b), phase: Phase::AwaitBuiltin, ..st },
            ActModel::RunBuiltin(cmd.keyword, cmd.args, Some(b)),
        )
    } else if st.phase is AwaitBuiltin && ev is BuiltinDone {
        let res = ev->BuiltinDone_0;
        let cmd = st.commands[st.idx];
        match res {
            Err(msg) => (
                ExecModel {
                    last_success: Some(false),
                    stdin_cur: None,
                    idx: st.idx + 1,
                    phase: Phase::Ready,
                    ..st
                },
                ActModel::PrintError(msg),
            ),
            Ok((cr, out)) => {
                match cr {
                    CommandResult::Exit => (
                        ExecModel { phase: Phase::Done, ..st },
                        ActModel::ExitShell,
                    ),
                    CommandResult::UpdateTheme(i) => (
                        ExecModel {
                            last_success: Some(true),
                            pending_out: None,
                            phase: Phase::AwaitTheme,
                            ..st
                        },
                        ActModel::SetTheme(i as int),
                    ),
                    CommandResult::Lovely => {
                        let st1 = ExecModel { last_success: Some(true), ..st };
                        if cmd.out is Default {
                            (
                                ExecModel {
                                    pending_out: Some(spec_settle(out)),
                                    phase: Phase::AwaitTermWrite,
                                    ..st1
                                },
                                ActModel::WriteTerminal(out),
                            )
                        } else {
                            spec_sink(st1, Some(spec_settle(out)))
                        }
                    },
                    CommandResult::NotACommand => {
                        let inv = spec_invocation(cmd.keyword, cmd.args);
                        (
                            ExecModel {
                                last_success: Some(true),
                                phase: Phase::AwaitProcess,
                                ..st
                            },
                            ActModel::Spawn(inv.0, inv.1, st.stdin_cur, !(cmd.out is Default)),
                        )
                    },
                }
            },
        }
    } else if st.phase is AwaitTermWrite && ev is Next {
        spec_sink(st, st.pending_out)
    } else if st.phase is AwaitTheme && ev is Next {
        spec_sink(st, st.pending_out)
    } else if st.phase is AwaitProcess && ev is SpawnFailed {
        let cmd = st.commands[st.idx];
        let inv = spec_invocation(cmd.keyword, cmd.args);
        (
            ExecModel {
                last_success: Some(false),
                stdin_cur: None,
                idx: st.idx + 1,
                phase: Phase::Ready,
                ..st
            },
            ActModel::PrintError(not_found_message(inv.0)),
        )
    } else if st.phase is AwaitProcess && ev is ProcessDone {
        let success = ev->ProcessDone_0;
        let captured = ev->ProcessDone_1;
        let st1 = ExecModel { last_success: Some(success), ..st };
        match captured {
            Some(b) => spec_sink(st1, Some(spec_settle(b))),
            None => spec_sink(st1, None),
        }
    } else {
        // an event out of protocol: stop
        (ExecModel { phase: Phase::Done, ..st }, ActModel::Finished)
    }
}

impl Executor {
    /// A fresh executor over an assembled pipeline.
    pub fn new(commands: Vec<Command>) -> (r: Executor)
        ensures
            r@ == (ExecModel {
                commands: cmd_models(commands@),
                idx: 0,
                phase: Phase::Ready,
                last_piped: None,
                last_success: None,
                stdin_cur: None,
                pending_out: None,
            }),
            r@.wf(),
    {
        Executor {
            commands: commands,
            idx: 0,
            phase: Phase::Ready,
            last_piped: None,
            last_success: None,
            stdin_cur: None,
            pending_out: None,
        }
    }

    fn read_cmd(&self, i: usize) -> (r: (String, Vec<String>))
        requires
            i < self@.commands.len(),
        ensures
            r.0@ == self@.commands[i as int].keyword,
            strs(r.1@) == self@.commands[i as int].args,
    {
        let kw = self.commands[i].keyword.clone();
        let args = clone_strs(&self.commands[i].args);
        proof {
            assert(strs(args@) =~= strs(self.commands@[i as int].args@));
        }
        (kw, args)
    }

    fn exec_sink(&mut self, data: Option<Vec<u8>>) -> (r: ExecAction)
        requires
            old(self)@.idx < old(self)@.commands.len(),
        ensures
            final(self)@ == spec_sink(old(self)@, opt_bytes(data)).0,
            r@ == spec_sink(old(self)@, opt_bytes(data)).1,
    {
        self.stdin_cur = None;
        self.pending_out = None;
        let out_kind: u8;
        let mut path: String = String::new();
        let mut append: bool = false;
        match &self.commands[self.idx].output_modifier {
            OutputModifier::Piped => {
                out_kind = 1;
            },
            OutputModifier::WriteTo(p, a) => {
                out_kind = 2;
                path = p.clone();
                append = *a;
            },
            OutputModifier::Default => {
                out_kind = 0;
            },
        }
        assert(self.idx < self.commands.len());
        self.idx = self.idx + 1;
        self.phase = Phase::Ready;
        if out_kind == 1 {
            self.last_piped = data;
            let act = ExecAction::Advance;
            proof {
                assert(self@ =~~= spec_sink(old(self)@, opt_bytes(data)).0);
                assert(act@ =~~= spec_sink(old(self)@, opt_bytes(data)).1);
            }
            act
        } else if out_kind == 2 {
            self.last_piped = None;
            match data {
                Some(b) => {
                    let act = ExecAction::WriteFile(path, b, append);
                    proof {
                        assert(self@ =~~= spec_sink(old(self)@, opt_bytes(data)).0);
                        assert(act@ =~~= spec_sink(old(self)@, opt_bytes(data)).1);
                    }
                    act
                },
                None => {
                    let act = ExecAction::Advance;
                    proof {
                        assert(self@ =~~= spec_sink(old(self)@, opt_bytes(data)).0);
                        assert(act@ =~~= spec_sink(old(self)@, opt_bytes(data)).1);
                    }
                    act
                },
            }
        } else {
            self.last_piped = None;
            let act = ExecAction::EnsureNewline;
            proof {
                assert(self@ =~~= spec_sink(old(self)@, opt_bytes(data)).0);
                assert(act@ =~~= spec_sink(old(self)@, opt_bytes(data)).1);
            }
            act
        }
    }

    /// Feed the executor one event; it returns the next action.
    pub fn step(&mut self, ev: ExecEvent) -> (r: ExecAction)
        requires
            old(self)@.wf(),
        ensures
            final(self)@ == spec_step(old(self)@, ev@).0,
            r@ == spec_step(old(self)@, ev@).1,
            final(self)@.wf(),
    {
        match ev {
            ExecEvent::IoError => {
                self.phase = Phase::Done;
                let act = ExecAction::Finished;
                proof {
                    assert(self@ =~~= spec_step(old(self)@, ExecEvent::IoError@).0);
                }
                act
            },
            ExecEvent::Next => {
                if self.phase == Phase::Done {
                    let act = ExecAction::Finished;
                    proof {
                        assert(self@ =~~= spec_step(old(self)@, ev@).0);
                    }
                    act
                } else if self.phase == Phase::Ready {
                    if self.idx >= self.commands.len() {
                        self.phase = Phase::Done;
                        let act = ExecAction::Finished;
                        proof {
                            assert(self@ =~~= spec_step(old(self)@, ev@).0);
                        }
                        act
                    } else {
                        let cond = self.commands[self.idx].run_condition;
                        if !should_run(cond, self.last_success) {
                            assert(self.idx < self.commands.len());
                            self.idx = self.idx + 1;
                            let act = ExecAction::Skipped;
                            proof {
                                assert(self@ =~~= spec_step(old(self)@, ev@).0);
                            }
                            act
                        } else {
                            let (kw, args) = self.read_cmd(self.idx);
                            let piped = match &self.last_piped {
                                Some(b) => Some(clone_bytes(b)),
                                None => None,
                            };
                            match piped {
                                Some(b) => {
                                    self.last_piped = None;
                                    self.stdin_cur = Some(clone_bytes(&b));
                                    self.phase = Phase::AwaitBuiltin;
                                    let act = ExecAction::RunBuiltin(kw, args, Some(b));
                                    proof {
                                        assert(self@ =~~= spec_step(old(self)@, ev@).0);
                                        assert(act@ =~~= spec_step(old(self)@, ev@).1);
                                    }
                                    act
                                },
                                None => {
                                    let inp_path: Option<String> = match &self.commands[
                                        self.idx
                                    ].input_modifier {
                                        InputModifier::ReadFrom(p) => Some(p.clone()),
                                        InputModifier::Default => None,
                                    };
                                    match inp_path {
                                        Some(p) => {
                                            self.phase = Phase::AwaitInput;
                                            let act = ExecAction::ReadFile(p);
                                            proof {
                                                assert(self@ =~~= spec_step(old(self)@, ev@).0);
                                                assert(act@ =~~= spec_step(old(self)@, ev@).1);
                                            }
                                            act
                                        },
                                        None => {
                                            self.stdin_cur = None;
                                            self.phase = Phase::AwaitBuiltin;
                                            let act = ExecAction::RunBuiltin(kw, args, None);
                                            proof {
                                                assert(self@ =~~= spec_step(old(self)@, ev@).0);
                                                assert(act@ =~~= spec_step(old(self)@, ev@).1);
                                            }
                                            act
                                        },
                                    }
                                },
                            }
                        }
                    }
                } else if self.phase == Phase::AwaitTermWrite {
                    let data = match &self.pending_out {
                        Some(b) => Some(clone_bytes(b)),
                        None => None,
                    };
                    self.exec_sink(data)
                } else if self.phase == Phase::AwaitTheme {
                    let data = match &self.pending_out {
                        Some(b) => Some(clone_bytes(b)),
                        None => None,
                    };
                    self.exec_sink(data)
                } else {
                    self.phase = Phase::Done;
                    let act = ExecAction::Finished;
                    proof {
                        assert(self@ =~~= spec_step(old(self)@, ev@).0);
                    }
                    act
                }
            },
            ExecEvent::FileRead(b) => {
                if self.phase == Phase::AwaitInput {
                    let (kw, args) = self.read_cmd(self.idx);
                    self.stdin_cur = Some(clone_bytes(&b));
                    self.phase = Phase::AwaitBuiltin;
                    let act = ExecAction::RunBuiltin(kw, args, Some(b));
                    proof {
                        assert(self@ =~~= spec_step(old(self)@, ev@).0);
                        assert(act@ =~~= spec_step(old(self)@, ev@).1);
                    }
                    act
                } else {
                    self.phase = Phase::Done;
                    let act = ExecAction::Finished;
                    proof {
                        assert(self@ =~~= spec_step(old(self)@, ev@).0);
                    }
                    act
                }
            },
            ExecEvent::BuiltinDone(res) => {
                if self.phase == Phase::AwaitBuiltin {
                    match res {
                        Err(msg) => {
                            self.last_success = Some(false);
                            self.stdin_cur = None;
                            assert(self.idx < self.commands.len());
                            self.idx = self.idx + 1;
                            self.phase = Phase::Ready;
                            let act = ExecAction::PrintError(msg);
                            proof {
                                assert(self@ =~~= spec_step(old(self)@, ev@).0);
                                assert(act@ =~~= spec_step(old(self)@, ev@).1);
                            }
                            act
                        },
                        Ok((cr, out)) => {
                            match cr {
                                CommandResult::Exit => {
                                    self.phase = Phase::Done;
                                    let act = ExecAction::ExitShell;
                                    proof {
                                        assert(self@ =~~= spec_step(old(self)@, ev@).0);
                                    }
                                    act
                                },
                                CommandResult::UpdateTheme(i) => {
                                    self.last_success = Some(true);
                                    self.pending_out = None;
                                    self.phase = Phase::AwaitTheme;
                                    let act = ExecAction::SetTheme(i);
                                    proof {
                                        assert(self@ =~~= spec_step(old(self)@, ev@).0);
                                        assert(act@ =~~= spec_step(old(self)@, ev@).1);
                                    }
                                    act
                                },
                                CommandResult::Lovely => {
                                    self.last_success = Some(true);
                                    let is_default = match &self.commands[
                                        self.idx
                                    ].output_modifier {
                                        OutputModifier::Default => true,
                                        _ => false,
                                    };
                                    if is_default {
                                        let settled = pipe_settle(clone_bytes(&out));
                                        self.pending_out = Some(settled);
                                        self.phase = Phase::AwaitTermWrite;
                                        let act = ExecAction::WriteTerminal(out);
                                        proof {
                                            assert(self@ =~~= spec_step(old(self)@, ev@).0);
                                            assert(act@ =~~= spec_step(old(self)@, ev@).1);
                                        }
                                        act
                                    } else {
                                        let settled = pipe_settle(out);
                                        self.exec_sink(Some(settled))
                                    }
                                },
                                CommandResult::NotACommand => {
                                    let (kw, args) = self.read_cmd(self.idx);
                                    let (prog, pargs) = effective_invocation(&kw, &args);
                                    let stdin = match &self.stdin_cur {
                                        Some(b) => Some(clone_bytes(b)),
                                        None => None,
                                    };
                                    let pipe_stdout = match &self.commands[
                                        self.idx
                                    ].output_modifier {
                                        OutputModifier::Default => false,
                                        _ => true,
                                    };
                                    self.last_success = Some(true);
                                    self.phase = Phase::AwaitProcess;
                                    let act = ExecAction::Spawn(prog, pargs, stdin, pipe_stdout);
                                    proof {
                                        assert(self@ =~~= spec_step(old(self)@, ev@).0);
                                        assert(act@ =~~= spec_step(old(self)@, ev@).1);
                                    }
                                    act
                                },
                            }
                        },
                    }
                } else {
                    self.phase = Phase::Done;
                    let act = ExecAction::Finished;
                    proof {
                        assert(self@ =~~= spec_step(old(self)@, ev@).0);
                    }
                    act
                }
            },
            ExecEvent::SpawnFailed => {
                if self.phase == Phase::AwaitProcess {
                    let (kw, args) = self.read_cmd(self.idx);
                    let (prog, _pargs) = effective_invocation(&kw, &args);
                    self.last_success = Some(false);
                    self.stdin_cur = None;
                    assert(self.idx < self.commands.len());
                    self.idx = self.idx + 1;
                    self.phase = Phase::Ready;
                    let act = ExecAction::PrintError(format_not_found(prog.as_str()));
                    proof {
                        assert(self@ =~~= spec_step(old(self)@, ev@).0);
                        assert(act@ =~~= spec_step(old(self)@, ev@).1);
                    }
                    act
                } else {
                    self.phase = Phase::Done;
                    let act = ExecAction::Finished;
                    proof {
                        assert(self@ =~~= spec_step(old(self)@, ev@).0);
                    }
                    act
                }
            },
            ExecEvent::ProcessDone(success, captured) => {
                if self.phase == Phase::AwaitProcess {
                    self.last_success = Some(success);
                    match captured {
                        Some(b) => {
                            let settled = pipe_settle(b);
                            self.exec_sink(Some(settled))
                        },
                        None => self.exec_sink(None),
                    }
                } else {
                    self.phase = Phase::Done;
                    let act = ExecAction::Finished;
                    proof {
                        assert(self@ =~~= spec_step(old(self)@, ev@).0);
                    }
                    act
                }
            },
        }
    }
}

/// RunCondition filter: a command whose run condition is Success begins
/// exactly when the previous outcome was not a failure; Fail is the dual;
/// Any always begins. A skipped command changes nothing but the index.
pub proof fn lemma_run_condition_filter(st: ExecModel)
    requires
        st.phase is Ready,
        0 <= st.idx < st.commands.len(),
    ensures
        ({
            let (st2, a) = spec_step(st, EvModel::Next);
            &&& ((a is Skipped) <==> !spec_should_run(st.commands[st.idx].cond, st.last_success))
            &&& (st.commands[st.idx].cond is Any ==> !(a is Skipped))
            &&& (st.commands[st.idx].cond is Success ==> ((a is Skipped) <==> st.last_success
                == Some(false)))
            &&& (st.commands[st.idx].cond is Fail ==> ((a is Skipped) <==> st.last_success
                == Some(true)))
            &&& (a is Skipped ==> st2 == (ExecModel { idx: st.idx + 1, ..st }))
        }),
{
}

/// Pipeline isolation, external stage: when stage N's output is piped, the
/// settled bytes of its captured stdout are stashed, and stage N+1 receives
/// exactly those bytes as stdin.
pub proof fn lemma_pipeline_isolation_process(st: ExecModel, success: bool, captured: Seq<u8>)
    requires
        st.phase is AwaitProcess,
        0 <= st.idx < st.commands.len(),
        st.commands[st.idx].out is Piped,
    ensures
        ({
            let (st1, _) = spec_step(st, EvModel::ProcessDone(success, Some(captured)));
            &&& st1.last_piped == Some(spec_settle(captured))
            &&& st1.phase is Ready
            &&& st1.idx == st.idx + 1
            &&& (st1.idx < st1.commands.len() && spec_should_run(
                st1.commands[st1.idx].cond,
                st1.last_success,
            ) ==> spec_step(st1, EvModel::Next).1 == ActModel::RunBuiltin(
                st1.commands[st1.idx].keyword,
                st1.commands[st1.idx].args,
                Some(spec_settle(captured)),
            ))
        }),
{
}

/// Pipeline isolation, built-in stage: the same, for a built-in whose
/// output modifier is Piped.
pub proof fn lemma_pipeline_isolation_builtin(st: ExecModel, out: Seq<u8>)
    requires
        st.phase is AwaitBuiltin,
        0 <= st.idx < st.commands.len(),
        st.commands[st.idx].out is Piped,
    ensures
        ({
            let (st1, _) = spec_step(st, EvModel::BuiltinDone(Ok((CommandResult::Lovely, out))));
            &&& st1.last_piped == Some(spec_settle(out))
            &&& st1.phase is Ready
            &&& st1.idx == st.idx + 1
            &&& (st1.idx < st1.commands.len() && spec_should_run(
                st1.commands[st1.idx].cond,
                st1.last_success,
            ) ==> spec_step(st1, EvModel::Next).1 == ActModel::RunBuiltin(
                st1.commands[st1.idx].keyword,
                st1.commands[st1.idx].args,
                Some(spec_settle(out)),
            ))
        }),
{
}

} // verus!
