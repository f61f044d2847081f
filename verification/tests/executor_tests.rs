use shoe::commands::echo;
use shoe::commands::CommandResult;
use shoe::exec::ExecAction;
use shoe::exec::ExecEvent;
use shoe::exec::Executor;
use shoe::exec::pipe_settle;
use shoe::pipeline::tokens_to_commands_vec;
use shoe::shell::plan_line;
use shoe::shell::LinePlan;
use shoe::token::parse_text_to_tokens;
use shoe::subst::filter_tokens_and_parse_vars;

fn commands_of(line: &str) -> Vec<shoe::pipeline::Command> {
    let toks = parse_text_to_tokens(line, false);
    let env: Vec<(String, String)> = Vec::new();
    let toks = filter_tokens_and_parse_vars(toks, &env);
    tokens_to_commands_vec(toks).expect("parse")
}

/// Drive the executor as the shell would, running only the echo built-in in
/// place of the app's dispatcher, and record the outward effects.
struct Run {
    terminal: Vec<Vec<u8>>,
    files: Vec<(String, Vec<u8>, bool)>,
    errors: Vec<String>,
    skipped: usize,
    spawns: Vec<String>,
    known_commands: Vec<String>,
}

fn drive(commands: Vec<shoe::pipeline::Command>) -> Run {
    let mut run = Run {
        terminal: Vec::new(),
        files: Vec::new(),
        errors: Vec::new(),
        skipped: 0,
        spawns: Vec::new(),
        known_commands: vec!["echo".to_string()],
    };
    let mut ex = Executor::new(commands);
    let mut ev = ExecEvent::Next;
    for _ in 0..1000 {
        match ex.step(ev) {
            ExecAction::Finished => return run,
            ExecAction::ExitShell => return run,
            ExecAction::Skipped => {
                run.skipped += 1;
                ev = ExecEvent::Next;
            }
            ExecAction::Advance => {
                ev = ExecEvent::Next;
            }
            ExecAction::ReadFile(_path) => {
                ev = ExecEvent::FileRead(Vec::new());
            }
            ExecAction::RunBuiltin(keyword, args, stdin) => {
                if keyword == "echo" {
                    let out = echo(&args, &stdin.unwrap_or_default());
                    ev = ExecEvent::BuiltinDone(Ok((CommandResult::Lovely, out)));
                } else {
                    ev = ExecEvent::BuiltinDone(Ok((CommandResult::NotACommand, Vec::new())));
                }
            }
            ExecAction::WriteTerminal(bytes) => {
                run.terminal.push(bytes);
                ev = ExecEvent::Next;
            }
            ExecAction::SetTheme(_i) => {
                ev = ExecEvent::Next;
            }
            ExecAction::Spawn(program, _args, _stdin, _pipe) => {
                run.spawns.push(program.clone());
                if run.known_commands.contains(&program) {
                    ev = ExecEvent::ProcessDone(true, None);
                } else {
                    ev = ExecEvent::SpawnFailed;
                }
            }
            ExecAction::PrintError(msg) => {
                run.errors.push(msg);
                ev = ExecEvent::Next;
            }
            ExecAction::WriteFile(path, bytes, append) => {
                run.files.push((path, bytes, append));
                ev = ExecEvent::Next;
            }
            ExecAction::EnsureNewline => {
                ev = ExecEvent::Next;
            }
        }
    }
    panic!("executor did not finish");
}

#[test]
fn echo_redirects_to_file() {
    // echo hello > out.txt: the file receives `hello\n`, the terminal nothing
    let run = drive(commands_of("echo hello > out.txt"));
    assert_eq!(run.files.len(), 1);
    assert_eq!(run.files[0].0, "out.txt");
    assert_eq!(run.files[0].1, b"hello\n".to_vec());
    assert_eq!(run.files[0].2, false);
    assert_eq!(run.terminal.len(), 0);
}

#[test]
fn and_or_sequencing() {
    // echo one && echo two || echo three: the third echo is skipped
    let run = drive(commands_of("echo one && echo two || echo three"));
    assert_eq!(run.terminal, vec![b"one\n".to_vec(), b"two\n".to_vec()]);
    assert_eq!(run.skipped, 1);
}

#[test]
fn unknown_command_reports_and_continues() {
    // false_command ; echo after
    let run = drive(commands_of("false_command ; echo after"));
    assert_eq!(run.errors, vec!["file/command 'false_command' not found! :(".to_string()]);
    assert_eq!(run.terminal, vec![b"after\n".to_vec()]);
}

#[test]
fn pipe_hands_stdout_to_next_stage() {
    // echo hi | echo: the second echo sees the first stage's bytes as stdin
    // and emits them untouched
    let run = drive(commands_of("echo hi | echo"));
    assert_eq!(run.terminal, vec![b"hi\n".to_vec()]);
}

#[test]
fn pipe_strips_ansi_from_utf8_output() {
    let colored = b"\x1b[31mred\x1b[0m".to_vec();
    assert_eq!(pipe_settle(colored), b"red".to_vec());
}

#[test]
fn pipe_keeps_non_utf8_payload() {
    // binary data holding an ESC byte is not valid UTF-8 and passes unchanged
    let binary = vec![0xff, 0x1b, b'[', b'3', b'm', 0x00];
    assert_eq!(pipe_settle(binary.clone()), binary);
}

#[test]
fn pipe_keeps_plain_text() {
    assert_eq!(pipe_settle(b"plain".to_vec()), b"plain".to_vec());
}

#[test]
fn run_condition_fail_runs_after_failure() {
    // a failing spawn, then || runs the echo
    let run = drive(commands_of("nope_command || echo rescued"));
    assert_eq!(run.errors.len(), 1);
    assert_eq!(run.terminal, vec![b"rescued\n".to_vec()]);
}

#[test]
fn script_runtime_dispatch() {
    // a .py keyword spawns python3 with the file prepended
    let run = drive(commands_of("tool.py arg1"));
    assert_eq!(run.spawns, vec!["python3".to_string()]);
}

#[test]
fn read_from_redirection_feeds_builtin() {
    let run = drive(commands_of("echo < input.txt"));
    // the file reply is empty, so echo falls back to its argument path:
    // with no args and no stdin, nothing but the default sink happens
    assert_eq!(run.terminal, vec![Vec::<u8>::new()]);
}

#[test]
fn math_line_is_evaluated() {
    let env: Vec<(String, String)> = Vec::new();
    match plan_line(&"1 + 2".to_string(), &env, false, "") {
        LinePlan::Math(v) => assert_eq!(v, "3"),
        _ => panic!("expected a math line"),
    }
}

#[test]
fn empty_line_is_empty_plan() {
    let env: Vec<(String, String)> = Vec::new();
    assert!(matches!(plan_line(&"   ".to_string(), &env, false, ""), LinePlan::Empty));
}

#[test]
fn parse_error_is_reported() {
    let env: Vec<(String, String)> = Vec::new();
    match plan_line(&"echo a >>> b".to_string(), &env, false, "") {
        LinePlan::Bad(m) => assert_eq!(m, "unexpected token '>>>'"),
        _ => panic!("expected a parse error"),
    }
}

#[test]
fn dangling_redirect_is_reported() {
    let env: Vec<(String, String)> = Vec::new();
    match plan_line(&"echo a >".to_string(), &env, false, "") {
        LinePlan::Bad(m) => assert_eq!(m, "unexpected token '>'"),
        _ => panic!("expected a parse error"),
    }
}

#[test]
fn pipeline_plan_structure() {
    let env: Vec<(String, String)> = Vec::new();
    match plan_line(&"ls -l | cat".to_string(), &env, false, "") {
        LinePlan::Pipeline(cmds) => {
            assert_eq!(cmds.len(), 2);
            assert_eq!(cmds[0].keyword, "ls");
            assert_eq!(cmds[0].args, vec!["-l"]);
            assert!(matches!(cmds[0].output_modifier, shoe::pipeline::OutputModifier::Piped));
            assert_eq!(cmds[1].keyword, "cat");
        }
        _ => panic!("expected a pipeline"),
    }
}

#[test]
fn append_redirect_parsed() {
    let env: Vec<(String, String)> = Vec::new();
    match plan_line(&"echo x >> log.txt".to_string(), &env, false, "") {
        LinePlan::Pipeline(cmds) => {
            assert_eq!(cmds.len(), 1);
            match &cmds[0].output_modifier {
                shoe::pipeline::OutputModifier::WriteTo(p, append) => {
                    assert_eq!(p, "log.txt");
                    assert!(*append);
                }
                _ => panic!("expected WriteTo"),
            }
        }
        _ => panic!("expected a pipeline"),
    }
}
