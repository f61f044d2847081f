//! The pipeline assembler: turns a filtered token sequence into an ordered
//! list of commands joined by run conditions, pipes and redirections.

use vstd::prelude::*;

use crate::strutil::concat_str;
use crate::strutil::str_eq;
use crate::token::models;
use crate::token::Token;
use crate::token::TokenKind;
use crate::token::TokenModel;

verus! {

/// Whether a command runs, given the previous command's outcome.
#[derive(Clone, Copy, Debug, PartialEq, Eq, Structural)]
pub enum RunCondition {
    /// Runs regardless of the previous outcome.
    Any,
    /// Runs only when the previous command succeeded.
    Success,
    /// Runs only when the previous command failed.
    Fail,
}

/// Where a command's output goes.
#[derive(Debug)]
pub enum OutputModifier {
    /// To the terminal (or wherever stdout is inherited from).
    Default,
    /// Into the next command of the pipeline.
    Piped,
    /// Into a file: the path, and whether to append.
    WriteTo(String, bool),
}

/// The model of an output modifier.
#[verifier::ext_equal]
pub ghost enum OutModel {
    Default,
    Piped,
    WriteTo { path: Seq<char>, append: bool },
}

impl View for OutputModifier {
    type V = OutModel;

    open spec fn view(&self) -> OutModel {
        match self {
            OutputModifier::Default => OutModel::Default,
            OutputModifier::Piped => OutModel::Piped,
            OutputModifier::WriteTo(p, a) => OutModel::WriteTo { path: p@, append: *a },
        }
    }
}

/// Where a command's input comes from.
#[derive(Debug)]
pub enum InputModifier {
    /// Inherited (or the previous stage's piped output).
    Default,
    /// Read from a file.
    ReadFrom(String),
}

/// The model of an input modifier.
#[verifier::ext_equal]
pub ghost enum InModel {
    Default,
    ReadFrom { path: Seq<char> },
}

impl View for InputModifier {
    type V = InModel;

    open spec fn view(&self) -> InModel {
        match self {
            InputModifier::Default => InModel::Default,
            InputModifier::ReadFrom(p) => InModel::ReadFrom { path: p@ },
        }
    }
}

/// One command of a pipeline.
#[derive(Debug)]
pub struct Command {
    pub keyword: String,
    pub args: Vec<String>,
    pub output_modifier: OutputModifier,
    pub input_modifier: InputModifier,
    pub run_condition: RunCondition,
}

/// The model of a command.
#[verifier::ext_equal]
pub ghost struct CommandModel {
    pub keyword: Seq<char>,
    pub args: Seq<Seq<char>>,
    pub out: OutModel,
    pub inp: InModel,
    pub cond: RunCondition,
}

/// The models of a sequence of strings.
pub open spec fn strs(v: Seq<String>) -> Seq<Seq<char>> {
    v.map_values(|s: String| s@)
}

impl View for Command {
    type V = CommandModel;

    open spec fn view(&self) -> CommandModel {
        CommandModel {
            keyword: self.keyword@,
            args: strs(self.args@),
            out: self.output_modifier@,
            inp: self.input_modifier@,
            cond: self.run_condition,
        }
    }
}

/// The models of a sequence of commands.
pub open spec fn cmd_models(cs: Seq<Command>) -> Seq<CommandModel> {
    cs.map_values(|c: Command| c@)
}

/// A fresh command with the given keyword and pending run condition.
pub open spec fn new_command(keyword: Seq<char>, cond: RunCondition) -> CommandModel {
    CommandModel {
        keyword: keyword,
        args: Seq::empty(),
        out: OutModel::Default,
        inp: InModel::Default,
        cond: cond,
    }
}

/// The assembler over the remaining tokens, carrying the command in
/// progress and the run condition for the next command. An unexpected or
/// dangling Special yields `Err` with its text.
pub open spec fn spec_assemble(
    toks: Seq<TokenModel>,
    cur: Option<CommandModel>,
    next_cond: RunCondition,
) -> Result<Seq<CommandModel>, Seq<char>>
    decreases toks.len(),
{
    if toks.len() == 0 {
        match cur {
            Some(c) => Ok(seq![c]),
            None => Ok(Seq::empty()),
        }
    } else {
        let t = toks[0];
        if cur is None {
            spec_assemble(toks.skip(1), Some(new_command(t.text, next_cond)), RunCondition::Any)
        } else {
            let c = cur->0;
            if t.kind is Special {
                if t.text == seq![';'] || t.text == seq!['&'] {
                    spec_close(c, spec_assemble(toks.skip(1), None, RunCondition::Any))
                } else if t.text == seq!['&', '&'] {
                    spec_close(c, spec_assemble(toks.skip(1), None, RunCondition::Success))
                } else if t.text == seq!['|', '|'] {
                    spec_close(c, spec_assemble(toks.skip(1), None, RunCondition::Fail))
                } else if t.text == seq!['|'] {
                    let c2 = CommandModel { out: OutModel::Piped, ..c };
                    spec_close(c2, spec_assemble(toks.skip(1), None, RunCondition::Any))
                } else if t.text == seq!['>'] && toks.len() >= 2 {
                    let c2 = CommandModel {
                        out: OutModel::WriteTo { path: toks[1].text, append: false },
                        ..c
                    };
                    spec_assemble(toks.skip(2), Some(c2), next_cond)
                } else if t.text == seq!['>', '>'] && toks.len() >= 2 {
                    let c2 = CommandModel {
                        out: OutModel::WriteTo { path: toks[1].text, append: true },
                        ..c
                    };
                    spec_assemble(toks.skip(2), Some(c2), next_cond)
                } else if t.text == seq!['<'] && toks.len() >= 2 {
                    let c2 = CommandModel { inp: InModel::ReadFrom { path: toks[1].text }, ..c };
                    spec_assemble(toks.skip(2), Some(c2), next_cond)
                } else {
                    Err(t.text)
                }
            } else {
                let c2 = CommandModel { args: c.args.push(t.text), ..c };
                spec_assemble(toks.skip(1), Some(c2), next_cond)
            }
        }
    }
}

/// Prepend a closed command to the rest of an assembly.
pub open spec fn spec_close(
    c: CommandModel,
    rest: Result<Seq<CommandModel>, Seq<char>>,
) -> Result<Seq<CommandModel>, Seq<char>> {
    match rest {
        Ok(cs) => Ok(seq![c] + cs),
        Err(e) => Err(e),
    }
}

/// What assembling a whole token sequence yields.
pub open spec fn spec_pipeline(toks: Seq<TokenModel>) -> Result<Seq<CommandModel>, Seq<char>> {
    spec_assemble(toks, None, RunCondition::Any)
}

/// The parse-error message for an unexpected Special token.
pub open spec fn unexpected_token_message(text: Seq<char>) -> Seq<char> {
    "unexpected token '"@ + text + "'"@
}

fn push_arg(cmd: &mut Command, arg: String)
    ensures
        final(cmd)@ == (CommandModel { args: old(cmd)@.args.push(arg@), ..old(cmd)@ }),
{
    cmd.args.push(arg);
    proof {
        assert(strs(cmd.args@) =~= strs(old(cmd).args@).push(arg@));
    }
}

/// Assemble a filtered token sequence into the list of commands it denotes,
/// or report the text of an unexpected Special token.
#[verifier::loop_isolation(false)]
pub fn tokens_to_commands_vec(tokens: Vec<Token>) -> (r: Result<Vec<Command>, String>)
    ensures
        spec_pipeline(models(tokens@)) matches Ok(cs) ==> (r matches Ok(v) && cmd_models(v@)
            == cs),
        spec_pipeline(models(tokens@)) matches Err(e) ==> (r matches Err(m) && m@
            == unexpected_token_message(e)),
{
    let ghost all = models(tokens@);
    let mut rest = tokens;
    let mut done: Vec<Command> = Vec::new();
    let mut cur: Option<Command> = None;
    let mut next_cond = RunCondition::Any;
    proof {
        assert(cmd_models(done@) =~= Seq::<CommandModel>::empty());
        assert(Seq::<CommandModel>::empty() + all_tail(spec_pipeline(all)) =~= all_tail(
            spec_pipeline(all),
        ));
    }
    while rest.len() > 0 || cur.is_some()
        invariant
            ({
                let cur_m = match cur {
                    Some(c) => Some(c@),
                    None => None::<CommandModel>,
                };
                match spec_assemble(models(rest@), cur_m, next_cond) {
                    Ok(tail) => spec_pipeline(all) matches Ok(cs) && cs == cmd_models(done@)
                        + tail,
                    Err(e) => spec_pipeline(all) matches Err(e2) && e2 == e,
                }
            }),
        decreases 2 * rest@.len() + (if cur.is_some() { 1int } else { 0int }),
    {
        let ghost pre_rest = models(rest@);
        let ghost pre_done = cmd_models(done@);
        let ghost pre_cond = next_cond;
        let ghost cur_m = match &cur {
            Some(c) => Some(c@),
            None => None::<CommandModel>,
        };
        if rest.len() == 0 {
            // a command is still in progress: close it
            let c = match cur {
                Some(c) => c,
                None => {
                    proof {
                        assert(false);
                    }
                    Command {
                        keyword: String::new(),
                        args: Vec::new(),
                        output_modifier: OutputModifier::Default,
                        input_modifier: InputModifier::Default,
                        run_condition: RunCondition::Any,
                    }
                },
            };
            done.push(c);
            cur = None;
            proof {
                assert(pre_rest =~= Seq::<TokenModel>::empty());
                assert(models(rest@) =~= Seq::<TokenModel>::empty());
                assert(cmd_models(done@) =~= pre_done.push(done@.last()@));
                assert(spec_assemble(pre_rest, cur_m, pre_cond) == Ok::<_, Seq<char>>(seq![
                    cur_m->0,
                ]));
                assert(pre_done + seq![cur_m->0] =~= cmd_models(done@));
                assert(cmd_models(done@) + Seq::<CommandModel>::empty() =~= cmd_models(done@));
            }
        } else {
            let t = rest.remove(0);
            proof {
                assert(models(rest@) =~= pre_rest.skip(1));
                assert(t@ == pre_rest[0]);
            }
            match cur {
                None => {
                    cur = Some(
                        Command {
                            keyword: t.text,
                            args: Vec::new(),
                            output_modifier: OutputModifier::Default,
                            input_modifier: InputModifier::Default,
                            run_condition: next_cond,
                        },
                    );
                    next_cond = RunCondition::Any;
                    proof {
                        let c_new = match &cur {
                            Some(c) => c@,
                            None => new_command(pre_rest[0].text, pre_cond),
                        };
                        assert(strs(Seq::<String>::empty()) =~= Seq::<Seq<char>>::empty());
                        assert(c_new =~~= new_command(pre_rest[0].text, pre_cond));
                    }
                },
                Some(mut c) => {
                    let is_sp = match t.kind {
                        TokenKind::Special => true,
                        _ => false,
                    };
                    if is_sp {
                        proof {
                            reveal_strlit(";");
                            reveal_strlit("&");
                            reveal_strlit("&&");
                            reveal_strlit("||");
                            reveal_strlit("|");
                            reveal_strlit(">");
                            reveal_strlit(">>");
                            reveal_strlit("<");
                            assert(";"@ =~= seq![';']);
                            assert("&"@ =~= seq!['&']);
                            assert("&&"@ =~= seq!['&', '&']);
                            assert("||"@ =~= seq!['|', '|']);
                            assert("|"@ =~= seq!['|']);
                            assert(">"@ =~= seq!['>']);
                            assert(">>"@ =~= seq!['>', '>']);
                            assert("<"@ =~= seq!['<']);
                        }
                        if str_eq(t.text.as_str(), ";") || str_eq(t.text.as_str(), "&") {
                            done.push(c);
                            cur = None;
                            next_cond = RunCondition::Any;
                            proof {
                                lemma_close_step(pre_done, cur_m->0, pre_rest.skip(1), RunCondition::Any);
                                assert(cmd_models(done@) =~= pre_done.push(cur_m->0));
                            }
                        } else if str_eq(t.text.as_str(), "&&") {
                            done.push(c);
                            cur = None;
                            next_cond = RunCondition::Success;
                            proof {
                                lemma_close_step(pre_done, cur_m->0, pre_rest.skip(1), RunCondition::Success);
                                assert(cmd_models(done@) =~= pre_done.push(cur_m->0));
                            }
                        } else if str_eq(t.text.as_str(), "||") {
                            done.push(c);
                            cur = None;
                            next_cond = RunCondition::Fail;
                            proof {
                                lemma_close_step(pre_done, cur_m->0, pre_rest.skip(1), RunCondition::Fail);
                                assert(cmd_models(done@) =~= pre_done.push(cur_m->0));
                            }
                        } else if str_eq(t.text.as_str(), "|") {
                            c.output_modifier = OutputModifier::Piped;
                            let ghost c2 = c@;
                            done.push(c);
                            cur = None;
                            next_cond = RunCondition::Any;
                            proof {
                                assert(c2 =~~= (CommandModel { out: OutModel::Piped, ..cur_m->0 }));
                                lemma_close_step(pre_done, c2, pre_rest.skip(1), RunCondition::Any);
                                assert(cmd_models(done@) =~= pre_done.push(c2));
                            }
                        } else if str_eq(t.text.as_str(), ">") && rest.len() > 0 {
                            let target = rest.remove(0);
                            proof {
                                assert(models(rest@) =~= pre_rest.skip(2));
                                assert(target@ == pre_rest[1]);
                            }
                            c.output_modifier = OutputModifier::WriteTo(target.text, false);
                            proof {
                                assert(c@ =~~= (CommandModel {
                                    out: OutModel::WriteTo { path: pre_rest[1].text, append: false },
                                    ..cur_m->0
                                }));
                            }
                            cur = Some(c);
                        } else if str_eq(t.text.as_str(), ">>") && rest.len() > 0 {
                            let target = rest.remove(0);
                            proof {
                                assert(models(rest@) =~= pre_rest.skip(2));
                                assert(target@ == pre_rest[1]);
                            }
                            c.output_modifier = OutputModifier::WriteTo(target.text, true);
                            proof {
                                assert(c@ =~~= (CommandModel {
                                    out: OutModel::WriteTo { path: pre_rest[1].text, append: true },
                                    ..cur_m->0
                                }));
                            }
                            cur = Some(c);
                        } else if str_eq(t.text.as_str(), "<") && rest.len() > 0 {
                            let target = rest.remove(0);
                            proof {
                                assert(models(rest@) =~= pre_rest.skip(2));
                                assert(target@ == pre_rest[1]);
                            }
                            c.input_modifier = InputModifier::ReadFrom(target.text);
                            proof {
                                assert(c@ =~~= (CommandModel {
                                    inp: InModel::ReadFrom { path: pre_rest[1].text },
                                    ..cur_m->0
                                }));
                            }
                            cur = Some(c);
                        } else {
                            let msg = concat_str("unexpected token '", t.text.as_str());
                            let msg = concat_str(msg.as_str(), "'");
                            proof {
                                assert(pre_rest[0].text != seq![';'] && pre_rest[0].text
                                    != seq!['&'] && pre_rest[0].text != seq!['&', '&']
                                    && pre_rest[0].text != seq!['|', '|'] && pre_rest[0].text
                                    != seq!['|']);
                                assert(spec_assemble(pre_rest, cur_m, pre_cond) == Err::<
                                    Seq<CommandModel>,
                                    _,
                                >(pre_rest[0].text));
                                assert(spec_pipeline(all) matches Err(e2) && e2 == pre_rest[0].text);
                                assert(msg@ =~= unexpected_token_message(pre_rest[0].text));
                            }
                            return Err(msg);
                        }
                    } else {
                        push_arg(&mut c, t.text);
                        proof {
                            assert(c@ =~~= (CommandModel {
                                args: cur_m->0.args.push(pre_rest[0].text),
                                ..cur_m->0
                            }));
                        }
                        cur = Some(c);
                    }
                },
            }
        }
    }
    proof {
        assert(models(rest@) =~= Seq::<TokenModel>::empty());
        assert(spec_assemble(models(rest@), None::<CommandModel>, next_cond) == Ok::<
            _,
            Seq<char>,
        >(Seq::<CommandModel>::empty()));
        assert(cmd_models(done@) + Seq::<CommandModel>::empty() =~= cmd_models(done@));
    }
    Ok(done)
}

// The tail of a pipeline result, for stating loop-entry facts.
spec fn all_tail(r: Result<Seq<CommandModel>, Seq<char>>) -> Seq<CommandModel> {
    match r {
        Ok(cs) => cs,
        Err(_) => Seq::empty(),
    }
}

proof fn lemma_close_step(
    done: Seq<CommandModel>,
    c: CommandModel,
    toks: Seq<TokenModel>,
    cond: RunCondition,
)
    ensures
        ({
            match spec_assemble(toks, None::<CommandModel>, cond) {
                Ok(tail) => spec_close(c, spec_assemble(toks, None::<CommandModel>, cond))
                    matches Ok(full) && done + full == done.push(c) + tail,
                Err(e) => spec_close(c, spec_assemble(toks, None::<CommandModel>, cond))
                    matches Err(e2) && e2 == e,
            }
        }),
{
    match spec_assemble(toks, None::<CommandModel>, cond) {
        Ok(tail) => {
            assert(done + (seq![c] + tail) =~= done.push(c) + tail);
        },
        Err(_) => {},
    }
}

} // verus!
