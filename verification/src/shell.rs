//! The shell's dispatch of one finished input line: empty lines do
//! nothing, arithmetic expressions print their value, everything else is
//! tokenized, substituted and assembled into a pipeline.

use vstd::prelude::*;

use crate::outside::eval_math;
use crate::outside::math_eval;
use crate::pipeline::cmd_models;
use crate::pipeline::spec_pipeline;
use crate::pipeline::tokens_to_commands_vec;
use crate::pipeline::unexpected_token_message;
use crate::pipeline::Command;
use crate::strutil::is_ws_only;
use crate::strutil::ws_only;
use crate::subst::env_model;
use crate::subst::filter_init;
use crate::subst::filter_tokens_and_parse_vars;
use crate::subst::spec_filter;
use crate::subst::spec_subst_tokens;
use crate::subst::substitute_tildes;
use crate::token::models;
use crate::token::parse_text_to_tokens;
use crate::token::spec_tokenize;
use crate::token::TokenModel;

verus! {

/// What one input line amounts to.
#[derive(Debug)]
pub enum LinePlan {
    /// Whitespace only: nothing to do (the caller resets its history
    /// position).
    Empty,
    /// An arithmetic expression: print this value.
    Math(String),
    /// A pipeline of commands to execute.
    Pipeline(Vec<Command>),
    /// A parse error to print.
    Bad(String),
}

/// The tokens a line is executed from: tokenized without separators,
/// variables substituted, and tildes replaced when enabled.
pub open spec fn spec_line_tokens(
    command: Seq<char>,
    env: Seq<(Seq<char>, Seq<char>)>,
    tildes: bool,
    home: Seq<char>,
) -> Seq<TokenModel> {
    let toks0 = spec_filter(spec_tokenize(command, false), filter_init(), env);
    if tildes {
        spec_subst_tokens(toks0, home)
    } else {
        toks0
    }
}

/// Decide what one input line does. History recording is the caller's
/// step, before this one.
pub fn plan_line(command: &String, env: &Vec<(String, String)>, tildes: bool, home: &str) -> (r:
    LinePlan)
    ensures
        ws_only(command@) ==> r is Empty,
        !ws_only(command@) && math_eval(command@) is Some ==> (r matches LinePlan::Math(v) && Some(
            v@,
        ) == math_eval(command@)),
        !ws_only(command@) && math_eval(command@) is None ==> ({
            match spec_pipeline(spec_line_tokens(command@, env_model(env@), tildes, home@)) {
                Ok(cs) => r matches LinePlan::Pipeline(v) && cmd_models(v@) == cs,
                Err(e) => r matches LinePlan::Bad(m) && m@ == unexpected_token_message(e),
            }
        }),
{
    if is_ws_only(command.as_str()) {
        return LinePlan::Empty;
    }
    let toks = parse_text_to_tokens(command.as_str(), false);
    let toks = filter_tokens_and_parse_vars(toks, env);
    match eval_math(command.as_str()) {
        Some(v) => {
            return LinePlan::Math(v);
        },
        None => {},
    }
    let ghost toks0 = models(toks@);
    let toks = if tildes {
        let t2 = substitute_tildes(toks, home);
        proof {
            assert(models(t2@) =~= spec_subst_tokens(toks0, home@));
        }
        t2
    } else {
        toks
    };
    match tokens_to_commands_vec(toks) {
        Ok(cmds) => LinePlan::Pipeline(cmds),
        Err(m) => LinePlan::Bad(m),
    }
}

} // verus!
