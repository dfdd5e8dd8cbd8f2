//! The command interface: one text in, one result out.

use crate::ast::parser::grammar::parse_spec;
use crate::ast::parser::parse;
use crate::ast::show;
use vstd::prelude::*;

verus! {

/// What running a command gives: the text of what was read, or the message
/// of the error.
#[derive(Debug, PartialEq, Eq)]
pub enum CommandResult {
    Success(String),
    Error(String),
}

/// What running a command on `input` gives.
pub open spec fn run_spec(input: Seq<char>) -> Result<Seq<char>, Seq<char>> {
    match parse_spec(input) {
        Ok(e) => Ok(show(e)),
        Err(f) => Err(f.message),
    }
}

/// The application; it keeps no state between commands.
pub struct Application;

impl Application {
    pub fn create() -> (r: Application) {
        Application
    }

    /// Parses the input and answers with the text of the expression read, or
    /// with the message of the syntax error.
    pub fn run(&mut self, input: String) -> (r: CommandResult)
        ensures
            match r {
                CommandResult::Success(text) => run_spec(input@) == Ok::<Seq<char>, Seq<char>>(text@),
                CommandResult::Error(message) => run_spec(input@) == Err::<Seq<char>, Seq<char>>(
                    message@,
                ),
            },
    {
        match parse(input) {
            Ok(trees) => CommandResult::Success(trees[0].to_string()),
            Err(error) => CommandResult::Error(error.into_message()),
        }
    }
}

} // verus!
