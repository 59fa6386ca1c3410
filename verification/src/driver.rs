//! The decisions of the interactive loop, one turn at a time.
//!
//! A turn reads one line, parses it, runs the program from a fresh store and
//! reports the outcome. Reading and parsing are done by the caller; this
//! module decides what follows from what was read and from what the parser
//! said. No store passes from one turn to the next.

use vstd::prelude::*;
use crate::ast::Stmt;
use crate::error::Halt;
use crate::exec::{run_prog, run_program};
use crate::state::{distinct_names, table};

verus! {

/// What an attempt to read a line gave.
#[derive(Debug, Clone, PartialEq, Eq)]
pub enum LineResult {
    /// A line of source text.
    Line(String),
    /// The user interrupted the prompt.
    Interrupted,
    /// The input has ended.
    EndOfInput,
    /// The line could not be read; the text says why.
    OtherFailure(String),
}

/// Why the loop ends.
#[derive(Debug, Clone, PartialEq, Eq)]
pub enum Exit {
    Interrupted,
    EndOfInput,
    /// The input source is unusable; the text says why.
    ReadFailure(String),
}

/// What the loop does after an attempt to read a line.
#[derive(Debug, Clone, PartialEq, Eq)]
pub enum Action {
    /// Parse this text and run what it denotes.
    Evaluate(String),
    /// Leave the loop.
    Stop(Exit),
}

/// What one turn reports.
#[derive(Debug, Clone, PartialEq, Eq)]
pub enum Report {
    /// The line was no program; the text is the parser's description.
    SyntaxError(String),
    /// The program halted before its end.
    Halted(Halt),
    /// The program ran to its end and left these bindings.
    Bindings(Vec<(String, i64)>),
}

/// Decides what follows an attempt to read a line: a line is evaluated, and
/// everything else ends the loop.
pub fn next_action(line: LineResult) -> (action: Action)
    ensures
        action == (match line {
            LineResult::Line(text) => Action::Evaluate(text),
            LineResult::Interrupted => Action::Stop(Exit::Interrupted),
            LineResult::EndOfInput => Action::Stop(Exit::EndOfInput),
            LineResult::OtherFailure(detail) => Action::Stop(Exit::ReadFailure(detail)),
        }),
{
    match line {
        LineResult::Line(text) => Action::Evaluate(text),
        LineResult::Interrupted => Action::Stop(Exit::Interrupted),
        LineResult::EndOfInput => Action::Stop(Exit::EndOfInput),
        LineResult::OtherFailure(detail) => Action::Stop(Exit::ReadFailure(detail)),
    }
}

/// Carries out one turn on what the parser returned for the line.
///
/// A syntax error is reported as it is and nothing runs. A program is run
/// from the empty store on a budget of `fuel`; the report holds its final
/// bindings, or the halt that stopped it in their place.
pub fn run_turn(parsed: Result<Stmt, String>, fuel: u64) -> (report: Report)
    ensures
        match parsed {
            Err(description) => report == Report::SyntaxError(description),
            Ok(prog) => match run_program(prog, fuel as nat).result {
                Err(halt) => report == Report::Halted(halt),
                Ok(_) => report is Bindings && distinct_names(report->Bindings_0@) && table(
                    report->Bindings_0@,
                ) == run_program(prog, fuel as nat).state,
            },
        },
{
    match parsed {
        Err(description) => Report::SyntaxError(description),
        Ok(prog) => match run_prog(&prog, fuel) {
            Err(halt) => Report::Halted(halt),
            Ok(state) => Report::Bindings(state.bindings()),
        },
    }
}

} // verus!
