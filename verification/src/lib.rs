//! A small line-oriented expression and statement language.
//!
//! A line of text is split into tokens, folded and classified into a
//! statement, and run against a variable store:
//!
//! - `tokenizer` holds the tokens and the lexer;
//! - `calculator` makes the tokens of an expression ready and builds their
//!   tree, and `evaluation` evaluates the tree;
//! - `line_type` classifies the tokens of a line into a statement;
//! - `memory` is the variable store;
//! - `runner` and `frames` run statements, move by move;
//! - `semantics` says what lines and statements mean, and `adequacy` shows
//!   that the moves of a running line keep that meaning.
//!
//! Numbers are IEEE-754 binary64 values, carried by their bit patterns
//! (`number`). The engine negates, tests and compares them. Arithmetic, the
//! reading of numerals and the formatting of values are the host's: a
//! running line asks for them, and for each output and failure to be
//! printed, one request at a time.

pub mod adequacy;
pub mod calculator;
pub mod error;
pub mod evaluation;
pub mod frames;
pub mod line_type;
pub mod memory;
pub mod number;
pub mod runner;
pub mod semantics;
pub mod tokenizer;

use vstd::prelude::*;

verus! {

/// Begins to run one line of text.
///
/// The host drives what comes back: it calls `resume`, does what the
/// request asks, hands a reply to `supply` where one is due, and goes on
/// until the request says that the line has ended.
pub fn run_line(line: &str) -> (r: runner::Session)
    ensures
        match tokenizer::lex(line@, 0) {
            Err(e) => r.ended() && r.end() == Err::<runner::Shown, error::Fault>(e),
            Ok(ls) => {
                &&& r.frames@.len() == 1
                &&& r.frames@[0] matches frames::Frame::Read(found)
                &&& tokenizer::lexemes(found@) == ls
                &&& r.returned is None
            },
        },
        forall|store: memory::Store, host: semantics::Host, fuel: nat|
            #![trigger r.means(store, host, fuel)]
            r.means(store, host, fuel) == semantics::interpreted(line@, store, host, fuel),
{
    runner::Session::open(line)
}

} // verus!
