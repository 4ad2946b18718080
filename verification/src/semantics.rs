//! What lines and statements mean.
//!
//! A statement run against a store, with a host that does the arithmetic,
//! reads numerals and formats values, has an effect: a new store, what was
//! shown and reported on the way, and an end. Loops need not end, so the
//! effect is defined up to a number of rounds and levels of nesting, the
//! fuel: with too little of it there is no effect, and more of it never
//! changes an effect that is there.

use vstd::prelude::*;
use crate::error::Fault;
use crate::evaluation::Arithmetic;
use crate::frames::{appended, classified_all, looked_up_all};
use crate::line_type::{classified, Line};
use crate::memory::Store;
use crate::runner::{looked_up, worth, Shown};
use crate::tokenizer::{
    lex, numeral_texts, numerals_before, valued, Compare, Computation, Lexm, Operation, Tok,
};

verus! {

/// The host, as three functions in the mathematical sense.
pub struct Host {
    pub arithmetic: Arithmetic,
    pub parse: spec_fn(Seq<char>) -> u64,
    pub format: spec_fn(u64) -> Seq<char>,
}

/// What the host is asked to show or to report while a statement runs.
pub enum Event {
    Shown(Seq<char>),
    Reported(Fault),
}

/// The effect of a statement.
pub struct Effect {
    pub store: Store,
    pub events: Seq<Event>,
    pub end: Result<Shown, Fault>,
}

/// The body of a conditional or of a loop.
pub enum Lines {
    Once(Seq<Seq<Tok>>),
    Repeat(Seq<Line>),
}

/// A condition and what it guards.
pub struct Condition {
    pub left: Seq<Tok>,
    pub compare: Compare,
    pub right: Seq<Tok>,
    pub body: Lines,
}

/// The effect of ending at once.
pub open spec fn ended(store: Store, end: Result<Shown, Fault>) -> Option<Effect> {
    Some(Effect { store, events: Seq::empty(), end })
}

/// An effect behind events that came first.
pub open spec fn behind(first: Seq<Event>, rest: Option<Effect>) -> Option<Effect> {
    match rest {
        None => None,
        Some(e) => Some(Effect { store: e.store, events: first + e.events, end: e.end }),
    }
}

/// What the end of a line of a body makes the host show or report.
pub open spec fn event_of(end: Result<Shown, Fault>) -> Seq<Event> {
    match end {
        Ok(Shown::Output(t)) => seq![Event::Shown(t)],
        Ok(Shown::Nothing) => Seq::empty(),
        Err(e) => seq![Event::Reported(e)],
    }
}

/// The text of a print whose first `done` values are formatted already.
pub open spec fn printed(values: Seq<u64>, done: int, text: Seq<char>, host: Host) -> Seq<char>
    decreases values.len() - done,
{
    if done < 0 || done >= values.len() {
        text
    } else {
        printed(
            values,
            done + 1,
            appended(text, done as usize, (host.format)(values[done])),
            host,
        )
    }
}

/// The effect of an assignment whose right side is worth `r`.
pub open spec fn assigned(
    var: Seq<char>,
    op: Operation,
    r: Result<u64, Fault>,
    store: Store,
    host: Host,
) -> Option<Effect> {
    match r {
        Err(e) => ended(store, Err(e)),
        Ok(num) => match op {
            Operation::Assign => ended(store.insert(var, num), Ok(Shown::Nothing)),
            _ => match looked_up(store, var) {
                Err(e) => ended(store, Err(e)),
                Ok(old) => ended(
                    store.insert(
                        var,
                        (host.arithmetic)(
                            Computation { operator: op.combiner(), left: old, right: num },
                        ),
                    ),
                    Ok(Shown::Nothing),
                ),
            },
        },
    }
}

/// The effect of a statement, with the given fuel.
///
/// Nothing ends with nothing. A print ends with the formatted values of
/// its names, joined by colons. An assignment stores what its right side is
/// worth, combined with the old value where it is compound. A conditional
/// and a loop test their condition; a loop classifies the lines of its body
/// first.
pub open spec fn executed(line: Line, store: Store, host: Host, fuel: nat) -> Option<Effect>
    decreases fuel, 3int, 0int,
{
    match line {
        Line::Nothing => ended(store, Ok(Shown::Nothing)),
        Line::Out(names) => match looked_up_all(store, names, 0) {
            Err(e) => ended(store, Err(e)),
            Ok(values) => ended(
                store,
                Ok(Shown::Output(printed(values, 0, Seq::empty(), host))),
            ),
        },
        Line::VarOperate(var, op, ex) => assigned(
            var,
            op,
            worth(store, ex, host.arithmetic),
            store,
            host,
        ),
        Line::If(a, c, b, body) => tested(
            Condition { left: a, compare: c, right: b, body: Lines::Once(body) },
            store,
            host,
            fuel,
        ),
        Line::While(a, c, b, body) => match classified_all(body, 0) {
            Err(e) => ended(store, Err(e)),
            Ok(ready) => tested(
                Condition { left: a, compare: c, right: b, body: Lines::Repeat(ready) },
                store,
                host,
                fuel,
            ),
        },
    }
}

/// The effect of testing a condition: the left side is evaluated, then the
/// right side; a failure of either is the end. Where the comparison holds
/// the body runs, and where it does not the statement ends with nothing.
pub open spec fn tested(c: Condition, store: Store, host: Host, fuel: nat) -> Option<Effect>
    decreases fuel, 2int, 0int,
{
    match worth(store, c.left, host.arithmetic) {
        Err(e) => ended(store, Err(e)),
        Ok(x) => match worth(store, c.right, host.arithmetic) {
            Err(e) => ended(store, Err(e)),
            Ok(y) => if c.compare.holds(x, y) {
                ran(c, 0, store, host, fuel)
            } else {
                ended(store, Ok(Shown::Nothing))
            },
        },
    }
}

/// The effect of running a body from its line `next` on.
///
/// Each line runs as a statement of its own, one level deeper; what it
/// leaves is shown, its failure is reported, and the next line follows. A
/// line of a conditional that is no statement is reported and skipped.
/// Behind the last line a conditional ends with nothing, and a loop tests
/// its condition again, which takes fuel.
pub open spec fn ran(c: Condition, next: nat, store: Store, host: Host, fuel: nat) -> Option<Effect>
    decreases fuel, 1int, body_len(c.body) - next,
{
    let started: Option<Result<Line, Fault>> = if next >= body_len(c.body) {
        None
    } else {
        match c.body {
            Lines::Once(lines) => Some(classified(lines[next as int])),
            Lines::Repeat(ready) => Some(Ok(ready[next as int])),
        }
    };
    match started {
        None => match c.body {
            Lines::Once(_) => ended(store, Ok(Shown::Nothing)),
            Lines::Repeat(_) => if fuel == 0 {
                None
            } else {
                tested(c, store, host, (fuel - 1) as nat)
            },
        },
        Some(Err(e)) => behind(seq![Event::Reported(e)], ran(c, next + 1, store, host, fuel)),
        Some(Ok(line)) => if fuel == 0 {
            None
        } else {
            match executed(line, store, host, (fuel - 1) as nat) {
                None => None,
                Some(eff) => behind(
                    eff.events + event_of(eff.end),
                    ran(c, next + 1, eff.store, host, fuel),
                ),
            }
        },
    }
}

/// How many lines a body has.
pub open spec fn body_len(body: Lines) -> nat {
    match body {
        Lines::Once(lines) => lines.len(),
        Lines::Repeat(ready) => ready.len(),
    }
}

/// The effect of the tokens of a line: of the statement that they make, or
/// the failure to make one.
pub open spec fn lined(tokens: Seq<Tok>, store: Store, host: Host, fuel: nat) -> Option<Effect> {
    match classified(tokens) {
        Err(e) => ended(store, Err(e)),
        Ok(line) => executed(line, store, host, fuel),
    }
}

/// The values that the host reads for the numerals among the lexemes.
pub open spec fn read_values(found: Seq<Lexm>, host: Host) -> Seq<u64> {
    Seq::new(
        numerals_before(found, found.len() as int),
        |i: int| (host.parse)(numeral_texts(found, found.len() as int)[i]),
    )
}

/// The effect of a line of text: of its tokens, or the failure of the
/// lexer.
pub open spec fn interpreted(line: Seq<char>, store: Store, host: Host, fuel: nat) -> Option<
    Effect,
> {
    match lex(line, 0) {
        Err(e) => ended(store, Err(e)),
        Ok(found) => lined(valued(found, read_values(found, host)), store, host, fuel),
    }
}

/// More fuel never changes an effect that is there.
pub proof fn fuel_is_enough(line: Line, store: Store, host: Host, fuel: nat, more: nat)
    requires
        executed(line, store, host, fuel) is Some,
        fuel <= more,
    ensures
        executed(line, store, host, more) == executed(line, store, host, fuel),
    decreases fuel, 3int, 0int,
{
    match line {
        Line::If(a, c, b, body) => {
            let cond = Condition { left: a, compare: c, right: b, body: Lines::Once(body) };
            fuel_is_enough_tested(cond, store, host, fuel, more);
        },
        Line::While(a, c, b, body) => {
            if let Ok(ready) = classified_all(body, 0) {
                let cond = Condition { left: a, compare: c, right: b, body: Lines::Repeat(ready) };
                fuel_is_enough_tested(cond, store, host, fuel, more);
            }
        },
        _ => {},
    }
}

/// More fuel never changes the effect of testing a condition.
pub proof fn fuel_is_enough_tested(
    c: Condition,
    store: Store,
    host: Host,
    fuel: nat,
    more: nat,
)
    requires
        tested(c, store, host, fuel) is Some,
        fuel <= more,
    ensures
        tested(c, store, host, more) == tested(c, store, host, fuel),
    decreases fuel, 2int, 0int,
{
    if let Ok(x) = worth(store, c.left, host.arithmetic) {
        if let Ok(y) = worth(store, c.right, host.arithmetic) {
            if c.compare.holds(x, y) {
                fuel_is_enough_ran(c, 0, store, host, fuel, more);
            }
        }
    }
}

/// More fuel never changes the effect of running a body.
pub proof fn fuel_is_enough_ran(
    c: Condition,
    next: nat,
    store: Store,
    host: Host,
    fuel: nat,
    more: nat,
)
    requires
        ran(c, next, store, host, fuel) is Some,
        fuel <= more,
    ensures
        ran(c, next, store, host, more) == ran(c, next, store, host, fuel),
    decreases fuel, 1int, body_len(c.body) - next,
{
    let started: Option<Result<Line, Fault>> = if next >= body_len(c.body) {
        None
    } else {
        match c.body {
            Lines::Once(lines) => Some(classified(lines[next as int])),
            Lines::Repeat(ready) => Some(Ok(ready[next as int])),
        }
    };
    match started {
        None => {
            if c.body is Repeat {
                fuel_is_enough_tested(c, store, host, (fuel - 1) as nat, (more - 1) as nat);
            }
        },
        Some(Err(e)) => {
            fuel_is_enough_ran(c, next + 1, store, host, fuel, more);
        },
        Some(Ok(line)) => {
            fuel_is_enough(line, store, host, (fuel - 1) as nat, (more - 1) as nat);
            let eff = executed(line, store, host, (fuel - 1) as nat)->0;
            fuel_is_enough_ran(c, next + 1, eff.store, host, fuel, more);
        },
    }
}

/// Assignment and print go together: after a plain assignment whose right
/// side is worth a number, the name holds that number, and printing the
/// name ends with the number as the host formats it.
pub proof fn assigned_value_is_printed(
    var: Seq<char>,
    ex: Seq<Tok>,
    store: Store,
    host: Host,
    fuel: nat,
)
    requires
        worth(store, ex, host.arithmetic) is Ok,
    ensures
        ({
            let num = worth(store, ex, host.arithmetic)->Ok_0;
            let first = executed(Line::VarOperate(var, Operation::Assign, ex), store, host, fuel);
            &&& first == ended(store.insert(var, num), Ok(Shown::Nothing))
            &&& executed(Line::Out(seq![var]), first->0.store, host, fuel) == ended(
                first->0.store,
                Ok(Shown::Output((host.format)(num))),
            )
        }),
{
    let num = worth(store, ex, host.arithmetic)->Ok_0;
    let after = store.insert(var, num);
    let names = seq![var];
    reveal_with_fuel(looked_up_all, 2);
    assert(looked_up_all(after, names, 0) == Ok::<Seq<u64>, Fault>(seq![num] + Seq::empty()));
    assert(seq![num] + Seq::<u64>::empty() =~= seq![num]);
    reveal_with_fuel(printed, 2);
}

/// A compound assignment needs a value to combine with: on a name that the
/// store does not hold it fails with that name, and leaves the store as it
/// was.
pub proof fn compound_assignment_needs_a_value(
    var: Seq<char>,
    op: Operation,
    ex: Seq<Tok>,
    store: Store,
    host: Host,
    fuel: nat,
)
    requires
        op != Operation::Assign,
        !store.contains_key(var),
        worth(store, ex, host.arithmetic) is Ok,
    ensures
        executed(Line::VarOperate(var, op, ex), store, host, fuel) == ended(
            store,
            Err(Fault::UnknownVariable(var)),
        ),
{
}

/// A condition that does not hold guards its body: the conditional or loop
/// ends with nothing, and the store stays as it was.
pub proof fn false_condition_does_nothing(
    c: Condition,
    store: Store,
    host: Host,
    fuel: nat,
)
    requires
        worth(store, c.left, host.arithmetic) matches Ok(x) && worth(
            store,
            c.right,
            host.arithmetic,
        ) matches Ok(y) && !c.compare.holds(x, y),
    ensures
        tested(c, store, host, fuel) == ended(store, Ok(Shown::Nothing)),
{
}

/// A conditional whose condition holds runs its body once: its effect is
/// that of the lines of its body, in order.
pub proof fn true_condition_runs_the_body(
    a: Seq<Tok>,
    compare: Compare,
    b: Seq<Tok>,
    body: Seq<Seq<Tok>>,
    store: Store,
    host: Host,
    fuel: nat,
)
    requires
        worth(store, a, host.arithmetic) matches Ok(x) && worth(
            store,
            b,
            host.arithmetic,
        ) matches Ok(y) && compare.holds(x, y),
    ensures
        executed(Line::If(a, compare, b, body), store, host, fuel) == ran(
            Condition { left: a, compare, right: b, body: Lines::Once(body) },
            0,
            store,
            host,
            fuel,
        ),
{
}

} // verus!
