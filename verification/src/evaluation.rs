//! The evaluation of an expression tree.
//!
//! Arithmetic is the host's. An evaluation walks the tree, stops wherever
//! an operator is to be applied to two values, and goes on when the host
//! supplies the result. Whatever the host's arithmetic, the evaluation ends
//! with the value that the tree has under that arithmetic.

use vstd::prelude::*;
use crate::calculator::{Expression, Possible, Tree};
use crate::error::{CoreError, Fault};
use crate::tokenizer::{Computation, Operator, Tok, Token};

verus! {

/// The host's arithmetic, as a function in the mathematical sense.
pub type Arithmetic = spec_fn(Computation) -> u64;

/// The result of applying an operator under the host's arithmetic.
pub open spec fn applied(o: Operator, a: u64, b: u64, f: Arithmetic) -> Result<u64, Fault> {
    match o.operation(a, b) {
        Err(e) => Err(e),
        Ok(c) => Ok(f(c)),
    }
}

/// The value of a tree under the host's arithmetic.
///
/// A leaf is worth its number, and is malformed if it holds anything else.
/// A node is worth its operator applied to the values of its branches; the
/// left branch fails first.
pub open spec fn value(t: Tree, f: Arithmetic) -> Result<u64, Fault>
    decreases t,
{
    match t {
        Tree::Leaf(Tok::Number(n)) => Ok(n),
        Tree::Leaf(_) => Err(Fault::Malformed),
        Tree::Node(left, o, right) => match value(*left, f) {
            Err(e) => Err(e),
            Ok(a) => match value(*right, f) {
                Err(e) => Err(e),
                Ok(b) => applied(o, a, b, f),
            },
        },
    }
}

/// An operation whose evaluation has begun.
#[derive(Debug)]
pub enum Pending {
    /// The left branch is being evaluated; the right one waits.
    Left(Operator, Possible),
    /// The left branch is worth the value held; the right one is being
    /// evaluated.
    Right(u64, Operator),
}

/// Where an evaluation stands.
#[derive(Debug)]
pub enum Stage {
    /// A tree is to be evaluated.
    Descend(Possible),
    /// The host owes the result of a computation.
    Await(Computation),
    /// The evaluation has ended.
    Finished(Result<u64, CoreError>),
}

/// The evaluation of a tree, which stops wherever arithmetic is due and
/// goes on when the host supplies the result.
#[derive(Debug)]
pub struct Evaluation {
    pub pending: Vec<Pending>,
    pub stage: Stage,
}

/// What an evaluation asks of the host, or how it ended.
#[derive(Debug, PartialEq)]
pub enum Progress {
    Compute(Computation),
    Done(Result<u64, CoreError>),
}

/// The value of a result.
pub open spec fn result_model(r: Result<u64, CoreError>) -> Result<u64, Fault> {
    match r {
        Ok(v) => Ok(v),
        Err(e) => Err(e@),
    }
}

/// What the begun operations make of the result of the innermost branch.
pub open spec fn settled(pending: Seq<Pending>, r: Result<u64, Fault>, f: Arithmetic) -> Result<
    u64,
    Fault,
>
    decreases pending.len(),
{
    match r {
        Err(e) => Err(e),
        Ok(v) => if pending.len() == 0 {
            Ok(v)
        } else {
            match pending.last() {
                Pending::Left(o, right) => match value(right@, f) {
                    Err(e) => Err(e),
                    Ok(b) => settled(pending.drop_last(), applied(o, v, b, f), f),
                },
                Pending::Right(a, o) => settled(pending.drop_last(), applied(o, a, v, f), f),
            }
        },
    }
}

/// How much there is left to descend into.
pub open spec fn size(t: Tree) -> nat
    decreases t,
{
    match t {
        Tree::Leaf(_) => 1,
        Tree::Node(left, _, right) => 1 + size(*left) + size(*right),
    }
}

/// How much the begun operations have left to descend into.
pub open spec fn load(pending: Seq<Pending>) -> nat
    decreases pending.len(),
{
    if pending.len() == 0 {
        0
    } else {
        load(pending.drop_last()) + match pending.last() {
            Pending::Left(_, right) => 2 * size(right@) + 1,
            Pending::Right(_, _) => 0,
        }
    }
}

impl Evaluation {
    /// How the evaluation ends under the host's arithmetic.
    pub open spec fn outcome(&self, f: Arithmetic) -> Result<u64, Fault> {
        match self.stage {
            Stage::Descend(p) => settled(self.pending@, value(p@, f), f),
            Stage::Await(c) => settled(self.pending@, Ok(f(c)), f),
            Stage::Finished(r) => result_model(r),
        }
    }

    /// The computation that the host owes, if it owes one.
    pub open spec fn awaits(&self) -> Option<Computation> {
        match self.stage {
            Stage::Await(c) => Some(c),
            _ => None,
        }
    }

    /// Begins the evaluation of a tree.
    pub fn of(p: Possible) -> (r: Evaluation)
        ensures
            r.awaits() is None,
            forall|f: Arithmetic|
                #![trigger r.outcome(f)]
                #![trigger value(p@, f)]
                r.outcome(f) == value(p@, f),
    {
        Evaluation { pending: Vec::new(), stage: Stage::Descend(p) }
    }

    /// Hands a value to the innermost begun operation.
    fn deliver(pending: Vec<Pending>, v: u64) -> (r: Evaluation)
        ensures
            forall|f: Arithmetic|
                #![trigger r.outcome(f)]
                #![trigger settled(pending@, Ok(v), f)]
                r.outcome(f) == settled(pending@, Ok(v), f),
            r.stage is Descend ==> load(r.pending@) + 2 * size(r.stage->Descend_0@) + 1 <= load(
                pending@,
            ),
    {
        let mut pending = pending;
        let ghost before = pending@;
        match pending.pop() {
            None => {
                Evaluation { pending, stage: Stage::Finished(Ok(v)) }
            },
            Some(Pending::Left(o, right)) => {
                assert(before.drop_last() =~= pending@);
                pending.push(Pending::Right(v, o));
                proof {
                    let now = pending@;
                    assert(now.drop_last() =~= before.drop_last());
                    assert(now.last() == Pending::Right(v, o));
                    assert forall|f: Arithmetic| #[trigger]
                        settled(now, value(right@, f), f) == settled(before, Ok(v), f) by {
                        match value(right@, f) {
                            Err(e) => {},
                            Ok(b) => {},
                        }
                    }
                    assert(load(now) == load(before.drop_last()));
                }
                Evaluation { pending, stage: Stage::Descend(right) }
            },
            Some(Pending::Right(a, o)) => {
                assert(before.drop_last() =~= pending@);
                let step = o.operate(a, v);
                let r = match step {
                    Err(e) => Evaluation { pending, stage: Stage::Finished(Err(e)) },
                    Ok(c) => Evaluation { pending, stage: Stage::Await(c) },
                };
                assert forall|f: Arithmetic| #[trigger]
                    r.outcome(f) == settled(before, Ok(v), f) by {
                    let next = applied(o, a, v, f);
                    assert(settled(before, Ok(v), f) == settled(before.drop_last(), next, f));
                    if next is Err {
                        assert(settled(before.drop_last(), next, f) == next);
                    }
                }
                r
            },
        }
    }

    /// Goes on until the host owes a computation or the evaluation ends.
    ///
    /// Whatever the host's arithmetic, the outcome stays what it was. When
    /// a computation comes back, the evaluation awaits its result; when the
    /// end comes back, it is the outcome under every arithmetic. While a
    /// computation is owed, the same one comes back and nothing changes.
    pub fn advance(self) -> (r: (Evaluation, Progress))
        ensures
            forall|f: Arithmetic|
                #![trigger r.0.outcome(f)]
                #![trigger self.outcome(f)]
                r.0.outcome(f) == self.outcome(f),
            match r.1 {
                Progress::Compute(c) => r.0.awaits() == Some(c),
                Progress::Done(end) => r.0.awaits() is None && forall|f: Arithmetic| #[trigger]
                    self.outcome(f) == result_model(end),
            },
            self.awaits() is Some ==> r.0 == self,
    {
        let mut now = self;
        loop
            invariant
                forall|f: Arithmetic|
                    #![trigger now.outcome(f)]
                    #![trigger self.outcome(f)]
                    now.outcome(f) == self.outcome(f),
                self.awaits() is Some ==> now == self,
            decreases
                    match now.stage {
                        Stage::Descend(p) => load(now.pending@) + 2 * size(p@),
                        _ => 0,
                    },
        {
            let Evaluation { pending, stage } = now;
            match stage {
                Stage::Finished(end) => {
                    let copy = match &end {
                        Ok(v) => Ok(*v),
                        Err(e) => Err(e.duplicate()),
                    };
                    let ended = Evaluation { pending, stage: Stage::Finished(end) };
                    return (ended, Progress::Done(copy));
                },
                Stage::Await(c) => {
                    return (Evaluation { pending, stage: Stage::Await(c) }, Progress::Compute(c));
                },
                Stage::Descend(Possible::PossExpression(e)) => {
                    let ghost before = pending@;
                    let mut pending = pending;
                    let Expression { a, o, b } = *e;
                    pending.push(Pending::Left(o, *b));
                    proof {
                        let after = pending@;
                        assert(after.drop_last() =~= before);
                        assert forall|f: Arithmetic| #[trigger]
                            settled(after, value(a@, f), f) == settled(
                                before,
                                value(Possible::PossExpression(e)@, f),
                                f,
                            ) by {
                            match value(a@, f) {
                                Err(x) => {},
                                Ok(v) => {
                                    match value(b@, f) {
                                        Err(x) => {},
                                        Ok(w) => {},
                                    }
                                },
                            }
                        }
                    }
                    now = Evaluation { pending, stage: Stage::Descend(*a) };
                },
                Stage::Descend(Possible::PossToken(Token::Number(v))) => {
                    now = Evaluation::deliver(pending, v);
                },
                Stage::Descend(Possible::PossToken(_)) => {
                    now = Evaluation { pending, stage: Stage::Finished(Err(CoreError::Malformed)) };
                },
            }
        }
    }

    /// Takes the result of the computation that the host owed.
    ///
    /// The answer stands in for the computation: under every arithmetic,
    /// the evaluation now ends with what the begun operations make of the
    /// answer. So under every arithmetic that gives this result for that
    /// computation, the outcome stays what it was. Where nothing was owed,
    /// nothing changes.
    pub fn supply(self, answer: u64) -> (r: Evaluation)
        ensures
            self.awaits() is Some ==> forall|f: Arithmetic|
                #![trigger r.outcome(f)]
                r.outcome(f) == settled(self.pending@, Ok(answer), f),
            self.awaits() matches Some(c) ==> forall|f: Arithmetic|
                #![trigger r.outcome(f)]
                #![trigger self.outcome(f)]
                f(c) == answer ==> r.outcome(f) == self.outcome(f),
            self.awaits() is None ==> r == self,
    {
        let Evaluation { pending, stage } = self;
        match stage {
            Stage::Await(_) => Evaluation::deliver(pending, answer),
            other => Evaluation { pending, stage: other },
        }
    }
}

impl Expression {
    /// Begins the evaluation of the operation.
    pub fn solve(self) -> (r: Evaluation)
        ensures
            r.awaits() is None,
            forall|f: Arithmetic|
                #![trigger r.outcome(f)]
                #![trigger value(self@, f)]
                r.outcome(f) == value(self@, f),
    {
        Evaluation::of(Possible::expression(self))
    }
}

} // verus!
