//! The frames of a running line and their moves.
//!
//! A line runs as a stack of frames. Each move takes the innermost frame,
//! does a bounded piece of its work, and puts back the frames that take its
//! place, together with what it asks of the host.

use vstd::prelude::*;
use vstd::string::StringExecFns;
use crate::error::{CoreError, Fault};
use crate::evaluation::{result_model, settled, Arithmetic, Evaluation, Progress};
use crate::line_type::{bodies, classified, construct_line_type, Line, LineType};
use crate::memory::{Memory, Store};
use crate::runner::{looked_up, result, worth, LineResult, Shown};
use crate::tokenizer::{
    clone_tokens, lexemes, models, numeral_texts, numerals, numerals_before, texts, tokenize_num,
    valued, Compare, Computation, Lexeme, Operation, Tok, Token,
};

verus! {

broadcast use vstd::std_specs::vec::group_vec_axioms;

/// The body of a conditional or of a loop.
#[derive(Debug)]
pub enum Body {
    /// The lines of a conditional, each classified when its turn comes.
    Once(Vec<Vec<Token>>),
    /// The lines of a loop, classified once, before the first round.
    Repeat(Vec<LineType>),
}

/// A condition and what it guards.
#[derive(Debug)]
pub struct Guard {
    pub left: Vec<Token>,
    pub compare: Compare,
    pub right: Vec<Token>,
    pub body: Body,
}

/// A step of a running line that has begun and not ended.
#[derive(Debug)]
pub enum Frame {
    /// The lexemes of the line, whose numerals the host has yet to read.
    Read(Vec<Lexeme>),
    /// A statement that is about to run.
    Start(LineType),
    /// An assignment whose right side is being evaluated.
    Assign(String, Operation, Evaluation),
    /// A compound assignment that waits for the host to combine the old
    /// value with the new one; the answer once it is there.
    Combine(String, Computation, Option<u64>),
    /// A print: the values, how many of them the host has formatted, and the
    /// text so far.
    Print(Vec<u64>, usize, String),
    /// A condition whose left side is being evaluated.
    Left(Guard, Evaluation),
    /// A condition whose left side has the value held and whose right side
    /// is being evaluated.
    Right(Guard, u64, Evaluation),
    /// A body that runs: the line at the position held comes next.
    Lines(Guard, usize),
}

/// What the host is asked to do next.
#[derive(Debug, PartialEq)]
pub enum Request {
    /// Read these numerals and reply with their values, in order.
    Parse(Vec<String>),
    /// Carry out this computation and reply with its result.
    Compute(Computation),
    /// Format this value and reply with its text.
    Format(u64),
    /// Show the output of a line of a body.
    Show(String),
    /// Report the failure of a line of a body, which is skipped.
    Report(CoreError),
    /// Nothing: go on.
    Continue,
    /// The line has ended with this result.
    Finished(Result<LineResult, CoreError>),
}

/// What the host replies.
#[derive(Debug, PartialEq)]
pub enum Reply {
    Numbers(Vec<u64>),
    Number(u64),
    Text(String),
}

/// How a statement or a line ended, if it has.
pub type Returned = Option<Result<LineResult, CoreError>>;

/// One move of a session: the frames that take the place of the innermost
/// one, the result handed down, and what the host is asked.
pub struct Move {
    pub frames: Vec<Frame>,
    pub returned: Returned,
    pub request: Request,
}

/// One move as the contracts see it.
pub struct Step {
    pub frames: Seq<Frame>,
    pub returned: Returned,
    pub request: Request,
}

impl View for Move {
    type V = Step;

    open spec fn view(&self) -> Step {
        Step { frames: self.frames@, returned: self.returned, request: self.request }
    }
}

/// The value of a statement's end.
pub open spec fn end_model(r: Result<LineResult, CoreError>) -> Result<Shown, Fault> {
    match r {
        Ok(l) => Ok(l@),
        Err(e) => Err(e@),
    }
}

/// Whether a move ends the innermost step with the given result and asks
/// nothing of the host.
pub open spec fn ends(mv: Step, end: Result<Shown, Fault>) -> bool {
    &&& mv.frames.len() == 0
    &&& mv.returned matches Some(r)
    &&& end_model(r) == end
    &&& mv.request is Continue
}

/// Whether a move puts one frame in the place of the innermost step, hands
/// nothing down and asks what is given.
pub open spec fn puts(mv: Step, frame: Frame, request: Request) -> bool {
    &&& mv.frames == seq![frame]
    &&& mv.returned is None
    &&& mv.request == request
}

/// Whether an evaluation has just begun on the tokens, against the store.
pub open spec fn begun(ev: Evaluation, store: Store, s: Seq<Tok>) -> bool {
    &&& ev.awaits() is None
    &&& forall|f: Arithmetic| #[trigger] ev.outcome(f) == worth(store, s, f)
}

/// The values of the names of a print, or the failure of the first name
/// that the store does not hold.
pub open spec fn looked_up_all(store: Store, names: Seq<Seq<char>>, i: int) -> Result<
    Seq<u64>,
    Fault,
>
    decreases names.len() - i,
{
    if i < 0 || i >= names.len() {
        Ok(Seq::empty())
    } else {
        match looked_up(store, names[i]) {
            Err(e) => Err(e),
            Ok(v) => match looked_up_all(store, names, i + 1) {
                Err(e) => Err(e),
                Ok(more) => Ok(seq![v] + more),
            },
        }
    }
}

/// The statements of the lines of a body, or the failure of the first line
/// that is none.
pub open spec fn classified_all(lines: Seq<Seq<Tok>>, i: int) -> Result<Seq<Line>, Fault>
    decreases lines.len() - i,
{
    if i < 0 || i >= lines.len() {
        Ok(Seq::empty())
    } else {
        match classified(lines[i]) {
            Err(e) => Err(e),
            Ok(l) => match classified_all(lines, i + 1) {
                Err(e) => Err(e),
                Ok(more) => Ok(seq![l] + more),
            },
        }
    }
}

/// The values of a sequence of statements.
pub open spec fn line_models(s: Seq<LineType>) -> Seq<Line> {
    Seq::new(s.len(), |i: int| s[i]@)
}

/// What a statement that is about to run does.
///
/// Nothing ends at once. A print looks its names up and begins to format
/// their values. An assignment begins to evaluate its right side, a
/// conditional its left side. A loop classifies the lines of its body,
/// once, and begins to evaluate its left side.
pub open spec fn starts(line: LineType, store: Store, mv: Step) -> bool {
    match line {
        LineType::Nothing => ends(mv, Ok(Shown::Nothing)),
        LineType::Out(names) => match looked_up_all(store, texts(names@), 0) {
            Err(e) => ends(mv, Err(e)),
            Ok(values) => {
                &&& mv.frames.len() == 1
                &&& mv.frames[0] matches Frame::Print(v, done, text)
                &&& v@ == values
                &&& done == 0
                &&& text@ == Seq::<char>::empty()
                &&& mv.returned is None
                &&& mv.request is Continue
            },
        },
        LineType::VarOperate(var, op, ex) => {
            &&& mv.frames.len() == 1
            &&& mv.frames[0] matches Frame::Assign(v, o, ev)
            &&& v == var
            &&& o == op
            &&& begun(ev, store, models(ex@))
            &&& mv.returned is None
            &&& mv.request is Continue
        },
        LineType::If(a, c, b, body) => {
            &&& mv.frames.len() == 1
            &&& mv.frames[0] matches Frame::Left(g, ev)
            &&& g == (Guard { left: a, compare: c, right: b, body: Body::Once(body) })
            &&& begun(ev, store, models(a@))
            &&& mv.returned is None
            &&& mv.request is Continue
        },
        LineType::While(a, c, b, body) => match classified_all(bodies(body@), 0) {
            Err(e) => ends(mv, Err(e)),
            Ok(lines) => {
                &&& mv.frames.len() == 1
                &&& mv.frames[0] matches Frame::Left(g, ev)
                &&& g.left == a
                &&& g.compare == c
                &&& g.right == b
                &&& g.body matches Body::Repeat(ready)
                &&& line_models(ready@) == lines
                &&& begun(ev, store, models(a@))
                &&& mv.returned is None
                &&& mv.request is Continue
            },
        },
    }
}

/// Looks up the values of the names of a print.
pub(crate) fn look_up_all(memory: &Memory, names: &Vec<String>) -> (r: Result<Vec<u64>, CoreError>)
    ensures
        match r {
            Ok(v) => looked_up_all(memory@, texts(names@), 0) == Ok::<Seq<u64>, Fault>(v@),
            Err(e) => looked_up_all(memory@, texts(names@), 0) == Err::<Seq<u64>, Fault>(e@),
        },
{
    let ghost all = texts(names@);
    let ghost store = memory@;
    let mut values: Vec<u64> = Vec::new();
    let mut i: usize = 0;
    assert(looked_up_all(store, all, 0) is Ok ==> values@ + looked_up_all(store, all, 0)->Ok_0
        =~= looked_up_all(store, all, 0)->Ok_0);
    while i < names.len()
        invariant
            i <= names.len(),
            all == texts(names@),
            store == memory@,
            looked_up_all(store, all, 0) == match looked_up_all(store, all, i as int) {
                Err(e) => Err::<Seq<u64>, Fault>(e),
                Ok(more) => Ok(values@ + more),
            },
        decreases names.len() - i,
    {
        let ghost before = values@;
        let ghost rest = looked_up_all(store, all, i + 1);
        match memory.get(names[i].as_str()) {
            Some(v) => {
                values.push(v);
                proof {
                    if rest is Ok {
                        assert(before + (seq![v] + rest->Ok_0) =~= before.push(v) + rest->Ok_0);
                    }
                }
            },
            None => {
                return Err(CoreError::UnknownVariable(names[i].clone()));
            },
        }
        i += 1;
    }
    assert(values@ + Seq::<u64>::empty() =~= values@);
    Ok(values)
}

/// The end of an evaluation under the arithmetic that answers zero to
/// everything: the end under every arithmetic, where the end is settled.
pub open spec fn constant(ev: Evaluation) -> Result<u64, Fault> {
    ev.outcome(|c: Computation| 0u64)
}

/// Whether an evaluation ends the same under every arithmetic.
pub open spec fn is_settled(ev: Evaluation) -> bool {
    forall|f: Arithmetic| #[trigger] ev.outcome(f) == constant(ev)
}

/// Whether `next` is `ev` gone on to where it awaits the computation.
pub open spec fn asks(ev: Evaluation, next: Evaluation, c: Computation) -> bool {
    &&& next.awaits() == Some(c)
    &&& forall|f: Arithmetic| #[trigger] next.outcome(f) == ev.outcome(f)
    &&& ev.awaits() is Some ==> next == ev
}

/// Whether `next` is `ev` after the host answered the computation that it
/// awaited: the answer stands in for the computation, so that `next` ends
/// with what the begun operations of `ev` make of the answer, and as `ev`
/// does under every arithmetic that gives this answer.
pub open spec fn answered(ev: Evaluation, next: Evaluation, answer: u64) -> bool {
    &&& ev.awaits() matches Some(c)
    &&& forall|f: Arithmetic| #[trigger] next.outcome(f) == settled(ev.pending@, Ok(answer), f)
    &&& forall|f: Arithmetic| f(c) == answer ==> #[trigger] next.outcome(f) == ev.outcome(f)
}

/// What an assignment does once its right side goes on.
///
/// While arithmetic is due, it asks for it. Once the right side is worth a
/// number, plain assignment stores it; compound assignment looks the old
/// value up, fails where there is none, and else asks the host to combine
/// the two. A failure of the right side ends the assignment.
pub open spec fn assigns(
    var: String,
    op: Operation,
    ev: Evaluation,
    store: Store,
    after: Store,
    mv: Step,
) -> bool {
    match mv.request {
        Request::Compute(c) => {
            &&& after == store
            &&& mv.returned is None
            &&& mv.frames.len() == 1
            &&& mv.frames[0] matches Frame::Assign(v, o, next)
            &&& v == var
            &&& o == op
            &&& asks(ev, next, c)
        },
        Request::Continue => is_settled(ev) && match constant(ev) {
            Err(e) => after == store && ends(mv, Err(e)),
            Ok(num) => match op {
                Operation::Assign => after == store.insert(var@, num) && ends(
                    mv,
                    Ok(Shown::Nothing),
                ),
                _ => after == store && match looked_up(store, var@) {
                    Err(e) => ends(mv, Err(e)),
                    Ok(old) => puts(
                        mv,
                        Frame::Combine(
                            var,
                            Computation { operator: op.combiner(), left: old, right: num },
                            None,
                        ),
                        Request::Continue,
                    ),
                },
            },
        },
        _ => false,
    }
}

/// What a compound assignment does: it asks the host to combine the two
/// values, and stores the answer once it is there.
pub open spec fn combines(
    var: String,
    c: Computation,
    answer: Option<u64>,
    store: Store,
    after: Store,
    mv: Step,
) -> bool {
    match answer {
        None => after == store && puts(mv, Frame::Combine(var, c, None), Request::Compute(c)),
        Some(v) => after == store.insert(var@, v) && ends(mv, Ok(Shown::Nothing)),
    }
}

/// What a print does: it asks for the text of the next value, and ends with
/// the whole text once all values are formatted.
pub open spec fn prints(values: Vec<u64>, done: usize, text: String, mv: Step) -> bool {
    if done < values@.len() {
        puts(mv, Frame::Print(values, done, text), Request::Format(values@[done as int]))
    } else {
        ends(mv, Ok(Shown::Output(text@)))
    }
}

/// What a condition does while its left side is evaluated: once the left
/// side is worth a number, the right side begins.
pub open spec fn tests_left(g: Guard, ev: Evaluation, store: Store, mv: Step) -> bool {
    match mv.request {
        Request::Compute(c) => {
            &&& mv.returned is None
            &&& mv.frames.len() == 1
            &&& mv.frames[0] matches Frame::Left(h, next)
            &&& h == g
            &&& asks(ev, next, c)
        },
        Request::Continue => is_settled(ev) && match constant(ev) {
            Err(e) => ends(mv, Err(e)),
            Ok(x) => {
                &&& mv.returned is None
                &&& mv.frames.len() == 1
                &&& mv.frames[0] matches Frame::Right(h, y, next)
                &&& h == g
                &&& y == x
                &&& begun(next, store, models(g.right@))
            },
        },
        _ => false,
    }
}

/// What a condition does while its right side is evaluated: once both
/// sides are worth numbers, the body runs if the comparison holds, and the
/// statement ends with nothing if it does not.
pub open spec fn tests_right(g: Guard, x: u64, ev: Evaluation, mv: Step) -> bool {
    match mv.request {
        Request::Compute(c) => {
            &&& mv.returned is None
            &&& mv.frames.len() == 1
            &&& mv.frames[0] matches Frame::Right(h, y, next)
            &&& h == g
            &&& y == x
            &&& asks(ev, next, c)
        },
        Request::Continue => is_settled(ev) && match constant(ev) {
            Err(e) => ends(mv, Err(e)),
            Ok(y) => if g.compare.holds(x, y) {
                puts(mv, Frame::Lines(g, 0), Request::Continue)
            } else {
                ends(mv, Ok(Shown::Nothing))
            },
        },
        _ => false,
    }
}

/// Whether a move lets the body go on behind the line at `next` and starts
/// a statement of the given value.
pub open spec fn enters(g: Guard, next: usize, l: Line, mv: Step) -> bool {
    &&& mv.frames.len() == 2
    &&& mv.frames[0] == Frame::Lines(g, (next + 1) as usize)
    &&& mv.frames[1] matches Frame::Start(lt)
    &&& lt@ == l
    &&& mv.returned is None
    &&& mv.request is Continue
}

/// What a running body does.
///
/// Handed the end of a line, it has its output shown or its failure
/// reported, and goes on. Else it starts the next line: that of a
/// conditional is classified now, and where that fails the failure is
/// reported and the line skipped; that of a loop was classified before.
/// Behind the last line a conditional ends with nothing, and a loop
/// evaluates its condition again.
pub open spec fn runs(
    g: Guard,
    next: usize,
    handed: Returned,
    store: Store,
    mv: Step,
) -> bool {
    match handed {
        Some(r) => {
            &&& mv.frames == seq![Frame::Lines(g, next)]
            &&& mv.returned is None
            &&& match r {
                Ok(LineResult::Output(t)) => mv.request == Request::Show(t),
                Ok(LineResult::Nothing) => mv.request is Continue,
                Err(e) => mv.request == Request::Report(e),
            }
        },
        None => match g.body {
            Body::Once(lines) => if next < lines@.len() {
                match classified(models(lines@[next as int]@)) {
                    Err(e) => {
                        &&& mv.frames == seq![Frame::Lines(g, (next + 1) as usize)]
                        &&& mv.returned is None
                        &&& mv.request matches Request::Report(x)
                        &&& x@ == e
                    },
                    Ok(l) => enters(g, next, l, mv),
                }
            } else {
                ends(mv, Ok(Shown::Nothing))
            },
            Body::Repeat(ready) => if next < ready@.len() {
                enters(g, next, ready@[next as int]@, mv)
            } else {
                &&& mv.frames.len() == 1
                &&& mv.frames[0] matches Frame::Left(h, ev)
                &&& h == g
                &&& begun(ev, store, models(g.left@))
                &&& mv.returned is None
                &&& mv.request is Continue
            },
        },
    }
}

/// What the tokens of a line do: they are classified, and the statement is
/// about to run, or the failure ends the line.
pub open spec fn lexed(tokens: Seq<Tok>, mv: Step) -> bool {
    match classified(tokens) {
        Err(e) => ends(mv, Err(e)),
        Ok(l) => {
            &&& mv.frames.len() == 1
            &&& mv.frames[0] matches Frame::Start(lt)
            &&& lt@ == l
            &&& mv.returned is None
            &&& mv.request is Continue
        },
    }
}

/// How many numerals the lexemes hold.
pub open spec fn numeral_count(found: Seq<Lexeme>) -> nat {
    numerals_before(lexemes(found), found.len() as int)
}

/// What the lexemes of a line do: without numerals they are tokens at
/// once; with numerals the host is asked to read them.
pub open spec fn reads(found: Vec<Lexeme>, mv: Step) -> bool {
    if numeral_count(found@) == 0 {
        lexed(valued(lexemes(found@), Seq::empty()), mv)
    } else {
        &&& mv.frames == seq![Frame::Read(found)]
        &&& mv.returned is None
        &&& mv.request matches Request::Parse(ts)
        &&& texts(ts@) == numeral_texts(
            lexemes(found@),
            found@.len() as int,
        )
    }
}

/// What one move of a session does, by its innermost frame: to the store,
/// to the frame, to the result handed down, and what it asks of the host.
pub open spec fn moved(
    top: Frame,
    handed: Returned,
    store: Store,
    after: Store,
    mv: Step,
) -> bool {
    match top {
        Frame::Read(found) => after == store && reads(found, mv),
        Frame::Start(line) => after == store && starts(line, store, mv),
        Frame::Assign(var, op, ev) => assigns(var, op, ev, store, after, mv),
        Frame::Combine(var, c, answer) => combines(var, c, answer, store, after, mv),
        Frame::Print(values, done, text) => after == store && prints(values, done, text, mv),
        Frame::Left(g, ev) => after == store && tests_left(g, ev, store, mv),
        Frame::Right(g, x, ev) => after == store && tests_right(g, x, ev, mv),
        Frame::Lines(g, next) => after == store && runs(g, next, handed, store, mv),
    }
}

/// Copies a sequence of texts.
pub(crate) fn clone_texts(names: &Vec<String>) -> (r: Vec<String>)
    ensures
        texts(r@) == texts(names@),
{
    let mut out: Vec<String> = Vec::new();
    let mut i: usize = 0;
    while i < names.len()
        invariant
            i <= names.len(),
            out@.len() == i,
            forall|j: int| 0 <= j < i ==> out@[j]@ == names@[j]@,
        decreases names.len() - i,
    {
        out.push(names[i].clone());
        i += 1;
    }
    assert(texts(out@) =~= texts(names@));
    out
}

/// Copies all tokens of a sequence.
pub(crate) fn clone_all(tokens: &Vec<Token>) -> (r: Vec<Token>)
    ensures
        models(r@) == models(tokens@),
{
    let r = clone_tokens(tokens, 0, tokens.len());
    assert(models(tokens@).subrange(0, tokens@.len() as int) =~= models(tokens@));
    r
}

/// Copies the lines of a body.
pub(crate) fn clone_body(body: &Vec<Vec<Token>>) -> (r: Vec<Vec<Token>>)
    ensures
        bodies(r@) == bodies(body@),
{
    let mut out: Vec<Vec<Token>> = Vec::new();
    let mut i: usize = 0;
    while i < body.len()
        invariant
            i <= body.len(),
            out@.len() == i,
            forall|j: int| 0 <= j < i ==> models(out@[j]@) == models(body@[j]@),
        decreases body.len() - i,
    {
        out.push(clone_all(&body[i]));
        i += 1;
    }
    assert(bodies(out@) =~= bodies(body@));
    out
}

/// Copies a statement.
pub fn clone_line(line: &LineType) -> (r: LineType)
    ensures
        r@ == line@,
{
    match line {
        LineType::Nothing => LineType::Nothing,
        LineType::Out(names) => LineType::Out(clone_texts(names)),
        LineType::VarOperate(var, op, ex) => LineType::VarOperate(var.clone(), *op, clone_all(ex)),
        LineType::If(a, c, b, body) => LineType::If(
            clone_all(a),
            *c,
            clone_all(b),
            clone_body(body),
        ),
        LineType::While(a, c, b, body) => LineType::While(
            clone_all(a),
            *c,
            clone_all(b),
            clone_body(body),
        ),
    }
}

/// Classifies the lines of a body, in order.
pub(crate) fn classify_all(body: &Vec<Vec<Token>>) -> (r: Result<Vec<LineType>, CoreError>)
    ensures
        match r {
            Ok(ready) => classified_all(bodies(body@), 0) == Ok::<Seq<Line>, Fault>(
                line_models(ready@),
            ),
            Err(e) => classified_all(bodies(body@), 0) == Err::<Seq<Line>, Fault>(e@),
        },
{
    let ghost all = bodies(body@);
    let mut ready: Vec<LineType> = Vec::new();
    let mut i: usize = 0;
    assert(line_models(ready@) =~= Seq::<Line>::empty());
    assert(classified_all(all, 0) is Ok ==> Seq::<Line>::empty() + classified_all(all, 0)->Ok_0
        =~= classified_all(all, 0)->Ok_0);
    while i < body.len()
        invariant
            i <= body.len(),
            all == bodies(body@),
            classified_all(all, 0) == match classified_all(all, i as int) {
                Err(e) => Err::<Seq<Line>, Fault>(e),
                Ok(more) => Ok(line_models(ready@) + more),
            },
        decreases body.len() - i,
    {
        let ghost before = line_models(ready@);
        let ghost rest = classified_all(all, i + 1);
        match construct_line_type(clone_all(&body[i])) {
            Err(e) => {
                return Err(e);
            },
            Ok(line) => {
                proof {
                    assert(line_models(ready@.push(line)) =~= before.push(line@));
                    if rest is Ok {
                        assert(before + (seq![line@] + rest->Ok_0) =~= before.push(line@)
                            + rest->Ok_0);
                    }
                }
                ready.push(line);
            },
        }
        i += 1;
    }
    assert(line_models(ready@) + Seq::<Line>::empty() =~= line_models(ready@));
    Ok(ready)
}

/// A move that ends the innermost step.
pub(crate) fn end(r: Result<LineResult, CoreError>) -> (mv: Move)
    ensures
        ends(mv@, end_model(r)),
        mv.returned == Some(r),
{
    Move { frames: Vec::new(), returned: Some(r), request: Request::Continue }
}

/// A move that puts one frame in the place of the innermost step.
pub(crate) fn put(frame: Frame, request: Request) -> (mv: Move)
    ensures
        puts(mv@, frame, request),
{
    let mut frames: Vec<Frame> = Vec::new();
    frames.push(frame);
    Move { frames, returned: None, request }
}

/// Runs a statement that is about to run.
pub(crate) fn start(line: LineType, memory: &Memory) -> (mv: Move)
    ensures
        starts(line, memory@, mv@),
{
    match line {
        LineType::Nothing => end(Ok(LineResult::Nothing)),
        LineType::Out(names) => match look_up_all(memory, &names) {
            Err(e) => end(Err(e)),
            Ok(values) => put(Frame::Print(values, 0, String::new()), Request::Continue),
        },
        LineType::VarOperate(var, op, ex) => {
            let ev = result(memory, &ex);
            put(Frame::Assign(var, op, ev), Request::Continue)
        },
        LineType::If(a, c, b, body) => {
            let ev = result(memory, &a);
            put(
                Frame::Left(Guard { left: a, compare: c, right: b, body: Body::Once(body) }, ev),
                Request::Continue,
            )
        },
        LineType::While(a, c, b, body) => match classify_all(&body) {
            Err(e) => end(Err(e)),
            Ok(ready) => {
                let ev = result(memory, &a);
                put(
                    Frame::Left(
                        Guard { left: a, compare: c, right: b, body: Body::Repeat(ready) },
                        ev,
                    ),
                    Request::Continue,
                )
            },
        },
    }
}

/// Lets an evaluation go on, and says whether it has ended.
pub(crate) fn go_on(ev: Evaluation) -> (r: (Evaluation, Progress))
    ensures
        match r.1 {
            Progress::Compute(c) => asks(ev, r.0, c),
            Progress::Done(end) => is_settled(ev) && constant(ev) == result_model(
                end,
            ),
        },
{
    let (next, progress) = ev.advance();
    proof {
        if progress is Done {
            let zero: Arithmetic = |c: Computation| 0u64;
            assert(ev.outcome(zero) == result_model(progress->Done_0));
        }
    }
    (next, progress)
}

/// Lets an assignment go on.
pub(crate) fn assign(var: String, op: Operation, ev: Evaluation, memory: &mut Memory) -> (mv: Move)
    ensures
        assigns(var, op, ev, old(memory)@, final(memory)@, mv@),
{
    let (next, progress) = go_on(ev);
    match progress {
        Progress::Compute(c) => put(Frame::Assign(var, op, next), Request::Compute(c)),
        Progress::Done(Err(e)) => end(Err(e)),
        Progress::Done(Ok(num)) => match op {
            Operation::Assign => {
                memory.insert(var, num);
                end(Ok(LineResult::Nothing))
            },
            _ => match memory.get(var.as_str()) {
                None => end(Err(CoreError::UnknownVariable(var))),
                Some(old_value) => put(
                    Frame::Combine(
                        var,
                        Computation { operator: op.operator(), left: old_value, right: num },
                        None,
                    ),
                    Request::Continue,
                ),
            },
        },
    }
}

/// Lets a compound assignment go on.
pub(crate) fn combine(
    var: String,
    c: Computation,
    answer: Option<u64>,
    memory: &mut Memory,
) -> (mv: Move)
    ensures
        combines(var, c, answer, old(memory)@, final(memory)@, mv@),
{
    match answer {
        None => put(Frame::Combine(var, c, None), Request::Compute(c)),
        Some(v) => {
            memory.insert(var, v);
            end(Ok(LineResult::Nothing))
        },
    }
}

/// Lets a print go on.
pub(crate) fn print(values: Vec<u64>, done: usize, text: String) -> (mv: Move)
    ensures
        prints(values, done, text, mv@),
{
    if done < values.len() {
        let v = values[done];
        put(Frame::Print(values, done, text), Request::Format(v))
    } else {
        end(Ok(LineResult::Output(text)))
    }
}

/// Lets the left side of a condition go on.
pub(crate) fn test_left(g: Guard, ev: Evaluation, memory: &Memory) -> (mv: Move)
    ensures
        tests_left(g, ev, memory@, mv@),
{
    let (next, progress) = go_on(ev);
    match progress {
        Progress::Compute(c) => put(Frame::Left(g, next), Request::Compute(c)),
        Progress::Done(Err(e)) => end(Err(e)),
        Progress::Done(Ok(x)) => {
            let right = result(memory, &g.right);
            put(Frame::Right(g, x, right), Request::Continue)
        },
    }
}

/// Lets the right side of a condition go on.
pub(crate) fn test_right(g: Guard, x: u64, ev: Evaluation) -> (mv: Move)
    ensures
        tests_right(g, x, ev, mv@),
{
    let (next, progress) = go_on(ev);
    match progress {
        Progress::Compute(c) => put(Frame::Right(g, x, next), Request::Compute(c)),
        Progress::Done(Err(e)) => end(Err(e)),
        Progress::Done(Ok(y)) => {
            if g.compare.compare(x, y) {
                put(Frame::Lines(g, 0), Request::Continue)
            } else {
                end(Ok(LineResult::Nothing))
            }
        },
    }
}

/// A move that lets the body go on behind the line at `next` and starts a
/// statement.
pub(crate) fn enter(g: Guard, next: usize, line: LineType) -> (mv: Move)
    requires
        next < usize::MAX,
    ensures
        enters(g, next, line@, mv@),
{
    let mut frames: Vec<Frame> = Vec::new();
    frames.push(Frame::Lines(g, next + 1));
    frames.push(Frame::Start(line));
    Move { frames, returned: None, request: Request::Continue }
}

/// Lets a running body go on.
pub(crate) fn run_lines(g: Guard, next: usize, handed: Returned, memory: &Memory) -> (mv: Move)
    ensures
        runs(g, next, handed, memory@, mv@),
{
    match handed {
        Some(r) => {
            let request = match r {
                Ok(LineResult::Output(t)) => Request::Show(t),
                Ok(LineResult::Nothing) => Request::Continue,
                Err(e) => Request::Report(e),
            };
            put(Frame::Lines(g, next), request)
        },
        None => {
            let started: Option<Result<LineType, CoreError>> = match &g.body {
                Body::Once(lines) => if next < lines.len() {
                    Some(construct_line_type(clone_all(&lines[next])))
                } else {
                    None
                },
                Body::Repeat(ready) => if next < ready.len() {
                    Some(Ok(clone_line(&ready[next])))
                } else {
                    None
                },
            };
            match started {
                Some(Err(e)) => put(Frame::Lines(g, next + 1), Request::Report(e)),
                Some(Ok(line)) => enter(g, next, line),
                None => {
                    match &g.body {
                        Body::Once(_) => end(Ok(LineResult::Nothing)),
                        Body::Repeat(_) => {
                            let ev = result(memory, &g.left);
                            put(Frame::Left(g, ev), Request::Continue)
                        },
                    }
                },
            }
        },
    }
}

/// Classifies the tokens of a line.
fn enter_line(tokens: Vec<Token>) -> (mv: Move)
    ensures
        lexed(models(tokens@), mv@),
{
    match construct_line_type(tokens) {
        Err(e) => end(Err(e)),
        Ok(line) => put(Frame::Start(line), Request::Continue),
    }
}

/// Lets the lexemes of a line go on.
pub(crate) fn read(found: Vec<Lexeme>) -> (mv: Move)
    ensures
        reads(found, mv@),
{
    let numerals = numerals(&found);
    if numerals.len() == 0 {
        let none: Vec<u64> = Vec::new();
        match tokenize_num(&found, &none) {
            Some(tokens) => enter_line(tokens),
            None => end(Ok(LineResult::Nothing)),
        }
    } else {
        put(Frame::Read(found), Request::Parse(numerals))
    }
}

/// The text of a print after one more value: the text of the first value
/// alone, and each later one behind a colon.
pub open spec fn appended(text: Seq<char>, done: usize, more: Seq<char>) -> Seq<char> {
    if done == 0 {
        more
    } else {
        text + seq![':'] + more
    }
}

/// What a reply does to the innermost frame.
///
/// A number answers the computation that an evaluation awaits, or that a
/// compound assignment asked for. A text is the next formatted value of a
/// print. Numbers, one for each numeral, turn the lexemes of a line into
/// tokens, which are classified. Any other reply changes nothing.
pub open spec fn supplied(
    top: Frame,
    reply: Reply,
    handed: Returned,
    frames: Seq<Frame>,
    returned: Returned,
) -> bool {
    let kept = frames == seq![top] && returned == handed;
    match top {
        Frame::Assign(var, op, ev) => if reply is Number && ev.awaits() is Some {
            &&& returned == handed
            &&& frames.len() == 1
            &&& frames[0] matches Frame::Assign(w, o, next)
            &&& w == var
            &&& o == op
            &&& answered(ev, next, reply->Number_0)
        } else {
            kept
        },
        Frame::Left(g, ev) => if reply is Number && ev.awaits() is Some {
            &&& returned == handed
            &&& frames.len() == 1
            &&& frames[0] matches Frame::Left(h, next)
            &&& h == g
            &&& answered(ev, next, reply->Number_0)
        } else {
            kept
        },
        Frame::Right(g, x, ev) => if reply is Number && ev.awaits() is Some {
            &&& returned == handed
            &&& frames.len() == 1
            &&& frames[0] matches Frame::Right(h, y, next)
            &&& h == g
            &&& y == x
            &&& answered(ev, next, reply->Number_0)
        } else {
            kept
        },
        Frame::Combine(var, c, answer) => if reply is Number && answer is None {
            frames == seq![Frame::Combine(var, c, Some(reply->Number_0))] && returned == handed
        } else {
            kept
        },
        Frame::Print(values, done, text) => if reply is Text && done < values@.len() {
            &&& returned == handed
            &&& frames.len() == 1
            &&& frames[0] matches Frame::Print(v, d, t)
            &&& v == values
            &&& d == done + 1
            &&& t@ == appended(text@, done, reply->Text_0@)
        } else {
            kept
        },
        Frame::Read(found) => if reply is Numbers && reply->Numbers_0@.len() == numeral_count(
            found@,
        ) {
            lexed(
                valued(lexemes(found@), reply->Numbers_0@),
                Step { frames, returned, request: Request::Continue },
            )
        } else {
            kept
        },
        _ => kept,
    }
}

/// One frame, alone.
fn one(frame: Frame) -> (r: Vec<Frame>)
    ensures
        r@ == seq![frame],
{
    let mut frames: Vec<Frame> = Vec::new();
    frames.push(frame);
    frames
}

/// Adds the text of one more value to the text of a print.
fn append_value(text: String, done: usize, more: &str) -> (r: String)
    ensures
        r@ == appended(text@, done, more@),
{
    let mut longer = if done > 0 {
        proof {
            reveal_strlit(":");
            assert(":"@ =~= seq![':']);
        }
        text.concat(":")
    } else {
        String::new()
    };
    longer.append(more);
    assert(longer@ =~= appended(text@, done, more@));
    longer
}

/// Lets the innermost frame take a reply.
pub(crate) fn take(top: Frame, reply: Reply, handed: Returned) -> (r: (Vec<Frame>, Returned))
    ensures
        supplied(top, reply, handed, r.0@, r.1),
{
    match (top, reply) {
        (Frame::Assign(var, op, ev), Reply::Number(v)) => (
            one(Frame::Assign(var, op, ev.supply(v))),
            handed,
        ),
        (Frame::Left(g, ev), Reply::Number(v)) => (one(Frame::Left(g, ev.supply(v))), handed),
        (Frame::Right(g, x, ev), Reply::Number(v)) => (
            one(Frame::Right(g, x, ev.supply(v))),
            handed,
        ),
        (Frame::Combine(var, c, None), Reply::Number(v)) => (
            one(Frame::Combine(var, c, Some(v))),
            handed,
        ),
        (Frame::Print(values, done, text), Reply::Text(t)) => {
            if done < values.len() {
                let longer = append_value(text, done, t.as_str());
                (one(Frame::Print(values, done + 1, longer)), handed)
            } else {
                (one(Frame::Print(values, done, text)), handed)
            }
        },
        (Frame::Read(found), Reply::Numbers(vs)) => match tokenize_num(&found, &vs) {
            Some(tokens) => {
                let mv = enter_line(tokens);
                (mv.frames, mv.returned)
            },
            None => (one(Frame::Read(found)), handed),
        },
        (other, _) => (one(other), handed),
    }
}

} // verus!
