//! The execution of statements against the variable store.
//!
//! Running a line alternates the engine's decisions with the host's work:
//! arithmetic, the reading of numerals, formatting and printing. A session
//! holds a line that is being run. The host asks it for its next move, does
//! what the move asks, hands back a reply where one is due, and goes on
//! until the line has ended.

use vstd::prelude::*;
use crate::adequacy::{
    agrees, behind_twice, handed_end, meant, meant_one, request_events, resume_keeps_meaning,
    supply_keeps_meaning,
};
use crate::calculator::{calculate, calculated};
use crate::error::{CoreError, Fault};
use crate::evaluation::{Arithmetic, Evaluation, Stage};
use crate::frames::{
    assign, combine, constant, end_model, moved, print, read, run_lines, start, supplied, take,
    test_left, test_right, Body, Frame, Guard, Move, Reply, Request, Returned, Step,
};
use crate::line_type::LineType;
use crate::memory::{Memory, Store};
use crate::semantics::{behind, executed, interpreted, Effect, Host};
use crate::tokenizer::{
    clone_token, lex, lexemes, models, models_push, paren_model, tokenize2, Operation, Tok, Token,
};

verus! {

broadcast use vstd::std_specs::vec::group_vec_axioms;

/// What a line leaves behind to be shown.
#[derive(Debug, PartialEq)]
pub enum LineResult {
    Output(String),
    Nothing,
}

/// The mathematical value of a line's result.
pub enum Shown {
    Output(Seq<char>),
    Nothing,
}

impl View for LineResult {
    type V = Shown;

    open spec fn view(&self) -> Shown {
        match self {
            LineResult::Output(text) => Shown::Output(text@),
            LineResult::Nothing => Shown::Nothing,
        }
    }
}

/// The value of a name in the store, or the failure of a name that the
/// store does not hold.
pub open spec fn looked_up(store: Store, name: Seq<char>) -> Result<u64, Fault> {
    if store.contains_key(name) {
        Ok(store[name])
    } else {
        Err(Fault::UnknownVariable(name))
    }
}

/// Reads the value of a name.
pub fn get_from_mem(memory: &Memory, string: String) -> (r: Result<u64, CoreError>)
    ensures
        match r {
            Ok(v) => looked_up(memory@, string@) == Ok::<u64, Fault>(v),
            Err(e) => looked_up(memory@, string@) == Err::<u64, Fault>(e@),
        },
{
    match memory.get(string.as_str()) {
        Some(v) => Ok(v),
        None => Err(CoreError::UnknownVariable(string)),
    }
}

/// A token in front of the tokens that follow it, unless either failed.
pub open spec fn chained(head: Result<Tok, Fault>, rest: Result<Seq<Tok>, Fault>) -> Result<
    Seq<Tok>,
    Fault,
> {
    match head {
        Err(e) => Err(e),
        Ok(t) => match rest {
            Err(e) => Err(e),
            Ok(more) => Ok(seq![t] + more),
        },
    }
}

/// The tokens of `s` from `i` on with each name replaced by the number that
/// the store holds for it, inside groups too; the failure is that of the
/// first name, from the left, that the store does not hold.
pub open spec fn replaced(store: Store, s: Seq<Tok>, i: int) -> Result<Seq<Tok>, Fault>
    decreases s, s.len() - i,
{
    if i < 0 || i >= s.len() {
        Ok(Seq::empty())
    } else {
        let head = match s[i] {
            Tok::Name(name) => match looked_up(store, name) {
                Ok(v) => Ok(Tok::Number(v)),
                Err(e) => Err(e),
            },
            Tok::Paren(inner) => match replaced(store, inner, 0) {
                Ok(r) => Ok(Tok::Paren(r)),
                Err(e) => Err(e),
            },
            t => Ok(t),
        };
        chained(head, replaced(store, s, i + 1))
    }
}

/// Whether a token is no name and holds none at any depth.
pub open spec fn nameless(t: Tok) -> bool
    decreases t,
{
    match t {
        Tok::Name(_) => false,
        Tok::Paren(inner) => forall|i: int| 0 <= i < inner.len() ==> nameless(#[trigger] inner[i]),
        _ => true,
    }
}

/// Replacing leaves no name behind: where it succeeds, no token of the
/// result is a name or holds one at any depth.
pub proof fn replacing_leaves_no_name(store: Store, s: Seq<Tok>, i: int)
    ensures
        replaced(store, s, i) matches Ok(out) ==> forall|k: int|
            0 <= k < out.len() ==> nameless(#[trigger] out[k]),
    decreases s, s.len() - i,
{
    if 0 <= i < s.len() {
        replacing_leaves_no_name(store, s, i + 1);
        if let Tok::Paren(inner) = s[i] {
            replacing_leaves_no_name(store, inner, 0);
        }
        if let Ok(out) = replaced(store, s, i) {
            let rest = replaced(store, s, i + 1)->Ok_0;
            assert forall|k: int| 0 <= k < out.len() implies nameless(#[trigger] out[k]) by {
                if k > 0 {
                    assert(out[k] == rest[k - 1]);
                }
            }
        }
    }
}

/// What has been replaced so far, in front of the rest.
pub open spec fn continued(done: Seq<Tok>, rest: Result<Seq<Tok>, Fault>) -> Result<
    Seq<Tok>,
    Fault,
> {
    match rest {
        Err(e) => Err(e),
        Ok(more) => Ok(done + more),
    }
}

/// Replaces each name among the tokens by the number that the store holds
/// for it.
pub fn replace_var(memory: &Memory, tokens: &Vec<Token>) -> (r: Result<Vec<Token>, CoreError>)
    ensures
        match r {
            Ok(out) => replaced(memory@, models(tokens@), 0) == Ok::<Seq<Tok>, Fault>(models(out@)),
            Err(e) => replaced(memory@, models(tokens@), 0) == Err::<Seq<Tok>, Fault>(e@),
        },
        r matches Ok(out) ==> forall|k: int| 0 <= k < out@.len() ==> nameless(#[trigger] out@[k]@),
    decreases tokens,
{
    proof {
        replacing_leaves_no_name(memory@, models(tokens@), 0);
    }
    let ghost s = models(tokens@);
    let ghost store = memory@;
    let mut out: Vec<Token> = Vec::new();
    let mut i: usize = 0;
    assert(models(out@) =~= Seq::<Tok>::empty());
    assert(replaced(store, s, 0) is Ok ==> Seq::<Tok>::empty() + replaced(store, s, 0)->Ok_0
        =~= replaced(store, s, 0)->Ok_0);
    while i < tokens.len()
        invariant
            i <= tokens.len(),
            s == models(tokens@),
            store == memory@,
            replaced(store, s, 0) == continued(models(out@), replaced(store, s, i as int)),
        decreases tokens.len() - i,
    {
        let ghost before = models(out@);
        let ghost rest = replaced(store, s, i + 1);
        let t = match &tokens[i] {
            Token::Name(name) => match memory.get(name.as_str()) {
                Some(v) => Token::Number(v),
                None => {
                    return Err(CoreError::UnknownVariable(name.clone()));
                },
            },
            Token::Paren(inner) => {
                proof {
                    paren_model(*inner);
                    assert(decreases_to!(*tokens => tokens@[i as int]));
                }
                match replace_var(memory, inner) {
                    Ok(r) => {
                        proof {
                            paren_model(r);
                        }
                        Token::Paren(r)
                    },
                    Err(e) => {
                        return Err(e);
                    },
                }
            },
            other => clone_token(other),
        };
        proof {
            models_push(out@, t);
            assert(replaced(store, s, i as int) == chained(Ok(t@), rest));
            if rest is Ok {
                assert(before + (seq![t@] + rest->Ok_0) =~= before.push(t@) + rest->Ok_0);
            }
        }
        out.push(t);
        i += 1;
    }
    assert(models(out@) + Seq::<Tok>::empty() =~= models(out@));
    assert forall|k: int| 0 <= k < out@.len() implies nameless(#[trigger] out@[k]@) by {
        assert(models(out@)[k] == out@[k]@);
    }
    Ok(out)
}

/// What the tokens of an expression are worth against the store, under the
/// host's arithmetic.
pub open spec fn worth(store: Store, s: Seq<Tok>, f: Arithmetic) -> Result<u64, Fault> {
    match replaced(store, s, 0) {
        Err(e) => Err(e),
        Ok(r) => calculated(r, f),
    }
}

/// Begins the evaluation of an expression against the store.
///
/// Under every arithmetic, the evaluation ends with what the tokens are
/// worth.
pub fn result(memory: &Memory, tokens: &Vec<Token>) -> (r: Evaluation)
    ensures
        r.awaits() is None,
        forall|f: Arithmetic|
            #![trigger r.outcome(f)]
            #![trigger worth(memory@, models(tokens@), f)]
            r.outcome(f) == worth(memory@, models(tokens@), f),
{
    match replace_var(memory, tokens) {
        Err(e) => Evaluation { pending: Vec::new(), stage: Stage::Finished(Err(e)) },
        Ok(rep) => calculate(rep),
    }
}

/// A line that is being run: the steps that have begun, innermost last, and
/// the result that the last ended step handed down.
#[derive(Debug)]
pub struct Session {
    pub frames: Vec<Frame>,
    pub returned: Returned,
}

/// Copies the end of a line.
fn clone_end(r: &Result<LineResult, CoreError>) -> (c: Result<LineResult, CoreError>)
    ensures
        end_model(c) == end_model(*r),
{
    match r {
        Ok(LineResult::Output(t)) => Ok(LineResult::Output(t.clone())),
        Ok(LineResult::Nothing) => Ok(LineResult::Nothing),
        Err(e) => Err(e.duplicate()),
    }
}

impl Session {
    /// Whether the line has ended: no step is left.
    pub open spec fn ended(&self) -> bool {
        self.frames@.len() == 0
    }

    /// How the line ended, if no result was handed down: with nothing.
    pub open spec fn end(&self) -> Result<Shown, Fault> {
        match self.returned {
            Some(r) => end_model(r),
            None => Ok(Shown::Nothing),
        }
    }

    /// The effect that the session will have had when it has ended, run
    /// against the store with the host and the fuel given.
    pub open spec fn means(&self, store: Store, host: Host, fuel: nat) -> Option<Effect> {
        meant(self.frames@, handed_end(self.returned), store, host, fuel)
    }

    /// Begins to run a line of text: splits it into lexemes.
    ///
    /// Where the lexer fails, the line has ended with that failure. The
    /// session means what the line means, against every store and with
    /// every host.
    pub fn open(line: &str) -> (r: Session)
        ensures
            match lex(line@, 0) {
                Err(e) => r.ended() && r.end() == Err::<Shown, Fault>(e),
                Ok(ls) => {
                    &&& r.frames@.len() == 1
                    &&& r.frames@[0] matches Frame::Read(found)
                    &&& lexemes(found@) == ls
                    &&& r.returned is None
                },
            },
            forall|store: Store, host: Host, fuel: nat|
                #![trigger r.means(store, host, fuel)]
                r.means(store, host, fuel) == interpreted(line@, store, host, fuel),
    {
        let r = match tokenize2(line) {
            Err(e) => Session { frames: Vec::new(), returned: Some(Err(e)) },
            Ok(found) => {
                let mut frames: Vec<Frame> = Vec::new();
                frames.push(Frame::Read(found));
                Session { frames, returned: None }
            },
        };
        proof {
            assert forall|store: Store, host: Host, fuel: nat|
                #![trigger r.means(store, host, fuel)]
                r.means(store, host, fuel) == interpreted(line@, store, host, fuel) by {
                if r.frames@.len() == 1 {
                    assert(r.frames@ =~= seq![r.frames@[0]]);
                    meant_one(r.frames@[0], Ok(Shown::Nothing), store, host, fuel);
                }
            }
        }
        r
    }

    /// Makes one move.
    ///
    /// Once the line has ended, the move says how, again and again, and
    /// changes nothing. Else the innermost frame moves as `moved` says:
    /// the frames around it stay, and the frames, the result handed down
    /// and the request are those of its move. Only the end of an
    /// assignment changes the store.
    ///
    /// The move keeps the meaning of the session: with every host, what the
    /// session means after the move, behind what the move asks to show or
    /// report, is what it meant before.
    pub fn resume(self, memory: &mut Memory) -> (r: (Session, Request))
        ensures
            self.ended() ==> {
                &&& final(memory)@ == old(memory)@
                &&& r.0.ended()
                &&& r.0.returned == self.returned
                &&& r.1 matches Request::Finished(end)
                &&& end_model(end) == self.end()
            },
            !self.ended() ==> {
                let around = self.frames@.len() - 1;
                &&& r.0.frames@.len() >= around
                &&& r.0.frames@.subrange(0, around) == self.frames@.drop_last()
                &&& moved(
                    self.frames@.last(),
                    self.returned,
                    old(memory)@,
                    final(memory)@,
                    Step {
                        frames: r.0.frames@.skip(around),
                        returned: r.0.returned,
                        request: r.1,
                    },
                )
            },
            forall|host: Host, fuel: nat|
                #![trigger r.0.means(final(memory)@, host, fuel)]
                r.0.means(final(memory)@, host, fuel) is Some ==> self.means(
                    old(memory)@,
                    host,
                    fuel + 1,
                ) == behind(request_events(r.1), r.0.means(final(memory)@, host, fuel)),
    {
        let ghost store = memory@;
        let Session { frames, returned } = self;
        let mut frames = frames;
        let ghost before = frames@;
        match frames.pop() {
            None => {
                let end = match &returned {
                    Some(r) => clone_end(r),
                    None => Ok(LineResult::Nothing),
                };
                let r = (Session { frames, returned }, Request::Finished(end));
                proof {
                    assert forall|host: Host, fuel: nat|
                        #![trigger r.0.means(store, host, fuel)]
                        self.means(store, host, fuel + 1) == behind(
                            request_events(r.1),
                            r.0.means(store, host, fuel),
                        ) by {
                        behind_twice(Seq::empty(), Seq::empty(), r.0.means(store, host, fuel));
                    }
                }
                r
            },
            Some(top) => {
                let mv = match top {
                    Frame::Read(found) => read(found),
                    Frame::Start(line) => start(line, memory),
                    Frame::Assign(var, op, ev) => assign(var, op, ev, memory),
                    Frame::Combine(var, c, answer) => combine(var, c, answer, memory),
                    Frame::Print(values, done, text) => print(values, done, text),
                    Frame::Left(g, ev) => test_left(g, ev, memory),
                    Frame::Right(g, x, ev) => test_right(g, x, ev),
                    Frame::Lines(g, next) => run_lines(g, next, returned, memory),
                };
                let Move { frames: put_back, returned: handed, request } = mv;
                let mut put_back = put_back;
                let ghost added = put_back@;
                frames.append(&mut put_back);
                proof {
                    let around = before.len() - 1;
                    assert(frames@.subrange(0, around) =~= before.drop_last());
                    assert(frames@.skip(around) =~= added);
                    let after = memory@;
                    assert forall|host: Host, fuel: nat|
                        meant(frames@, handed_end(handed), after, host, fuel) is Some implies meant(
                        before,
                        handed_end(self.returned),
                        store,
                        host,
                        fuel + 1,
                    ) == behind(
                        request_events(request),
                        #[trigger] meant(frames@, handed_end(handed), after, host, fuel),
                    ) by {
                        resume_keeps_meaning(
                            before,
                            self.returned,
                            store,
                            frames@,
                            handed,
                            after,
                            request,
                            host,
                            fuel,
                        );
                    }
                }
                (Session { frames, returned: handed }, request)
            },
        }
    }

    /// Takes the host's reply.
    ///
    /// The innermost frame takes it as `supplied` says; the frames around
    /// it stay. A reply that nothing waits for changes nothing.
    ///
    /// A reply that agrees with the host keeps the meaning of the session:
    /// what the session means with that host after the reply is what it
    /// meant before.
    pub fn supply(self, reply: Reply) -> (r: Session)
        ensures
            self.ended() ==> r.ended() && r.returned == self.returned,
            !self.ended() ==> {
                let around = self.frames@.len() - 1;
                &&& r.frames@.len() >= around
                &&& r.frames@.subrange(0, around) == self.frames@.drop_last()
                &&& supplied(
                    self.frames@.last(),
                    reply,
                    self.returned,
                    r.frames@.skip(around),
                    r.returned,
                )
            },
            forall|store: Store, host: Host, fuel: nat|
                #![trigger r.means(store, host, fuel)]
                r.means(store, host, fuel) is Some && (!self.ended() ==> agrees(
                    self.frames@.last(),
                    reply,
                    host,
                )) ==> self.means(store, host, fuel + 1) == r.means(store, host, fuel),
    {
        let Session { frames, returned } = self;
        let mut frames = frames;
        let ghost before = frames@;
        match frames.pop() {
            None => Session { frames, returned },
            Some(top) => {
                let (put_back, handed) = take(top, reply, returned);
                let mut put_back = put_back;
                let ghost added = put_back@;
                frames.append(&mut put_back);
                proof {
                    let around = before.len() - 1;
                    assert(frames@.subrange(0, around) =~= before.drop_last());
                    assert(frames@.skip(around) =~= added);
                    assert forall|store: Store, host: Host, fuel: nat|
                        meant(frames@, handed_end(handed), store, host, fuel) is Some && agrees(
                            before.last(),
                            reply,
                            host,
                        ) implies meant(before, handed_end(self.returned), store, host, fuel + 1)
                        == #[trigger] meant(frames@, handed_end(handed), store, host, fuel) by {
                        supply_keeps_meaning(
                            before,
                            self.returned,
                            reply,
                            frames@,
                            handed,
                            store,
                            host,
                            fuel,
                        );
                    }
                }
                Session { frames, returned: handed }
            },
        }
    }
}

/// Begins to run a statement. The session means what the statement means,
/// against every store and with every host.
pub fn run(line_type: LineType) -> (r: Session)
    ensures
        r.frames@ == seq![Frame::Start(line_type)],
        r.returned is None,
        forall|store: Store, host: Host, fuel: nat|
            #![trigger r.means(store, host, fuel)]
            r.means(store, host, fuel) == executed(line_type@, store, host, fuel),
{
    let mut frames: Vec<Frame> = Vec::new();
    frames.push(Frame::Start(line_type));
    let r = Session { frames, returned: None };
    proof {
        assert forall|store: Store, host: Host, fuel: nat|
            #![trigger r.means(store, host, fuel)]
            r.means(store, host, fuel) == executed(line_type@, store, host, fuel) by {
            meant_one(Frame::Start(line_type), Ok(Shown::Nothing), store, host, fuel);
        }
    }
    r
}

/// The condition and body that a frame runs under, if it runs under one.
pub open spec fn guard_of(frame: Frame) -> Option<Guard> {
    match frame {
        Frame::Left(g, _) => Some(g),
        Frame::Right(g, _, _) => Some(g),
        Frame::Lines(g, _) => Some(g),
        _ => None,
    }
}

/// The lines of a loop are classified once: a move of a frame that runs
/// under a condition and a body hands both on unchanged, however many
/// rounds the loop makes. So each round of a loop starts copies of the
/// statements that were classified when the loop began.
pub proof fn guards_are_handed_on(
    top: Frame,
    handed: Returned,
    store: Store,
    after: Store,
    mv: Step,
)
    requires
        moved(top, handed, store, after, mv),
        guard_of(top) is Some,
    ensures
        forall|i: int|
            0 <= i < mv.frames.len() && guard_of(#[trigger] mv.frames[i]) is Some ==> guard_of(
                mv.frames[i],
            ) == guard_of(top),
        guard_of(top)->0.body matches Body::Repeat(ready) ==> forall|i: int|
            0 <= i < mv.frames.len() ==> (#[trigger] mv.frames[i] matches Frame::Start(line)
                ==> exists|k: int| 0 <= k < ready@.len() && line@ == (#[trigger] ready@[k])@),
{
    match top {
        Frame::Left(g, ev) => {},
        Frame::Right(g, x, ev) => {},
        Frame::Lines(g, next) => {
            if handed is None {
                if let Body::Repeat(ready) = g.body {
                    if next < ready@.len() {
                        let prepared = ready@[next as int];
                        assert(mv.frames[1] matches Frame::Start(line) && line@ == prepared@);
                    }
                }
            }
        },
        _ => {},
    }
}

/// Only assignments change the store: a move leaves the store as it was,
/// unless it ends a plain assignment or a compound one, and then it stores
/// one value under the assigned name.
pub proof fn only_assignments_store(
    top: Frame,
    handed: Returned,
    store: Store,
    after: Store,
    mv: Step,
)
    requires
        moved(top, handed, store, after, mv),
    ensures
        after == store || match top {
            Frame::Assign(var, op, ev) => {
                &&& op == Operation::Assign
                &&& constant(ev) matches Ok(num)
                &&& after == store.insert(var@, num)
            },
            Frame::Combine(var, c, answer) => {
                &&& answer matches Some(v)
                &&& after == store.insert(var@, v)
            },
            _ => false,
        },
{
}

} // verus!
