//! The moves of a session keep the meaning of the line that it runs.
//!
//! A session that has begun, with its frames and the result handed down,
//! means an effect: what the line will have done when the session has
//! ended. Each move and each reply that agrees with the host keeps that
//! effect, but for what the move itself asks the host to show or report.
//! So when a session ends, what it has stored, shown and reported, and its
//! end, are the effect that the semantics give the line.

use vstd::prelude::*;
use crate::error::{CoreError, Fault};
use crate::evaluation::Evaluation;
use crate::frames::{
    assigns, begun, classified_all, combines, constant, end_model, ends, enters, lexed,
    line_models, looked_up_all, moved, numeral_count, prints, puts, reads, runs, starts,
    supplied, tests_left, tests_right, Body, Frame, Guard, Reply, Request, Returned, Step,
};
use crate::line_type::{bodies, classified, Line, LineType};
use crate::memory::Store;
use crate::runner::{looked_up, worth, LineResult, Shown};
use crate::semantics::{
    assigned, behind, body_len, ended, event_of, executed, fuel_is_enough, fuel_is_enough_ran,
    lined, printed, ran, read_values, tested, Condition, Effect, Event, Host, Lines,
};
use crate::tokenizer::{lexemes, models, texts, valued, Computation, Lexeme, Operation, Tok};

verus! {

broadcast use vstd::std_specs::vec::group_vec_axioms;

/// The value of a body.
pub open spec fn lines_of(body: Body) -> Lines {
    match body {
        Body::Once(lines) => Lines::Once(bodies(lines@)),
        Body::Repeat(ready) => Lines::Repeat(line_models(ready@)),
    }
}

/// The value of a condition and what it guards.
pub open spec fn condition_of(g: Guard) -> Condition {
    Condition {
        left: models(g.left@),
        compare: g.compare,
        right: models(g.right@),
        body: lines_of(g.body),
    }
}

/// The end that was handed down; nothing where none was.
pub open spec fn handed_end(handed: Returned) -> Result<Shown, Fault> {
    match handed {
        Some(r) => end_model(r),
        None => Ok(Shown::Nothing),
    }
}

/// What a request makes the host show or report.
pub open spec fn request_events(request: Request) -> Seq<Event> {
    match request {
        Request::Show(t) => seq![Event::Shown(t@)],
        Request::Report(e) => seq![Event::Reported(e@)],
        _ => Seq::empty(),
    }
}

/// The effect of a condition whose left side is worth `x` and whose right
/// side is worth `r`.
pub open spec fn compared(
    c: Condition,
    x: u64,
    r: Result<u64, Fault>,
    store: Store,
    host: Host,
    fuel: nat,
) -> Option<Effect> {
    match r {
        Err(e) => ended(store, Err(e)),
        Ok(y) => if c.compare.holds(x, y) {
            ran(c, 0, store, host, fuel)
        } else {
            ended(store, Ok(Shown::Nothing))
        },
    }
}

/// The effect that the statement of a frame will have had when the frame
/// has ended, given the end that was handed to it.
pub open spec fn resumed(
    frame: Frame,
    handed: Result<Shown, Fault>,
    store: Store,
    host: Host,
    fuel: nat,
) -> Option<Effect> {
    match frame {
        Frame::Read(found) => lined(
            valued(lexemes(found@), read_values(lexemes(found@), host)),
            store,
            host,
            fuel,
        ),
        Frame::Start(line) => executed(line@, store, host, fuel),
        Frame::Assign(var, op, ev) => assigned(var@, op, ev.outcome(host.arithmetic), store, host),
        Frame::Combine(var, c, answer) => ended(
            store.insert(
                var@,
                match answer {
                    Some(v) => v,
                    None => (host.arithmetic)(c),
                },
            ),
            Ok(Shown::Nothing),
        ),
        Frame::Print(values, done, text) => ended(
            store,
            Ok(Shown::Output(printed(values@, done as int, text@, host))),
        ),
        Frame::Left(g, ev) => match ev.outcome(host.arithmetic) {
            Err(e) => ended(store, Err(e)),
            Ok(x) => compared(
                condition_of(g),
                x,
                worth(store, models(g.right@), host.arithmetic),
                store,
                host,
                fuel,
            ),
        },
        Frame::Right(g, x, ev) => compared(
            condition_of(g),
            x,
            ev.outcome(host.arithmetic),
            store,
            host,
            fuel,
        ),
        Frame::Lines(g, next) => behind(
            event_of(handed),
            ran(condition_of(g), next as nat, store, host, fuel),
        ),
    }
}

/// The effect that a session will have had when it has ended: that of its
/// innermost frame, then that of the frames around it, each handed the end
/// of the one inside it.
pub open spec fn meant(
    frames: Seq<Frame>,
    handed: Result<Shown, Fault>,
    store: Store,
    host: Host,
    fuel: nat,
) -> Option<Effect>
    decreases frames.len(),
{
    if frames.len() == 0 {
        ended(store, handed)
    } else {
        match resumed(frames.last(), handed, store, host, fuel) {
            None => None,
            Some(eff) => behind(
                eff.events,
                meant(frames.drop_last(), eff.end, eff.store, host, fuel),
            ),
        }
    }
}

/// Events in front of events in front of an effect.
pub proof fn behind_twice(first: Seq<Event>, second: Seq<Event>, rest: Option<Effect>)
    ensures
        behind(first, behind(second, rest)) == behind(first + second, rest),
        behind(Seq::empty(), rest) == rest,
{
    if let Some(e) = rest {
        assert(first + (second + e.events) =~= (first + second) + e.events);
        assert(Seq::<Event>::empty() + e.events =~= e.events);
    }
}

/// More fuel never changes the effect of a frame.
pub proof fn fuel_is_enough_resumed(
    frame: Frame,
    handed: Result<Shown, Fault>,
    store: Store,
    host: Host,
    fuel: nat,
    more: nat,
)
    requires
        resumed(frame, handed, store, host, fuel) is Some,
        fuel <= more,
    ensures
        resumed(frame, handed, store, host, more) == resumed(frame, handed, store, host, fuel),
{
    match frame {
        Frame::Read(found) => {
            let tokens = valued(lexemes(found@), read_values(lexemes(found@), host));
            if let Ok(line) = classified(tokens) {
                fuel_is_enough(line, store, host, fuel, more);
            }
        },
        Frame::Start(line) => {
            fuel_is_enough(line@, store, host, fuel, more);
        },
        Frame::Left(g, ev) => {
            if let Ok(x) = ev.outcome(host.arithmetic) {
                if let Ok(y) = worth(store, models(g.right@), host.arithmetic) {
                    if g.compare.holds(x, y) {
                        fuel_is_enough_ran(condition_of(g), 0, store, host, fuel, more);
                    }
                }
            }
        },
        Frame::Right(g, x, ev) => {
            if let Ok(y) = ev.outcome(host.arithmetic) {
                if g.compare.holds(x, y) {
                    fuel_is_enough_ran(condition_of(g), 0, store, host, fuel, more);
                }
            }
        },
        Frame::Lines(g, next) => {
            fuel_is_enough_ran(condition_of(g), next as nat, store, host, fuel, more);
        },
        _ => {},
    }
}

/// More fuel never changes the effect of a session.
pub proof fn fuel_is_enough_meant(
    frames: Seq<Frame>,
    handed: Result<Shown, Fault>,
    store: Store,
    host: Host,
    fuel: nat,
    more: nat,
)
    requires
        meant(frames, handed, store, host, fuel) is Some,
        fuel <= more,
    ensures
        meant(frames, handed, store, host, more) == meant(frames, handed, store, host, fuel),
    decreases frames.len(),
{
    if frames.len() > 0 {
        fuel_is_enough_resumed(frames.last(), handed, store, host, fuel, more);
        let eff = resumed(frames.last(), handed, store, host, fuel)->0;
        fuel_is_enough_meant(frames.drop_last(), eff.end, eff.store, host, fuel, more);
    }
}

/// The effect of a session is that of its inner frames, then that of the
/// frames around them.
pub proof fn meant_splits(
    below: Seq<Frame>,
    tops: Seq<Frame>,
    handed: Result<Shown, Fault>,
    store: Store,
    host: Host,
    fuel: nat,
)
    ensures
        meant(below + tops, handed, store, host, fuel) == match meant(
            tops,
            handed,
            store,
            host,
            fuel,
        ) {
            None => None,
            Some(eff) => behind(eff.events, meant(below, eff.end, eff.store, host, fuel)),
        },
    decreases tops.len(),
{
    if tops.len() == 0 {
        assert(below + tops =~= below);
        behind_twice(Seq::empty(), Seq::empty(), meant(below, handed, store, host, fuel));
    } else {
        let all = below + tops;
        assert(all.last() == tops.last());
        assert(all.drop_last() =~= below + tops.drop_last());
        if let Some(eff) = resumed(tops.last(), handed, store, host, fuel) {
            meant_splits(below, tops.drop_last(), eff.end, eff.store, host, fuel);
            if let Some(mid) = meant(tops.drop_last(), eff.end, eff.store, host, fuel) {
                behind_twice(
                    eff.events,
                    mid.events,
                    meant(below, mid.end, mid.store, host, fuel),
                );
            }
        }
    }
}

/// The effect of a session of one frame is the effect of the frame.
pub proof fn meant_one(
    frame: Frame,
    handed: Result<Shown, Fault>,
    store: Store,
    host: Host,
    fuel: nat,
)
    ensures
        meant(seq![frame], handed, store, host, fuel) == resumed(frame, handed, store, host, fuel),
{
    reveal_with_fuel(meant, 2);
    let frames = seq![frame];
    assert(frames.last() == frame);
    assert(frames.drop_last() =~= Seq::<Frame>::empty());
    if let Some(eff) = resumed(frame, handed, store, host, fuel) {
        assert(eff.events + Seq::<Event>::empty() =~= eff.events);
    }
}

/// The effect of the frames that a move puts in place, behind what the move
/// asks to show or report.
pub open spec fn moved_effect(
    mv: Step,
    after: Store,
    host: Host,
    fuel: nat,
) -> Option<Effect> {
    behind(request_events(mv.request), meant(mv.frames, handed_end(mv.returned), after, host, fuel))
}

/// A move that ends the innermost step has the effect of that end.
proof fn ends_effect(mv: Step, end: Result<Shown, Fault>, after: Store, host: Host, fuel: nat)
    requires
        ends(mv, end),
    ensures
        moved_effect(mv, after, host, fuel) == ended(after, end),
{
    assert(Seq::<Event>::empty() + Seq::<Event>::empty() =~= Seq::<Event>::empty());
}

/// A move that puts one frame in place and asks nothing to be shown has the
/// effect of that frame.
proof fn one_frame_effect(mv: Step, after: Store, host: Host, fuel: nat)
    requires
        mv.frames.len() == 1,
        request_events(mv.request) == Seq::<Event>::empty(),
    ensures
        moved_effect(mv, after, host, fuel) == resumed(
            mv.frames[0],
            handed_end(mv.returned),
            after,
            host,
            fuel,
        ),
{
    assert(mv.frames =~= seq![mv.frames[0]]);
    meant_one(mv.frames[0], handed_end(mv.returned), after, host, fuel);
    behind_twice(
        Seq::empty(),
        Seq::empty(),
        resumed(mv.frames[0], handed_end(mv.returned), after, host, fuel),
    );
}

/// Testing a condition is comparing what its sides are worth.
proof fn tested_is_compared(c: Condition, store: Store, host: Host, fuel: nat)
    ensures
        tested(c, store, host, fuel) == match worth(store, c.left, host.arithmetic) {
            Err(e) => ended(store, Err(e)),
            Ok(x) => compared(c, x, worth(store, c.right, host.arithmetic), store, host, fuel),
        },
{
}

/// A statement that starts keeps its effect.
proof fn start_keeps(
    line: LineType,
    store: Store,
    mv: Step,
    host: Host,
    fuel: nat,
)
    requires
        starts(line, store, mv),
        moved_effect(mv, store, host, fuel) is Some,
    ensures
        executed(line@, store, host, fuel + 1) == moved_effect(mv, store, host, fuel),
{
    match line {
        LineType::Nothing => {
            ends_effect(mv, Ok(Shown::Nothing), store, host, fuel);
        },
        LineType::Out(names) => {
            match looked_up_all(store, texts(names@), 0) {
                Err(e) => {
                    ends_effect(mv, Err(e), store, host, fuel);
                },
                Ok(values) => {
                    one_frame_effect(mv, store, host, fuel);
                },
            }
        },
        LineType::VarOperate(var, op, ex) => {
            one_frame_effect(mv, store, host, fuel);
        },
        LineType::If(a, c, b, body) => {
            one_frame_effect(mv, store, host, fuel);
            let g = mv.frames[0]->Left_0;
            tested_is_compared(condition_of(g), store, host, fuel);
            fuel_is_enough(line@, store, host, fuel, fuel + 1);
        },
        LineType::While(a, c, b, body) => {
            match classified_all(bodies(body@), 0) {
                Err(e) => {
                    ends_effect(mv, Err(e), store, host, fuel);
                },
                Ok(ready) => {
                    one_frame_effect(mv, store, host, fuel);
                    let g = mv.frames[0]->Left_0;
                    tested_is_compared(condition_of(g), store, host, fuel);
                    fuel_is_enough(line@, store, host, fuel, fuel + 1);
                },
            }
        },
    }
}

/// An assignment that goes on keeps its effect.
proof fn assign_keeps(
    var: String,
    op: Operation,
    ev: Evaluation,
    store: Store,
    after: Store,
    mv: Step,
    host: Host,
    fuel: nat,
)
    requires
        assigns(var, op, ev, store, after, mv),
    ensures
        assigned(var@, op, ev.outcome(host.arithmetic), store, host) == moved_effect(
            mv,
            after,
            host,
            fuel,
        ),
{
    match mv.request {
        Request::Compute(c) => {
            one_frame_effect(mv, after, host, fuel);
        },
        Request::Continue => {
            assert(ev.outcome(host.arithmetic) == constant(ev));
            match constant(ev) {
                Err(e) => {
                    ends_effect(mv, Err(e), after, host, fuel);
                },
                Ok(num) => {
                    match op {
                        Operation::Assign => {
                            ends_effect(mv, Ok(Shown::Nothing), after, host, fuel);
                        },
                        _ => {
                            match looked_up(store, var@) {
                                Err(e) => {
                                    ends_effect(mv, Err(e), after, host, fuel);
                                },
                                Ok(old_value) => {
                                    assert(mv.frames.len() == 1);
                                    one_frame_effect(mv, after, host, fuel);
                                },
                            }
                        },
                    }
                },
            }
        },
        _ => {},
    }
}

/// A compound assignment that goes on keeps its effect.
proof fn combine_keeps(
    var: String,
    c: Computation,
    answer: Option<u64>,
    store: Store,
    after: Store,
    mv: Step,
    host: Host,
    fuel: nat,
)
    requires
        combines(var, c, answer, store, after, mv),
    ensures
        resumed(Frame::Combine(var, c, answer), Ok(Shown::Nothing), store, host, fuel)
            == moved_effect(mv, after, host, fuel),
{
    match answer {
        None => {
            assert(mv.frames.len() == 1);
            one_frame_effect(mv, after, host, fuel);
        },
        Some(v) => {
            ends_effect(mv, Ok(Shown::Nothing), after, host, fuel);
        },
    }
}

/// A print that goes on keeps its effect.
proof fn print_keeps(
    values: Vec<u64>,
    done: usize,
    text: String,
    store: Store,
    mv: Step,
    host: Host,
    fuel: nat,
)
    requires
        prints(values, done, text, mv),
    ensures
        resumed(Frame::Print(values, done, text), Ok(Shown::Nothing), store, host, fuel)
            == moved_effect(mv, store, host, fuel),
{
    if done < values@.len() {
        assert(mv.frames.len() == 1);
        one_frame_effect(mv, store, host, fuel);
    } else {
        ends_effect(mv, Ok(Shown::Output(text@)), store, host, fuel);
    }
}

/// The left side of a condition that goes on keeps the effect.
proof fn left_keeps(
    g: Guard,
    ev: Evaluation,
    store: Store,
    mv: Step,
    host: Host,
    fuel: nat,
)
    requires
        tests_left(g, ev, store, mv),
    ensures
        resumed(Frame::Left(g, ev), Ok(Shown::Nothing), store, host, fuel) == moved_effect(
            mv,
            store,
            host,
            fuel,
        ),
{
    match mv.request {
        Request::Compute(c) => {
            one_frame_effect(mv, store, host, fuel);
        },
        Request::Continue => {
            assert(ev.outcome(host.arithmetic) == constant(ev));
            match constant(ev) {
                Err(e) => {
                    ends_effect(mv, Err(e), store, host, fuel);
                },
                Ok(x) => {
                    one_frame_effect(mv, store, host, fuel);
                },
            }
        },
        _ => {},
    }
}

/// The right side of a condition that goes on keeps the effect.
proof fn right_keeps(
    g: Guard,
    x: u64,
    ev: Evaluation,
    store: Store,
    mv: Step,
    host: Host,
    fuel: nat,
)
    requires
        tests_right(g, x, ev, mv),
    ensures
        resumed(Frame::Right(g, x, ev), Ok(Shown::Nothing), store, host, fuel) == moved_effect(
            mv,
            store,
            host,
            fuel,
        ),
{
    match mv.request {
        Request::Compute(c) => {
            one_frame_effect(mv, store, host, fuel);
        },
        Request::Continue => {
            assert(ev.outcome(host.arithmetic) == constant(ev));
            match constant(ev) {
                Err(e) => {
                    ends_effect(mv, Err(e), store, host, fuel);
                },
                Ok(y) => {
                    if g.compare.holds(x, y) {
                        assert(mv.frames.len() == 1);
                        one_frame_effect(mv, store, host, fuel);
                        behind_twice(
                            Seq::empty(),
                            Seq::empty(),
                            ran(condition_of(g), 0, store, host, fuel),
                        );
                    } else {
                        ends_effect(mv, Ok(Shown::Nothing), store, host, fuel);
                    }
                },
            }
        },
        _ => {},
    }
}

/// What a request asks to show or report is what the end handed down calls
/// for.
proof fn handed_is_shown(r: Result<LineResult, CoreError>, request: Request)
    requires
        match r {
            Ok(LineResult::Output(t)) => request == Request::Show(t),
            Ok(LineResult::Nothing) => request is Continue,
            Err(e) => request == Request::Report(e),
        },
    ensures
        request_events(request) == event_of(end_model(r)),
{
}

/// A body that is handed the end of a line keeps its effect.
proof fn handed_lines_keep(
    g: Guard,
    next: usize,
    r: Result<LineResult, CoreError>,
    store: Store,
    mv: Step,
    host: Host,
    fuel: nat,
)
    requires
        runs(g, next, Some(r), store, mv),
        moved_effect(mv, store, host, fuel) is Some,
    ensures
        resumed(Frame::Lines(g, next), end_model(r), store, host, fuel + 1) == moved_effect(
            mv,
            store,
            host,
            fuel,
        ),
{
    let c = condition_of(g);
    handed_is_shown(r, mv.request);
    assert(mv.frames =~= seq![Frame::Lines(g, next)]);
    meant_one(Frame::Lines(g, next), Ok(Shown::Nothing), store, host, fuel);
    let rest = ran(c, next as nat, store, host, fuel);
    behind_twice(Seq::empty(), Seq::empty(), rest);
    assert(meant(mv.frames, handed_end(mv.returned), store, host, fuel) == rest);
    assert(rest is Some);
    fuel_is_enough_ran(c, next as nat, store, host, fuel, fuel + 1);
}

/// A conditional that skips a line that is no statement keeps its effect.
proof fn skipped_line_keeps(
    g: Guard,
    next: usize,
    e: Fault,
    store: Store,
    mv: Step,
    host: Host,
    fuel: nat,
)
    requires
        next < usize::MAX,
        mv.frames == seq![Frame::Lines(g, (next + 1) as usize)],
        mv.returned is None,
        mv.request matches Request::Report(x) && x@ == e,
        moved_effect(mv, store, host, fuel) is Some,
    ensures
        moved_effect(mv, store, host, fuel) == behind(
            seq![Event::Reported(e)],
            ran(condition_of(g), (next + 1) as nat, store, host, (fuel + 1) as nat),
        ),
{
    let c = condition_of(g);
    let frame = Frame::Lines(g, (next + 1) as usize);
    meant_one(frame, Ok(Shown::Nothing), store, host, fuel);
    let rest = ran(c, (next + 1) as nat, store, host, fuel);
    behind_twice(Seq::empty(), Seq::empty(), rest);
    assert(meant(mv.frames, handed_end(mv.returned), store, host, fuel) == rest);
    assert(rest is Some);
    fuel_is_enough_ran(c, (next + 1) as nat, store, host, fuel, fuel + 1);
}

/// A body that starts its next line, or ends, keeps its effect.
proof fn next_line_keeps(
    g: Guard,
    next: usize,
    store: Store,
    mv: Step,
    host: Host,
    fuel: nat,
)
    requires
        runs(g, next, None, store, mv),
        moved_effect(mv, store, host, fuel) is Some,
    ensures
        ran(condition_of(g), next as nat, store, host, (fuel + 1) as nat) == moved_effect(
            mv,
            store,
            host,
            fuel,
        ),
{
    let c = condition_of(g);
    match g.body {
        Body::Once(lines) => {
            assert(lines@.len() == lines.len());
            if next < lines@.len() {
                match classified(models(lines@[next as int]@)) {
                    Err(e) => {
                        skipped_line_keeps(g, next, e, store, mv, host, fuel);
                    },
                    Ok(l) => {
                        enter_keeps(g, next, l, store, mv, host, fuel);
                    },
                }
            } else {
                ends_effect(mv, Ok(Shown::Nothing), store, host, fuel);
            }
        },
        Body::Repeat(ready) => {
            assert(ready@.len() == ready.len());
            if next < ready@.len() {
                enter_keeps(g, next, ready@[next as int]@, store, mv, host, fuel);
            } else {
                one_frame_effect(mv, store, host, fuel);
                tested_is_compared(c, store, host, fuel);
            }
        },
    }
}

/// A running body that goes on keeps its effect.
proof fn lines_keep(
    g: Guard,
    next: usize,
    handed: Returned,
    store: Store,
    mv: Step,
    host: Host,
    fuel: nat,
)
    requires
        runs(g, next, handed, store, mv),
        moved_effect(mv, store, host, fuel) is Some,
    ensures
        resumed(Frame::Lines(g, next), handed_end(handed), store, host, fuel + 1) == moved_effect(
            mv,
            store,
            host,
            fuel,
        ),
{
    match handed {
        Some(r) => {
            handed_lines_keep(g, next, r, store, mv, host, fuel);
        },
        None => {
            next_line_keeps(g, next, store, mv, host, fuel);
            behind_twice(
                Seq::empty(),
                Seq::empty(),
                ran(condition_of(g), next as nat, store, host, (fuel + 1) as nat),
            );
        },
    }
}

/// Starting a line of a body keeps the effect of the body.
proof fn enter_keeps(
    g: Guard,
    next: usize,
    l: Line,
    store: Store,
    mv: Step,
    host: Host,
    fuel: nat,
)
    requires
        enters(g, next, l, mv),
        next < body_len(condition_of(g).body),
        next < usize::MAX,
        moved_effect(mv, store, host, fuel) is Some,
    ensures
        executed(l, store, host, fuel) matches Some(eff) && moved_effect(mv, store, host, fuel)
            == behind(
            eff.events + event_of(eff.end),
            ran(condition_of(g), (next + 1) as nat, eff.store, host, (fuel + 1) as nat),
        ),
{
    let c = condition_of(g);
    let below = Frame::Lines(g, (next + 1) as usize);
    let start = mv.frames[1];
    let handed = handed_end(mv.returned);
    assert(mv.frames =~= seq![below] + seq![start]);
    meant_splits(seq![below], seq![start], handed, store, host, fuel);
    meant_one(start, handed, store, host, fuel);
    assert(resumed(start, handed, store, host, fuel) == executed(l, store, host, fuel));
    let whole = meant(mv.frames, handed, store, host, fuel);
    assert(request_events(mv.request) =~= Seq::<Event>::empty());
    behind_twice(Seq::empty(), Seq::empty(), whole);
    assert(whole is Some);
    let eff = executed(l, store, host, fuel)->0;
    meant_one(below, eff.end, eff.store, host, fuel);
    let rest = ran(c, (next + 1) as nat, eff.store, host, fuel);
    assert(resumed(below, eff.end, eff.store, host, fuel) == behind(event_of(eff.end), rest));
    assert(whole == behind(eff.events, behind(event_of(eff.end), rest)));
    assert(rest is Some);
    fuel_is_enough_ran(c, (next + 1) as nat, eff.store, host, fuel, fuel + 1);
    behind_twice(eff.events, event_of(eff.end), rest);
}

/// The lexemes of a line that go on keep the effect of the line.
proof fn read_keeps(
    found: Vec<Lexeme>,
    store: Store,
    mv: Step,
    host: Host,
    fuel: nat,
)
    requires
        reads(found, mv),
        moved_effect(mv, store, host, fuel) is Some,
    ensures
        resumed(Frame::Read(found), Ok(Shown::Nothing), store, host, fuel + 1) == moved_effect(
            mv,
            store,
            host,
            fuel,
        ),
{
    if numeral_count(found@) == 0 {
        assert(read_values(lexemes(found@), host) =~= Seq::<u64>::empty());
        lexed_keeps(valued(lexemes(found@), Seq::empty()), store, mv, host, fuel);
    } else {
        assert(mv.frames.len() == 1);
        one_frame_effect(mv, store, host, fuel);
        fuel_is_enough_resumed(Frame::Read(found), Ok(Shown::Nothing), store, host, fuel, fuel + 1);
    }
}

/// The tokens of a line that are classified keep the effect of the line.
proof fn lexed_keeps(
    tokens: Seq<Tok>,
    store: Store,
    mv: Step,
    host: Host,
    fuel: nat,
)
    requires
        lexed(tokens, mv),
        moved_effect(mv, store, host, fuel) is Some,
    ensures
        lined(tokens, store, host, fuel + 1) == moved_effect(mv, store, host, fuel),
{
    match classified(tokens) {
        Err(e) => {
            ends_effect(mv, Err(e), store, host, fuel);
        },
        Ok(l) => {
            one_frame_effect(mv, store, host, fuel);
            fuel_is_enough(l, store, host, fuel, fuel + 1);
        },
    }
}

/// One move keeps the effect of the innermost frame: what the frame meant
/// before the move is what the frames in its place mean after it, behind
/// what the move asks to show or report.
pub proof fn move_keeps_meaning(
    top: Frame,
    handed: Returned,
    store: Store,
    after: Store,
    mv: Step,
    host: Host,
    fuel: nat,
)
    requires
        moved(top, handed, store, after, mv),
        moved_effect(mv, after, host, fuel) is Some,
    ensures
        resumed(top, handed_end(handed), store, host, fuel + 1) == moved_effect(
            mv,
            after,
            host,
            fuel,
        ),
{
    match top {
        Frame::Read(found) => {
            read_keeps(found, store, mv, host, fuel);
        },
        Frame::Start(line) => {
            start_keeps(line, store, mv, host, fuel);
        },
        Frame::Assign(var, op, ev) => {
            assign_keeps(var, op, ev, store, after, mv, host, fuel);
        },
        Frame::Combine(var, c, answer) => {
            combine_keeps(var, c, answer, store, after, mv, host, fuel);
        },
        Frame::Print(values, done, text) => {
            print_keeps(values, done, text, store, mv, host, fuel);
        },
        Frame::Left(g, ev) => {
            left_keeps(g, ev, store, mv, host, fuel);
            fuel_is_enough_resumed(top, handed_end(handed), store, host, fuel, fuel + 1);
        },
        Frame::Right(g, x, ev) => {
            right_keeps(g, x, ev, store, mv, host, fuel);
            fuel_is_enough_resumed(top, handed_end(handed), store, host, fuel, fuel + 1);
        },
        Frame::Lines(g, next) => {
            lines_keep(g, next, handed, store, mv, host, fuel);
        },
    }
}

/// What holds of the innermost frame holds of the session: the frames
/// around it take the end that it hands down.
proof fn lift_to_session(
    below: Seq<Frame>,
    top: Frame,
    tops: Seq<Frame>,
    handed: Result<Shown, Fault>,
    store: Store,
    returned: Result<Shown, Fault>,
    after: Store,
    shown: Seq<Event>,
    host: Host,
    fuel: nat,
    more: nat,
)
    requires
        fuel <= more,
        meant(below + tops, returned, after, host, fuel) is Some,
        resumed(top, handed, store, host, more) == behind(
            shown,
            meant(tops, returned, after, host, fuel),
        ),
    ensures
        meant(below.push(top), handed, store, host, more) == behind(
            shown,
            meant(below + tops, returned, after, host, fuel),
        ),
{
    meant_splits(below, tops, returned, after, host, fuel);
    let inner = meant(tops, returned, after, host, fuel)->0;
    let rest = meant(below, inner.end, inner.store, host, fuel);
    assert(rest is Some);
    fuel_is_enough_meant(below, inner.end, inner.store, host, fuel, more);
    behind_twice(shown, inner.events, rest);
    let before = below.push(top);
    assert(before.last() == top);
    assert(before.drop_last() =~= below);
}

/// One move keeps the meaning of a session: what the session meant before
/// the move is what it means after it, behind what the move asks to show or
/// report.
pub proof fn resume_keeps_meaning(
    before: Seq<Frame>,
    handed: Returned,
    store: Store,
    frames: Seq<Frame>,
    returned: Returned,
    after: Store,
    request: Request,
    host: Host,
    fuel: nat,
)
    requires
        before.len() > 0,
        frames.len() >= before.len() - 1,
        frames.subrange(0, before.len() - 1) == before.drop_last(),
        moved(
            before.last(),
            handed,
            store,
            after,
            Step { frames: frames.skip(before.len() - 1), returned, request },
        ),
        meant(frames, handed_end(returned), after, host, fuel) is Some,
    ensures
        meant(before, handed_end(handed), store, host, fuel + 1) == behind(
            request_events(request),
            meant(frames, handed_end(returned), after, host, fuel),
        ),
{
    let around = before.len() - 1;
    let below = before.drop_last();
    let tops = frames.skip(around);
    let mv = Step { frames: tops, returned, request };
    assert(frames =~= below + tops);
    assert(before =~= below.push(before.last()));
    meant_splits(below, tops, handed_end(returned), after, host, fuel);
    assert(moved_effect(mv, after, host, fuel) is Some);
    move_keeps_meaning(before.last(), handed, store, after, mv, host, fuel);
    lift_to_session(
        below,
        before.last(),
        tops,
        handed_end(handed),
        store,
        handed_end(returned),
        after,
        request_events(request),
        host,
        fuel,
        fuel + 1,
    );
}

/// Whether a reply is what the host's functions give for what the frame
/// waits for.
pub open spec fn agrees(top: Frame, reply: Reply, host: Host) -> bool {
    match top {
        Frame::Assign(_, _, ev) => answers(ev, reply, host),
        Frame::Left(_, ev) => answers(ev, reply, host),
        Frame::Right(_, _, ev) => answers(ev, reply, host),
        Frame::Combine(_, c, answer) => {
            reply is Number && answer is None ==> reply->Number_0 == (host.arithmetic)(c)
        },
        Frame::Print(values, done, _) => {
            reply is Text && done < values@.len() ==> reply->Text_0@ == (host.format)(
                values@[done as int],
            )
        },
        Frame::Read(found) => {
            reply is Numbers && reply->Numbers_0@.len() == numeral_count(found@)
                ==> reply->Numbers_0@ == read_values(lexemes(found@), host)
        },
        _ => true,
    }
}

/// Whether a reply to an evaluation is the host's result of the computation
/// that the evaluation awaits.
pub open spec fn answers(ev: Evaluation, reply: Reply, host: Host) -> bool {
    reply is Number && ev.awaits() is Some ==> reply->Number_0 == (host.arithmetic)(
        ev.awaits()->0,
    )
}

/// A frame that stays as it is keeps its effect.
proof fn kept_frame_keeps(
    top: Frame,
    handed: Returned,
    frames: Seq<Frame>,
    returned: Returned,
    store: Store,
    host: Host,
    fuel: nat,
)
    requires
        frames == seq![top],
        returned == handed,
        meant(frames, handed_end(returned), store, host, fuel) is Some,
    ensures
        resumed(top, handed_end(handed), store, host, fuel + 1) == meant(
            frames,
            handed_end(returned),
            store,
            host,
            fuel,
        ),
{
    meant_one(top, handed_end(handed), store, host, fuel);
    fuel_is_enough_resumed(top, handed_end(handed), store, host, fuel, fuel + 1);
}

/// A frame that takes one more frame's place, with the same effect at the
/// same fuel, keeps its effect.
proof fn same_effect_keeps(
    top: Frame,
    handed: Returned,
    frames: Seq<Frame>,
    returned: Returned,
    store: Store,
    host: Host,
    fuel: nat,
)
    requires
        frames.len() == 1,
        returned == handed,
        resumed(frames[0], handed_end(handed), store, host, fuel) == resumed(
            top,
            handed_end(handed),
            store,
            host,
            fuel,
        ),
        meant(frames, handed_end(returned), store, host, fuel) is Some,
    ensures
        resumed(top, handed_end(handed), store, host, fuel + 1) == meant(
            frames,
            handed_end(returned),
            store,
            host,
            fuel,
        ),
{
    assert(frames =~= seq![frames[0]]);
    meant_one(frames[0], handed_end(handed), store, host, fuel);
    fuel_is_enough_resumed(top, handed_end(handed), store, host, fuel, fuel + 1);
}

/// A reply that agrees with the host keeps the effect of the innermost
/// frame.
pub proof fn reply_keeps_meaning(
    top: Frame,
    reply: Reply,
    handed: Returned,
    frames: Seq<Frame>,
    returned: Returned,
    store: Store,
    host: Host,
    fuel: nat,
)
    requires
        supplied(top, reply, handed, frames, returned),
        agrees(top, reply, host),
        meant(frames, handed_end(returned), store, host, fuel) is Some,
    ensures
        resumed(top, handed_end(handed), store, host, fuel + 1) == meant(
            frames,
            handed_end(returned),
            store,
            host,
            fuel,
        ),
{
    match top {
        Frame::Assign(var, op, ev) => {
            if reply is Number && ev.awaits() is Some {
                same_effect_keeps(top, handed, frames, returned, store, host, fuel);
            } else {
                kept_frame_keeps(top, handed, frames, returned, store, host, fuel);
            }
        },
        Frame::Left(g, ev) => {
            if reply is Number && ev.awaits() is Some {
                same_effect_keeps(top, handed, frames, returned, store, host, fuel);
            } else {
                kept_frame_keeps(top, handed, frames, returned, store, host, fuel);
            }
        },
        Frame::Right(g, x, ev) => {
            if reply is Number && ev.awaits() is Some {
                same_effect_keeps(top, handed, frames, returned, store, host, fuel);
            } else {
                kept_frame_keeps(top, handed, frames, returned, store, host, fuel);
            }
        },
        Frame::Combine(var, c, answer) => {
            if reply is Number && answer is None {
                same_effect_keeps(top, handed, frames, returned, store, host, fuel);
            } else {
                kept_frame_keeps(top, handed, frames, returned, store, host, fuel);
            }
        },
        Frame::Print(values, done, text) => {
            if reply is Text && done < values@.len() {
                assert(values@.len() == values.len());
                same_effect_keeps(top, handed, frames, returned, store, host, fuel);
            } else {
                kept_frame_keeps(top, handed, frames, returned, store, host, fuel);
            }
        },
        Frame::Read(found) => {
            if reply is Numbers && reply->Numbers_0@.len() == numeral_count(found@) {
                let mv = Step { frames, returned, request: Request::Continue };
                behind_twice(
                    Seq::empty(),
                    Seq::empty(),
                    meant(frames, handed_end(returned), store, host, fuel),
                );
                lexed_keeps(
                    valued(lexemes(found@), reply->Numbers_0@),
                    store,
                    mv,
                    host,
                    fuel,
                );
            } else {
                kept_frame_keeps(top, handed, frames, returned, store, host, fuel);
            }
        },
        _ => {
            kept_frame_keeps(top, handed, frames, returned, store, host, fuel);
        },
    }
}

/// A reply that agrees with the host keeps the meaning of a session.
pub proof fn supply_keeps_meaning(
    before: Seq<Frame>,
    handed: Returned,
    reply: Reply,
    frames: Seq<Frame>,
    returned: Returned,
    store: Store,
    host: Host,
    fuel: nat,
)
    requires
        before.len() > 0,
        frames.len() >= before.len() - 1,
        frames.subrange(0, before.len() - 1) == before.drop_last(),
        supplied(before.last(), reply, handed, frames.skip(before.len() - 1), returned),
        agrees(before.last(), reply, host),
        meant(frames, handed_end(returned), store, host, fuel) is Some,
    ensures
        meant(before, handed_end(handed), store, host, fuel + 1) == meant(
            frames,
            handed_end(returned),
            store,
            host,
            fuel,
        ),
{
    let around = before.len() - 1;
    let below = before.drop_last();
    let tops = frames.skip(around);
    assert(frames =~= below + tops);
    assert(before =~= below.push(before.last()));
    meant_splits(below, tops, handed_end(returned), store, host, fuel);
    reply_keeps_meaning(before.last(), reply, handed, tops, returned, store, host, fuel);
    behind_twice(
        Seq::empty(),
        Seq::empty(),
        meant(tops, handed_end(returned), store, host, fuel),
    );
    lift_to_session(
        below,
        before.last(),
        tops,
        handed_end(handed),
        store,
        handed_end(returned),
        store,
        Seq::empty(),
        host,
        fuel,
        fuel + 1,
    );
    behind_twice(
        Seq::empty(),
        Seq::empty(),
        meant(frames, handed_end(returned), store, host, fuel),
    );
}

/// A session at one point of its run, with the store that it runs against.
pub struct Point {
    pub frames: Seq<Frame>,
    pub handed: Returned,
    pub store: Store,
}

/// One turn of a run: a move with its request, or a reply of the host.
pub enum Turn {
    Move(Request),
    Reply(Reply),
}

/// Whether a turn leads from one point to the next: a move as `moved`
/// says, or a reply that agrees with the host, taken as `supplied` says and
/// with the store left alone.
pub open spec fn leads(before: Point, turn: Turn, after: Point, host: Host) -> bool {
    let around = before.frames.len() - 1;
    &&& before.frames.len() > 0
    &&& after.frames.len() >= around
    &&& after.frames.subrange(0, around) == before.frames.drop_last()
    &&& match turn {
        Turn::Move(request) => moved(
            before.frames.last(),
            before.handed,
            before.store,
            after.store,
            Step { frames: after.frames.skip(around), returned: after.handed, request },
        ),
        Turn::Reply(reply) => {
            &&& after.store == before.store
            &&& supplied(
                before.frames.last(),
                reply,
                before.handed,
                after.frames.skip(around),
                after.handed,
            )
            &&& agrees(before.frames.last(), reply, host)
        },
    }
}

/// Whether the points and the turns between them make a run with the host.
pub open spec fn is_run(points: Seq<Point>, turns: Seq<Turn>, host: Host) -> bool {
    &&& points.len() == turns.len() + 1
    &&& forall|i: int|
        0 <= i < turns.len() ==> leads(points[i], #[trigger] turns[i], points[i + 1], host)
}

/// What a turn asks the host to show or report.
pub open spec fn turn_events(turn: Turn) -> Seq<Event> {
    match turn {
        Turn::Move(request) => request_events(request),
        Turn::Reply(_) => Seq::empty(),
    }
}

/// What the turns from the one at `i` on ask the host to show and report.
pub open spec fn asked(turns: Seq<Turn>, i: int) -> Seq<Event>
    decreases turns.len() - i,
{
    if i < 0 || i >= turns.len() {
        Seq::empty()
    } else {
        turn_events(turns[i]) + asked(turns, i + 1)
    }
}

/// A run that ends has the effect that the session meant: from each point
/// of a run that ends with no frame left, the session meant the store at
/// the end, what the turns from that point on asked to show and report, and
/// the end that was handed down last. From the first point of a run that
/// `run_line` began, this is the effect of the line.
pub proof fn a_run_that_ends_has_its_effect(
    points: Seq<Point>,
    turns: Seq<Turn>,
    host: Host,
    i: int,
)
    requires
        is_run(points, turns, host),
        points.last().frames.len() == 0,
        0 <= i <= turns.len(),
    ensures
        meant(
            points[i].frames,
            handed_end(points[i].handed),
            points[i].store,
            host,
            (turns.len() - i) as nat,
        ) == Some(
            Effect {
                store: points.last().store,
                events: asked(turns, i),
                end: handed_end(points.last().handed),
            },
        ),
    decreases turns.len() - i,
{
    if i < turns.len() {
        a_run_that_ends_has_its_effect(points, turns, host, i + 1);
        let before = points[i];
        let after = points[i + 1];
        let fuel = (turns.len() - i - 1) as nat;
        assert(leads(before, turns[i], after, host));
        match turns[i] {
            Turn::Move(request) => {
                resume_keeps_meaning(
                    before.frames,
                    before.handed,
                    before.store,
                    after.frames,
                    after.handed,
                    after.store,
                    request,
                    host,
                    fuel,
                );
            },
            Turn::Reply(reply) => {
                supply_keeps_meaning(
                    before.frames,
                    before.handed,
                    reply,
                    after.frames,
                    after.handed,
                    before.store,
                    host,
                    fuel,
                );
                behind_twice(
                    Seq::empty(),
                    Seq::empty(),
                    meant(after.frames, handed_end(after.handed), after.store, host, fuel),
                );
            },
        }
    }
}

} // verus!
