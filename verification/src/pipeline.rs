//! The processor's decision core: one function from (routine state, queue
//! item, optional lookahead) to (next state, ordered actions), with the map
//! store threaded through. The surrounding tasks — network reader and
//! writer, console reader, the delayed pong timers — perform these actions
//! and own all I/O; the decisions themselves are all here.

use vstd::prelude::*;
use crate::json::{jmodel, lemma_model_variant, lemma_obj_model, Json, JsonV};
use crate::map::{run_cells, render_text, MapState};
use crate::protocol::{message_of_spec, obj_get, GameMessage};
use crate::routine::{
    carries_map,
    execute_routine_stamped,
    handle_repl_command,
    repl_next,
    repl_out,
    routine_next,
    routine_out,
    strings_view,
    Routine,
};
use crate::util::str_eq;

verus! {

/// One item of the processor's single ordered queue: a server message
/// already normalized to one JSON value, or one operator console line.
pub enum ProcessItem {
    Server(Json),
    Console(String),
}

/// The mathematical content of a queue item.
pub enum ProcessItemV {
    Server(JsonV),
    Console(Seq<char>),
}

impl View for ProcessItem {
    type V = ProcessItemV;

    open spec fn view(&self) -> ProcessItemV {
        match self {
            ProcessItem::Server(v) => ProcessItemV::Server(jmodel(*v)),
            ProcessItem::Console(s) => ProcessItemV::Console(s@),
        }
    }
}

/// What the processor asks its surroundings to do, in order: send a payload
/// to the transport, arm a delayed keep-alive pong, or write a line to the
/// log.
#[derive(Debug, Clone, PartialEq)]
pub enum Action {
    Send(String),
    ArmPong,
    Log(String),
}

/// The mathematical content of an action.
pub enum ActionV {
    Send(Seq<char>),
    ArmPong,
    Log(Seq<char>),
}

impl View for Action {
    type V = ActionV;

    open spec fn view(&self) -> ActionV {
        match self {
            Action::Send(s) => ActionV::Send(s@),
            Action::ArmPong => ActionV::ArmPong,
            Action::Log(s) => ActionV::Log(s@),
        }
    }
}

/// The views of a sequence of actions, in order.
pub open spec fn actions_view(s: Seq<Action>) -> Seq<ActionV> {
    s.map(|i: int, a: Action| a@)
}

/// The views of a sequence of queue items, in order.
pub open spec fn items_view(s: Seq<ProcessItem>) -> Seq<ProcessItemV> {
    s.map(|i: int, it: ProcessItem| it@)
}

/// Payloads as send actions, in order.
pub open spec fn sends(payloads: Seq<Seq<char>>) -> Seq<ActionV> {
    payloads.map(|i: int, p: Seq<char>| ActionV::Send(p))
}

/// The server message is a keep-alive ping.
pub open spec fn is_ping(v: JsonV) -> bool {
    match v {
        JsonV::Obj(ms) => obj_get(ms, "msg"@) == Some(JsonV::Str("ping"@)),
        _ => false,
    }
}

/// Whether a decoded server value is a keep-alive ping.
pub fn json_is_ping(v: &Json) -> (r: bool)
    ensures
        r == is_ping(jmodel(*v)),
{
    match v {
        Json::Obj(ms) => {
            proof {
                lemma_obj_model(*ms);
            }
            match crate::protocol::obj_find(ms, "msg") {
                Some(j) => match j {
                    Json::Str(s) => str_eq(s.as_str(), "ping"),
                    _ => {
                        proof {
                            lemma_model_variant(*j);
                        }
                        false
                    },
                },
                None => false,
            }
        },
        _ => {
            proof {
                lemma_model_variant(*v);
            }
            false
        },
    }
}

/// How one queue item steps the processor: the next routine state, the
/// actions in order, and the grid afterwards. A ping only arms a pong; a
/// server value that is no well-formed message is dropped; any other server
/// message first draws its map cells (logging a snapshot), then steps the
/// routine engine; a console line selects a routine and, when it yields no
/// immediate payload, lets the engine advance once without a message.
pub open spec fn item_step(
    r: Routine,
    grid: Seq<Option<Seq<char>>>,
    w: int,
    h: int,
    item: ProcessItemV,
    stamp: Seq<char>,
) -> (Routine, Seq<ActionV>, Seq<Option<Seq<char>>>) {
    match item {
        ProcessItemV::Server(v) => if is_ping(v) {
            (r, seq![ActionV::ArmPong], grid)
        } else {
            match message_of_spec(v) {
                None => (r, Seq::empty(), grid),
                Some(mv) => {
                    let grid2 = if carries_map(Some(mv)) {
                        run_cells(grid, w, h, mv.cells.unwrap(), 0).0
                    } else {
                        grid
                    };
                    let notes = if carries_map(Some(mv)) {
                        seq![ActionV::Log(render_text(grid2, w, h))]
                    } else {
                        Seq::empty()
                    };
                    (
                        routine_next(r, Some(mv)),
                        notes + sends(routine_out(r, Some(mv), stamp)),
                        grid2,
                    )
                },
            }
        },
        ProcessItemV::Console(line) => {
            if repl_out(line).len() == 0 {
                let r1 = repl_next(line);
                (
                    routine_next(r1, None),
                    sends(routine_out(r1, None, stamp)),
                    grid,
                )
            } else {
                (repl_next(line), sends(repl_out(line)), grid)
            }
        },
    }
}

/// What processing one item produced.
pub struct ProcessOutcome {
    pub next: Routine,
    pub actions: Vec<Action>,
}

fn sends_of(payloads: Vec<String>) -> (r: Vec<Action>)
    ensures
        actions_view(r@) == sends(strings_view(payloads@)),
{
    let mut out: Vec<Action> = Vec::new();
    let mut i: usize = 0;
    while i < payloads.len()
        invariant
            i <= payloads@.len(),
            actions_view(out@) =~= sends(strings_view(payloads@)).subrange(0, i as int),
        decreases payloads@.len() - i,
    {
        let ghost pre = out@;
        let p = payloads[i].clone();
        out.push(Action::Send(p));
        proof {
            let target = sends(strings_view(payloads@));
            assert(out@ == pre.push(Action::Send(p)));
            assert(actions_view(pre).len() == pre.len());
            assert(actions_view(pre).len() == i);
            assert(out@.len() == i + 1);
            assert forall|k: int| 0 <= k < i + 1 implies actions_view(out@)[k] == target.subrange(
                0,
                i + 1,
            )[k] by {
                if k < i {
                    assert(actions_view(pre)[k] == target.subrange(0, i as int)[k]);
                    assert(out@[k] == pre[k]);
                }
                assert(target[k] == ActionV::Send(strings_view(payloads@)[k]));
            }
            assert(actions_view(out@) =~= target.subrange(0, i + 1));
        }
        i = i + 1;
    }
    proof {
        assert(sends(strings_view(payloads@)).subrange(
            0,
            payloads@.len() as int,
        ) =~= sends(strings_view(payloads@)));
    }
    out
}

/// Processes one queue item with the registration stamp fixed by the
/// caller, exactly as `item_step` describes. The lookahead is handed to the
/// routine engine, which the fixed opening scripts never consult.
pub fn process_item_stamped(
    routine: Routine,
    item: &ProcessItem,
    lookahead: Option<&Json>,
    map: &mut MapState,
    stamp: &str,
) -> (r: ProcessOutcome)
    requires
        old(map).wf(),
    ensures
        final(map).wf(),
        final(map).spec_width() == old(map).spec_width(),
        final(map).spec_height() == old(map).spec_height(),
        (r.next, actions_view(r.actions@), final(map).grid()) == item_step(
            routine,
            old(map).grid(),
            old(map).spec_width(),
            old(map).spec_height(),
            item@,
            stamp@,
        ),
{
    match item {
        ProcessItem::Server(v) => {
            if json_is_ping(v) {
                let actions = vec![Action::ArmPong];
                proof {
                    assert(actions_view(actions@) =~= seq![ActionV::ArmPong]);
                }
                ProcessOutcome { next: routine, actions }
            } else {
                match GameMessage::of_json(v) {
                    None => {
                        let actions: Vec<Action> = Vec::new();
                        proof {
                            assert(actions_view(actions@) =~= Seq::<ActionV>::empty());
                        }
                        ProcessOutcome { next: routine, actions }
                    },
                    Some(m) => {
                        let lm = match lookahead {
                            Some(lv) => GameMessage::of_json(lv),
                            None => None,
                        };
                        let outcome = execute_routine_stamped(
                            routine,
                            Some(&m),
                            lm.as_ref(),
                            map,
                            stamp,
                        );
                        let mut actions: Vec<Action> = Vec::new();
                        let mut sent = sends_of(outcome.outgoing);
                        match outcome.snapshot {
                            Some(snap) => {
                                actions.push(Action::Log(snap));
                            },
                            None => {},
                        }
                        actions.append(&mut sent);
                        proof {
                            assert(actions_view(actions@) =~= item_step(
                                routine,
                                old(map).grid(),
                                old(map).spec_width(),
                                old(map).spec_height(),
                                item@,
                                stamp@,
                            ).1);
                        }
                        ProcessOutcome { next: outcome.next, actions }
                    },
                }
            }
        },
        ProcessItem::Console(line) => {
            let (r1, out1) = handle_repl_command(line.as_str());
            if out1.len() == 0 {
                proof {
                    assert(repl_out(line@).len() == 0);
                }
                let outcome = execute_routine_stamped(r1, None, None, map, stamp);
                let actions = sends_of(outcome.outgoing);
                ProcessOutcome { next: outcome.next, actions }
            } else {
                proof {
                    assert(repl_out(line@).len() != 0);
                }
                let actions = sends_of(out1);
                ProcessOutcome { next: r1, actions }
            }
        },
    }
}

/// Processes one queue item, with the registration stamp drawn from the
/// clock by the routine engine's wrapper.
pub fn process_item(
    routine: Routine,
    item: &ProcessItem,
    lookahead: Option<&Json>,
    map: &mut MapState,
) -> (r: ProcessOutcome)
    requires
        old(map).wf(),
    ensures
        final(map).wf(),
        final(map).spec_width() == old(map).spec_width(),
        final(map).spec_height() == old(map).spec_height(),
        exists|stamp: Seq<char>|
            (r.next, actions_view(r.actions@), final(map).grid()) == item_step(
                routine,
                old(map).grid(),
                old(map).spec_width(),
                old(map).spec_height(),
                item@,
                stamp,
            ),
{
    let stamp = crate::routine::time_stamp_compact();
    let r = process_item_stamped(routine, item, lookahead, map, stamp.as_str());
    proof {
        assert((r.next, actions_view(r.actions@), final(map).grid()) == item_step(
            routine,
            old(map).grid(),
            old(map).spec_width(),
            old(map).spec_height(),
            item@,
            stamp@,
        ));
    }
    r
}

/// How a whole batch of queue items steps the processor, items in order,
/// actions concatenated in emission order.
pub open spec fn batch_step(
    r: Routine,
    grid: Seq<Option<Seq<char>>>,
    w: int,
    h: int,
    items: Seq<ProcessItemV>,
    stamp: Seq<char>,
) -> (Routine, Seq<ActionV>, Seq<Option<Seq<char>>>)
    decreases items.len(),
{
    if items.len() == 0 {
        (r, Seq::empty(), grid)
    } else {
        let (r1, a1, g1) = item_step(r, grid, w, h, items[0], stamp);
        let (r2, a2, g2) = batch_step(r1, g1, w, h, items.subrange(1, items.len() as int), stamp);
        (r2, a1 + a2, g2)
    }
}

/// Processes a batch of queue items in arrival order, handing each server
/// item the next item as lookahead when that is a server value, exactly as
/// `batch_step` describes.
#[verifier::loop_isolation(false)]
pub fn process_batch(
    routine: Routine,
    items: &Vec<ProcessItem>,
    map: &mut MapState,
    stamp: &str,
) -> (r: (Routine, Vec<Action>))
    requires
        old(map).wf(),
    ensures
        final(map).wf(),
        final(map).spec_width() == old(map).spec_width(),
        final(map).spec_height() == old(map).spec_height(),
        (r.0, actions_view(r.1@), final(map).grid()) == batch_step(
            routine,
            old(map).grid(),
            old(map).spec_width(),
            old(map).spec_height(),
            items_view(items@),
            stamp@,
        ),
{
    let ghost all = items_view(items@);
    let ghost g0 = old(map).grid();
    let ghost w = old(map).spec_width();
    let ghost h = old(map).spec_height();
    let ghost goal = batch_step(routine, g0, w, h, all, stamp@);
    let mut cur = routine;
    let mut acts: Vec<Action> = Vec::new();
    let mut i: usize = 0;
    proof {
        assert(all.subrange(0, all.len() as int) =~= all);
        assert(actions_view(acts@) =~= Seq::<ActionV>::empty());
        let rem = batch_step(cur, map.grid(), w, h, all, stamp@);
        assert(Seq::<ActionV>::empty() + rem.1 =~= rem.1);
    }
    while i < items.len()
        invariant
            map.wf(),
            map.spec_width() == w,
            map.spec_height() == h,
            i <= items@.len(),
            all == items_view(items@),
            ({
                let rem = batch_step(
                    cur,
                    map.grid(),
                    w,
                    h,
                    all.subrange(i as int, all.len() as int),
                    stamp@,
                );
                goal == (rem.0, actions_view(acts@) + rem.1, rem.2)
            }),
        decreases items@.len() - i,
    {
        let ghost rem_items = all.subrange(i as int, all.len() as int);
        proof {
            assert(rem_items[0] == all[i as int]);
            assert(rem_items.subrange(1, rem_items.len() as int) =~= all.subrange(
                i + 1,
                all.len() as int,
            ));
        }
        let lookahead: Option<&Json> = if i + 1 < items.len() {
            match &items[i + 1] {
                ProcessItem::Server(v) => Some(v),
                _ => None,
            }
        } else {
            None
        };
        let outcome = process_item_stamped(cur, &items[i], lookahead, map, stamp);
        cur = outcome.next;
        let ghost pre_acts = actions_view(acts@);
        let ghost step_acts = actions_view(outcome.actions@);
        let mut new_acts = outcome.actions;
        acts.append(&mut new_acts);
        proof {
            assert(actions_view(acts@) =~= pre_acts + step_acts);
            let rem2 = batch_step(
                cur,
                map.grid(),
                w,
                h,
                all.subrange(i + 1, all.len() as int),
                stamp@,
            );
            assert(pre_acts + (step_acts + rem2.1) =~= (pre_acts + step_acts) + rem2.1);
        }
        i = i + 1;
    }
    proof {
        assert(all.subrange(i as int, all.len() as int) =~= Seq::<ProcessItemV>::empty());
        assert(actions_view(acts@) + Seq::<ActionV>::empty() =~= actions_view(acts@));
    }
    (cur, acts)
}

/// Law: a keep-alive never blocks what follows it. A batch that starts with
/// a ping arms the deferred pong, changes neither routine state nor grid,
/// and handles the rest of the batch exactly as it would alone — so every
/// payload of a later message is emitted even while the pong is pending.
pub proof fn lemma_ping_non_blocking(
    r: Routine,
    grid: Seq<Option<Seq<char>>>,
    w: int,
    h: int,
    v: JsonV,
    rest: Seq<ProcessItemV>,
    stamp: Seq<char>,
)
    requires
        is_ping(v),
    ensures
        ({
            let whole = batch_step(r, grid, w, h, seq![ProcessItemV::Server(v)] + rest, stamp);
            let tail = batch_step(r, grid, w, h, rest, stamp);
            whole == (tail.0, seq![ActionV::ArmPong] + tail.1, tail.2)
        }),
{
    let items = seq![ProcessItemV::Server(v)] + rest;
    assert(items[0] == ProcessItemV::Server(v));
    assert(items.subrange(1, items.len() as int) =~= rest);
}

} // verus!
