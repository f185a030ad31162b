//! The scripted routine engine: a finite state machine that reacts to server
//! messages with outgoing payloads, driving login, registration and game
//! setup without operator input. An unrecognized step aborts the script to
//! the idle state; that is a defined transition, not a failure.

use vstd::prelude::*;
use crate::map::{run_cells, render_text, MapState};
use crate::protocol::{GameMessage, GameMessageV};
use crate::util::{
    escape_json,
    has_substr,
    int_text,
    push_json_escaped,
    str_eq,
    contains_sub,
    i64_string,
};

verus! {

use vstd::string::StringExecFns;

/// The routine the processor is running. `Idle` rests; `Hook1` and `Hook2`
/// are reserved extension points that run one no-op step and rest again;
/// the two start scripts differ only in the play request and the seed step.
#[derive(Debug, Clone, Copy, PartialEq, Eq, Structural)]
pub enum Routine {
    Idle,
    Hook1,
    Hook2,
    StartGame,
    StartSeededGame,
}

/// A script is in progress.
pub open spec fn script_active(r: Routine) -> bool {
    r == Routine::StartGame || r == Routine::StartSeededGame
}

/// The views of a sequence of payload strings, in order.
pub open spec fn strings_view(s: Seq<String>) -> Seq<Seq<char>> {
    s.map(|i: int, x: String| x@)
}

/// The unseeded play request.
pub open spec fn play_payload() -> Seq<char> {
    "{\"msg\":\"play\",\"game_id\":\"dcss-web-trunk\"}"@
}

/// The seeded play request.
pub open spec fn play_seeded_payload() -> Seq<char> {
    "{\"msg\":\"play\",\"game_id\":\"seeded-web-trunk\"}"@
}

/// A text input payload carrying `text`.
pub open spec fn input_payload(text: Seq<char>) -> Seq<char> {
    "{\"msg\":\"input\",\"text\":\""@ + escape_json(text) + "\"}"@
}

/// A key input payload carrying `keycode`.
pub open spec fn key_payload(keycode: int) -> Seq<char> {
    "{\"msg\":\"key\",\"keycode\":"@ + int_text(keycode) + "}"@
}

/// The registration request for a username made of the fixed prefix and a
/// stamp, with the fixed throwaway password and an empty email.
pub open spec fn register_payload(stamp: Seq<char>) -> Seq<char> {
    "{\"msg\":\"register\",\"username\":\"dirkle"@ + escape_json(stamp)
        + "\",\"password\":\"aaa\",\"email\":\"\"}"@
}

/// Builds the unseeded play request.
pub fn play() -> (r: String)
    ensures
        r@ == play_payload(),
{
    String::from_str("{\"msg\":\"play\",\"game_id\":\"dcss-web-trunk\"}")
}

/// Builds the seeded play request.
pub fn play_seeded() -> (r: String)
    ensures
        r@ == play_seeded_payload(),
{
    String::from_str("{\"msg\":\"play\",\"game_id\":\"seeded-web-trunk\"}")
}

/// Builds a text input payload.
pub fn send_text(text: &str) -> (r: String)
    ensures
        r@ == input_payload(text@),
{
    let mut s = String::from_str("{\"msg\":\"input\",\"text\":\"");
    push_json_escaped(&mut s, text);
    s.append("\"}");
    proof {
        assert(s@ =~= input_payload(text@));
    }
    s
}

/// Builds a key input payload.
pub fn send_keycode(keycode: i32) -> (r: String)
    ensures
        r@ == key_payload(keycode as int),
{
    let mut s = String::from_str("{\"msg\":\"key\",\"keycode\":");
    let digits = i64_string(keycode as i64);
    s.append(digits.as_str());
    s.append("}");
    proof {
        assert(s@ =~= key_payload(keycode as int));
    }
    s
}

/// Builds the registration request for the given stamp.
pub fn register_with_stamp(stamp: &str) -> (r: String)
    ensures
        r@ == register_payload(stamp@),
{
    let mut s = String::from_str("{\"msg\":\"register\",\"username\":\"dirkle");
    push_json_escaped(&mut s, stamp);
    s.append("\",\"password\":\"aaa\",\"email\":\"\"}");
    proof {
        assert(s@ =~= register_payload(stamp@));
    }
    s
}

/// Relies on chrono's `Local::now` and `format`: the current local time
/// written as a compact stamp — the year zero-padded to at least four
/// digits, the five two-digit fields after it, so at least fourteen
/// characters. Nothing more is promised of the clock.
#[verifier::external_body]
pub(crate) fn time_stamp_compact() -> (r: String)
    ensures
        r@.len() >= 14,
{
    chrono::Local::now().format("%Y%m%d%H%M%S").to_string()
}

/// Builds a registration request whose username carries a fresh time stamp,
/// so repeated registrations look unique.
pub fn register_random() -> (r: String)
    ensures
        exists|stamp: Seq<char>| r@ == register_payload(stamp) && stamp.len() >= 14,
{
    let stamp = time_stamp_compact();
    let r = register_with_stamp(stamp.as_str());
    proof {
        assert(r@ == register_payload(stamp@) && stamp@.len() >= 14);
    }
    r
}

/// Builds the fixed-credential registration request.
pub fn register() -> (r: String)
    ensures
        r@ == "{\"msg\":\"register\",\"username\":\"dirkle\",\"password\":\"aaa\",\"email\":\"\"}"@,
{
    String::from_str("{\"msg\":\"register\",\"username\":\"dirkle\",\"password\":\"aaa\",\"email\":\"\"}")
}

/// Builds the fixed-credential login request.
pub fn login() -> (r: String)
    ensures
        r@ == "{\"msg\":\"login\",\"username\":\"dirkle\",\"password\":\"aaa\"}"@,
{
    String::from_str("{\"msg\":\"login\",\"username\":\"dirkle\",\"password\":\"aaa\"}")
}

/// Discriminants that a running script lets pass without reacting.
pub open spec fn benign_msg(m: Seq<char>) -> bool {
    ||| m == "html"@
    ||| m == "set_game_links"@
    ||| m == "game_client"@
    ||| m == "game_started"@
    ||| m == "chat"@
    ||| m == "version"@
    ||| m == "options"@
    ||| m == "layout"@
    ||| m == "ui-state-sync"@
    ||| m == "ui-state"@
    ||| m == "ui_state"@
    ||| m == "ui-pop"@
    ||| m == "player"@
    ||| m == "text_cursor"@
    ||| m == "update_spectators"@
}

/// The state after one invocation: a script keeps running on its recognized
/// steps and on benign messages, rests after the welcome step, and aborts on
/// anything else; the idle and hook states always rest.
pub open spec fn routine_next(r: Routine, m: Option<GameMessageV>) -> Routine {
    match m {
        None => if script_active(r) {
            r
        } else {
            Routine::Idle
        },
        Some(mv) => if script_active(r) {
            if mv.msg == "login_success"@ {
                r
            } else if mv.msg == "ui-push"@ {
                match mv.title {
                    Some(t) => if r == Routine::StartSeededGame && has_substr(
                        t,
                        "custom seed"@,
                    ) {
                        r
                    } else if has_substr(t, "species"@) {
                        r
                    } else if has_substr(t, "background"@) {
                        r
                    } else {
                        Routine::Idle
                    },
                    None => Routine::Idle,
                }
            } else if benign_msg(mv.msg) {
                r
            } else {
                Routine::Idle
            }
        } else {
            Routine::Idle
        },
    }
}

/// The payloads one invocation emits, in order. Without a message an active
/// script introduces itself with a registration request stamped `stamp`;
/// with one, the recognized steps answer as the script prescribes.
pub open spec fn routine_out(r: Routine, m: Option<GameMessageV>, stamp: Seq<char>) -> Seq<
    Seq<char>,
> {
    match m {
        None => if script_active(r) {
            seq![register_payload(stamp)]
        } else {
            Seq::empty()
        },
        Some(mv) => if script_active(r) {
            if mv.msg == "login_success"@ {
                if r == Routine::StartGame {
                    seq![play_payload()]
                } else {
                    seq![play_seeded_payload()]
                }
            } else if mv.msg == "ui-push"@ {
                match mv.title {
                    Some(t) => if r == Routine::StartSeededGame && has_substr(
                        t,
                        "custom seed"@,
                    ) {
                        seq![input_payload("-"@), input_payload("122333"@), key_payload(13)]
                    } else if has_substr(t, "species"@) {
                        seq![input_payload("f"@)]
                    } else if has_substr(t, "background"@) {
                        seq![input_payload("f"@)]
                    } else if has_substr(t, "Welcome"@) {
                        seq![input_payload("f"@)]
                    } else {
                        Seq::empty()
                    },
                    None => Seq::empty(),
                }
            } else {
                Seq::empty()
            }
        } else {
            Seq::empty()
        },
    }
}

/// The message carries map cells to draw.
pub open spec fn carries_map(m: Option<GameMessageV>) -> bool {
    match m {
        Some(mv) => mv.msg == "map"@ && mv.cells is Some,
        None => false,
    }
}

/// What one invocation produced: the state to continue in, the payloads to
/// send in order, and a rendered map snapshot when the message drew cells.
pub struct RoutineOutcome {
    pub next: Routine,
    pub outgoing: Vec<String>,
    pub snapshot: Option<String>,
}

/// The view of a message argument.
pub open spec fn msg_view(m: Option<&GameMessage>) -> Option<GameMessageV> {
    match m {
        Some(mv) => Some(mv@),
        None => None,
    }
}

/// One invocation of the routine engine with the registration stamp fixed
/// by the caller: updates the map store from a `map` message and renders a
/// snapshot, then steps the state machine as `routine_next` / `routine_out`
/// describe. The lookahead is part of the engine's interface; the fixed
/// opening scripts never consult it.
pub fn execute_routine_stamped(
    routine: Routine,
    current: Option<&GameMessage>,
    _lookahead: Option<&GameMessage>,
    map: &mut MapState,
    stamp: &str,
) -> (r: RoutineOutcome)
    requires
        old(map).wf(),
    ensures
        final(map).wf(),
        final(map).spec_width() == old(map).spec_width(),
        final(map).spec_height() == old(map).spec_height(),
        carries_map(msg_view(current)) ==> {
            &&& final(map).grid() == run_cells(
                old(map).grid(),
                old(map).spec_width(),
                old(map).spec_height(),
                msg_view(current).unwrap().cells.unwrap(),
                0,
            ).0
            &&& r.snapshot matches Some(snap) && snap@ == render_text(
                final(map).grid(),
                final(map).spec_width(),
                final(map).spec_height(),
            )
        },
        !carries_map(msg_view(current)) ==> final(map).grid() == old(map).grid()
            && r.snapshot is None,
        r.next == routine_next(routine, msg_view(current)),
        strings_view(r.outgoing@) == routine_out(routine, msg_view(current), stamp@),
{
    let mut snapshot: Option<String> = None;
    if let Some(m) = current {
        if str_eq(m.msg.as_str(), "map") {
            if let Some(cells) = &m.cells {
                map.update_map(cells);
                snapshot = Some(map.print_map());
            }
        }
    }
    let (next, outgoing) = routine_step(routine, current, stamp);
    RoutineOutcome { next, outgoing, snapshot }
}

/// The state machine step proper, after any map side effect.
fn routine_step(routine: Routine, current: Option<&GameMessage>, stamp: &str) -> (r: (
    Routine,
    Vec<String>,
))
    ensures
        r.0 == routine_next(routine, msg_view(current)),
        strings_view(r.1@) == routine_out(routine, msg_view(current), stamp@),
{
    let active = match routine {
        Routine::StartGame => true,
        Routine::StartSeededGame => true,
        _ => false,
    };
    match current {
        None => {
            if active {
                let payload = register_with_stamp(stamp);
                let out = vec![payload];
                proof {
                    assert(strings_view(out@) =~= routine_out(
                        routine,
                        msg_view(current),
                        stamp@,
                    ));
                }
                (routine, out)
            } else {
                let out: Vec<String> = Vec::new();
                proof {
                    assert(strings_view(out@) =~= routine_out(
                        routine,
                        msg_view(current),
                        stamp@,
                    ));
                }
                (Routine::Idle, out)
            }
        },
        Some(m) => {
            if !active {
                let out: Vec<String> = Vec::new();
                proof {
                    assert(strings_view(out@) =~= routine_out(
                        routine,
                        msg_view(current),
                        stamp@,
                    ));
                }
                return (Routine::Idle, out);
            }
            if str_eq(m.msg.as_str(), "login_success") {
                let payload = match routine {
                    Routine::StartGame => play(),
                    _ => play_seeded(),
                };
                let out = vec![payload];
                proof {
                    assert(strings_view(out@) =~= routine_out(
                        routine,
                        msg_view(current),
                        stamp@,
                    ));
                }
                (routine, out)
            } else if str_eq(m.msg.as_str(), "ui-push") {
                match &m.title {
                    Some(title) => {
                        let seeded = match routine {
                            Routine::StartSeededGame => true,
                            _ => false,
                        };
                        if seeded && contains_sub(title.as_str(), "custom seed") {
                            let out = vec![send_text("-"), send_text("122333"), send_keycode(13)];
                            proof {
                                assert(strings_view(out@) =~= routine_out(
                                    routine,
                                    msg_view(current),
                                    stamp@,
                                ));
                            }
                            (routine, out)
                        } else if contains_sub(title.as_str(), "species") {
                            let out = vec![send_text("f")];
                            proof {
                                assert(strings_view(out@) =~= routine_out(
                                    routine,
                                    msg_view(current),
                                    stamp@,
                                ));
                            }
                            (routine, out)
                        } else if contains_sub(title.as_str(), "background") {
                            let out = vec![send_text("f")];
                            proof {
                                assert(strings_view(out@) =~= routine_out(
                                    routine,
                                    msg_view(current),
                                    stamp@,
                                ));
                            }
                            (routine, out)
                        } else if contains_sub(title.as_str(), "Welcome") {
                            let out = vec![send_text("f")];
                            proof {
                                assert(strings_view(out@) =~= routine_out(
                                    routine,
                                    msg_view(current),
                                    stamp@,
                                ));
                            }
                            (Routine::Idle, out)
                        } else {
                            let out: Vec<String> = Vec::new();
                            proof {
                                assert(strings_view(out@) =~= routine_out(
                                    routine,
                                    msg_view(current),
                                    stamp@,
                                ));
                            }
                            (Routine::Idle, out)
                        }
                    },
                    None => {
                        let out: Vec<String> = Vec::new();
                        proof {
                            assert(strings_view(out@) =~= routine_out(
                                routine,
                                msg_view(current),
                                stamp@,
                            ));
                        }
                        (Routine::Idle, out)
                    },
                }
            } else {
                let benign = str_eq(m.msg.as_str(), "html") || str_eq(
                    m.msg.as_str(),
                    "set_game_links",
                ) || str_eq(m.msg.as_str(), "game_client") || str_eq(
                    m.msg.as_str(),
                    "game_started",
                ) || str_eq(m.msg.as_str(), "chat") || str_eq(m.msg.as_str(), "version")
                    || str_eq(m.msg.as_str(), "options") || str_eq(m.msg.as_str(), "layout")
                    || str_eq(m.msg.as_str(), "ui-state-sync") || str_eq(
                    m.msg.as_str(),
                    "ui-state",
                ) || str_eq(m.msg.as_str(), "ui_state") || str_eq(m.msg.as_str(), "ui-pop")
                    || str_eq(m.msg.as_str(), "player") || str_eq(m.msg.as_str(), "text_cursor")
                    || str_eq(m.msg.as_str(), "update_spectators");
                let out: Vec<String> = Vec::new();
                proof {
                    assert(strings_view(out@) =~= routine_out(
                        routine,
                        msg_view(current),
                        stamp@,
                    ));
                }
                if benign {
                    (routine, out)
                } else {
                    (Routine::Idle, out)
                }
            }
        },
    }
}

/// One invocation of the routine engine: as the stamped form, with the
/// registration stamp drawn from the clock.
pub fn execute_routine(
    routine: Routine,
    current: Option<&GameMessage>,
    lookahead: Option<&GameMessage>,
    map: &mut MapState,
) -> (r: RoutineOutcome)
    requires
        old(map).wf(),
    ensures
        final(map).wf(),
        final(map).spec_width() == old(map).spec_width(),
        final(map).spec_height() == old(map).spec_height(),
        carries_map(msg_view(current)) ==> {
            &&& final(map).grid() == run_cells(
                old(map).grid(),
                old(map).spec_width(),
                old(map).spec_height(),
                msg_view(current).unwrap().cells.unwrap(),
                0,
            ).0
            &&& r.snapshot matches Some(snap) && snap@ == render_text(
                final(map).grid(),
                final(map).spec_width(),
                final(map).spec_height(),
            )
        },
        !carries_map(msg_view(current)) ==> final(map).grid() == old(map).grid()
            && r.snapshot is None,
        r.next == routine_next(routine, msg_view(current)),
        exists|stamp: Seq<char>|
            strings_view(r.outgoing@) == routine_out(routine, msg_view(current), stamp),
{
    let stamp = time_stamp_compact();
    execute_routine_stamped(routine, current, lookahead, map, stamp.as_str())
}

/// Where a console line sends the routine: the four slash commands select a
/// script or hook; anything else rests.
pub open spec fn repl_next(cmd: Seq<char>) -> Routine {
    if cmd == "/hook1"@ {
        Routine::Hook1
    } else if cmd == "/hook2"@ {
        Routine::Hook2
    } else if cmd == "/start"@ {
        Routine::StartGame
    } else if cmd == "/seeded"@ {
        Routine::StartSeededGame
    } else {
        Routine::Idle
    }
}

/// What a console line sends out at once: a recognized command sends
/// nothing; anything else is forwarded to the transport verbatim.
pub open spec fn repl_out(cmd: Seq<char>) -> Seq<Seq<char>> {
    if cmd == "/hook1"@ || cmd == "/hook2"@ || cmd == "/start"@ || cmd == "/seeded"@ {
        Seq::empty()
    } else {
        seq![cmd]
    }
}

/// Maps one console line to a routine selection and immediate payloads, as
/// `repl_next` and `repl_out` describe.
pub fn handle_repl_command(command: &str) -> (r: (Routine, Vec<String>))
    ensures
        r.0 == repl_next(command@),
        strings_view(r.1@) == repl_out(command@),
{
    let next = if str_eq(command, "/hook1") {
        Routine::Hook1
    } else if str_eq(command, "/hook2") {
        Routine::Hook2
    } else if str_eq(command, "/start") {
        Routine::StartGame
    } else if str_eq(command, "/seeded") {
        Routine::StartSeededGame
    } else {
        Routine::Idle
    };
    let recognized = match next {
        Routine::Idle => false,
        _ => true,
    };
    if recognized {
        let out: Vec<String> = Vec::new();
        proof {
            assert(strings_view(out@) =~= repl_out(command@));
        }
        (next, out)
    } else {
        let echoed = command.to_owned();
        let out = vec![echoed];
        proof {
            assert(strings_view(out@) =~= repl_out(command@));
        }
        (next, out)
    }
}

} // verus!
