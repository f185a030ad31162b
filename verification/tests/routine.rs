use dcss_bot::map::MapState;
use dcss_bot::protocol::GameMessage;
use dcss_bot::routine::{
    execute_routine_stamped, handle_repl_command, login, play, play_seeded, register,
    register_with_stamp, send_keycode, send_text, Routine,
};

fn message(msg: &str) -> GameMessage {
    GameMessage { msg: msg.to_string(), title: None, cells: None }
}

fn titled(msg: &str, title: &str) -> GameMessage {
    GameMessage { msg: msg.to_string(), title: Some(title.to_string()), cells: None }
}

fn step(r: Routine, m: Option<&GameMessage>) -> (Routine, Vec<String>) {
    let mut map = MapState::new();
    let out = execute_routine_stamped(r, m, None, &mut map, "20200101000000");
    (out.next, out.outgoing)
}

#[test]
fn login_success_plays_unseeded() {
    let (next, out) = step(Routine::StartGame, Some(&message("login_success")));
    assert_eq!(next, Routine::StartGame);
    assert_eq!(out, vec!["{\"msg\":\"play\",\"game_id\":\"dcss-web-trunk\"}".to_string()]);
}

#[test]
fn login_success_plays_seeded() {
    let (next, out) = step(Routine::StartSeededGame, Some(&message("login_success")));
    assert_eq!(next, Routine::StartSeededGame);
    assert_eq!(out, vec!["{\"msg\":\"play\",\"game_id\":\"seeded-web-trunk\"}".to_string()]);
}

#[test]
fn unexpected_title_aborts() {
    let (next, out) = step(
        Routine::StartSeededGame,
        Some(&titled("ui-push", "Something unexpected")),
    );
    assert_eq!(next, Routine::Idle);
    assert!(out.is_empty());
}

#[test]
fn untitled_push_aborts() {
    let (next, out) = step(Routine::StartGame, Some(&message("ui-push")));
    assert_eq!(next, Routine::Idle);
    assert!(out.is_empty());
}

#[test]
fn seed_prompt_enters_seed() {
    let (next, out) = step(
        Routine::StartSeededGame,
        Some(&titled("ui-push", "Play a game with a custom seed")),
    );
    assert_eq!(next, Routine::StartSeededGame);
    assert_eq!(
        out,
        vec![
            "{\"msg\":\"input\",\"text\":\"-\"}".to_string(),
            "{\"msg\":\"input\",\"text\":\"122333\"}".to_string(),
            "{\"msg\":\"key\",\"keycode\":13}".to_string(),
        ],
    );
}

#[test]
fn seed_prompt_is_seeded_only() {
    // the unseeded script does not recognize the seed prompt and aborts
    let (next, out) = step(
        Routine::StartGame,
        Some(&titled("ui-push", "Play a game with a custom seed")),
    );
    assert_eq!(next, Routine::Idle);
    assert!(out.is_empty());
}

#[test]
fn species_and_background_pick() {
    for title in ["Please select your species", "Please select your background"] {
        for r in [Routine::StartGame, Routine::StartSeededGame] {
            let (next, out) = step(r, Some(&titled("ui-push", title)));
            assert_eq!(next, r);
            assert_eq!(out, vec!["{\"msg\":\"input\",\"text\":\"f\"}".to_string()]);
        }
    }
}

#[test]
fn welcome_finishes_script() {
    let (next, out) = step(Routine::StartGame, Some(&titled("ui-push", "Welcome, adventurer")));
    assert_eq!(next, Routine::Idle);
    assert_eq!(out, vec!["{\"msg\":\"input\",\"text\":\"f\"}".to_string()]);
}

#[test]
fn benign_messages_pass() {
    for kind in [
        "html", "set_game_links", "game_client", "game_started", "chat", "version", "options",
        "layout", "ui-state-sync", "ui-state", "ui_state", "ui-pop", "player", "text_cursor",
        "update_spectators",
    ] {
        let (next, out) = step(Routine::StartGame, Some(&message(kind)));
        assert_eq!(next, Routine::StartGame, "{}", kind);
        assert!(out.is_empty(), "{}", kind);
    }
}

#[test]
fn unknown_message_aborts() {
    let (next, out) = step(Routine::StartSeededGame, Some(&message("msgs")));
    assert_eq!(next, Routine::Idle);
    assert!(out.is_empty());
}

#[test]
fn no_message_registers() {
    let (next, out) = step(Routine::StartGame, None);
    assert_eq!(next, Routine::StartGame);
    assert_eq!(
        out,
        vec![
            "{\"msg\":\"register\",\"username\":\"dirkle20200101000000\",\"password\":\"aaa\",\"email\":\"\"}"
                .to_string(),
        ],
    );
}

#[test]
fn idle_and_hooks_rest() {
    for r in [Routine::Idle, Routine::Hook1, Routine::Hook2] {
        let (next, out) = step(r, None);
        assert_eq!(next, Routine::Idle);
        assert!(out.is_empty());
        let (next, out) = step(r, Some(&message("login_success")));
        assert_eq!(next, Routine::Idle);
        assert!(out.is_empty());
    }
}

#[test]
fn payload_builders() {
    assert_eq!(play(), "{\"msg\":\"play\",\"game_id\":\"dcss-web-trunk\"}");
    assert_eq!(play_seeded(), "{\"msg\":\"play\",\"game_id\":\"seeded-web-trunk\"}");
    assert_eq!(send_text("f"), "{\"msg\":\"input\",\"text\":\"f\"}");
    assert_eq!(send_keycode(13), "{\"msg\":\"key\",\"keycode\":13}");
    assert_eq!(send_keycode(-2), "{\"msg\":\"key\",\"keycode\":-2}");
    assert_eq!(
        register(),
        "{\"msg\":\"register\",\"username\":\"dirkle\",\"password\":\"aaa\",\"email\":\"\"}",
    );
    assert_eq!(login(), "{\"msg\":\"login\",\"username\":\"dirkle\",\"password\":\"aaa\"}");
}

#[test]
fn send_text_escapes() {
    assert_eq!(
        send_text("a\"b\\c\nd"),
        "{\"msg\":\"input\",\"text\":\"a\\\"b\\\\c\\nd\"}",
    );
    assert_eq!(send_text("\u{0001}"), "{\"msg\":\"input\",\"text\":\"\\u0001\"}");
}

#[test]
fn register_stamp_lands_in_username() {
    assert_eq!(
        register_with_stamp("19991231235959"),
        "{\"msg\":\"register\",\"username\":\"dirkle19991231235959\",\"password\":\"aaa\",\"email\":\"\"}",
    );
}

#[test]
fn register_random_carries_a_stamp() {
    let r = dcss_bot::routine::register_random();
    assert!(r.starts_with("{\"msg\":\"register\",\"username\":\"dirkle"));
    assert!(r.ends_with("\",\"password\":\"aaa\",\"email\":\"\"}"));
    let stamp = &r["{\"msg\":\"register\",\"username\":\"dirkle".len()
        ..r.len() - "\",\"password\":\"aaa\",\"email\":\"\"}".len()];
    assert!(!stamp.is_empty());
    assert!(stamp.chars().all(|c| c.is_ascii_digit()));
}

#[test]
fn keycode_extremes() {
    assert_eq!(
        send_keycode(i32::MIN),
        "{\"msg\":\"key\",\"keycode\":-2147483648}",
    );
    assert_eq!(
        send_keycode(i32::MAX),
        "{\"msg\":\"key\",\"keycode\":2147483647}",
    );
}

#[test]
fn repl_selects_routines() {
    assert_eq!(handle_repl_command("/hook1").0, Routine::Hook1);
    assert_eq!(handle_repl_command("/hook2").0, Routine::Hook2);
    assert_eq!(handle_repl_command("/start").0, Routine::StartGame);
    assert_eq!(handle_repl_command("/seeded").0, Routine::StartSeededGame);
    assert!(handle_repl_command("/start").1.is_empty());
}

#[test]
fn repl_forwards_unknown_lines() {
    let (next, out) = handle_repl_command("hello");
    assert_eq!(next, Routine::Idle);
    assert_eq!(out, vec!["hello".to_string()]);
    let (next, out) = handle_repl_command("/bogus");
    assert_eq!(next, Routine::Idle);
    assert_eq!(out, vec!["/bogus".to_string()]);
}
