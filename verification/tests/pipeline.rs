use dcss_bot::json::{parse_value_at, Json};
use dcss_bot::map::MapState;
use dcss_bot::pipeline::{json_is_ping, process_batch, process_item_stamped, Action, ProcessItem};
use dcss_bot::routine::Routine;

fn parse(text: &str) -> Json {
    let cs: Vec<char> = text.chars().collect();
    parse_value_at(&cs, 0).expect("value should parse").0
}

fn server(text: &str) -> ProcessItem {
    ProcessItem::Server(parse(text))
}

const STAMP: &str = "20200101000000";

#[test]
fn ping_is_recognized() {
    assert!(json_is_ping(&parse("{\"msg\":\"ping\"}")));
    assert!(!json_is_ping(&parse("{\"msg\":\"pong\"}")));
    assert!(!json_is_ping(&parse("[\"ping\"]")));
}

#[test]
fn ping_only_arms_a_pong() {
    let mut map = MapState::new();
    let out = process_item_stamped(
        Routine::StartGame,
        &server("{\"msg\":\"ping\"}"),
        None,
        &mut map,
        STAMP,
    );
    assert_eq!(out.next, Routine::StartGame);
    assert_eq!(out.actions, vec![Action::ArmPong]);
}

#[test]
fn ping_does_not_block_the_next_message() {
    // a ping followed in the same batch by an unrelated message: the pong is
    // only armed, and the unrelated message's payload goes out during the
    // batch
    let mut map = MapState::new();
    let items = vec![server("{\"msg\":\"ping\"}"), server("{\"msg\":\"login_success\"}")];
    let (next, actions) = process_batch(Routine::StartGame, &items, &mut map, STAMP);
    assert_eq!(next, Routine::StartGame);
    assert_eq!(
        actions,
        vec![
            Action::ArmPong,
            Action::Send("{\"msg\":\"play\",\"game_id\":\"dcss-web-trunk\"}".to_string()),
        ],
    );
}

#[test]
fn console_line_passes_through() {
    let mut map = MapState::new();
    let out = process_item_stamped(
        Routine::Idle,
        &ProcessItem::Console("hello".to_string()),
        None,
        &mut map,
        STAMP,
    );
    assert_eq!(out.next, Routine::Idle);
    assert_eq!(out.actions, vec![Action::Send("hello".to_string())]);
}

#[test]
fn console_start_registers_at_once() {
    let mut map = MapState::new();
    let out = process_item_stamped(
        Routine::Idle,
        &ProcessItem::Console("/start".to_string()),
        None,
        &mut map,
        STAMP,
    );
    assert_eq!(out.next, Routine::StartGame);
    assert_eq!(
        out.actions,
        vec![Action::Send(
            "{\"msg\":\"register\",\"username\":\"dirkle20200101000000\",\"password\":\"aaa\",\"email\":\"\"}"
                .to_string(),
        )],
    );
}

#[test]
fn console_hook_rests_again() {
    let mut map = MapState::new();
    let out = process_item_stamped(
        Routine::StartGame,
        &ProcessItem::Console("/hook1".to_string()),
        None,
        &mut map,
        STAMP,
    );
    assert_eq!(out.next, Routine::Idle);
    assert!(out.actions.is_empty());
}

#[test]
fn malformed_server_value_is_dropped() {
    let mut map = MapState::new();
    let out = process_item_stamped(
        Routine::StartGame,
        &server("{\"title\":\"no discriminant\"}"),
        None,
        &mut map,
        STAMP,
    );
    assert_eq!(out.next, Routine::StartGame);
    assert!(out.actions.is_empty());
}

#[test]
fn map_message_logs_a_snapshot_and_aborts_the_script() {
    let mut map = MapState::new();
    let out = process_item_stamped(
        Routine::StartGame,
        &server("{\"msg\":\"map\",\"cells\":[{\"x\":0,\"y\":0,\"g\":\"@\"},{\"g\":\".\"}]}"),
        None,
        &mut map,
        STAMP,
    );
    // the grid is drawn and logged before state logic; `map` is not on the
    // script's allow-list, so the script aborts
    assert_eq!(out.next, Routine::Idle);
    assert_eq!(out.actions, vec![Action::Log("100,100 - 101,100\n@.\n".to_string())]);
    assert_eq!(map.print_map(), "100,100 - 101,100\n@.\n");
}

#[test]
fn batch_threads_state_through() {
    let mut map = MapState::new();
    let items = vec![
        ProcessItem::Console("/seeded".to_string()),
        server("{\"msg\":\"login_success\"}"),
        server("{\"msg\":\"ui-push\",\"title\":\"oops\"}"),
        server("{\"msg\":\"login_success\"}"),
    ];
    let (next, actions) = process_batch(Routine::Idle, &items, &mut map, STAMP);
    // the script registers, plays seeded, aborts on the unknown title, and
    // then rests: the last login_success finds no script running
    assert_eq!(next, Routine::Idle);
    assert_eq!(
        actions,
        vec![
            Action::Send(
                "{\"msg\":\"register\",\"username\":\"dirkle20200101000000\",\"password\":\"aaa\",\"email\":\"\"}"
                    .to_string(),
            ),
            Action::Send("{\"msg\":\"play\",\"game_id\":\"seeded-web-trunk\"}".to_string()),
        ],
    );
}
