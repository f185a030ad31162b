use dcss_bot::json::{parse_value_at, Json};
use dcss_bot::protocol::{normalize_messages, num_i32, GameMessage};

fn parse(text: &str) -> Json {
    let cs: Vec<char> = text.chars().collect();
    parse_value_at(&cs, 0).expect("value should parse").0
}

fn msg_of(v: &Json) -> String {
    GameMessage::of_json(v).expect("message").msg
}

#[test]
fn normalize_array() {
    let vals = normalize_messages(parse("[{\"msg\":\"a\"},{\"msg\":\"b\"}]"));
    assert_eq!(vals.len(), 2);
    assert_eq!(msg_of(&vals[0]), "a");
    assert_eq!(msg_of(&vals[1]), "b");
}

#[test]
fn normalize_msgs_wrapper() {
    let vals = normalize_messages(parse("{\"msgs\":[{\"msg\":\"a\"}]}"));
    assert_eq!(vals.len(), 1);
    assert_eq!(msg_of(&vals[0]), "a");
}

#[test]
fn normalize_single() {
    let vals = normalize_messages(parse("{\"msg\":\"a\"}"));
    assert_eq!(vals.len(), 1);
    assert_eq!(msg_of(&vals[0]), "a");
}

#[test]
fn normalize_msgs_not_array() {
    // a msgs member that is no array leaves the whole value one message
    let vals = normalize_messages(parse("{\"msgs\":7,\"msg\":\"x\"}"));
    assert_eq!(vals.len(), 1);
    assert_eq!(msg_of(&vals[0]), "x");
}

#[test]
fn normalize_scalar() {
    let vals = normalize_messages(parse("\"hello\""));
    assert_eq!(vals.len(), 1);
    assert!(matches!(&vals[0], Json::Str(s) if s == "hello"));
}

#[test]
fn duplicate_keys_last_binding_wins() {
    let m = GameMessage::of_json(&parse("{\"msg\":\"a\",\"msg\":\"b\"}")).unwrap();
    assert_eq!(m.msg, "b");
}

#[test]
fn message_requires_msg_field() {
    assert!(GameMessage::of_json(&parse("{\"title\":\"x\"}")).is_none());
    assert!(GameMessage::of_json(&parse("{\"msg\":7}")).is_none());
    assert!(GameMessage::of_json(&parse("[1]")).is_none());
}

#[test]
fn message_title_and_cells() {
    let m = GameMessage::of_json(&parse(
        "{\"msg\":\"map\",\"title\":null,\"cells\":[{\"x\":0,\"y\":0,\"g\":\"@\"},{\"g\":\".\"}]}",
    ))
    .unwrap();
    assert_eq!(m.msg, "map");
    assert!(m.title.is_none());
    let cells = m.cells.unwrap();
    assert_eq!(cells.len(), 2);
    assert_eq!(cells[0].x, Some(0));
    assert_eq!(cells[0].g.as_deref(), Some("@"));
    assert_eq!(cells[1].x, None);
    assert_eq!(cells[1].g.as_deref(), Some("."));
}

#[test]
fn message_rejects_malformed_cells() {
    let v = parse("{\"msg\":\"map\",\"cells\":[{\"x\":\"oops\"}]}");
    assert!(GameMessage::of_json(&v).is_none());
    let v = parse("{\"msg\":\"map\",\"cells\":7}");
    assert!(GameMessage::of_json(&v).is_none());
}

#[test]
fn message_ignores_unknown_fields() {
    let m = GameMessage::of_json(&parse("{\"msg\":\"chat\",\"who\":\"x\",\"depth\":3}"))
        .unwrap();
    assert_eq!(m.msg, "chat");
}

#[test]
fn cell_coordinates_must_fit() {
    let v = parse("{\"msg\":\"map\",\"cells\":[{\"x\":2147483647,\"y\":-2147483648}]}");
    let m = GameMessage::of_json(&v).unwrap();
    let cells = m.cells.unwrap();
    assert_eq!(cells[0].x, Some(2147483647));
    assert_eq!(cells[0].y, Some(-2147483648));
    let v = parse("{\"msg\":\"map\",\"cells\":[{\"x\":2147483648}]}");
    assert!(GameMessage::of_json(&v).is_none());
}

#[test]
fn num_i32_reads_integers_only() {
    assert_eq!(num_i32(&String::from("42")), Some(42));
    assert_eq!(num_i32(&String::from("-7")), Some(-7));
    assert_eq!(num_i32(&String::from("1.0")), None);
    assert_eq!(num_i32(&String::from("1e2")), None);
    assert_eq!(num_i32(&String::from("99999999999")), None);
}
