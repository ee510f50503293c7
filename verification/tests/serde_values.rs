use debuggable::debuggable::Debuggable;
use debuggable::serializable::{ClientUnitMessage, JSONDeSerializable, JsonText, ServerMessage};
use debuggable::server::DebuggableServer;

/// A list of words, written and read by `serde_json`.
#[derive(Debug, Clone, PartialEq)]
struct Words(Vec<String>);

impl JSONDeSerializable for Words {
    fn json_text(&self) -> Option<JsonText> {
        unreachable!()
    }

    fn parsed(_json: JsonText) -> Option<Self> {
        unreachable!()
    }

    fn to_json(&self) -> Option<String> {
        serde_json::to_string(&self.0).ok()
    }

    fn from_json(json: &str) -> Option<Self> {
        serde_json::from_str(json).ok().map(Words)
    }
}

fn words(list: &[&str]) -> Words {
    Words(list.iter().map(|word| word.to_string()).collect())
}

fn notify(value: &str) -> ServerMessage {
    ServerMessage::Notify { id: 0, name: "words".to_string(), value_in_json: value.to_string() }
}

fn propose(server: &mut DebuggableServer, client: usize, value: &str) {
    server.process_message_of(
        client,
        Some(ClientUnitMessage::UpdateValue { id: 0, new_value: value.to_string() }),
    );
}

fn exposed_words() -> (DebuggableServer, Debuggable<Words>) {
    let mut server = DebuggableServer::new();
    for client in 1..4 {
        server.on_connect(client);
    }
    let (mirror, (clients, message)) =
        Debuggable::new_server(&mut server, "words".to_string(), words(&["a"]), false);
    assert_eq!(clients, vec![1, 2, 3]);
    assert_eq!(message, notify("[\"a\"]"));
    (server, mirror)
}

#[test]
fn serde_value_most_recent_valid_wins() {
    let (mut server, mut mirror) = exposed_words();
    propose(&mut server, 1, "[\"A\"]");
    propose(&mut server, 2, "[\"B\"]");
    propose(&mut server, 3, "[\"C\"]");
    assert_eq!(mirror.process_changes(&mut server), Some((vec![1, 2], notify("[\"C\"]"))));
    assert_eq!(mirror.value(), &words(&["C"]));
    assert_eq!(mirror.process_changes(&mut server), None);
}

#[test]
fn serde_value_invalid_then_valid() {
    let (mut server, mut mirror) = exposed_words();
    propose(&mut server, 1, "not-json");
    propose(&mut server, 2, "[\"x\", \"y\"]");
    assert_eq!(mirror.process_changes(&mut server), Some((vec![1, 3], notify("[\"x\",\"y\"]"))));
    assert_eq!(mirror.value(), &words(&["x", "y"]));
    assert_eq!(server.last_value_of(0), Some("[\"x\",\"y\"]".to_string()));
    assert_eq!(mirror.process_changes(&mut server), None);
}

#[test]
fn serde_value_all_invalid() {
    let (mut server, mut mirror) = exposed_words();
    propose(&mut server, 3, "{\"a\": 1}");
    propose(&mut server, 1, "[1, 2]");
    propose(&mut server, 3, "[\"unfinished\"");
    assert_eq!(mirror.process_changes(&mut server), Some((vec![3, 1], notify("[\"a\"]"))));
    assert_eq!(mirror.value(), &words(&["a"]));
}

#[test]
fn serde_value_written_otherwise_is_taken_over_once() {
    let (mut server, mut mirror) = exposed_words();
    propose(&mut server, 2, " [ \"a\" ] ");
    assert_eq!(mirror.process_changes(&mut server), Some((vec![1, 3], notify("[\"a\"]"))));
    assert_eq!(mirror.value(), &words(&["a"]));
    assert_eq!(mirror.process_changes(&mut server), None);
}
