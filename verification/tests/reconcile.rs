use debuggable::debuggable::{Debuggable, DebuggableBuilder};
use debuggable::default_server::{
    default_server, is_default_server_initialized, set_default_server_initializer, DefaultServer,
};
use debuggable::serializable::{ClientUnitMessage, JSONDeSerializable, JsonText, ServerMessage};
use debuggable::server::debuggable_server_builder::DebuggableServerBuilder;
use debuggable::server::{DebuggableServer, ReadPlan};

/// A number that is written as its decimal digits. Numbers above 1000 can be
/// read but not written.
#[derive(Debug, Clone, PartialEq)]
struct Level(u32);

impl JSONDeSerializable for Level {
    fn json_text(&self) -> Option<JsonText> {
        unreachable!()
    }

    fn parsed(_json: JsonText) -> Option<Self> {
        unreachable!()
    }

    fn to_json(&self) -> Option<String> {
        if self.0 > 1000 {
            None
        } else {
            Some(self.0.to_string())
        }
    }

    fn from_json(json: &str) -> Option<Self> {
        if json.starts_with('+') {
            return None;
        }
        json.parse::<u32>().ok().map(Level)
    }
}

/// A number whose reading fails loudly on the text "boom".
#[derive(Debug, PartialEq)]
struct Fragile(u32);

impl JSONDeSerializable for Fragile {
    fn json_text(&self) -> Option<JsonText> {
        unreachable!()
    }

    fn parsed(_json: JsonText) -> Option<Self> {
        unreachable!()
    }

    fn to_json(&self) -> Option<String> {
        Some(self.0.to_string())
    }

    fn from_json(json: &str) -> Option<Self> {
        assert_ne!(json, "boom", "a proposal behind the one taken over was read");
        json.parse::<u32>().ok().map(Fragile)
    }
}

fn notify(id: usize, name: &str, value: &str) -> ServerMessage {
    ServerMessage::Notify { id, name: name.to_string(), value_in_json: value.to_string() }
}

fn propose(server: &mut DebuggableServer, client: usize, id: usize, value: &str) {
    let sent = server.process_message_of(
        client,
        Some(ClientUnitMessage::UpdateValue { id, new_value: value.to_string() }),
    );
    assert!(sent.is_empty());
}

/// A server with the clients 0, 1, 2 and 3 and one value, 5, named "level".
fn level_five() -> (DebuggableServer, Debuggable<Level>) {
    let mut server = DebuggableServer::new();
    for client in 0..4 {
        server.on_connect(client);
    }
    let (mirror, (clients, message)) =
        Debuggable::new_server(&mut server, "level".to_string(), Level(5), false);
    assert_eq!(clients, vec![0, 1, 2, 3]);
    assert_eq!(message, notify(0, "level", "5"));
    (server, mirror)
}

#[test]
fn new_value_is_announced_to_everybody() {
    let mut server = DebuggableServer::new();
    server.on_connect(4);
    server.on_connect(2);
    server.init_debuggable("other".to_string());
    let (mirror, (clients, message)) =
        Debuggable::new_server(&mut server, "level".to_string(), Level(5), false);
    assert_eq!(mirror.id(), 1);
    assert_eq!(mirror.value(), &Level(5));
    assert_eq!(clients, vec![4, 2]);
    assert_eq!(message, notify(1, "level", "5"));
    assert_eq!(server.last_value_of(1), Some("5".to_string()));
}

#[test]
fn new_value_without_a_text_is_announced_as_empty_object() {
    let mut server = DebuggableServer::new();
    server.on_connect(0);
    let (mirror, (clients, message)) =
        Debuggable::new_server(&mut server, "level".to_string(), Level(2000), false);
    assert_eq!(mirror.value(), &Level(2000));
    assert_eq!(clients, vec![0]);
    assert_eq!(message, notify(0, "level", "{}"));
    assert_eq!(server.last_value_of(0), None);
}

#[test]
fn keeping_starts_from_the_given_value_too() {
    let mut server = DebuggableServer::new();
    let (first, _) = Debuggable::new_server(&mut server, "level".to_string(), Level(5), false);
    first.unregister(&mut server);
    let (mirror, (_, message)) = Debuggable::new_server(&mut server, "level".to_string(), Level(6), true);
    assert_eq!(mirror.id(), 0);
    assert_eq!(mirror.value(), &Level(6));
    assert_eq!(message, notify(0, "level", "6"));
}

#[test]
fn idempotence_of_no_op_access() {
    let (mut server, mut mirror) = level_five();
    for _ in 0..3 {
        assert_eq!(mirror.process_changes(&mut server), None);
        assert_eq!(mirror.value(), &Level(5));
        assert_eq!(server.last_value_of(0), Some("5".to_string()));
    }
    assert_eq!(server.take_incoming_jsons_of(0), Vec::new());
}

#[test]
fn most_recent_valid_wins() {
    let (mut server, mut mirror) = level_five();
    propose(&mut server, 1, 0, "10");
    propose(&mut server, 2, 0, "20");
    propose(&mut server, 3, 0, "30");
    let sent = mirror.process_changes(&mut server);
    assert_eq!(sent, Some((vec![0, 1, 2], notify(0, "level", "30"))));
    assert_eq!(mirror.value(), &Level(30));
    assert_eq!(server.last_value_of(0), Some("30".to_string()));
    assert_eq!(server.take_incoming_jsons_of(0), Vec::new());
}

#[test]
fn older_proposals_are_not_looked_at() {
    let (mut server, mut mirror) = level_five();
    propose(&mut server, 1, 0, "not-json");
    propose(&mut server, 2, 0, "also wrong");
    propose(&mut server, 3, 0, "30");
    assert_eq!(mirror.process_changes(&mut server), Some((vec![0, 1, 2], notify(0, "level", "30"))));
    assert_eq!(mirror.process_changes(&mut server), None);
}

#[test]
fn older_proposals_are_not_even_read() {
    let mut server = DebuggableServer::new();
    for client in 0..4 {
        server.on_connect(client);
    }
    let (mut mirror, _) = Debuggable::new_server(&mut server, "level".to_string(), Fragile(5), false);
    propose(&mut server, 1, 0, "boom");
    propose(&mut server, 2, 0, "boom");
    propose(&mut server, 3, 0, "30");
    assert_eq!(mirror.process_changes(&mut server), Some((vec![0, 1, 2], notify(0, "level", "30"))));
    assert_eq!(mirror.value(), &Fragile(30));
}

#[test]
fn invalid_then_valid() {
    let (mut server, mut mirror) = level_five();
    propose(&mut server, 1, 0, "not-json");
    propose(&mut server, 2, 0, "7");
    let sent = mirror.process_changes(&mut server);
    assert_eq!(sent, Some((vec![0, 1, 3], notify(0, "level", "7"))));
    assert_eq!(mirror.value(), &Level(7));
    assert_eq!(mirror.process_changes(&mut server), None);
}

#[test]
fn valid_then_invalid() {
    let (mut server, mut mirror) = level_five();
    propose(&mut server, 2, 0, "7");
    propose(&mut server, 1, 0, "not-json");
    let sent = mirror.process_changes(&mut server);
    assert_eq!(sent, Some((vec![0, 1, 3], notify(0, "level", "7"))));
    assert_eq!(mirror.value(), &Level(7));
}

#[test]
fn all_invalid_no_local_change() {
    let (mut server, mut mirror) = level_five();
    propose(&mut server, 1, 0, "not-json");
    propose(&mut server, 3, 0, "");
    propose(&mut server, 1, 0, "-4");
    let sent = mirror.process_changes(&mut server);
    assert_eq!(sent, Some((vec![1, 3], notify(0, "level", "5"))));
    assert_eq!(mirror.value(), &Level(5));
    assert_eq!(server.last_value_of(0), Some("5".to_string()));
    assert_eq!(server.take_incoming_jsons_of(0), Vec::new());
    assert_eq!(mirror.process_changes(&mut server), None);
}

#[test]
fn all_invalid_with_local_change_goes_to_everybody() {
    let (mut server, mut mirror) = level_five();
    mirror.set(Level(6));
    propose(&mut server, 1, 0, "not-json");
    let sent = mirror.process_changes(&mut server);
    assert_eq!(sent, Some((vec![0, 1, 2, 3], notify(0, "level", "6"))));
    assert_eq!(mirror.value(), &Level(6));
}

#[test]
fn local_mutation_broadcast() {
    let (mut server, mut mirror) = level_five();
    mirror.set(Level(6));
    let sent = mirror.process_changes(&mut server);
    assert_eq!(sent, Some((vec![0, 1, 2, 3], notify(0, "level", "6"))));
    assert_eq!(mirror.value(), &Level(6));
    assert_eq!(server.last_value_of(0), Some("6".to_string()));
    assert_eq!(mirror.process_changes(&mut server), None);
}

#[test]
fn local_mutation_in_place() {
    let (mut server, mut mirror) = level_five();
    mirror.value_mut().0 += 2;
    assert_eq!(mirror.value(), &Level(7));
    assert_eq!(mirror.process_changes(&mut server), Some((vec![0, 1, 2, 3], notify(0, "level", "7"))));
}

#[test]
fn access_settles_first() {
    let (mut server, mut mirror) = level_five();
    propose(&mut server, 2, 0, "8");
    let (sent, value) = mirror.deref(&mut server);
    assert_eq!(value, &Level(8));
    assert_eq!(sent, Some((vec![0, 1, 3], notify(0, "level", "8"))));
    let (sent, value) = mirror.deref(&mut server);
    assert_eq!(value, &Level(8));
    assert_eq!(sent, None);
}

#[test]
fn access_for_change_settles_first_and_tells_at_the_next_access() {
    let (mut server, mut mirror) = level_five();
    propose(&mut server, 2, 0, "8");
    let (sent, value) = mirror.deref_mut(&mut server);
    assert_eq!(sent, Some((vec![0, 1, 3], notify(0, "level", "8"))));
    assert_eq!(value, &mut Level(8));
    value.0 += 1;
    assert_eq!(server.last_value_of(0), Some("8".to_string()));
    let (sent, value) = mirror.deref_mut(&mut server);
    assert_eq!(sent, Some((vec![0, 1, 2, 3], notify(0, "level", "9"))));
    assert_eq!(value, &mut Level(9));
    assert_eq!(mirror.process_changes(&mut server), None);
}

#[test]
fn local_mutation_to_a_value_without_text() {
    let (mut server, mut mirror) = level_five();
    mirror.set(Level(5000));
    let sent = mirror.process_changes(&mut server);
    assert_eq!(sent, Some((vec![0, 1, 2, 3], notify(0, "level", "{}"))));
    assert_eq!(server.last_value_of(0), None);
    assert_eq!(mirror.process_changes(&mut server), None);
}

#[test]
fn proposal_wins_over_local_mutation() {
    let (mut server, mut mirror) = level_five();
    mirror.set(Level(6));
    propose(&mut server, 0, 0, "9");
    let sent = mirror.process_changes(&mut server);
    assert_eq!(sent, Some((vec![1, 2, 3], notify(0, "level", "9"))));
    assert_eq!(mirror.value(), &Level(9));
}

#[test]
fn proposal_that_repeats_the_value_is_passed_over() {
    let (mut server, mut mirror) = level_five();
    propose(&mut server, 1, 0, "5");
    assert_eq!(mirror.process_changes(&mut server), None);
    assert_eq!(mirror.value(), &Level(5));
    assert_eq!(server.take_incoming_jsons_of(0), Vec::new());
    propose(&mut server, 2, 0, "8");
    propose(&mut server, 1, 0, "5");
    assert_eq!(mirror.process_changes(&mut server), Some((vec![0, 1, 3], notify(0, "level", "8"))));
}

#[test]
fn proposal_that_cannot_be_written_again_is_an_error() {
    let (mut server, mut mirror) = level_five();
    propose(&mut server, 2, 0, "1001");
    let sent = mirror.process_changes(&mut server);
    assert_eq!(sent, Some((vec![2], notify(0, "level", "5"))));
    assert_eq!(mirror.value(), &Level(5));
}

#[test]
fn accepted_text_is_the_one_written_from_the_new_value() {
    let (mut server, mut mirror) = level_five();
    propose(&mut server, 2, 0, "007");
    let sent = mirror.process_changes(&mut server);
    assert_eq!(sent, Some((vec![0, 1, 3], notify(0, "level", "7"))));
    assert_eq!(server.last_value_of(0), Some("7".to_string()));
    assert_eq!(mirror.process_changes(&mut server), None);
}

#[test]
fn proposer_that_is_not_connected_leaves_the_audience_whole() {
    let (mut server, mut mirror) = level_five();
    propose(&mut server, 9, 0, "8");
    assert_eq!(mirror.process_changes(&mut server), Some((vec![0, 1, 2, 3], notify(0, "level", "8"))));
}

#[test]
fn passes_of_two_values_do_not_mix() {
    let (mut server, mut first) = level_five();
    let (mut second, _) = Debuggable::new_server(&mut server, "depth".to_string(), Level(1), false);
    assert_eq!(second.id(), 1);
    propose(&mut server, 1, 1, "2");
    assert_eq!(first.process_changes(&mut server), None);
    assert_eq!(first.value(), &Level(5));
    assert_eq!(second.process_changes(&mut server), Some((vec![0, 2, 3], notify(1, "depth", "2"))));
    assert_eq!(second.value(), &Level(2));
}

#[test]
fn slot_reuse_safety() {
    let (mut server, old) = level_five();
    propose(&mut server, 1, 0, "9");
    assert_eq!(old.unregister(&mut server), Level(5));
    assert!(!server.has_debuggable(0));
    let (mut new, (_, message)) = Debuggable::new_server(&mut server, "depth".to_string(), Level(1), false);
    assert_eq!(new.id(), 0);
    assert_eq!(message, notify(0, "depth", "1"));
    assert_eq!(new.process_changes(&mut server), None);
    assert_eq!(new.value(), &Level(1));
    assert_eq!(server.last_value_of(0), Some("1".to_string()));
}

#[test]
fn proposal_for_a_removed_entry_is_discarded() {
    let (mut server, old) = level_five();
    old.unregister(&mut server);
    propose(&mut server, 1, 0, "9");
    let (mut new, _) = Debuggable::new_server(&mut server, "depth".to_string(), Level(1), false);
    assert_eq!(new.id(), 0);
    assert_eq!(new.process_changes(&mut server), None);
    assert_eq!(new.value(), &Level(1));
}

#[test]
fn builder_makes_the_handle() {
    let mut server = DebuggableServer::new();
    server.on_connect(0);
    let (mirror, (clients, message)) =
        DebuggableBuilder::new("level".to_string(), Level(3)).keep().dont_keep().set_is_keep(true).build(&mut server);
    assert_eq!(mirror.id(), 0);
    assert_eq!(mirror.value(), &Level(3));
    assert_eq!(clients, vec![0]);
    assert_eq!(message, notify(0, "level", "3"));
}

#[test]
fn default_server_is_made_once() {
    let mut slot = DefaultServer::new();
    assert!(!is_default_server_initialized(&slot));
    set_default_server_initializer(&mut slot, DebuggableServerBuilder::new().read_dir("inbox".to_string()));
    assert!(!is_default_server_initialized(&slot));
    let server = default_server(&mut slot);
    assert_eq!(
        server.read_all_clients(),
        ReadPlan { connections: true, directory: Some("inbox".to_string()) }
    );
    server.on_connect(3);
    assert!(is_default_server_initialized(&slot));
    set_default_server_initializer(&mut slot, DebuggableServerBuilder::new().only_reads_from_dir());
    let server = default_server(&mut slot);
    assert_eq!(server.clients(), &vec![3]);
    assert_eq!(
        server.read_all_clients(),
        ReadPlan { connections: true, directory: Some("inbox".to_string()) }
    );
}

#[test]
fn value_registered_with_the_default_server() {
    let mut slot = DefaultServer::new();
    let (mirror, (clients, message)) = Debuggable::new(&mut slot, "level".to_string(), Level(4));
    assert!(is_default_server_initialized(&slot));
    assert_eq!(mirror.id(), 0);
    assert_eq!(clients, Vec::new());
    assert_eq!(message, notify(0, "level", "4"));
    let (second, _) = Debuggable::new(&mut slot, "depth".to_string(), Level(1));
    assert_eq!(second.id(), 1);
    assert_eq!(default_server(&mut slot).last_value_of(0), Some("4".to_string()));
}
