use vstd::prelude::*;

use crate::default_server::{default_server, server_of, DefaultServer, DefaultServerView};
use crate::registry::is_lowest_free;
use crate::serializable::{JSONDeSerializable, ServerMessage, ServerMessageView};
use crate::server::{
    after_notify, after_remove, fresh_debuggable, holds_client, notify_of, with_last_value,
    without_client, without_proposals, DebuggableServer, DebuggableView, ServerView, Who,
};

verus! {

/// The handle that the host program holds for one exposed value.
///
/// The value itself lives here; the server keeps the text last sent for it.
/// Before the value is used, `process_changes` settles what the clients
/// proposed against what the host did to the value.
pub struct Debuggable<Value: JSONDeSerializable> {
    value: Value,
    id: usize,
}

/// A `Debuggable` as plain values.
pub struct MirrorView<Value> {
    /// The value as the host program sees it.
    pub value: Value,
    /// The identifier under which the server keeps the value's entry.
    pub id: usize,
}

impl<Value: JSONDeSerializable> View for Debuggable<Value> {
    type V = MirrorView<Value>;

    closed spec fn view(&self) -> MirrorView<Value> {
        MirrorView { value: self.value, id: self.id }
    }
}

/// The server after a value was registered under `name`, given `id`, and
/// announced with the text `json`.
pub open spec fn announced(
    server: ServerView,
    id: usize,
    name: Seq<char>,
    json: Option<Seq<char>>,
) -> ServerView {
    ServerView {
        debuggables: server.debuggables.insert(id, with_last_value(fresh_debuggable(name), json)),
        ..server
    }
}

/// Whether the proposal `json` says something other than `current`, the text
/// of the value as it stands. A value without a text differs from everything.
pub open spec fn differs(current: Option<Seq<char>>, json: Seq<char>) -> bool {
    current != Some(json)
}

/// Whether `json` reads as a value that can be written out again.
pub open spec fn acceptable<Value: JSONDeSerializable>(json: Seq<char>) -> bool {
    match Value::parsed(json) {
        Some(value) => value.json_text() is Some,
        None => false,
    }
}

/// Whether the proposal `json` is one to take over.
pub open spec fn wins<Value: JSONDeSerializable>(current: Option<Seq<char>>, json: Seq<char>) -> bool {
    differs(current, json) && acceptable::<Value>(json)
}

/// Whether the proposal `json` puts the client that sent it in error.
pub open spec fn errs<Value: JSONDeSerializable>(current: Option<Seq<char>>, json: Seq<char>) -> bool {
    differs(current, json) && !acceptable::<Value>(json)
}

/// The place of the proposal that is taken over: the last one that wins.
pub open spec fn winner<Value: JSONDeSerializable>(
    incoming: Seq<(usize, Seq<char>)>,
    current: Option<Seq<char>>,
) -> Option<int>
    decreases incoming.len(),
{
    if incoming.len() == 0 {
        None
    } else if wins::<Value>(current, incoming.last().1) {
        Some(incoming.len() - 1)
    } else {
        winner::<Value>(incoming.drop_last(), current)
    }
}

/// The clients put in error by the proposals at `from` and behind it, the one
/// whose failing proposal came last first, each client once.
pub open spec fn erring_from<Value: JSONDeSerializable>(
    incoming: Seq<(usize, Seq<char>)>,
    current: Option<Seq<char>>,
    from: int,
) -> Seq<usize>
    decreases incoming.len() - from,
{
    if from < 0 || from >= incoming.len() {
        Seq::empty()
    } else {
        let later = erring_from::<Value>(incoming, current, from + 1);
        if errs::<Value>(current, incoming[from].1) && !later.contains(incoming[from].0) {
            later.push(incoming[from].0)
        } else {
            later
        }
    }
}

/// The clients in error at the end of a pass: those whose proposals came
/// behind the one taken over, or anywhere where none is taken over, and could
/// not be taken over themselves.
pub open spec fn wrong_clients<Value: JSONDeSerializable>(
    incoming: Seq<(usize, Seq<char>)>,
    current: Option<Seq<char>>,
) -> Seq<usize> {
    match winner::<Value>(incoming, current) {
        Some(w) => erring_from::<Value>(incoming, current, w + 1),
        None => erring_from::<Value>(incoming, current, 0),
    }
}

/// The value after a pass: the one read from the proposal taken over, or the
/// value as it stood.
pub open spec fn value_after<Value: JSONDeSerializable>(
    value: Value,
    incoming: Seq<(usize, Seq<char>)>,
) -> Value {
    match winner::<Value>(incoming, value.json_text()) {
        Some(w) => Value::parsed(incoming[w].1).unwrap(),
        None => value,
    }
}

/// The clients that a pass notifies, `None` where it notifies nobody.
///
/// A proposal taken over goes to everybody but its sender. Failing that, a
/// value that the host changed goes to everybody. Failing that, the clients
/// in error are sent the value again.
pub open spec fn audience_after<Value: JSONDeSerializable>(
    value: Value,
    entry: DebuggableView,
    clients: Seq<usize>,
) -> Option<Seq<usize>> {
    let current = value.json_text();
    match winner::<Value>(entry.incoming_jsons, current) {
        Some(w) => Some(without_client(clients, entry.incoming_jsons[w].0)),
        None => {
            if entry.last_value != current {
                Some(clients)
            } else if wrong_clients::<Value>(entry.incoming_jsons, current).len() > 0 {
                Some(wrong_clients::<Value>(entry.incoming_jsons, current))
            } else {
                None
            }
        },
    }
}

/// The entry after a pass: no proposal is left, and where somebody was
/// notified the text last sent is that of the value after the pass.
pub open spec fn entry_after<Value: JSONDeSerializable>(
    value: Value,
    entry: DebuggableView,
    clients: Seq<usize>,
) -> DebuggableView {
    if audience_after(value, entry, clients) is Some {
        with_last_value(
            without_proposals(entry),
            value_after(value, entry.incoming_jsons).json_text(),
        )
    } else {
        without_proposals(entry)
    }
}

/// The handle after a pass: it keeps its identifier, and its value is the
/// one that the pass settles on.
pub open spec fn mirror_after<Value: JSONDeSerializable>(
    mirror: MirrorView<Value>,
    server: ServerView,
) -> MirrorView<Value> {
    MirrorView {
        value: value_after(mirror.value, server.debuggables[mirror.id].incoming_jsons),
        id: mirror.id,
    }
}

/// The server after a pass of the handle `mirror`: the handle's entry is
/// settled, and all else is as it was.
pub open spec fn server_after<Value: JSONDeSerializable>(
    mirror: MirrorView<Value>,
    server: ServerView,
) -> ServerView {
    ServerView {
        debuggables: server.debuggables.insert(
            mirror.id,
            entry_after(mirror.value, server.debuggables[mirror.id], server.clients),
        ),
        ..server
    }
}

/// What a pass of the handle `mirror` asks to be sent: the clients to notify
/// and the message that carries the text then recorded as last sent. `None`
/// where nobody is notified.
pub open spec fn sent_after<Value: JSONDeSerializable>(
    mirror: MirrorView<Value>,
    server: ServerView,
) -> Option<(Seq<usize>, ServerMessageView)> {
    match audience_after(mirror.value, server.debuggables[mirror.id], server.clients) {
        Some(clients) => Some(
            (
                clients,
                notify_of(
                    mirror.id,
                    entry_after(mirror.value, server.debuggables[mirror.id], server.clients),
                ),
            ),
        ),
        None => None,
    }
}

/// A message with the clients it goes to, as plain mathematical values.
pub open spec fn notification_view(sent: Option<(Vec<usize>, ServerMessage)>) -> Option<
    (Seq<usize>, ServerMessageView),
> {
    match sent {
        Some((clients, message)) => Some((clients@, message@)),
        None => None,
    }
}

/// Whether the handle's entry holds no proposal and the text last sent for it
/// is that of the handle's value: nothing arrived, and the host left the
/// value alone.
pub open spec fn is_settled<Value: JSONDeSerializable>(
    mirror: MirrorView<Value>,
    server: ServerView,
) -> bool {
    &&& server.debuggables[mirror.id].incoming_jsons.len() == 0
    &&& server.debuggables[mirror.id].last_value == mirror.value.json_text()
}

/// Whether the handle's entry holds no proposal and the text last sent for it
/// is not that of the handle's value: nothing arrived, and the host changed
/// the value.
pub open spec fn is_changed_by_host<Value: JSONDeSerializable>(
    mirror: MirrorView<Value>,
    server: ServerView,
) -> bool {
    &&& server.debuggables[mirror.id].incoming_jsons.len() == 0
    &&& server.debuggables[mirror.id].last_value != mirror.value.json_text()
}

/// The last proposal that wins is the one that `winner` names, and where
/// none wins it names none.
pub proof fn lemma_winner<Value: JSONDeSerializable>(
    incoming: Seq<(usize, Seq<char>)>,
    current: Option<Seq<char>>,
)
    ensures
        match winner::<Value>(incoming, current) {
            Some(w) => 0 <= w < incoming.len() && wins::<Value>(current, incoming[w].1)
                && forall|j: int| w < j < incoming.len() ==> !wins::<Value>(current, incoming[j].1),
            None => forall|j: int| 0 <= j < incoming.len() ==> !wins::<Value>(current, incoming[j].1),
        },
    decreases incoming.len(),
{
    if incoming.len() > 0 && !wins::<Value>(current, incoming.last().1) {
        let earlier = incoming.drop_last();
        lemma_winner::<Value>(earlier, current);
        assert forall|j: int| 0 <= j < earlier.len() implies earlier[j] == incoming[j] by {}
    }
}

/// `erring_from` lists exactly the clients with a failing proposal at `from`
/// or behind it, each once.
pub proof fn lemma_erring_from<Value: JSONDeSerializable>(
    incoming: Seq<(usize, Seq<char>)>,
    current: Option<Seq<char>>,
    from: int,
)
    requires
        0 <= from,
    ensures
        erring_from::<Value>(incoming, current, from).no_duplicates(),
        forall|client: usize|
            erring_from::<Value>(incoming, current, from).contains(client) <==> exists|j: int|
                from <= j < incoming.len() && #[trigger] incoming[j].0 == client && errs::<Value>(
                    current,
                    incoming[j].1,
                ),
    decreases incoming.len() - from,
{
    if from < incoming.len() {
        lemma_erring_from::<Value>(incoming, current, from + 1);
        let later = erring_from::<Value>(incoming, current, from + 1);
        let all = erring_from::<Value>(incoming, current, from);
        assert forall|client: usize| all.contains(client) implies exists|j: int|
            from <= j < incoming.len() && #[trigger] incoming[j].0 == client && errs::<Value>(
                current,
                incoming[j].1,
            ) by {
            let k = choose|k: int| 0 <= k < all.len() && all[k] == client;
            if k < later.len() {
                assert(later.contains(client));
            }
        }
        assert forall|client: usize|
            (exists|j: int|
                from <= j < incoming.len() && #[trigger] incoming[j].0 == client && errs::<Value>(
                    current,
                    incoming[j].1,
                )) implies all.contains(client) by {
            let j = choose|j: int|
                from <= j < incoming.len() && #[trigger] incoming[j].0 == client && errs::<Value>(
                    current,
                    incoming[j].1,
                );
            if j > from || later.contains(client) {
                assert(later.contains(client));
                let k = choose|k: int| 0 <= k < later.len() && later[k] == client;
                assert(all[k] == client);
            } else {
                assert(all[all.len() - 1] == client);
            }
        }
    }
}

/// A pass with no proposal pending and a value that the host left alone
/// changes nothing and asks for nothing to be sent.
pub proof fn lemma_quiet_pass<Value: JSONDeSerializable>(
    mirror: MirrorView<Value>,
    server: ServerView,
)
    requires
        server.debuggables.contains_key(mirror.id),
        is_settled(mirror, server),
    ensures
        mirror_after(mirror, server) == mirror,
        server_after(mirror, server) == server,
        sent_after(mirror, server) is None,
{
    let entry = server.debuggables[mirror.id];
    assert(entry.incoming_jsons =~= Seq::empty());
    assert(server_after(mirror, server).debuggables =~= server.debuggables);
}

/// A pass with no proposal pending and a value that the host changed leaves
/// the value alone, notifies every client that can be reached, and records
/// the value's text as the one last sent.
pub proof fn lemma_local_change_goes_to_all<Value: JSONDeSerializable>(
    mirror: MirrorView<Value>,
    server: ServerView,
)
    requires
        server.debuggables.contains_key(mirror.id),
        is_changed_by_host(mirror, server),
    ensures
        mirror_after(mirror, server) == mirror,
        server_after(mirror, server) == after_notify(server, mirror.id, mirror.value.json_text()),
        sent_after(mirror, server) == Some(
            (
                server.clients,
                notify_of(
                    mirror.id,
                    with_last_value(server.debuggables[mirror.id], mirror.value.json_text()),
                ),
            ),
        ),
{
    let entry = server.debuggables[mirror.id];
    assert(entry.incoming_jsons =~= Seq::empty());
}

/// The proposal at `w` is taken over where it wins and none behind it does,
/// whatever stands before it and whichever clients are in error: the value
/// becomes the one it reads as, everybody but its sender is sent the new
/// value's text, and that text is recorded as the one last sent.
pub proof fn lemma_last_winning_proposal_is_taken<Value: JSONDeSerializable>(
    mirror: MirrorView<Value>,
    server: ServerView,
    w: int,
)
    requires
        server.debuggables.contains_key(mirror.id),
        0 <= w < server.debuggables[mirror.id].incoming_jsons.len(),
        wins::<Value>(
            mirror.value.json_text(),
            server.debuggables[mirror.id].incoming_jsons[w].1,
        ),
        forall|j: int|
            w < j < server.debuggables[mirror.id].incoming_jsons.len() ==> !wins::<Value>(
                mirror.value.json_text(),
                server.debuggables[mirror.id].incoming_jsons[j].1,
            ),
    ensures
        ({
            let entry = server.debuggables[mirror.id];
            let taken = mirror_after(mirror, server).value;
            &&& Some(taken) == Value::parsed(entry.incoming_jsons[w].1)
            &&& taken.json_text() is Some
            &&& sent_after(mirror, server) == Some(
                (
                    without_client(server.clients, entry.incoming_jsons[w].0),
                    ServerMessageView::Notify {
                        id: mirror.id,
                        name: entry.name,
                        value_in_json: taken.json_text().unwrap(),
                    },
                ),
            )
            &&& server_after(mirror, server).debuggables[mirror.id] == (DebuggableView {
                name: entry.name,
                last_value: taken.json_text(),
                incoming_jsons: Seq::empty(),
            })
        }),
{
    lemma_winner::<Value>(server.debuggables[mirror.id].incoming_jsons, mirror.value.json_text());
}

/// A pass over proposals that all fail, on a value that the host left alone,
/// leaves the value and the text last sent as they were and sends that text
/// again to exactly the clients that sent the proposals, each once.
pub proof fn lemma_only_failing_proposals<Value: JSONDeSerializable>(
    mirror: MirrorView<Value>,
    server: ServerView,
)
    requires
        server.debuggables.contains_key(mirror.id),
        server.debuggables[mirror.id].incoming_jsons.len() > 0,
        forall|j: int|
            0 <= j < server.debuggables[mirror.id].incoming_jsons.len() ==> errs::<Value>(
                mirror.value.json_text(),
                server.debuggables[mirror.id].incoming_jsons[j].1,
            ),
        server.debuggables[mirror.id].last_value == mirror.value.json_text(),
    ensures
        ({
            let entry = server.debuggables[mirror.id];
            &&& mirror_after(mirror, server) == mirror
            &&& server_after(mirror, server).debuggables[mirror.id] == without_proposals(entry)
            &&& sent_after(mirror, server) is Some
            &&& sent_after(mirror, server).unwrap().1 == notify_of(mirror.id, entry)
            &&& sent_after(mirror, server).unwrap().0.no_duplicates()
            &&& forall|client: usize|
                sent_after(mirror, server).unwrap().0.contains(client) <==> exists|j: int|
                    0 <= j < entry.incoming_jsons.len() && #[trigger] entry.incoming_jsons[j].0
                        == client
        }),
{
    let entry = server.debuggables[mirror.id];
    let incoming = entry.incoming_jsons;
    let current = mirror.value.json_text();
    lemma_winner::<Value>(incoming, current);
    lemma_erring_from::<Value>(incoming, current, 0);
}

/// After a pass the value is settled: as long as the host leaves the value
/// alone and no proposal arrives, another pass changes nothing and asks for
/// nothing to be sent.
pub proof fn lemma_pass_settles<Value: JSONDeSerializable>(
    mirror: MirrorView<Value>,
    server: ServerView,
)
    requires
        server.debuggables.contains_key(mirror.id),
    ensures
        ({
            let settled = mirror_after(mirror, server);
            let kept = server_after(mirror, server);
            &&& is_settled(settled, kept)
            &&& mirror_after(settled, kept) == settled
            &&& server_after(settled, kept) == kept
            &&& sent_after(settled, kept) is None
        }),
{
    lemma_winner::<Value>(server.debuggables[mirror.id].incoming_jsons, mirror.value.json_text());
    lemma_quiet_pass(mirror_after(mirror, server), server_after(mirror, server));
}

/// Puts `client` behind the clients in `wrong` unless it is among them.
fn note_wrong(wrong: &mut Vec<usize>, client: usize)
    ensures
        final(wrong)@ == (if old(wrong)@.contains(client) {
            old(wrong)@
        } else {
            old(wrong)@.push(client)
        }),
{
    if !holds_client(wrong, client) {
        wrong.push(client);
    }
}

impl<Value: JSONDeSerializable> Debuggable<Value> {
    /// Registers `initial_value` with `server` under `name` and returns the
    /// handle for it, together with the message that announces the value and
    /// the clients it goes to: all that can be reached.
    ///
    /// `is_keep` asks to start from the text that the registry last held for
    /// the entry. An entry that was just registered holds none, so the handle
    /// starts from `initial_value` either way.
    pub fn new_server(
        server: &mut DebuggableServer,
        name: String,
        initial_value: Value,
        is_keep: bool,
    ) -> (r: (Self, (Vec<usize>, ServerMessage)))
        ensures
            is_lowest_free(old(server)@.debuggables, r.0@.id),
            r.0@.value == initial_value,
            final(server)@ == announced(
                old(server)@,
                r.0@.id,
                name@,
                initial_value.json_text(),
            ),
            r.1.0@ == old(server)@.clients,
            r.1.1@ == notify_of(r.0@.id, final(server)@.debuggables[r.0@.id]),
    {
        let id = server.init_debuggable(name);
        let kept = if is_keep {
            match server.last_value_of(id) {
                Some(json) => Value::from_json(json.as_str()),
                None => None,
            }
        } else {
            None
        };
        let value = match kept {
            Some(value) => value,
            None => initial_value,
        };
        let notification = server.notify_new_value(id, value.to_json(), Who::All);
        assert(server@.debuggables =~= announced(
            old(server)@,
            id,
            name@,
            initial_value.json_text(),
        ).debuggables);
        (Debuggable { value, id }, notification)
    }

    /// Registers `initial_value` under `name` with the server of the place
    /// `default`, which is made now if it was not made before.
    pub fn new(default: &mut DefaultServer, name: String, initial_value: Value) -> (r: (
        Self,
        (Vec<usize>, ServerMessage),
    ))
        ensures
            is_lowest_free(server_of(old(default)@).debuggables, r.0@.id),
            r.0@.value == initial_value,
            final(default)@ == (DefaultServerView {
                initializer: old(default)@.initializer,
                server: Some(
                    announced(
                        server_of(old(default)@),
                        r.0@.id,
                        name@,
                        initial_value.json_text(),
                    ),
                ),
            }),
            r.1.0@ == server_of(old(default)@).clients,
            r.1.1@ == notify_of(r.0@.id, final(default)@.server.unwrap().debuggables[r.0@.id]),
    {
        Self::new_server(default_server(default), name, initial_value, false)
    }

    /// The identifier under which the server keeps the value's entry.
    pub fn id(&self) -> (r: usize)
        ensures
            r == self@.id,
    {
        self.id
    }

    /// The value as it stands, without a pass.
    pub fn value(&self) -> (r: &Value)
        ensures
            *r == self@.value,
    {
        &self.value
    }

    /// The value as it stands, to be changed in place, without a pass. The
    /// clients learn of a change with the next pass.
    pub fn value_mut(&mut self) -> (r: &mut Value)
        ensures
            *r == old(self)@.value,
            final(self)@ == (MirrorView { value: *final(r), id: old(self)@.id }),
    {
        &mut self.value
    }

    /// Puts `value` in place of the value, as the host program does when it
    /// changes it. The clients learn of it with the next pass.
    pub fn set(&mut self, value: Value)
        ensures
            final(self)@ == (MirrorView { value, id: old(self)@.id }),
    {
        self.value = value;
    }

    /// Takes the value's entry out of `server`, as is due when the handle is
    /// given up, and returns the handle's value.
    pub fn unregister(self, server: &mut DebuggableServer) -> (r: Value)
        ensures
            r == self@.value,
            final(server)@ == after_remove(old(server)@, self@.id),
    {
        let _ = server.remove_debuggable(self.id);
        self.value
    }

    /// One pass: settles the proposals pending for the value against the
    /// value as it stands, and returns the message to send with the clients it
    /// goes to, or `None` where nothing is to be sent.
    ///
    /// The proposals are looked at from the last to arrive to the first. One
    /// that repeats the value's text is passed over. One that does not read as
    /// a value, or reads as one that cannot be written out, puts its client in
    /// error. The first one that does read is taken over as the value, and
    /// those that arrived before it are not looked at. All of them are
    /// dropped.
    pub fn process_changes(&mut self, server: &mut DebuggableServer) -> (r: Option<
        (Vec<usize>, ServerMessage),
    >)
        requires
            old(server)@.debuggables.contains_key(old(self)@.id),
        ensures
            final(self)@ == mirror_after(old(self)@, old(server)@),
            final(server)@ == server_after(old(self)@, old(server)@),
            notification_view(r) == sent_after(old(self)@, old(server)@),
            is_settled(old(self)@, old(server)@) ==> r is None && final(server)@ == old(server)@
                && final(self)@ == old(self)@,
            is_changed_by_host(old(self)@, old(server)@) ==> r is Some && r.unwrap().0@ == old(
                server,
            )@.clients && final(server)@.debuggables[old(self)@.id].last_value == old(
                self,
            )@.value.json_text() && final(self)@ == old(self)@,
    {
        let ghost entry = server@.debuggables[self.id];
        let ghost incoming = entry.incoming_jsons;
        let ghost current = self.value.json_text();
        let current_json = self.value.to_json();
        let has_changed = !server.last_value_of_equals(self.id, &current_json);
        let incoming_jsons = server.take_incoming_jsons_of(self.id);
        let mut wrong: Vec<usize> = Vec::new();
        let mut accepted: Option<(usize, Value, String)> = None;
        let mut i: usize = incoming_jsons.len();
        while i > 0
            invariant_except_break
                accepted is None,
            invariant
                i <= incoming_jsons.len(),
                incoming == incoming_jsons.deep_view(),
                current == current_json.deep_view(),
                forall|j: int| i <= j < incoming.len() ==> !wins::<Value>(current, incoming[j].1),
                wrong@ == erring_from::<Value>(incoming, current, i as int),
            ensures
                match accepted {
                    Some((client, value, json)) => 0 < i <= incoming.len() && client == incoming[i
                        - 1].0 && wins::<Value>(current, incoming[i - 1].1) && Some(value)
                        == Value::parsed(incoming[i - 1].1) && Some(json@) == value.json_text(),
                    None => i == 0,
                },
            decreases i,
        {
            let proposal = &incoming_jsons[i - 1];
            let json_is_different = match &current_json {
                Some(json) => proposal.1 != *json,
                None => true,
            };
            if json_is_different {
                match Value::from_json(proposal.1.as_str()) {
                    Some(value) => {
                        match value.to_json() {
                            Some(json) => {
                                accepted = Some((proposal.0, value, json));
                                break;
                            },
                            None => {
                                note_wrong(&mut wrong, proposal.0);
                            },
                        }
                    },
                    None => {
                        note_wrong(&mut wrong, proposal.0);
                    },
                }
            }
            i -= 1;
        }
        proof {
            lemma_winner::<Value>(incoming, current);
        }
        let notification = match accepted {
            Some((client, value, json)) => {
                self.value = value;
                Some(server.notify_new_value(self.id, Some(json), Who::AllBut(client)))
            },
            None => {
                if has_changed {
                    Some(server.notify_new_value(self.id, current_json, Who::All))
                } else if wrong.len() > 0 {
                    Some(server.notify_new_value(self.id, current_json, Who::WrongClients(wrong)))
                } else {
                    None
                }
            },
        };
        assert(server@.debuggables =~= old(server)@.debuggables.insert(
            self.id,
            entry_after(old(self)@.value, entry, old(server)@.clients),
        ));
        proof {
            if is_settled(old(self)@, old(server)@) {
                lemma_quiet_pass(old(self)@, old(server)@);
            }
            if is_changed_by_host(old(self)@, old(server)@) {
                lemma_local_change_goes_to_all(old(self)@, old(server)@);
            }
        }
        notification
    }

    /// One pass, then the value to be read. The pass is `process_changes`.
    pub fn deref(&mut self, server: &mut DebuggableServer) -> (r: (
        Option<(Vec<usize>, ServerMessage)>,
        &Value,
    ))
        requires
            old(server)@.debuggables.contains_key(old(self)@.id),
        ensures
            final(self)@ == mirror_after(old(self)@, old(server)@),
            final(server)@ == server_after(old(self)@, old(server)@),
            notification_view(r.0) == sent_after(old(self)@, old(server)@),
            *r.1 == final(self)@.value,
    {
        let sent = self.process_changes(server);
        (sent, &self.value)
    }

    /// One pass, then the value to be changed in place. The pass is
    /// `process_changes`; the clients learn of a change with the next pass.
    pub fn deref_mut(&mut self, server: &mut DebuggableServer) -> (r: (
        Option<(Vec<usize>, ServerMessage)>,
        &mut Value,
    ))
        requires
            old(server)@.debuggables.contains_key(old(self)@.id),
        ensures
            *r.1 == mirror_after(old(self)@, old(server)@).value,
            final(self)@ == (MirrorView { value: *final(r.1), id: old(self)@.id }),
            final(server)@ == server_after(old(self)@, old(server)@),
            notification_view(r.0) == sent_after(old(self)@, old(server)@),
    {
        let sent = self.process_changes(server);
        (sent, &mut self.value)
    }
}

/// What a handle is to be made from, gathered before the handle is made.
pub struct DebuggableBuilder<Value: JSONDeSerializable> {
    initial_value: Value,
    name: String,
    is_keep: bool,
}

/// A `DebuggableBuilder` as plain values.
pub struct MirrorBuilderView<Value> {
    /// The value that the handle starts from.
    pub initial_value: Value,
    /// The display label.
    pub name: Seq<char>,
    /// Whether the handle is to start from the text that the registry last
    /// held.
    pub is_keep: bool,
}

impl<Value: JSONDeSerializable> View for DebuggableBuilder<Value> {
    type V = MirrorBuilderView<Value>;

    closed spec fn view(&self) -> MirrorBuilderView<Value> {
        MirrorBuilderView {
            initial_value: self.initial_value,
            name: self.name@,
            is_keep: self.is_keep,
        }
    }
}

impl<Value: JSONDeSerializable> DebuggableBuilder<Value> {
    /// A builder for a handle that starts from `initial_value` and is shown
    /// as `name`.
    pub fn new(name: String, initial_value: Value) -> (r: Self)
        ensures
            r@ == (MirrorBuilderView { initial_value, name: name@, is_keep: false }),
    {
        DebuggableBuilder { initial_value, name, is_keep: false }
    }

    /// Asks to start from the text that the registry last held.
    pub fn keep(self) -> (r: Self)
        ensures
            r@ == (MirrorBuilderView { is_keep: true, ..self@ }),
    {
        self.set_is_keep(true)
    }

    /// Asks to start from the given value.
    pub fn dont_keep(self) -> (r: Self)
        ensures
            r@ == (MirrorBuilderView { is_keep: false, ..self@ }),
    {
        self.set_is_keep(false)
    }

    /// Says whether to start from the text that the registry last held.
    pub fn set_is_keep(self, is_keep: bool) -> (r: Self)
        ensures
            r@ == (MirrorBuilderView { is_keep, ..self@ }),
    {
        DebuggableBuilder { initial_value: self.initial_value, name: self.name, is_keep }
    }

    /// Makes the handle and registers its value with `server`.
    pub fn build(self, server: &mut DebuggableServer) -> (r: (
        Debuggable<Value>,
        (Vec<usize>, ServerMessage),
    ))
        ensures
            is_lowest_free(old(server)@.debuggables, r.0@.id),
            r.0@.value == self@.initial_value,
            final(server)@ == announced(
                old(server)@,
                r.0@.id,
                self@.name,
                self@.initial_value.json_text(),
            ),
            r.1.0@ == old(server)@.clients,
            r.1.1@ == notify_of(r.0@.id, final(server)@.debuggables[r.0@.id]),
    {
        Debuggable::new_server(server, self.name, self.initial_value, self.is_keep)
    }
}

} // verus!
