use vstd::prelude::*;

use crate::inbox::{byte_total, bytes_read, replay, replayed, saturated};
use crate::registry::{is_lowest_free, lemma_sorted_indices, sorted_indices, Registry};
use crate::serializable::{ClientUnitMessage, ClientUnitMessageView, ServerMessage, ServerMessageView};

pub mod debuggable_server_builder;

verus! {

/// What the registry holds for one exposed value, as plain mathematical values.
pub struct DebuggableView {
    /// The display label.
    pub name: Seq<char>,
    /// The text most recently sent to the clients, `None` before the first one.
    pub last_value: Option<Seq<char>>,
    /// The proposals that arrived since the last pass, oldest first, each with
    /// the client it came from.
    pub incoming_jsons: Seq<(usize, Seq<char>)>,
}

/// The registry's record of one exposed value.
#[derive(Debug)]
pub struct DebuggableOnServer {
    name: String,
    last_value: Option<String>,
    incoming_jsons: Vec<(usize, String)>,
}

impl View for DebuggableOnServer {
    type V = DebuggableView;

    closed spec fn view(&self) -> DebuggableView {
        DebuggableView {
            name: self.name@,
            last_value: self.last_value.deep_view(),
            incoming_jsons: self.incoming_jsons.deep_view(),
        }
    }
}

/// The record of a value that was just registered under `name`.
pub open spec fn fresh_debuggable(name: Seq<char>) -> DebuggableView {
    DebuggableView { name, last_value: None, incoming_jsons: Seq::empty() }
}

/// `d` with `last_value` in place of its last sent text.
pub open spec fn with_last_value(d: DebuggableView, last_value: Option<Seq<char>>) -> DebuggableView {
    DebuggableView { last_value, ..d }
}

/// `d` with one more proposal, from `client`, behind those it holds.
pub open spec fn with_proposal(d: DebuggableView, client: usize, json: Seq<char>) -> DebuggableView {
    DebuggableView { incoming_jsons: d.incoming_jsons.push((client, json)), ..d }
}

/// `d` with no proposal left.
pub open spec fn without_proposals(d: DebuggableView) -> DebuggableView {
    DebuggableView { incoming_jsons: Seq::empty(), ..d }
}

/// A copy of an optional text.
pub fn clone_text(text: &Option<String>) -> (r: Option<String>)
    ensures
        r.deep_view() == text.deep_view(),
{
    match text {
        Some(t) => Some(t.clone()),
        None => None,
    }
}

/// Whether two optional texts are the same: both absent, or both present and
/// equal character by character.
pub fn same_text(a: &Option<String>, b: &Option<String>) -> (r: bool)
    ensures
        r == (a.deep_view() == b.deep_view()),
{
    match (a, b) {
        (None, None) => true,
        (Some(x), Some(y)) => *x == *y,
        _ => false,
    }
}

impl DebuggableOnServer {
    /// The record of a value shown as `name`, with `last_value` as the text
    /// last sent and `incoming_jsons` as the proposals pending, oldest first.
    pub fn new(name: String, last_value: Option<String>, incoming_jsons: Vec<(usize, String)>) -> (r:
        Self)
        ensures
            r@.name == name@,
            r@.last_value == last_value.deep_view(),
            r@.incoming_jsons == incoming_jsons.deep_view(),
    {
        Self { name, last_value, incoming_jsons }
    }

    /// The display label.
    pub fn name(&self) -> (r: &String)
        ensures
            r@ == self@.name,
    {
        &self.name
    }

    /// The text last sent, `None` before the first one.
    pub fn last_value(&self) -> (r: &Option<String>)
        ensures
            r.deep_view() == self@.last_value,
    {
        &self.last_value
    }

    /// The proposals pending, oldest first, each with the client it came
    /// from.
    pub fn incoming_jsons(&self) -> (r: &Vec<(usize, String)>)
        ensures
            r.deep_view() == self@.incoming_jsons,
    {
        &self.incoming_jsons
    }

    fn set_last_value(&mut self, last_value: Option<String>)
        ensures
            final(self)@ == with_last_value(old(self)@, last_value.deep_view()),
    {
        self.last_value = last_value;
    }

    fn add_proposal(&mut self, client: usize, json: String)
        ensures
            final(self)@ == with_proposal(old(self)@, client, json@),
    {
        self.incoming_jsons.push((client, json));
        assert(self.incoming_jsons.deep_view() =~= old(self).incoming_jsons.deep_view().push(
            (client, json@),
        ));
    }

    fn take_proposals(&mut self) -> (r: Vec<(usize, String)>)
        ensures
            r.deep_view() == old(self)@.incoming_jsons,
            final(self)@ == without_proposals(old(self)@),
    {
        let mut taken: Vec<(usize, String)> = Vec::new();
        std::mem::swap(&mut self.incoming_jsons, &mut taken);
        assert(self.incoming_jsons.deep_view() =~= Seq::<(usize, Seq<char>)>::empty());
        taken
    }
}

/// The registry of exposed values and how the server is set up to read.
#[derive(Debug)]
pub struct DebuggableServerData {
    debuggables: Registry<DebuggableOnServer>,
    only_reads_from_dir: bool,
    read_from_dir: Option<String>,
}

/// A `DebuggableServerData` as plain mathematical values.
pub struct ServerDataView {
    /// The record of each exposed value, by its identifier.
    pub debuggables: Map<usize, DebuggableView>,
    /// Whether client connections are left unread.
    pub only_reads_from_dir: bool,
    /// The directory that holds messages left as files, if any.
    pub read_from_dir: Option<Seq<char>>,
}

impl View for DebuggableServerData {
    type V = ServerDataView;

    closed spec fn view(&self) -> ServerDataView {
        ServerDataView {
            debuggables: self.debuggables@.map_values(|d: DebuggableOnServer| d@),
            only_reads_from_dir: self.only_reads_from_dir,
            read_from_dir: self.read_from_dir.deep_view(),
        }
    }
}

impl DebuggableServerData {
    /// An empty registry that reads client connections and no directory.
    pub fn new() -> (r: Self)
        ensures
            r@.debuggables == Map::<usize, DebuggableView>::empty(),
            !r@.only_reads_from_dir,
            r@.read_from_dir is None,
    {
        let r = DebuggableServerData {
            debuggables: Registry::new(),
            only_reads_from_dir: false,
            read_from_dir: None,
        };
        r
    }
}

/// The registry together with the clients that can be reached.
///
/// It decides what is to be sent to whom; sending is left to the caller, who
/// gets each message with the clients it is meant for.
#[derive(Debug)]
pub struct DebuggableServer {
    data: DebuggableServerData,
    clients: Vec<usize>,
}

/// A `DebuggableServer` as plain mathematical values.
pub struct ServerView {
    /// The record of each exposed value, by its identifier.
    pub debuggables: Map<usize, DebuggableView>,
    /// The clients that can be reached, in the order in which they connected.
    pub clients: Seq<usize>,
    /// Whether client connections are left unread.
    pub only_reads_from_dir: bool,
    /// The directory that holds messages left as files, if any.
    pub read_from_dir: Option<Seq<char>>,
}

impl View for DebuggableServer {
    type V = ServerView;

    closed spec fn view(&self) -> ServerView {
        ServerView {
            debuggables: self.data@.debuggables,
            clients: self.clients@,
            only_reads_from_dir: self.data@.only_reads_from_dir,
            read_from_dir: self.data@.read_from_dir,
        }
    }
}

/// To whom a new value is sent.
#[derive(Debug)]
pub enum Who {
    /// To one client.
    Client(usize),
    /// To every client that can be reached.
    All,
    /// To every client that can be reached but one.
    AllBut(usize),
    /// To the clients whose proposals could not be read.
    WrongClients(Vec<usize>),
}

/// From where the pending input is to be read before a value is used.
#[derive(Debug, PartialEq, Eq)]
pub struct ReadPlan {
    /// Whether the client connections are read.
    pub connections: bool,
    /// The directory whose files are read, if any.
    pub directory: Option<String>,
}

/// A server with no entry and no client, which reads client connections and
/// no directory.
pub open spec fn fresh_server() -> ServerView {
    ServerView {
        debuggables: Map::empty(),
        clients: Seq::empty(),
        only_reads_from_dir: false,
        read_from_dir: None,
    }
}

/// The text sent for a value that has none yet.
pub open spec fn empty_object() -> Seq<char> {
    "{}"@
}

/// The text sent for a value whose last sent text is `last_value`.
pub open spec fn shown_value(last_value: Option<Seq<char>>) -> Seq<char> {
    match last_value {
        Some(json) => json,
        None => empty_object(),
    }
}

/// The message that carries the entry `d`, registered under `id`.
pub open spec fn notify_of(id: usize, d: DebuggableView) -> ServerMessageView {
    ServerMessageView::Notify { id, name: d.name, value_in_json: shown_value(d.last_value) }
}

/// One message per entry of `debuggables`, in ascending order of identifier.
pub open spec fn notifications(debuggables: Map<usize, DebuggableView>) -> Seq<ServerMessageView> {
    sorted_indices(debuggables.dom()).map_values(|id: usize| notify_of(id, debuggables[id]))
}

/// What a client is sent to bring it up to date: the identifier it is known
/// by, then every entry.
pub open spec fn snapshot(client: usize, debuggables: Map<usize, DebuggableView>) -> Seq<
    ServerMessageView,
> {
    seq![ServerMessageView::GiveClientId { client_id: client }] + notifications(debuggables)
}

/// The messages `messages`, each addressed to `client`.
pub open spec fn addressed(client: usize, messages: Seq<ServerMessageView>) -> Seq<
    (usize, ServerMessageView),
> {
    messages.map_values(|m: ServerMessageView| (client, m))
}

/// The snapshot of each of `clients` in turn, addressed to it.
pub open spec fn snapshot_for_each(
    clients: Seq<usize>,
    debuggables: Map<usize, DebuggableView>,
) -> Seq<(usize, ServerMessageView)>
    decreases clients.len(),
{
    if clients.len() == 0 {
        Seq::empty()
    } else {
        snapshot_for_each(clients.drop_last(), debuggables) + addressed(
            clients.last(),
            snapshot(clients.last(), debuggables),
        )
    }
}

/// `clients` without `client`.
pub open spec fn without_client(clients: Seq<usize>, client: usize) -> Seq<usize>
    decreases clients.len(),
{
    if clients.len() == 0 {
        Seq::empty()
    } else if clients.last() == client {
        without_client(clients.drop_last(), client)
    } else {
        without_client(clients.drop_last(), client).push(clients.last())
    }
}

/// `clients` with `client` behind the others, unless it is among them.
pub open spec fn with_client(clients: Seq<usize>, client: usize) -> Seq<usize> {
    if clients.contains(client) {
        clients
    } else {
        clients.push(client)
    }
}

/// The clients that `who` stands for when `clients` can be reached.
pub open spec fn audience(who: Who, clients: Seq<usize>) -> Seq<usize> {
    match who {
        Who::Client(client) => seq![client],
        Who::All => clients,
        Who::AllBut(client) => without_client(clients, client),
        Who::WrongClients(wrong) => wrong@,
    }
}

/// The server after a value was registered under `name` and given `id`.
pub open spec fn after_init(server: ServerView, id: usize, name: Seq<char>) -> ServerView {
    ServerView { debuggables: server.debuggables.insert(id, fresh_debuggable(name)), ..server }
}

/// The server after the entry `id` was taken out.
pub open spec fn after_remove(server: ServerView, id: usize) -> ServerView {
    ServerView { debuggables: server.debuggables.remove(id), ..server }
}

/// The server after `last_value` was recorded as the text last sent for the
/// entry `id`.
pub open spec fn after_notify(server: ServerView, id: usize, last_value: Option<Seq<char>>) -> ServerView {
    ServerView {
        debuggables: server.debuggables.insert(
            id,
            with_last_value(server.debuggables[id], last_value),
        ),
        ..server
    }
}

/// The server after `client` sent `message`; `None` stands for a message that
/// could not be read.
pub open spec fn after_message(
    server: ServerView,
    client: usize,
    message: Option<ClientUnitMessageView>,
) -> ServerView {
    match message {
        Some(ClientUnitMessageView::UpdateValue { id, new_value }) => {
            if server.debuggables.contains_key(id) {
                ServerView {
                    debuggables: server.debuggables.insert(
                        id,
                        with_proposal(server.debuggables[id], client, new_value),
                    ),
                    ..server
                }
            } else {
                server
            }
        },
        _ => server,
    }
}

/// What the server sends when `client` sent `message`, each message with the
/// client it goes to.
pub open spec fn replies(
    server: ServerView,
    client: usize,
    message: Option<ClientUnitMessageView>,
) -> Seq<(usize, ServerMessageView)> {
    match message {
        Some(ClientUnitMessageView::Renotify) => {
            if server.clients.contains(client) {
                addressed(client, snapshot(client, server.debuggables))
            } else {
                snapshot_for_each(server.clients, server.debuggables)
            }
        },
        _ => Seq::empty(),
    }
}

/// The text to send for a value whose last sent text is `last_value`.
pub fn shown_text(last_value: &Option<String>) -> (r: String)
    ensures
        r@ == shown_value(last_value.deep_view()),
{
    match last_value {
        Some(json) => json.clone(),
        None => String::from_str("{}"),
    }
}

/// Whether `list` holds `client`.
pub fn holds_client(list: &Vec<usize>, client: usize) -> (r: bool)
    ensures
        r == list@.contains(client),
{
    let mut i: usize = 0;
    while i < list.len()
        invariant
            i <= list.len(),
            forall|k: int| 0 <= k < i ==> list@[k] != client,
        decreases list.len() - i,
    {
        if list[i] == client {
            return true;
        }
        i += 1;
    }
    false
}

/// Puts `messages`, each addressed to `client`, behind what `out` holds.
fn address_to(client: usize, messages: Vec<ServerMessage>, out: &mut Vec<(usize, ServerMessage)>)
    ensures
        final(out).deep_view() == old(out).deep_view() + addressed(client, messages.deep_view()),
{
    let ghost all = messages.deep_view();
    let ghost start = out.deep_view();
    for message in it: messages
        invariant
            it.seq() == messages@,
            all == messages.deep_view(),
            out.deep_view() == start + addressed(client, all.subrange(0, it.index() as int)),
    {
        let ghost before = out.deep_view();
        out.push((client, message));
        assert(out.deep_view() =~= before.push((client, all[it.index() as int])));
    }
}

impl DebuggableServer {
    /// A server with no entry and no client, which reads client connections
    /// and no directory.
    pub fn new() -> (r: Self)
        ensures
            r@ == fresh_server(),
    {
        DebuggableServer { data: DebuggableServerData::new(), clients: Vec::new() }
    }

    /// The clients that can be reached, in the order in which they connected.
    pub fn clients(&self) -> (r: &Vec<usize>)
        ensures
            r@ == self@.clients,
    {
        &self.clients
    }

    /// Sets the directory that holds messages left as files, or none.
    pub fn set_read_dir(&mut self, read_dir: Option<String>)
        ensures
            final(self)@ == (ServerView { read_from_dir: read_dir.deep_view(), ..old(self)@ }),
    {
        self.data.read_from_dir = read_dir;
    }

    /// Sets whether client connections are left unread.
    pub fn set_only_reads_from_dir(&mut self, only_reads_from_dir: bool)
        ensures
            final(self)@ == (ServerView { only_reads_from_dir, ..old(self)@ }),
    {
        self.data.only_reads_from_dir = only_reads_from_dir;
    }

    /// Registers a value under `name`, with no text sent yet and no proposal
    /// pending, and returns the identifier it is given: the lowest one that
    /// is free.
    pub fn init_debuggable(&mut self, name: String) -> (id: usize)
        ensures
            is_lowest_free(old(self)@.debuggables, id),
            final(self)@ == after_init(old(self)@, id, name@),
    {
        let debuggable = DebuggableOnServer::new(name, None, Vec::new());
        assert(debuggable@.incoming_jsons =~= Seq::empty());
        let id = self.data.debuggables.push(debuggable);
        assert(self@.debuggables =~= old(self)@.debuggables.insert(id, fresh_debuggable(name@)));
        id
    }

    /// Takes the entry `debuggable_id` out of the registry, with whatever
    /// proposals it still holds. Its identifier is free again. The clients
    /// are not told.
    pub fn remove_debuggable(&mut self, debuggable_id: usize) -> (r: Option<DebuggableOnServer>)
        ensures
            r is Some == old(self)@.debuggables.contains_key(debuggable_id),
            r is Some ==> r.unwrap()@ == old(self)@.debuggables[debuggable_id],
            final(self)@ == after_remove(old(self)@, debuggable_id),
            !final(self)@.debuggables.contains_key(debuggable_id),
    {
        let r = self.data.debuggables.remove(debuggable_id);
        assert(self@.debuggables =~= old(self)@.debuggables.remove(debuggable_id));
        r
    }

    /// Whether the registry holds an entry under `debuggable_id`.
    pub fn has_debuggable(&self, debuggable_id: usize) -> (r: bool)
        ensures
            r == self@.debuggables.contains_key(debuggable_id),
    {
        self.data.debuggables.contains_index(debuggable_id)
    }

    /// The text last sent for the entry `debuggable_id`; `None` where there
    /// is no such entry or nothing was sent yet.
    pub fn last_value_of(&self, debuggable_id: usize) -> (r: Option<String>)
        ensures
            r.deep_view() == (if self@.debuggables.contains_key(debuggable_id) {
                self@.debuggables[debuggable_id].last_value
            } else {
                None
            }),
    {
        match self.data.debuggables.get(debuggable_id) {
            Some(debuggable) => clone_text(&debuggable.last_value),
            None => None,
        }
    }

    /// Whether `current_value` is the text last sent for the entry
    /// `debuggable_id`.
    pub fn last_value_of_equals(&self, debuggable_id: usize, current_value: &Option<String>) -> (r:
        bool)
        requires
            self@.debuggables.contains_key(debuggable_id),
        ensures
            r == (self@.debuggables[debuggable_id].last_value == current_value.deep_view()),
    {
        let debuggable = self.data.debuggables.get(debuggable_id).unwrap();
        same_text(&debuggable.last_value, current_value)
    }

    /// Hands out the proposals pending for the entry `debuggable_id`, oldest
    /// first, and leaves it with none.
    pub fn take_incoming_jsons_of(&mut self, debuggable_id: usize) -> (r: Vec<(usize, String)>)
        requires
            old(self)@.debuggables.contains_key(debuggable_id),
        ensures
            r.deep_view() == old(self)@.debuggables[debuggable_id].incoming_jsons,
            final(self)@ == (ServerView {
                debuggables: old(self)@.debuggables.insert(
                    debuggable_id,
                    without_proposals(old(self)@.debuggables[debuggable_id]),
                ),
                ..old(self)@
            }),
    {
        let taken = self.data.debuggables.get_mut(debuggable_id).unwrap().take_proposals();
        assert(self@.debuggables =~= old(self)@.debuggables.insert(
            debuggable_id,
            without_proposals(old(self)@.debuggables[debuggable_id]),
        ));
        taken
    }

    /// What is read before a value is used: the directory, if one is set, and
    /// the client connections unless the server reads from the directory only.
    pub fn read_all_clients(&self) -> (r: ReadPlan)
        ensures
            r.connections == !self@.only_reads_from_dir,
            r.directory.deep_view() == self@.read_from_dir,
    {
        ReadPlan {
            connections: !self.data.only_reads_from_dir,
            directory: clone_text(&self.data.read_from_dir),
        }
    }

    /// What is handed on from the messages that were left as files, and how
    /// many bytes they took.
    ///
    /// `found` holds, for each file whose name is that of a message and which
    /// could be read and then removed, the client and the transaction that
    /// the name stands for and what the file held. The messages come back
    /// each with its client, in the order in which they are to be taken in,
    /// with `end_mark` back wherever `escape` stood for it. A server without
    /// a directory to read hands on nothing.
    pub fn read_clients_from_read_dir(
        &self,
        found: Vec<(usize, usize, String)>,
        escape: &str,
        end_mark: &str,
    ) -> (r: (usize, Vec<(usize, String)>))
        ensures
            self@.read_from_dir is None ==> r.0 == 0 && r.1.deep_view() == Seq::<
                (usize, Seq<char>),
            >::empty(),
            self@.read_from_dir is Some ==> r.0 == saturated(byte_total(found.deep_view()))
                && r.1.deep_view() == replayed(found.deep_view(), escape@, end_mark@),
    {
        if self.data.read_from_dir.is_none() {
            let nothing: Vec<(usize, String)> = Vec::new();
            return (0, nothing);
        }
        let read_bytes = bytes_read(&found);
        (read_bytes, replay(found, escape, end_mark))
    }

    /// What a client is sent to bring it up to date: the identifier it is
    /// known by, then one message per entry, in ascending order of
    /// identifier, with the text last sent for it.
    pub fn init_client(&self, client_index: usize) -> (r: Vec<ServerMessage>)
        ensures
            r.deep_view() == snapshot(client_index, self@.debuggables),
    {
        let entries = self.data.debuggables.iter_index();
        let mut messages: Vec<ServerMessage> = Vec::new();
        messages.push(ServerMessage::GiveClientId { client_id: client_index });
        let ghost ids = sorted_indices(self@.debuggables.dom());
        let ghost first = seq![ServerMessageView::GiveClientId { client_id: client_index }];
        assert(self@.debuggables.dom() =~= self.data.debuggables@.dom());
        let mut i: usize = 0;
        while i < entries.len()
            invariant
                i <= entries.len(),
                ids == sorted_indices(self@.debuggables.dom()),
                ids == sorted_indices(self.data.debuggables@.dom()),
                entries@.len() == ids.len(),
                forall|k: int|
                    0 <= k < entries@.len() ==> (#[trigger] entries@[k]).0 == ids[k]
                        && self.data.debuggables@.contains_key(entries@[k].0) && *entries@[k].1
                        == self.data.debuggables@[entries@[k].0],
                first == seq![ServerMessageView::GiveClientId { client_id: client_index }],
                messages.deep_view() == first + notifications(self@.debuggables).subrange(
                    0,
                    i as int,
                ),
            decreases entries.len() - i,
        {
            let (id, debuggable) = entries[i];
            let ghost before = messages.deep_view();
            messages.push(
                ServerMessage::Notify {
                    id,
                    name: debuggable.name.clone(),
                    value_in_json: shown_text(&debuggable.last_value),
                },
            );
            assert(messages.deep_view() =~= before.push(
                notifications(self@.debuggables)[i as int],
            ));
            i += 1;
        }
        messages
    }

    /// Takes note that `client_index` can be reached, and returns what it is
    /// sent to bring it up to date.
    pub fn on_connect(&mut self, client_index: usize) -> (r: Vec<ServerMessage>)
        ensures
            final(self)@ == (ServerView {
                clients: with_client(old(self)@.clients, client_index),
                ..old(self)@
            }),
            r.deep_view() == snapshot(client_index, old(self)@.debuggables),
    {
        if !holds_client(&self.clients, client_index) {
            self.clients.push(client_index);
        }
        self.init_client(client_index)
    }

    /// Takes note that `client_index` can no longer be reached.
    pub fn on_disconnect(&mut self, client_index: usize)
        ensures
            final(self)@ == (ServerView {
                clients: without_client(old(self)@.clients, client_index),
                ..old(self)@
            }),
    {
        self.clients = self.audience_of(Who::AllBut(client_index));
    }

    /// What is sent when the server shuts down: every client that can be
    /// reached is told to forget every entry.
    pub fn on_close(&self) -> (r: Vec<(usize, ServerMessage)>)
        ensures
            r.deep_view() == self@.clients.map_values(
                |client: usize| (client, ServerMessageView::RemoveAll),
            ),
    {
        let mut out: Vec<(usize, ServerMessage)> = Vec::new();
        let mut i: usize = 0;
        while i < self.clients.len()
            invariant
                i <= self.clients.len(),
                out.deep_view() == self.clients@.subrange(0, i as int).map_values(
                    |client: usize| (client, ServerMessageView::RemoveAll),
                ),
            decreases self.clients.len() - i,
        {
            let ghost before = out.deep_view();
            out.push((self.clients[i], ServerMessage::RemoveAll));
            assert(out.deep_view() =~= before.push(
                (self.clients@[i as int], ServerMessageView::RemoveAll),
            ));
            i += 1;
        }
        out
    }

    /// The clients that `who` stands for.
    pub fn audience_of(&self, who: Who) -> (r: Vec<usize>)
        ensures
            r@ == audience(who, self@.clients),
    {
        match who {
            Who::Client(client) => {
                let mut one: Vec<usize> = Vec::new();
                one.push(client);
                one
            },
            Who::All => self.clients.clone(),
            Who::AllBut(client) => {
                let mut others: Vec<usize> = Vec::new();
                let mut i: usize = 0;
                while i < self.clients.len()
                    invariant
                        i <= self.clients.len(),
                        others@ == without_client(self.clients@.subrange(0, i as int), client),
                    decreases self.clients.len() - i,
                {
                    assert(self.clients@.subrange(0, i + 1).drop_last() =~= self.clients@.subrange(
                        0,
                        i as int,
                    ));
                    if self.clients[i] != client {
                        others.push(self.clients[i]);
                    }
                    i += 1;
                }
                assert(self.clients@.subrange(0, self.clients@.len() as int) =~= self.clients@);
                others
            },
            Who::WrongClients(wrong) => wrong,
        }
    }

    /// Takes in what `client_id` sent. `None` stands for a message that could
    /// not be read: it changes nothing and is not answered.
    ///
    /// A proposal for an entry that exists is put behind those pending for
    /// it; one for an identifier that names no entry is dropped. A request to
    /// send everything again is answered with the snapshot, to `client_id` if
    /// it can be reached, and else to every client that can.
    pub fn process_message_of(&mut self, client_id: usize, message: Option<ClientUnitMessage>) -> (r:
        Vec<(usize, ServerMessage)>)
        ensures
            final(self)@ == after_message(old(self)@, client_id, message.deep_view()),
            r.deep_view() == replies(old(self)@, client_id, message.deep_view()),
    {
        let mut out: Vec<(usize, ServerMessage)> = Vec::new();
        match message {
            None => {},
            Some(ClientUnitMessage::UpdateValue { id, new_value }) => {
                match self.data.debuggables.get_mut(id) {
                    None => {},
                    Some(debuggable) => {
                        debuggable.add_proposal(client_id, new_value);
                    },
                }
                assert(self@.debuggables =~= after_message(
                    old(self)@,
                    client_id,
                    message.deep_view(),
                ).debuggables);
            },
            Some(ClientUnitMessage::Renotify) => {
                if holds_client(&self.clients, client_id) {
                    address_to(client_id, self.init_client(client_id), &mut out);
                } else {
                    let mut i: usize = 0;
                    while i < self.clients.len()
                        invariant
                            i <= self.clients.len(),
                            *self == *old(self),
                            out.deep_view() == snapshot_for_each(
                                self.clients@.subrange(0, i as int),
                                self@.debuggables,
                            ),
                        decreases self.clients.len() - i,
                    {
                        assert(self.clients@.subrange(0, i + 1).drop_last()
                            =~= self.clients@.subrange(0, i as int));
                        let client = self.clients[i];
                        address_to(client, self.init_client(client), &mut out);
                        i += 1;
                    }
                    assert(self.clients@.subrange(0, self.clients@.len() as int)
                        =~= self.clients@);
                }
            },
        }
        out
    }

    /// Records `changed_value` as the text last sent for the entry
    /// `changed_id`, and returns the message that carries it together with
    /// the clients it goes to.
    pub fn notify_new_value(&mut self, changed_id: usize, changed_value: Option<String>, who: Who) -> (r:
        (Vec<usize>, ServerMessage))
        requires
            old(self)@.debuggables.contains_key(changed_id),
        ensures
            final(self)@ == after_notify(old(self)@, changed_id, changed_value.deep_view()),
            r.0@ == audience(who, old(self)@.clients),
            r.1@ == notify_of(changed_id, final(self)@.debuggables[changed_id]),
    {
        let clients_to_notify = self.audience_of(who);
        let debuggable = self.data.debuggables.get_mut(changed_id).unwrap();
        debuggable.set_last_value(changed_value);
        let message = ServerMessage::Notify {
            id: changed_id,
            name: debuggable.name.clone(),
            value_in_json: shown_text(&debuggable.last_value),
        };
        assert(self@.debuggables =~= old(self)@.debuggables.insert(
            changed_id,
            with_last_value(old(self)@.debuggables[changed_id], changed_value.deep_view()),
        ));
        (clients_to_notify, message)
    }

}

/// The snapshot starts with the client's identifier and goes on with one
/// message for each entry and none besides, in ascending order of identifier,
/// each with the text last sent for its entry.
pub proof fn lemma_snapshot(client: usize, debuggables: Map<usize, DebuggableView>)
    ensures
        debuggables.dom().finite(),
        snapshot(client, debuggables).len() == 1 + debuggables.dom().len(),
        snapshot(client, debuggables)[0] == (ServerMessageView::GiveClientId { client_id: client }),
        forall|k: int|
            1 <= k < snapshot(client, debuggables).len() ==> {
                let id = sorted_indices(debuggables.dom())[k - 1];
                debuggables.contains_key(id) && #[trigger] snapshot(client, debuggables)[k]
                    == notify_of(id, debuggables[id])
            },
        forall|j: int, k: int|
            0 <= j < k < sorted_indices(debuggables.dom()).len() ==> sorted_indices(
                debuggables.dom(),
            )[j] < sorted_indices(debuggables.dom())[k],
        forall|id: usize|
            debuggables.contains_key(id) ==> sorted_indices(debuggables.dom()).contains(id),
{
    let ids = sorted_indices(debuggables.dom());
    lemma_sorted_indices(debuggables.dom());
    assert(ids.to_set() =~= debuggables.dom());
    ids.unique_seq_to_set();
    vstd::seq_lib::seq_to_set_is_finite(ids);
}

/// A client list without duplicates has none after a client connected.
pub proof fn lemma_with_client_distinct(clients: Seq<usize>, client: usize)
    requires
        clients.no_duplicates(),
    ensures
        with_client(clients, client).no_duplicates(),
        with_client(clients, client).contains(client),
        forall|other: usize| clients.contains(other) ==> with_client(clients, client).contains(other),
{
    let after = with_client(clients, client);
    if !clients.contains(client) {
        assert(after[after.len() - 1] == client);
        assert forall|other: usize| clients.contains(other) implies after.contains(other) by {
            let k = choose|k: int| 0 <= k < clients.len() && clients[k] == other;
            assert(after[k] == other);
        }
    }
}

/// An element of a sequence without its last element is an element of the
/// sequence, and the other way round unless it is the last one.
proof fn lemma_contains_drop_last(s: Seq<usize>, x: usize)
    requires
        s.len() > 0,
    ensures
        s.contains(x) <==> s.drop_last().contains(x) || s.last() == x,
{
    if s.contains(x) {
        let j = choose|j: int| 0 <= j < s.len() && s[j] == x;
        if j < s.len() - 1 {
            assert(s.drop_last()[j] == x);
        }
    }
}

/// `without_client` keeps the other clients in their order and drops every
/// occurrence of the one.
pub proof fn lemma_without_client(clients: Seq<usize>, client: usize)
    ensures
        !without_client(clients, client).contains(client),
        forall|other: usize|
            other != client ==> (without_client(clients, client).contains(other)
                <==> clients.contains(other)),
        clients.no_duplicates() ==> without_client(clients, client).no_duplicates(),
        !clients.contains(client) ==> without_client(clients, client) == clients,
    decreases clients.len(),
{
    if clients.len() > 0 {
        let earlier = clients.drop_last();
        let last = clients.last();
        let kept = without_client(earlier, client);
        let result = without_client(clients, client);
        lemma_without_client(earlier, client);
        lemma_contains_drop_last(clients, client);
        lemma_contains_drop_last(clients, last);
        if last != client {
            assert(result.drop_last() =~= kept);
            lemma_contains_drop_last(result, client);
        }
        assert forall|other: usize| other != client implies (result.contains(other)
            <==> clients.contains(other)) by {
            lemma_contains_drop_last(clients, other);
            if last != client {
                lemma_contains_drop_last(result, other);
            }
        }
        if clients.no_duplicates() {
            assert(earlier.no_duplicates());
            if last != client {
                assert(!earlier.contains(last));
                assert(!kept.contains(last));
                assert(result.no_duplicates());
            }
        }
    }
}

/// A proposal that was pending for an entry is gone with the entry: a value
/// registered after the entry was taken out starts with no proposal and no
/// text, also where it is given the identifier of the entry taken out, and
/// the other entries are what they were.
pub proof fn lemma_reused_slot_starts_clean(
    server: ServerView,
    client: usize,
    removed: usize,
    json: Seq<char>,
    id: usize,
    name: Seq<char>,
)
    requires
        is_lowest_free(
            after_remove(
                after_message(
                    server,
                    client,
                    Some(ClientUnitMessageView::UpdateValue { id: removed, new_value: json }),
                ),
                removed,
            ).debuggables,
            id,
        ),
    ensures
        ({
            let queued = after_message(
                server,
                client,
                Some(ClientUnitMessageView::UpdateValue { id: removed, new_value: json }),
            );
            let after = after_init(after_remove(queued, removed), id, name);
            &&& after.debuggables[id] == fresh_debuggable(name)
            &&& after.debuggables[id].incoming_jsons.len() == 0
            &&& forall|other: usize|
                other != id && other != removed ==> (after.debuggables.contains_key(other)
                    <==> server.debuggables.contains_key(other))
            &&& forall|other: usize|
                other != id && other != removed && #[trigger] server.debuggables.contains_key(other)
                    ==> after.debuggables[other] == server.debuggables[other]
            &&& id != removed ==> !after.debuggables.contains_key(removed)
        }),
{
}

} // verus!
