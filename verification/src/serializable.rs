use vstd::prelude::*;

verus! {

/// JSON text, character by character, as contracts speak of it.
pub type JsonText = Seq<char>;

/// A value that can be written as JSON text and read back from JSON text.
///
/// The two spec functions name what the two executable methods return, so that
/// callers can say exactly which text was kept and which value was taken over.
/// Whoever implements the trait promises that both methods are functions of
/// their arguments alone; nothing here checks that promise.
pub trait JSONDeSerializable: Sized {
    /// The text that `to_json` gives for this value, `None` where it gives none.
    spec fn json_text(&self) -> Option<JsonText>;

    /// The value that `from_json` reads from `json`, `None` where it reads none.
    spec fn parsed(json: JsonText) -> Option<Self>;

    /// Writes the value as JSON text, `None` where it cannot be written.
    fn to_json(&self) -> (json: Option<String>)
        ensures
            json.deep_view() == self.json_text(),
    ;

    /// Reads a value from JSON text, `None` where the text is not that of a
    /// value.
    fn from_json(json: &str) -> (value: Option<Self>)
        ensures
            value == Self::parsed(json@),
    ;
}

/// What the server tells a client.
#[derive(Debug, PartialEq, Eq)]
pub enum ServerMessage {
    /// Tells a client the identifier it is known by.
    GiveClientId { client_id: usize },
    /// Carries the current value of one entry.
    Notify { id: usize, name: String, value_in_json: String },
    /// Tells a client to forget one entry.
    Remove { id: usize },
    /// Tells a client to forget every entry.
    RemoveAll,
}

/// A `ServerMessage` with its texts as sequences of characters.
pub enum ServerMessageView {
    GiveClientId { client_id: usize },
    Notify { id: usize, name: Seq<char>, value_in_json: Seq<char> },
    Remove { id: usize },
    RemoveAll,
}

impl View for ServerMessage {
    type V = ServerMessageView;

    open spec fn view(&self) -> ServerMessageView {
        match *self {
            ServerMessage::GiveClientId { client_id } => ServerMessageView::GiveClientId {
                client_id,
            },
            ServerMessage::Notify { id, name, value_in_json } => ServerMessageView::Notify {
                id,
                name: name@,
                value_in_json: value_in_json@,
            },
            ServerMessage::Remove { id } => ServerMessageView::Remove { id },
            ServerMessage::RemoveAll => ServerMessageView::RemoveAll,
        }
    }
}

impl DeepView for ServerMessage {
    type V = ServerMessageView;

    open spec fn deep_view(&self) -> ServerMessageView {
        self@
    }
}

impl Clone for ServerMessage {
    fn clone(&self) -> (r: Self)
        ensures
            r@ == self@,
    {
        match self {
            ServerMessage::GiveClientId { client_id } => ServerMessage::GiveClientId {
                client_id: *client_id,
            },
            ServerMessage::Notify { id, name, value_in_json } => ServerMessage::Notify {
                id: *id,
                name: name.clone(),
                value_in_json: value_in_json.clone(),
            },
            ServerMessage::Remove { id } => ServerMessage::Remove { id: *id },
            ServerMessage::RemoveAll => ServerMessage::RemoveAll,
        }
    }
}

/// What a client tells the server.
#[derive(Debug, PartialEq, Eq)]
pub enum ClientUnitMessage {
    /// Proposes a new value for one entry.
    UpdateValue { id: usize, new_value: String },
    /// Asks for every entry to be sent again.
    Renotify,
}

/// A `ClientUnitMessage` with its text as a sequence of characters.
pub enum ClientUnitMessageView {
    UpdateValue { id: usize, new_value: Seq<char> },
    Renotify,
}

impl View for ClientUnitMessage {
    type V = ClientUnitMessageView;

    open spec fn view(&self) -> ClientUnitMessageView {
        match *self {
            ClientUnitMessage::UpdateValue { id, new_value } => ClientUnitMessageView::UpdateValue {
                id,
                new_value: new_value@,
            },
            ClientUnitMessage::Renotify => ClientUnitMessageView::Renotify,
        }
    }
}

impl DeepView for ClientUnitMessage {
    type V = ClientUnitMessageView;

    open spec fn deep_view(&self) -> ClientUnitMessageView {
        self@
    }
}

impl Clone for ClientUnitMessage {
    fn clone(&self) -> (r: Self)
        ensures
            r@ == self@,
    {
        match self {
            ClientUnitMessage::UpdateValue { id, new_value } => ClientUnitMessage::UpdateValue {
                id: *id,
                new_value: new_value.clone(),
            },
            ClientUnitMessage::Renotify => ClientUnitMessage::Renotify,
        }
    }
}

} // verus!
