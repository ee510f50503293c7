use vstd::prelude::*;

use crate::server::debuggable_server_builder::{built, BuilderView, DebuggableServerBuilder};
use crate::server::{DebuggableServer, ServerView};

verus! {

/// The place of the server that is used where none is named.
///
/// The server is made when it is first asked for, from the builder that the
/// place holds at that moment. From then on the place holds that server, and
/// another builder changes nothing about it.
#[derive(Debug)]
pub struct DefaultServer {
    initializer: DebuggableServerBuilder,
    server: Option<DebuggableServer>,
}

/// A `DefaultServer` as plain mathematical values.
pub struct DefaultServerView {
    /// How the server is set up when it is made.
    pub initializer: BuilderView,
    /// The server, once it was made.
    pub server: Option<ServerView>,
}

impl View for DefaultServer {
    type V = DefaultServerView;

    closed spec fn view(&self) -> DefaultServerView {
        DefaultServerView {
            initializer: self.initializer@,
            server: match self.server {
                Some(server) => Some(server@),
                None => None,
            },
        }
    }
}

/// The server that the place `slot` stands for: the one it holds, or the one
/// that its builder makes.
pub open spec fn server_of(slot: DefaultServerView) -> ServerView {
    match slot.server {
        Some(server) => server,
        None => built(slot.initializer),
    }
}

/// Once the server was made it stays the same, whichever builder is put in
/// the place afterwards.
pub proof fn lemma_server_is_made_once(slot: DefaultServerView, initializer: BuilderView)
    requires
        slot.server is Some,
    ensures
        server_of(DefaultServerView { initializer, ..slot }) == server_of(slot),
{
}

/// Until the server is made, it is the one that the builder put in the place
/// last would make.
pub proof fn lemma_last_initializer_counts(slot: DefaultServerView, initializer: BuilderView)
    requires
        slot.server is None,
    ensures
        server_of(DefaultServerView { initializer, ..slot }) == built(initializer),
{
}

impl DefaultServer {
    /// A place without a server, whose builder is that of a server which
    /// reads client connections and no directory.
    pub fn new() -> (r: Self)
        ensures
            r@ == (DefaultServerView {
                initializer: BuilderView { read_dir: None, only_reads_from_dir: false },
                server: None,
            }),
    {
        DefaultServer { initializer: DebuggableServerBuilder::new(), server: None }
    }
}

/// The server of the place `slot`, made now if it was not made before.
pub fn default_server(slot: &mut DefaultServer) -> (r: &mut DebuggableServer)
    ensures
        r@ == server_of(old(slot)@),
        final(slot)@ == (DefaultServerView {
            initializer: old(slot)@.initializer,
            server: Some(final(r)@),
        }),
{
    if slot.server.is_none() {
        slot.server = Some(slot.initializer.clone().build());
    }
    slot.server.as_mut().unwrap()
}

/// Puts `initializer` in place of the builder that `slot` holds. A server
/// that was made already stays as it is.
pub fn set_default_server_initializer(slot: &mut DefaultServer, initializer: DebuggableServerBuilder)
    ensures
        final(slot)@ == (DefaultServerView { initializer: initializer@, ..old(slot)@ }),
{
    slot.initializer = initializer;
}

/// Whether the server of the place `slot` was made.
pub fn is_default_server_initialized(slot: &DefaultServer) -> (r: bool)
    ensures
        r == slot@.server is Some,
{
    slot.server.is_some()
}

} // verus!
