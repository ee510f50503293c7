use vstd::prelude::*;

use crate::server::{fresh_server, DebuggableServer, ServerView};

verus! {

/// How a server is to be set up, gathered before the server is made.
#[derive(Debug)]
pub struct DebuggableServerBuilder {
    read_dir: Option<String>,
    only_reads_from_dir: bool,
}

/// A `DebuggableServerBuilder` as plain mathematical values.
pub struct BuilderView {
    /// The directory that holds messages left as files, if any.
    pub read_dir: Option<Seq<char>>,
    /// Whether client connections are to be left unread.
    pub only_reads_from_dir: bool,
}

impl View for DebuggableServerBuilder {
    type V = BuilderView;

    closed spec fn view(&self) -> BuilderView {
        BuilderView {
            read_dir: self.read_dir.deep_view(),
            only_reads_from_dir: self.only_reads_from_dir,
        }
    }
}

/// The server that is built from `builder`: it has no entry and no client,
/// and reads as the builder says.
pub open spec fn built(builder: BuilderView) -> ServerView {
    ServerView {
        only_reads_from_dir: builder.only_reads_from_dir,
        read_from_dir: builder.read_dir,
        ..fresh_server()
    }
}

impl Clone for DebuggableServerBuilder {
    fn clone(&self) -> (r: Self)
        ensures
            r@ == self@,
    {
        DebuggableServerBuilder {
            read_dir: match &self.read_dir {
                Some(dir) => Some(dir.clone()),
                None => None,
            },
            only_reads_from_dir: self.only_reads_from_dir,
        }
    }
}

impl DebuggableServerBuilder {
    /// A builder for a server that reads client connections and no directory.
    pub fn new() -> (r: Self)
        ensures
            r@ == (BuilderView { read_dir: None, only_reads_from_dir: false }),
    {
        DebuggableServerBuilder { read_dir: None, only_reads_from_dir: false }
    }

    /// Has the server leave client connections unread.
    pub fn only_reads_from_dir(self) -> (r: Self)
        ensures
            r@ == (BuilderView { only_reads_from_dir: true, ..self@ }),
    {
        DebuggableServerBuilder { read_dir: self.read_dir, only_reads_from_dir: true }
    }

    /// Has the server read the messages left as files in `read_dir`.
    pub fn read_dir(self, read_dir: String) -> (r: Self)
        ensures
            r@ == (BuilderView { read_dir: Some(read_dir@), ..self@ }),
    {
        DebuggableServerBuilder {
            read_dir: Some(read_dir),
            only_reads_from_dir: self.only_reads_from_dir,
        }
    }

    /// Makes the server.
    pub fn build(self) -> (r: DebuggableServer)
        ensures
            r@ == built(self@),
    {
        let mut server = DebuggableServer::new();
        server.set_read_dir(self.read_dir);
        if self.only_reads_from_dir {
            server.set_only_reads_from_dir(true);
        }
        server
    }
}

} // verus!
