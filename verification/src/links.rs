//! Capability interfaces to the collaborators a dispatch action touches.
//!
//! The router never owns the relational store, the client socket or the
//! message broker; it reaches each through one of these traits.  The
//! in-memory implementations below record the interactions and back the
//! crate's tests; the process wires the traits to its real collaborators
//! outside the library.

use vstd::prelude::*;

verus! {

/// A handle to the relational store, able to run one write statement.
///
/// `writes` is the sequence of statements the store accepted so far.  An
/// implementation may refuse a statement; the router treats that as the
/// action's failure and never retries.
pub trait StoreLink {
    /// The write statements accepted so far, oldest first.
    spec fn writes(&self) -> Seq<Seq<char>>;

    /// Whether this handle is known to accept every statement.  A caller
    /// holding an infallible handle is owed success.
    spec fn infallible(&self) -> bool;

    /// Runs one write statement against the store.
    fn execute_write(&mut self, statement: &str) -> (r: Result<(), String>)
        ensures
            r matches Ok(_) ==> final(self).writes() == old(self).writes().push(statement@),
            r matches Err(_) ==> final(self).writes() == old(self).writes(),
            final(self).infallible() == old(self).infallible(),
            old(self).infallible() ==> r is Ok,
    ;
}

/// The write half of one client connection.
///
/// `written` is everything sent so far.  A refused send leaves the stream
/// as it was: the router writes at most once and never recovers a partial
/// response.
pub trait OutputLink {
    /// Everything sent over this connection so far.
    spec fn written(&self) -> Seq<char>;

    /// Whether this stream is known to accept every send.  A caller
    /// holding an infallible stream is owed success.
    spec fn infallible(&self) -> bool;

    /// Sends text and flushes it.
    fn send(&mut self, data: &str) -> (r: Result<(), String>)
        ensures
            r matches Ok(_) ==> final(self).written() == old(self).written() + data@,
            r matches Err(_) ==> final(self).written() == old(self).written(),
            final(self).infallible() == old(self).infallible(),
            old(self).infallible() ==> r is Ok,
    ;
}

/// A fire-and-forget side-effect sink, such as a message broker.
///
/// `events` records every attempted send.  Delivery may fail; the caller
/// logs the failure and carries on, so the contract tracks attempts, not
/// deliveries.
pub trait EventSink {
    /// Every `(sender, content)` pair handed to the sink so far.
    spec fn events(&self) -> Seq<(Seq<char>, Seq<char>)>;

    /// Hands one message to the sink.
    fn notify(&mut self, sender: &str, content: &str) -> (r: Result<(), String>)
        ensures
            final(self).events() == old(self).events().push((sender@, content@)),
    ;
}

/// An in-memory store that accepts every statement.
pub struct MemoryStore {
    pub statements: Vec<String>,
}

impl MemoryStore {
    /// A store that has accepted nothing yet.
    pub fn new() -> (s: MemoryStore)
        ensures
            s.writes() == Seq::<Seq<char>>::empty(),
    {
        let s = MemoryStore { statements: Vec::new() };
        proof {
            assert(s.statements.deep_view() =~= Seq::<Seq<char>>::empty());
        }
        s
    }
}

impl StoreLink for MemoryStore {
    open spec fn writes(&self) -> Seq<Seq<char>> {
        self.statements.deep_view()
    }

    open spec fn infallible(&self) -> bool {
        true
    }

    fn execute_write(&mut self, statement: &str) -> (r: Result<(), String>) {
        self.statements.push(String::from_str(statement));
        proof {
            assert(self.statements.deep_view() =~= old(self).statements.deep_view().push(
                statement@,
            ));
        }
        Ok(())
    }
}

/// A store that refuses every statement, as a pool with no reachable
/// server would.
pub struct RefusingStore {}

impl StoreLink for RefusingStore {
    open spec fn writes(&self) -> Seq<Seq<char>> {
        Seq::empty()
    }

    open spec fn infallible(&self) -> bool {
        false
    }

    fn execute_write(&mut self, _statement: &str) -> (r: Result<(), String>) {
        Err(String::from_str("store unavailable"))
    }
}

/// An in-memory stream that accepts every send.
pub struct MemoryStream {
    pub data: String,
}

impl MemoryStream {
    /// A stream over which nothing was sent yet.
    pub fn new() -> (s: MemoryStream)
        ensures
            s.written() == Seq::<char>::empty(),
    {
        MemoryStream { data: String::new() }
    }
}

impl OutputLink for MemoryStream {
    open spec fn written(&self) -> Seq<char> {
        self.data@
    }

    open spec fn infallible(&self) -> bool {
        true
    }

    fn send(&mut self, data: &str) -> (r: Result<(), String>) {
        self.data.append(data);
        Ok(())
    }
}

/// An in-memory sink that keeps every message.
pub struct MemorySink {
    pub messages: Vec<(String, String)>,
}

impl MemorySink {
    /// A sink that has seen nothing yet.
    pub fn new() -> (s: MemorySink)
        ensures
            s.events() == Seq::<(Seq<char>, Seq<char>)>::empty(),
    {
        let s = MemorySink { messages: Vec::new() };
        proof {
            assert(s.messages.deep_view() =~= Seq::<(Seq<char>, Seq<char>)>::empty());
        }
        s
    }
}

impl EventSink for MemorySink {
    open spec fn events(&self) -> Seq<(Seq<char>, Seq<char>)> {
        self.messages.deep_view()
    }

    fn notify(&mut self, sender: &str, content: &str) -> (r: Result<(), String>) {
        self.messages.push((String::from_str(sender), String::from_str(content)));
        proof {
            assert(self.messages.deep_view() =~= old(self).messages.deep_view().push(
                (sender@, content@),
            ));
        }
        Ok(())
    }
}

} // verus!
