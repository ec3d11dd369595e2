//! The relay protocol of the drawing server: each text frame is forwarded,
//! as it came, to every other client, and the segments are kept (the canvas
//! is cleared beyond its capacity, as on the [`crate::board::Board`]) and
//! replayed, one frame per segment, to a client that connects.
use vstd::prelude::*;
use crate::message::Line;
use crate::registry::{Client, Clients, ids_view, joined, addressees, without};
use crate::board::{Frame, MAX_MESSAGES, stored_after};
use crate::ids::{new_client_id, is_simple_v4_text, ID_DRAWS};

verus! {

/// What the relay does after a frame: the clients to forward it to, and
/// whether it goes on listening to the connection.
pub struct RelayReaction {
    pub forward_to: Vec<String>,
    pub keep_open: bool,
}

/// The mathematical state of a [`Relay`].
pub struct RelayView {
    pub clients: Seq<Seq<char>>,
    pub lines: Seq<Line>,
    pub capacity: nat,
}

/// The connected clients and the segments received since the canvas was
/// last cleared.
pub struct Relay {
    clients: Clients,
    lines: Vec<Line>,
    capacity: usize,
}

impl View for Relay {
    type V = RelayView;

    closed spec fn view(&self) -> RelayView {
        RelayView { clients: self.clients@, lines: self.lines@, capacity: self.capacity as nat }
    }
}

impl Relay {
    /// No client id occurs twice, and no more segments are stored than the
    /// capacity allows.
    pub open spec fn wf(&self) -> bool {
        &&& self@.clients.no_duplicates()
        &&& self@.lines.len() <= self@.capacity
    }

    /// A relay with no clients and no segments, cleared beyond
    /// [`MAX_MESSAGES`] segments.
    pub fn new() -> (relay: Relay)
        ensures
            relay.wf(),
            relay@.clients == Seq::<Seq<char>>::empty(),
            relay@.lines == Seq::<Line>::empty(),
            relay@.capacity == MAX_MESSAGES,
    {
        Relay::with_capacity(MAX_MESSAGES)
    }

    /// A relay with no clients and no segments, cleared beyond `capacity`
    /// segments.
    pub fn with_capacity(capacity: usize) -> (relay: Relay)
        ensures
            relay.wf(),
            relay@.clients == Seq::<Seq<char>>::empty(),
            relay@.lines == Seq::<Line>::empty(),
            relay@.capacity == capacity,
    {
        Relay { clients: Clients::new(), lines: Vec::new(), capacity }
    }

    /// The number of connected clients.
    pub fn client_count(&self) -> (n: usize)
        ensures
            n == self@.clients.len(),
    {
        self.clients.len()
    }

    /// Whether a client with this id is registered.
    pub fn is_connected(&self, id: &String) -> (found: bool)
        ensures
            found == self@.clients.contains(id@),
    {
        self.clients.contains(id)
    }

    /// The stored segments, oldest first.
    pub fn lines(&self) -> (lines: &Vec<Line>)
        ensures
            lines@ == self@.lines,
    {
        &self.lines
    }

    /// The segments that a connecting client is sent, one frame each: all
    /// that are stored, oldest first.
    pub fn read_existing_lines_for_new_client(&self, new_client: &Client) -> (lines: Vec<Line>)
        ensures
            lines@ == self@.lines,
    {
        self.lines.clone()
    }

    /// The clients that a frame from `current_uuid` is forwarded to: every
    /// connected client but `current_uuid`, in registry order.
    pub fn send_to_all(&self, current_uuid: &String) -> (tos: Vec<String>)
        ensures
            ids_view(tos@) == addressees(self@.clients, current_uuid@, false),
    {
        self.clients.recipients(current_uuid, false)
    }

    /// A client connects: it is sent every stored segment, then it is
    /// registered.
    pub fn connect(&mut self, client: Client) -> (lines: Vec<Line>)
        requires
            old(self).wf(),
        ensures
            final(self).wf(),
            lines@ == old(self)@.lines,
            final(self)@.lines == old(self)@.lines,
            final(self)@.capacity == old(self)@.capacity,
            final(self)@.clients == joined(old(self)@.clients, client.client_id@),
    {
        let lines = self.read_existing_lines_for_new_client(&client);
        self.clients.insert(client);
        lines
    }

    /// A client with a fresh random id connects, as [`Relay::connect`]
    /// describes; returns that id and the segments it is sent. The id is one
    /// that no connected client has: a drawn id that is in use is drawn
    /// again, up to [`ID_DRAWS`] times. Where the system's random source
    /// fails, or every draw is in use, nothing changes and the result is
    /// `None`.
    pub fn join(&mut self) -> (res: Option<(String, Vec<Line>)>)
        requires
            old(self).wf(),
        ensures
            final(self).wf(),
            match res {
                Some((id, lines)) => {
                    &&& is_simple_v4_text(id@)
                    &&& !old(self)@.clients.contains(id@)
                    &&& final(self)@.clients == old(self)@.clients.push(id@)
                    &&& final(self)@.clients.len() == old(self)@.clients.len() + 1
                    &&& lines@ == old(self)@.lines
                    &&& final(self)@.lines == old(self)@.lines
                    &&& final(self)@.capacity == old(self)@.capacity
                    &&& final(self)@.clients == joined(old(self)@.clients, id@)
                },
                None => final(self)@ == old(self)@,
            },
    {
        let mut draws: usize = 0;
        while draws < ID_DRAWS
            invariant
                self.wf(),
                self@ == old(self)@,
            decreases ID_DRAWS - draws,
        {
            match new_client_id() {
                Some(uuid) => {
                    if !self.clients.contains(&uuid) {
                        let lines = self.connect(Client { client_id: uuid.clone() });
                        return Some((uuid, lines));
                    }
                },
                None => {
                    return None;
                },
            }
            draws = draws + 1;
        }
        None
    }

    /// What the relay does with a frame from client `from`. A text frame is
    /// forwarded to every other client, and its segment, where the text is
    /// one, is stored (the canvas is cleared where that makes more than the
    /// capacity). Any other frame (close, not text, a failure, the end of the
    /// stream) ends the listening and unregisters the client.
    pub fn handle(&mut self, from: &String, frame: Frame) -> (reaction: RelayReaction)
        requires
            old(self).wf(),
        ensures
            final(self).wf(),
            final(self)@.capacity == old(self)@.capacity,
            match frame {
                Frame::Text(parsed) => {
                    &&& final(self)@.clients == old(self)@.clients
                    &&& final(self)@.lines == match parsed {
                        Some(line) => stored_after(old(self)@.lines, line, old(self)@.capacity),
                        None => old(self)@.lines,
                    }
                    &&& ids_view(reaction.forward_to@) == addressees(old(self)@.clients, from@, false)
                    &&& reaction.keep_open
                },
                _ => {
                    &&& final(self)@.clients == without(old(self)@.clients, from@)
                    &&& final(self)@.lines == old(self)@.lines
                    &&& reaction.forward_to@.len() == 0
                    &&& !reaction.keep_open
                },
            },
    {
        match frame {
            Frame::Text(parsed) => {
                match parsed {
                    Some(line) => {
                        self.lines.push(line);
                        if self.lines.len() > self.capacity {
                            self.lines.clear();
                        }
                        assert(self@.lines =~= stored_after(old(self)@.lines, line, old(self)@.capacity));
                    },
                    None => {},
                }
                RelayReaction { forward_to: self.send_to_all(from), keep_open: true }
            },
            _ => {
                self.clients.remove(from);
                RelayReaction { forward_to: Vec::new(), keep_open: false }
            },
        }
    }
}

} // verus!
