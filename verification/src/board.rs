//! The drawing server: what it keeps, and what it sends to whom when a
//! client connects, draws a segment or leaves.
use vstd::prelude::*;
use crate::message::{
    Line, MsgView, DrawingMsg, Delivery, deliveries_view, to_each, line_note, count_note,
    line_kind, messages_kind, clients_kind,
};
use crate::registry::{
    Client, Clients, ids_view, joined, addressees, without, lemma_addressees_all,
    lemma_addressees_no_duplicates, lemma_addressees_members, lemma_addressees_absent,
    lemma_addressees_len,
};
use crate::ids::{new_client_id, is_simple_v4_text, ID_DRAWS};

verus! {

/// The number of stored segments beyond which the server clears the canvas.
pub const MAX_MESSAGES: usize = 10000;

/// What a client's connection delivered to the server.
pub enum Frame {
    /// A text frame, with the segment that its JSON describes, or `None`
    /// where the text is not such JSON.
    Text(Option<Line>),
    /// A close frame.
    Close,
    /// A frame that is not text (binary, ping, pong).
    NotText,
    /// A failure while receiving.
    Error,
    /// The end of the stream of frames.
    End,
}

/// What the server does after a frame: the messages to send, and whether it
/// goes on listening to the connection.
pub struct Reaction {
    pub deliveries: Vec<Delivery>,
    pub keep_open: bool,
}

/// The mathematical state of a [`Board`].
pub struct BoardView {
    pub clients: Seq<Seq<char>>,
    pub lines: Seq<Line>,
    pub capacity: nat,
}

/// The segments after `line` is stored: they are all dropped where there
/// would be more than `capacity` of them.
pub open spec fn stored_after(lines: Seq<Line>, line: Line, capacity: nat) -> Seq<Line> {
    if lines.len() + 1 > capacity {
        Seq::empty()
    } else {
        lines.push(line)
    }
}

/// What a connecting client `to` is sent before it is registered: the
/// number of stored segments, then each of them in order.
pub open spec fn welcome(lines: Seq<Line>, to: Seq<char>) -> Seq<(Seq<char>, MsgView)> {
    seq![(to, count_note(messages_kind(), lines.len()))] + lines.map_values(
        |l: Line| (to, line_note(l)),
    )
}

pub open spec fn after_connect(b: BoardView, id: Seq<char>) -> BoardView {
    BoardView { clients: joined(b.clients, id), lines: b.lines, capacity: b.capacity }
}

/// The welcome for `id`, then the new number of clients to every client.
pub open spec fn connect_out(b: BoardView, id: Seq<char>) -> Seq<(Seq<char>, MsgView)> {
    let clients = joined(b.clients, id);
    welcome(b.lines, id) + to_each(
        addressees(clients, id, true),
        count_note(clients_kind(), clients.len()),
    )
}

pub open spec fn after_receive(b: BoardView, line: Line) -> BoardView {
    BoardView {
        clients: b.clients,
        lines: stored_after(b.lines, line, b.capacity),
        capacity: b.capacity,
    }
}

/// The segment to every client but its sender, then the new number of
/// stored segments to every client.
pub open spec fn receive_out(b: BoardView, from: Seq<char>, line: Line) -> Seq<
    (Seq<char>, MsgView),
> {
    to_each(addressees(b.clients, from, false), line_note(line)) + to_each(
        addressees(b.clients, from, true),
        count_note(messages_kind(), stored_after(b.lines, line, b.capacity).len()),
    )
}

pub open spec fn after_disconnect(b: BoardView, id: Seq<char>) -> BoardView {
    BoardView { clients: without(b.clients, id), lines: b.lines, capacity: b.capacity }
}

/// The new number of clients to every client that is still connected.
pub open spec fn disconnect_out(b: BoardView, id: Seq<char>) -> Seq<(Seq<char>, MsgView)> {
    let clients = without(b.clients, id);
    to_each(addressees(clients, id, false), count_note(clients_kind(), clients.len()))
}

/// The shared canvas: the connected clients and the stored segments.
pub struct Board {
    clients: Clients,
    lines: Vec<Line>,
    capacity: usize,
}

impl View for Board {
    type V = BoardView;

    closed spec fn view(&self) -> BoardView {
        BoardView { clients: self.clients@, lines: self.lines@, capacity: self.capacity as nat }
    }
}

impl Board {
    /// No client id occurs twice, and no more segments are stored than the
    /// capacity allows.
    pub open spec fn wf(&self) -> bool {
        &&& self@.clients.no_duplicates()
        &&& self@.lines.len() <= self@.capacity
    }

    /// An empty canvas that is cleared beyond [`MAX_MESSAGES`] segments.
    pub fn new() -> (board: Board)
        ensures
            board.wf(),
            board@.clients == Seq::<Seq<char>>::empty(),
            board@.lines == Seq::<Line>::empty(),
            board@.capacity == MAX_MESSAGES,
    {
        Board::with_capacity(MAX_MESSAGES)
    }

    /// An empty canvas that is cleared beyond `capacity` segments.
    pub fn with_capacity(capacity: usize) -> (board: Board)
        ensures
            board.wf(),
            board@.clients == Seq::<Seq<char>>::empty(),
            board@.lines == Seq::<Line>::empty(),
            board@.capacity == capacity,
    {
        Board { clients: Clients::new(), lines: Vec::new(), capacity }
    }

    /// The number of connected clients.
    pub fn client_count(&self) -> (n: usize)
        ensures
            n == self@.clients.len(),
    {
        self.clients.len()
    }

    /// The stored segments, oldest first.
    pub fn lines(&self) -> (lines: &Vec<Line>)
        ensures
            lines@ == self@.lines,
    {
        &self.lines
    }

    /// The message `drawing_msg`, once to each client that a message from
    /// `current_uuid` reaches (all of them when `self_included`, else all but
    /// `current_uuid`), in registry order.
    pub fn send_to_all(&self, current_uuid: &String, drawing_msg: &DrawingMsg, self_included: bool) -> (out: Vec<
        Delivery,
    >)
        ensures
            deliveries_view(out@) == to_each(
                addressees(self@.clients, current_uuid@, self_included),
                drawing_msg@,
            ),
    {
        let tos = self.clients.recipients(current_uuid, self_included);
        let n = tos.len();
        let mut out: Vec<Delivery> = Vec::new();
        let mut i: usize = 0;
        while i < n
            invariant
                n == tos@.len(),
                i <= n,
                deliveries_view(out@) == to_each(ids_view(tos@).take(i as int), drawing_msg@),
            decreases n - i,
        {
            let d = Delivery { to: tos[i].clone(), msg: drawing_msg.duplicate() };
            assert(d@ == (ids_view(tos@)[i as int], drawing_msg@));
            let ghost before = out@;
            out.push(d);
            assert(deliveries_view(out@) =~= deliveries_view(before).push(d@));
            assert(ids_view(tos@).take(i + 1) =~= ids_view(tos@).take(i as int).push(
                ids_view(tos@)[i as int],
            ));
            assert(deliveries_view(out@) =~= to_each(ids_view(tos@).take(i + 1), drawing_msg@));
            i = i + 1;
        }
        assert(ids_view(tos@).take(n as int) =~= ids_view(tos@));
        out
    }

    /// The number of connected clients, to each client that a message from
    /// `client_uuid` reaches.
    pub fn send_number_of_clients(&self, client_uuid: &String, self_included: bool) -> (out: Vec<
        Delivery,
    >)
        ensures
            deliveries_view(out@) == to_each(
                addressees(self@.clients, client_uuid@, self_included),
                count_note(clients_kind(), self@.clients.len()),
            ),
    {
        let msg = DrawingMsg::of_clients(self.clients.len());
        self.send_to_all(client_uuid, &msg, self_included)
    }

    /// What `new_client` is sent on connecting: the number of stored
    /// segments, then each of them, oldest first.
    pub fn read_existing_lines_for_new_client(&self, new_client: &Client) -> (out: Vec<Delivery>)
        ensures
            deliveries_view(out@) == welcome(self@.lines, new_client.client_id@),
    {
        let to = &new_client.client_id;
        let n = self.lines.len();
        let mut out: Vec<Delivery> = Vec::new();
        out.push(Delivery { to: to.clone(), msg: DrawingMsg::of_messages(n) });
        let ghost head = seq![(to@, count_note(messages_kind(), n as nat))];
        assert(deliveries_view(out@) =~= head);
        let mut i: usize = 0;
        while i < n
            invariant
                n == self.lines@.len(),
                i <= n,
                head == seq![(to@, count_note(messages_kind(), n as nat))],
                deliveries_view(out@) == head + self.lines@.take(i as int).map_values(
                    |l: Line| (to@, line_note(l)),
                ),
            decreases n - i,
        {
            let d = Delivery { to: to.clone(), msg: DrawingMsg::of_line(self.lines[i]) };
            assert(d@ == (to@, line_note(self.lines@[i as int])));
            let ghost before = out@;
            out.push(d);
            assert(deliveries_view(out@) =~= deliveries_view(before).push(d@));
            assert(self.lines@.take(i + 1) =~= self.lines@.take(i as int).push(
                self.lines@[i as int],
            ));
            assert(deliveries_view(out@) =~= head + self.lines@.take(i + 1).map_values(
                |l: Line| (to@, line_note(l)),
            ));
            i = i + 1;
        }
        assert(self.lines@.take(n as int) =~= self.lines@);
        out
    }

    /// A client connects: it is sent the stored segments, it is registered,
    /// and every client, itself included, is sent the new number of clients.
    pub fn connect(&mut self, client: Client) -> (out: Vec<Delivery>)
        requires
            old(self).wf(),
        ensures
            final(self).wf(),
            final(self)@ == after_connect(old(self)@, client.client_id@),
            deliveries_view(out@) == connect_out(old(self)@, client.client_id@),
    {
        let id = client.client_id.clone();
        let mut out = self.read_existing_lines_for_new_client(&client);
        self.clients.insert(client);
        let mut counts = self.send_number_of_clients(&id, true);
        let ghost first = deliveries_view(out@);
        let ghost second = deliveries_view(counts@);
        out.append(&mut counts);
        assert(deliveries_view(out@) =~= first + second);
        out
    }

    /// A client with a fresh random id connects, as [`Board::connect`]
    /// describes; returns that id and the messages. The id is one that no
    /// connected client has: a drawn id that is in use is drawn again, up to
    /// [`ID_DRAWS`] times. Where the system's random source fails, or every
    /// draw is in use, nothing changes and the result is `None`.
    pub fn join(&mut self) -> (res: Option<(String, Vec<Delivery>)>)
        requires
            old(self).wf(),
        ensures
            final(self).wf(),
            match res {
                Some((id, out)) => {
                    &&& is_simple_v4_text(id@)
                    &&& !old(self)@.clients.contains(id@)
                    &&& final(self)@.clients == old(self)@.clients.push(id@)
                    &&& final(self)@.clients.len() == old(self)@.clients.len() + 1
                    &&& final(self)@ == after_connect(old(self)@, id@)
                    &&& deliveries_view(out@) == connect_out(old(self)@, id@)
                },
                None => final(self)@ == old(self)@,
            },
    {
        let mut draws: usize = 0;
        while draws < ID_DRAWS
            invariant
                self.wf(),
                self@ == old(self)@,
            decreases ID_DRAWS - draws,
        {
            match new_client_id() {
                Some(uuid) => {
                    if !self.clients.contains(&uuid) {
                        let out = self.connect(Client { client_id: uuid.clone() });
                        return Some((uuid, out));
                    }
                },
                None => {
                    return None;
                },
            }
            draws = draws + 1;
        }
        None
    }

    /// Client `from` draws `line`: it is stored (the canvas is cleared where
    /// that makes more than the capacity), it goes to every other client, and
    /// every client is sent the new number of stored segments.
    pub fn receive(&mut self, from: &String, line: Line) -> (out: Vec<Delivery>)
        requires
            old(self).wf(),
        ensures
            final(self).wf(),
            final(self)@ == after_receive(old(self)@, line),
            deliveries_view(out@) == receive_out(old(self)@, from@, line),
    {
        self.lines.push(line);
        if self.lines.len() > self.capacity {
            self.lines.clear();
        }
        let mut out = self.send_to_all(from, &DrawingMsg::of_line(line), false);
        let mut counts = self.send_to_all(from, &DrawingMsg::of_messages(self.lines.len()), true);
        let ghost first = deliveries_view(out@);
        let ghost second = deliveries_view(counts@);
        out.append(&mut counts);
        assert(deliveries_view(out@) =~= first + second);
        assert(self@.lines =~= stored_after(old(self)@.lines, line, old(self)@.capacity));
        out
    }

    /// Client `id` leaves: it is unregistered, and every client still
    /// connected is sent the new number of clients.
    pub fn disconnect(&mut self, id: &String) -> (out: Vec<Delivery>)
        requires
            old(self).wf(),
        ensures
            final(self).wf(),
            final(self)@ == after_disconnect(old(self)@, id@),
            deliveries_view(out@) == disconnect_out(old(self)@, id@),
    {
        self.clients.remove(id);
        self.send_number_of_clients(id, false)
    }

    /// What the server does with a frame from client `from`: a segment is
    /// received and the connection stays open; a close frame, a frame that is
    /// not text, a failure or the end of the stream disconnects the client.
    /// Text that is not a segment's JSON is left out: there the server panics
    /// before it reaches this decision.
    pub fn handle(&mut self, from: &String, frame: Frame) -> (reaction: Reaction)
        requires
            old(self).wf(),
            !(frame matches Frame::Text(None)),
        ensures
            final(self).wf(),
            match frame {
                Frame::Text(Some(line)) => {
                    &&& final(self)@ == after_receive(old(self)@, line)
                    &&& deliveries_view(reaction.deliveries@) == receive_out(old(self)@, from@, line)
                    &&& reaction.keep_open
                },
                _ => {
                    &&& final(self)@ == after_disconnect(old(self)@, from@)
                    &&& deliveries_view(reaction.deliveries@) == disconnect_out(old(self)@, from@)
                    &&& !reaction.keep_open
                },
            },
    {
        match frame {
            Frame::Text(Some(line)) => Reaction { deliveries: self.receive(from, line), keep_open: true },
            _ => Reaction { deliveries: self.disconnect(from), keep_open: false },
        }
    }
}


/// The state after the segments `ls` are drawn, one after the other.
pub open spec fn receive_all(b: BoardView, ls: Seq<Line>) -> BoardView
    decreases ls.len(),
{
    if ls.len() == 0 {
        b
    } else {
        after_receive(receive_all(b, ls.drop_last()), ls.last())
    }
}

proof fn lemma_to_each_contains(tos: Seq<Seq<char>>, note: MsgView, to: Seq<char>, other: MsgView)
    ensures
        to_each(tos, note).contains((to, other)) <==> (tos.contains(to) && other == note),
{
    let out = to_each(tos, note);
    if out.contains((to, other)) {
        let k = choose|k: int| 0 <= k < out.len() && out[k] == (to, other);
        assert(tos[k] == to);
    }
    if tos.contains(to) && other == note {
        let k = choose|k: int| 0 <= k < tos.len() && tos[k] == to;
        assert(out[k] == (to, other));
    }
}

proof fn lemma_to_each_no_duplicates(tos: Seq<Seq<char>>, note: MsgView)
    requires
        tos.no_duplicates(),
    ensures
        to_each(tos, note).no_duplicates(),
{
    let out = to_each(tos, note);
    assert forall|a: int, b: int| 0 <= a < out.len() && 0 <= b < out.len() && a != b implies out[a]
        != out[b] by {
        assert(out[a].0 == tos[a] && out[b].0 == tos[b]);
    }
}

/// A segment that a client draws reaches every other connected client and
/// no one else; and no client is sent the same message twice.
pub proof fn lemma_segment_reaches_every_other_client(
    b: BoardView,
    from: Seq<char>,
    line: Line,
    id: Seq<char>,
)
    requires
        b.clients.no_duplicates(),
    ensures
        receive_out(b, from, line).contains((id, line_note(line))) <==> (b.clients.contains(id)
            && id != from),
        receive_out(b, from, line).no_duplicates(),
{
    let first = to_each(addressees(b.clients, from, false), line_note(line));
    let count = count_note(messages_kind(), stored_after(b.lines, line, b.capacity).len());
    let second = to_each(addressees(b.clients, from, true), count);
    let out = receive_out(b, from, line);
    assert(out == first + second);
    lemma_addressees_members(b.clients, from, false, id);
    lemma_to_each_contains(addressees(b.clients, from, false), line_note(line), id, line_note(line));
    lemma_to_each_contains(addressees(b.clients, from, true), count, id, line_note(line));
    assert(line_note(line) != count);
    if out.contains((id, line_note(line))) {
        let k = choose|k: int| 0 <= k < out.len() && out[k] == (id, line_note(line));
        if k < first.len() {
            assert(first[k] == out[k]);
        } else {
            assert(second[k - first.len()] == out[k]);
        }
    }
    if first.contains((id, line_note(line))) {
        let k = choose|k: int| 0 <= k < first.len() && first[k] == (id, line_note(line));
        assert(out[k] == first[k]);
    }
    lemma_addressees_no_duplicates(b.clients, from, false);
    lemma_addressees_no_duplicates(b.clients, from, true);
    lemma_to_each_no_duplicates(addressees(b.clients, from, false), line_note(line));
    lemma_to_each_no_duplicates(addressees(b.clients, from, true), count);
    assert forall|x: int, y: int| 0 <= x < out.len() && 0 <= y < out.len() && x != y implies out[x]
        != out[y] by {
        if x < first.len() && y < first.len() {
            assert(out[x] == first[x] && out[y] == first[y]);
        } else if x >= first.len() && y >= first.len() {
            assert(out[x] == second[x - first.len()] && out[y] == second[y - first.len()]);
        } else if x < first.len() {
            assert(out[x] == first[x] && out[y] == second[y - first.len()]);
            assert(out[x].1 == line_note(line) && out[y].1 == count);
        } else {
            assert(out[y] == first[y] && out[x] == second[x - first.len()]);
            assert(out[y].1 == line_note(line) && out[x].1 == count);
        }
    }
}

/// After a segment is drawn, every connected client, its sender included,
/// is told the number of segments that the server now stores.
pub proof fn lemma_everyone_learns_stored_count(b: BoardView, from: Seq<char>, line: Line, id: Seq<char>)
    requires
        b.clients.contains(id),
    ensures
        receive_out(b, from, line).contains(
            (id, count_note(messages_kind(), after_receive(b, line).lines.len())),
        ),
{
    let first = to_each(addressees(b.clients, from, false), line_note(line));
    let count = count_note(messages_kind(), stored_after(b.lines, line, b.capacity).len());
    let second = to_each(addressees(b.clients, from, true), count);
    lemma_addressees_all(b.clients, from);
    lemma_to_each_contains(b.clients, count, id, count);
    let k = choose|k: int| 0 <= k < second.len() && second[k] == (id, count);
    assert(receive_out(b, from, line)[first.len() + k] == second[k]);
}

/// The canvas never holds more segments than its capacity; drawing on a full
/// canvas clears it, and drawing on any other canvas adds the segment last.
pub proof fn lemma_capacity_bounds_canvas(lines: Seq<Line>, line: Line, capacity: nat)
    requires
        lines.len() <= capacity,
    ensures
        stored_after(lines, line, capacity).len() <= capacity,
        lines.len() == capacity ==> stored_after(lines, line, capacity) == Seq::<Line>::empty(),
        lines.len() < capacity ==> stored_after(lines, line, capacity) == lines.push(line),
{
}

/// Segments drawn while the canvas has room for them are kept in the order
/// drawn, after those already there; a client that connects afterwards is
/// sent all of them, in that order.
pub proof fn lemma_later_client_sees_all_segments(b: BoardView, ls: Seq<Line>, id: Seq<char>)
    requires
        b.lines.len() + ls.len() <= b.capacity,
    ensures
        receive_all(b, ls).lines == b.lines + ls,
        receive_all(b, ls).clients == b.clients,
        receive_all(b, ls).capacity == b.capacity,
        welcome(receive_all(b, ls).lines, id) == welcome(b.lines + ls, id),
    decreases ls.len(),
{
    if ls.len() > 0 {
        lemma_later_client_sees_all_segments(b, ls.drop_last(), id);
        let before = receive_all(b, ls.drop_last());
        assert(before.lines.len() + 1 <= before.capacity);
        assert(stored_after(before.lines, ls.last(), before.capacity) == before.lines.push(ls.last()));
        assert((b.lines + ls.drop_last()).push(ls.last()) =~= b.lines + ls);
    } else {
        assert(b.lines + ls =~= b.lines);
    }
}

/// A client that joins and then leaves leaves the registry as it found it.
pub proof fn lemma_leave_undoes_join(b: BoardView, id: Seq<char>)
    requires
        !b.clients.contains(id),
    ensures
        after_disconnect(after_connect(b, id), id) == b,
{
    let grown = b.clients.push(id);
    assert(grown.drop_last() =~= b.clients);
    lemma_addressees_absent(b.clients, id, false);
    assert(without(grown, id) == b.clients);
}

/// When a new client joins, every client, the new one included, is told the
/// number of connected clients, which has grown by one.
pub proof fn lemma_join_announces_count(b: BoardView, id: Seq<char>, other: Seq<char>)
    requires
        !b.clients.contains(id),
        b.clients.contains(other) || other == id,
    ensures
        after_connect(b, id).clients.len() == b.clients.len() + 1,
        connect_out(b, id).contains(
            (other, count_note(clients_kind(), after_connect(b, id).clients.len())),
        ),
{
    let clients = joined(b.clients, id);
    let note = count_note(clients_kind(), clients.len());
    let w = welcome(b.lines, id);
    lemma_addressees_all(clients, id);
    assert(clients.contains(other)) by {
        if other == id {
            assert(clients[b.clients.len() as int] == id);
        } else {
            let k = choose|k: int| 0 <= k < b.clients.len() && b.clients[k] == other;
            assert(clients[k] == other);
        }
    }
    lemma_to_each_contains(clients, note, other, note);
    let k = choose|k: int| 0 <= k < clients.len() && to_each(clients, note)[k] == (other, note);
    assert(connect_out(b, id)[w.len() + k] == (other, note));
}

/// When a connected client leaves, exactly the clients still connected are
/// told the number of connected clients, which has shrunk by one.
pub proof fn lemma_leave_announces_count(b: BoardView, id: Seq<char>)
    requires
        b.clients.no_duplicates(),
        b.clients.contains(id),
    ensures
        after_disconnect(b, id).clients.len() == b.clients.len() - 1,
        !after_disconnect(b, id).clients.contains(id),
        disconnect_out(b, id) == to_each(
            after_disconnect(b, id).clients,
            count_note(clients_kind(), (b.clients.len() - 1) as nat),
        ),
{
    lemma_addressees_len(b.clients, id);
    lemma_addressees_members(b.clients, id, false, id);
    lemma_addressees_absent(without(b.clients, id), id, false);
}


/// The state after one frame from client `from`: a segment is received;
/// any other frame disconnects the client.
pub open spec fn after_frame(b: BoardView, from: Seq<char>, f: Frame) -> BoardView {
    match f {
        Frame::Text(Some(line)) => after_receive(b, line),
        _ => after_disconnect(b, from),
    }
}

/// The state after the frames `fs` from client `from`, one after the other.
pub open spec fn after_frames(b: BoardView, from: Seq<char>, fs: Seq<Frame>) -> BoardView
    decreases fs.len(),
{
    if fs.len() == 0 {
        b
    } else {
        after_frame(after_frames(b, from, fs.drop_last()), from, fs.last())
    }
}

/// On a canvas of the default capacity, a received segment is stored, or
/// the canvas is cleared where that would make more than [`MAX_MESSAGES`];
/// the canvas never holds more than [`MAX_MESSAGES`] segments.
pub proof fn lemma_default_canvas_holds_at_most_max(b: BoardView, line: Line)
    requires
        b.capacity == MAX_MESSAGES,
        b.lines.len() <= MAX_MESSAGES,
    ensures
        after_receive(b, line).lines == (if b.lines.len() + 1 > MAX_MESSAGES {
            Seq::<Line>::empty()
        } else {
            b.lines.push(line)
        }),
        after_receive(b, line).lines.len() <= MAX_MESSAGES,
{
}

/// A frame from client `from` changes the registry for `from` alone: every
/// other client is registered after it exactly when it was before.
pub proof fn lemma_frame_touches_only_sender(b: BoardView, from: Seq<char>, f: Frame, id: Seq<char>)
    requires
        id != from,
    ensures
        after_frame(b, from, f).clients.contains(id) <==> b.clients.contains(id),
{
    lemma_addressees_members(b.clients, from, false, id);
}

/// A client's session leaves the registry as it found it: from joining
/// with a fresh id, through any number of segments, the client is
/// registered once, after the others; the frame that ends the session
/// unregisters it and restores the registry.
pub proof fn lemma_session_restores_registry(b: BoardView, u: Seq<char>, fs: Seq<Frame>, last: Frame)
    requires
        b.clients.no_duplicates(),
        !b.clients.contains(u),
        forall|i: int| 0 <= i < fs.len() ==> (#[trigger] fs[i] matches Frame::Text(Some(_))),
        !(last matches Frame::Text(Some(_))),
    ensures
        after_frames(after_connect(b, u), u, fs).clients == b.clients.push(u),
        after_frame(after_frames(after_connect(b, u), u, fs), u, last).clients == b.clients,
    decreases fs.len(),
{
    if fs.len() > 0 {
        assert forall|i: int| 0 <= i < fs.drop_last().len() implies (
        #[trigger] fs.drop_last()[i] matches Frame::Text(Some(_))) by {
            assert(fs.drop_last()[i] == fs[i]);
        }
        lemma_session_restores_registry(b, u, fs.drop_last(), last);
        assert(fs[fs.len() - 1] matches Frame::Text(Some(_)));
    }
    lemma_leave_undoes_join(b, u);
}

/// A connecting client is first sent the number of stored segments, then
/// every stored segment, oldest first, each in a message of its own; after
/// that come the client counts, one per connected client.
pub proof fn lemma_connect_replays_every_segment(b: BoardView, id: Seq<char>)
    ensures
        connect_out(b, id).len() == b.lines.len() + 1 + joined(b.clients, id).len(),
        connect_out(b, id)[0] == (
            id,
            MsgView { line: None, messages: Some(b.lines.len()), msg_type: "messages"@ },
        ),
        forall|i: int|
            0 <= i < b.lines.len() ==> #[trigger] connect_out(b, id)[i + 1] == (
                id,
                MsgView { line: Some(b.lines[i]), messages: None, msg_type: "line"@ },
            ),
{
    let clients = joined(b.clients, id);
    lemma_addressees_all(clients, id);
    let w = welcome(b.lines, id);
    assert(w.len() == b.lines.len() + 1);
    assert forall|i: int| 0 <= i < b.lines.len() implies #[trigger] connect_out(b, id)[i + 1] == (
        id,
        MsgView { line: Some(b.lines[i]), messages: None, msg_type: "line"@ },
    ) by {
        assert(connect_out(b, id)[i + 1] == w[i + 1]);
    }
    assert(connect_out(b, id)[0] == w[0]);
}

/// A client that joins under an id that no connected client has is
/// registered once more, last: the registry grows by exactly that id.
pub proof fn lemma_fresh_join_grows_registry(b: BoardView, id: Seq<char>)
    requires
        !b.clients.contains(id),
    ensures
        after_connect(b, id).clients == b.clients.push(id),
        after_connect(b, id).clients.len() == b.clients.len() + 1,
        after_connect(b, id).clients.contains(id),
        after_connect(b, id).lines == b.lines,
{
    assert(b.clients.push(id)[b.clients.len() as int] == id);
}

} // verus!
