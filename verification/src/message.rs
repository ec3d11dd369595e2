//! The messages that the drawing server stores and sends to its clients.
use vstd::prelude::*;

verus! {

/// One segment of a drawing: from (`last_x`, `last_y`) to (`new_x`, `new_y`).
///
/// Each coordinate holds the bit pattern of an IEEE-754 single-precision
/// number (what `f32::to_bits` gives). The server never computes with a
/// coordinate: it keeps segments and hands them on unchanged, so the bit
/// pattern is all that it needs to know of one.
#[derive(Debug, Clone, Copy, PartialEq, Eq, Structural)]
pub struct Line {
    pub last_x: u32,
    pub last_y: u32,
    pub new_x: u32,
    pub new_y: u32,
}

/// The mathematical content of a [`DrawingMsg`].
pub struct MsgView {
    pub line: Option<Line>,
    pub messages: Option<nat>,
    pub msg_type: Seq<char>,
}

/// A message from the server to a client: a segment to draw (`msg_type`
/// "line"), the number of stored segments ("messages"), or the number of
/// connected clients ("n_clients").
#[derive(Debug, PartialEq)]
pub struct DrawingMsg {
    pub line: Option<Line>,
    pub messages: Option<usize>,
    pub msg_type: String,
}

pub open spec fn count_view(messages: Option<usize>) -> Option<nat> {
    match messages {
        Some(n) => Some(n as nat),
        None => None,
    }
}

impl View for DrawingMsg {
    type V = MsgView;

    open spec fn view(&self) -> MsgView {
        MsgView { line: self.line, messages: count_view(self.messages), msg_type: self.msg_type@ }
    }
}

/// The `msg_type` of a message that carries a segment.
pub open spec fn line_kind() -> Seq<char> {
    "line"@
}

/// The `msg_type` of a message that carries the number of stored segments.
pub open spec fn messages_kind() -> Seq<char> {
    "messages"@
}

/// The `msg_type` of a message that carries the number of connected clients.
pub open spec fn clients_kind() -> Seq<char> {
    "n_clients"@
}

/// The message that hands segment `l` to a client.
pub open spec fn line_note(l: Line) -> MsgView {
    MsgView { line: Some(l), messages: None, msg_type: line_kind() }
}

/// The message that tells a client the number `n`, of the kind `kind`.
pub open spec fn count_note(kind: Seq<char>, n: nat) -> MsgView {
    MsgView { line: None, messages: Some(n), msg_type: kind }
}

impl DrawingMsg {
    /// Builds a message from its three fields.
    pub fn new(line: Option<Line>, messages: Option<usize>, msg_type: String) -> (msg: DrawingMsg)
        ensures
            msg.line == line,
            msg.messages == messages,
            msg.msg_type == msg_type,
    {
        DrawingMsg { line: line, messages: messages, msg_type: msg_type }
    }

    /// The message that hands segment `line` to a client.
    pub fn of_line(line: Line) -> (msg: DrawingMsg)
        ensures
            msg@ == line_note(line),
    {
        DrawingMsg::new(Some(line), None, "line".to_owned())
    }

    /// The message that tells a client how many segments the server stores.
    pub fn of_messages(count: usize) -> (msg: DrawingMsg)
        ensures
            msg@ == count_note(messages_kind(), count as nat),
    {
        DrawingMsg::new(None, Some(count), "messages".to_owned())
    }

    /// The message that tells a client how many clients are connected.
    pub fn of_clients(count: usize) -> (msg: DrawingMsg)
        ensures
            msg@ == count_note(clients_kind(), count as nat),
    {
        DrawingMsg::new(None, Some(count), "n_clients".to_owned())
    }

    /// The segment that a client draws on receiving this message: the one it
    /// carries where its `msg_type` is "line", and none for any other kind.
    pub fn line_to_draw(&self) -> (drawn: Option<Line>)
        ensures
            drawn == (if self.msg_type@ == line_kind() {
                self.line
            } else {
                None
            }),
    {
        if self.msg_type == "line".to_owned() {
            self.line
        } else {
            None
        }
    }

    /// A second message with the same content.
    pub fn duplicate(&self) -> (copy: DrawingMsg)
        ensures
            copy@ == self@,
    {
        DrawingMsg::new(self.line, self.messages, self.msg_type.clone())
    }
}

/// One message addressed to one client, named by its id.
#[derive(Debug, PartialEq)]
pub struct Delivery {
    pub to: String,
    pub msg: DrawingMsg,
}

impl View for Delivery {
    type V = (Seq<char>, MsgView);

    open spec fn view(&self) -> (Seq<char>, MsgView) {
        (self.to@, self.msg@)
    }
}

/// The content of a list of deliveries, in order.
pub open spec fn deliveries_view(ds: Seq<Delivery>) -> Seq<(Seq<char>, MsgView)> {
    ds.map_values(|d: Delivery| d@)
}

/// The same message `note`, once to each id of `tos`, in that order.
pub open spec fn to_each(tos: Seq<Seq<char>>, note: MsgView) -> Seq<(Seq<char>, MsgView)> {
    tos.map_values(|to: Seq<char>| (to, note))
}

} // verus!
