//! The drawing client's pen: what a mouse event draws on the local canvas
//! and which segment it sends to the server.
use vstd::prelude::*;

verus! {

/// A mouse event on the canvas, at an offset in pixels from its corner.
#[derive(Debug, Clone, Copy, PartialEq, Eq, Structural)]
pub enum MouseEvent {
    Down(i32, i32),
    Move(i32, i32),
    Up(i32, i32),
}

/// One call on the canvas's 2D context.
#[derive(Debug, Clone, Copy, PartialEq, Eq, Structural)]
pub enum CanvasOp {
    BeginPath,
    MoveTo(i32, i32),
    LineTo(i32, i32),
    Stroke,
}

/// A segment that the client sends to the server: from (`last_x`,
/// `last_y`) to (`new_x`, `new_y`).
#[derive(Debug, Clone, Copy, PartialEq, Eq, Structural)]
pub struct Segment {
    pub last_x: i32,
    pub last_y: i32,
    pub new_x: i32,
    pub new_y: i32,
}

/// Whether the button is held, and the last point drawn to.
#[derive(Debug, Clone, Copy, PartialEq, Eq, Structural)]
pub struct Pen {
    pub pressed: bool,
    pub last_x: i32,
    pub last_y: i32,
}

/// What an event does: the calls on the canvas, in order, and the segment
/// to send, if any.
pub struct PenAction {
    pub ops: Vec<CanvasOp>,
    pub send: Option<Segment>,
}

/// The pen after `e`, the canvas calls that it makes, and the segment that
/// it sends.
pub open spec fn step(p: Pen, e: MouseEvent) -> (Pen, Seq<CanvasOp>, Option<Segment>) {
    match e {
        MouseEvent::Down(x, y) => (
            Pen { pressed: true, last_x: x, last_y: y },
            seq![CanvasOp::BeginPath, CanvasOp::MoveTo(x, y)],
            None,
        ),
        MouseEvent::Move(x, y) => if p.pressed {
            (
                Pen { pressed: true, last_x: x, last_y: y },
                seq![CanvasOp::LineTo(x, y), CanvasOp::Stroke, CanvasOp::BeginPath, CanvasOp::MoveTo(x, y)],
                Some(Segment { last_x: p.last_x, last_y: p.last_y, new_x: x, new_y: y }),
            )
        } else {
            (p, Seq::empty(), None)
        },
        MouseEvent::Up(x, y) => (
            Pen { pressed: false, last_x: p.last_x, last_y: p.last_y },
            seq![CanvasOp::LineTo(x, y), CanvasOp::Stroke],
            None,
        ),
    }
}

/// The pen after the events `es`, one after the other, and the segments
/// that they send, in order.
pub open spec fn run(p: Pen, es: Seq<MouseEvent>) -> (Pen, Seq<Segment>)
    decreases es.len(),
{
    if es.len() == 0 {
        (p, Seq::empty())
    } else {
        let (q, sent) = run(p, es.drop_last());
        let (r, _, send) = step(q, es.last());
        match send {
            Some(s) => (r, sent.push(s)),
            None => (r, sent),
        }
    }
}

impl Pen {
    /// A pen that is up, at the corner of the canvas.
    pub fn new() -> (p: Pen)
        ensures
            p == (Pen { pressed: false, last_x: 0, last_y: 0 }),
    {
        Pen { pressed: false, last_x: 0, last_y: 0 }
    }

    /// Handles a mouse event: pressing starts a path at the point, moving
    /// while pressed draws to the point and sends the segment from the last
    /// point to it, releasing draws to the point and lifts the pen.
    pub fn handle(&mut self, e: MouseEvent) -> (action: PenAction)
        ensures
            *final(self) == step(*old(self), e).0,
            action.ops@ == step(*old(self), e).1,
            action.send == step(*old(self), e).2,
    {
        let mut ops: Vec<CanvasOp> = Vec::new();
        match e {
            MouseEvent::Down(x, y) => {
                ops.push(CanvasOp::BeginPath);
                ops.push(CanvasOp::MoveTo(x, y));
                self.pressed = true;
                self.last_x = x;
                self.last_y = y;
                assert(ops@ =~= step(*old(self), e).1);
                PenAction { ops, send: None }
            },
            MouseEvent::Move(x, y) => {
                if self.pressed {
                    ops.push(CanvasOp::LineTo(x, y));
                    ops.push(CanvasOp::Stroke);
                    ops.push(CanvasOp::BeginPath);
                    ops.push(CanvasOp::MoveTo(x, y));
                    let s = Segment { last_x: self.last_x, last_y: self.last_y, new_x: x, new_y: y };
                    self.last_x = x;
                    self.last_y = y;
                    assert(ops@ =~= step(*old(self), e).1);
                    PenAction { ops, send: Some(s) }
                } else {
                    assert(ops@ =~= step(*old(self), e).1);
                    PenAction { ops, send: None }
                }
            },
            MouseEvent::Up(x, y) => {
                self.pressed = false;
                ops.push(CanvasOp::LineTo(x, y));
                ops.push(CanvasOp::Stroke);
                assert(ops@ =~= step(*old(self), e).1);
                PenAction { ops, send: None }
            },
        }
    }
}

/// Moving the mouse while the button is up neither draws nor sends anything.
pub proof fn lemma_idle_pen_is_silent(p: Pen, x: i32, y: i32)
    requires
        !p.pressed,
    ensures
        step(p, MouseEvent::Move(x, y)) == (p, Seq::<CanvasOp>::empty(), Option::<Segment>::None),
{
}

/// Releasing the button lifts the pen wherever it is.
pub proof fn lemma_release_lifts_pen(p: Pen, x: i32, y: i32)
    ensures
        !step(p, MouseEvent::Up(x, y)).0.pressed,
        step(p, MouseEvent::Up(x, y)).2 is None,
{
}

/// The first segment after pressing goes from the point pressed to the
/// point moved to.
pub proof fn lemma_press_then_move(p: Pen, x0: i32, y0: i32, x: i32, y: i32)
    ensures
        run(p, seq![MouseEvent::Down(x0, y0), MouseEvent::Move(x, y)]).1 == seq![
            Segment { last_x: x0, last_y: y0, new_x: x, new_y: y },
        ],
{
    let es = seq![MouseEvent::Down(x0, y0), MouseEvent::Move(x, y)];
    reveal_with_fuel(run, 3);
    assert(es.drop_last() =~= seq![MouseEvent::Down(x0, y0)]);
    assert(es.drop_last().drop_last() =~= Seq::<MouseEvent>::empty());
    assert(Seq::<Segment>::empty().push(Segment { last_x: x0, last_y: y0, new_x: x, new_y: y })
        =~= seq![Segment { last_x: x0, last_y: y0, new_x: x, new_y: y }]);
}

/// Without a new press, the segments sent form one connected path: the
/// first starts at the pen's last point, each next one starts where the
/// one before ends, and the pen rests where the last one ends.
pub proof fn lemma_segments_connect(p: Pen, es: Seq<MouseEvent>)
    requires
        forall|i: int| 0 <= i < es.len() ==> !(es[i] is Down),
    ensures
        ({
            let (q, sent) = run(p, es);
            &&& sent.len() > 0 ==> sent[0].last_x == p.last_x && sent[0].last_y == p.last_y
            &&& forall|k: int|
                0 <= k < sent.len() - 1 ==> #[trigger] sent[k + 1].last_x == sent[k].new_x
                    && sent[k + 1].last_y == sent[k].new_y
            &&& sent.len() > 0 ==> q.last_x == sent.last().new_x && q.last_y == sent.last().new_y
            &&& sent.len() == 0 ==> q.last_x == p.last_x && q.last_y == p.last_y
        }),
    decreases es.len(),
{
    if es.len() > 0 {
        let init = es.drop_last();
        assert forall|i: int| 0 <= i < init.len() implies !(init[i] is Down) by {
            assert(init[i] == es[i]);
        }
        lemma_segments_connect(p, init);
        let (q, sent) = run(p, init);
        assert(!(es[es.len() - 1] is Down));
        let (r, _, send) = step(q, es.last());
        match send {
            Some(s) => {
                let grown = sent.push(s);
                assert forall|k: int| 0 <= k < grown.len() - 1 implies #[trigger] grown[k + 1].last_x
                    == grown[k].new_x && grown[k + 1].last_y == grown[k].new_y by {
                    if k + 1 < sent.len() {
                        assert(grown[k + 1] == sent[k + 1] && grown[k] == sent[k]);
                    } else {
                        assert(grown[k] == sent.last());
                    }
                }
            },
            None => {},
        }
    }
}


/// Whether the button is held after the events `es`: held where the latest
/// press or release among them is a press, released where it is a release,
/// and as the pen was where there is neither.
pub open spec fn pressed_after(p: Pen, es: Seq<MouseEvent>) -> bool
    decreases es.len(),
{
    if es.len() == 0 {
        p.pressed
    } else {
        match es.last() {
            MouseEvent::Down(_, _) => true,
            MouseEvent::Up(_, _) => false,
            MouseEvent::Move(_, _) => pressed_after(p, es.drop_last()),
        }
    }
}

/// Where the next segment starts after the events `es`: the point of the
/// latest press or of the latest move made while pressed, or the pen's last
/// point where there is none.
pub open spec fn anchor_after(p: Pen, es: Seq<MouseEvent>) -> (i32, i32)
    decreases es.len(),
{
    if es.len() == 0 {
        (p.last_x, p.last_y)
    } else {
        match es.last() {
            MouseEvent::Down(x, y) => (x, y),
            MouseEvent::Move(x, y) => if pressed_after(p, es.drop_last()) {
                (x, y)
            } else {
                anchor_after(p, es.drop_last())
            },
            MouseEvent::Up(_, _) => anchor_after(p, es.drop_last()),
        }
    }
}

/// The segment that event `i` of `es` sends: a move made while pressed
/// sends the segment from the anchor before it to its point; every other
/// event sends nothing.
pub open spec fn sent_at(p: Pen, es: Seq<MouseEvent>, i: int) -> Option<Segment> {
    match es[i] {
        MouseEvent::Move(x, y) => if pressed_after(p, es.take(i)) {
            Some(
                Segment {
                    last_x: anchor_after(p, es.take(i)).0,
                    last_y: anchor_after(p, es.take(i)).1,
                    new_x: x,
                    new_y: y,
                },
            )
        } else {
            None
        },
        _ => None,
    }
}

/// The segments that the first `n` events of `es` send, in order.
pub open spec fn sent_upto(p: Pen, es: Seq<MouseEvent>, n: nat) -> Seq<Segment>
    decreases n,
{
    if n == 0 {
        Seq::empty()
    } else {
        match sent_at(p, es, n - 1) {
            Some(s) => sent_upto(p, es, (n - 1) as nat).push(s),
            None => sent_upto(p, es, (n - 1) as nat),
        }
    }
}

proof fn lemma_sent_upto_prefix(p: Pen, es: Seq<MouseEvent>, fs: Seq<MouseEvent>, n: nat)
    requires
        n <= es.len(),
        n <= fs.len(),
        es.take(n as int) == fs.take(n as int),
    ensures
        sent_upto(p, es, n) == sent_upto(p, fs, n),
    decreases n,
{
    if n > 0 {
        let m = (n - 1) as int;
        assert(es.take(m) =~= es.take(n as int).take(m));
        assert(fs.take(m) =~= fs.take(n as int).take(m));
        assert(es[m] == es.take(n as int)[m]);
        assert(fs[m] == fs.take(n as int)[m]);
        lemma_sent_upto_prefix(p, es, fs, (n - 1) as nat);
    }
}

/// What a pen does over any list of events: after them the button is held
/// exactly when the latest press or release is a press, the pen rests at
/// the anchor, and the segments sent are, in order, one for each move made
/// while pressed, from the anchor before that move to its point; presses,
/// releases and moves while released send nothing.
pub proof fn lemma_pen_run(p: Pen, es: Seq<MouseEvent>)
    ensures
        run(p, es).0 == (Pen {
            pressed: pressed_after(p, es),
            last_x: anchor_after(p, es).0,
            last_y: anchor_after(p, es).1,
        }),
        run(p, es).1 == sent_upto(p, es, es.len()),
    decreases es.len(),
{
    if es.len() > 0 {
        let init = es.drop_last();
        let n = es.len() - 1;
        lemma_pen_run(p, init);
        assert(es.take(n) =~= init);
        assert(init.take(n) =~= init);
        lemma_sent_upto_prefix(p, es, init, n as nat);
    }
}

/// A press, wherever the pen was, holds the button, rests the pen at the
/// pressed point, starts a new local path there and sends nothing.
pub proof fn lemma_press_starts_path_at_point(p: Pen, x: i32, y: i32)
    ensures
        step(p, MouseEvent::Down(x, y)).0 == (Pen { pressed: true, last_x: x, last_y: y }),
        step(p, MouseEvent::Down(x, y)).1 == seq![CanvasOp::BeginPath, CanvasOp::MoveTo(x, y)],
        step(p, MouseEvent::Down(x, y)).2 == Option::<Segment>::None,
{
}

/// A move while pressed, in any direction, draws the stroke to the point on
/// the local canvas (line to it, stroke, then a new path from it), sends the
/// segment from the pen's last point to it, and rests the pen there.
pub proof fn lemma_pressed_move_draws_and_sends(p: Pen, x: i32, y: i32)
    requires
        p.pressed,
    ensures
        step(p, MouseEvent::Move(x, y)).0 == (Pen { pressed: true, last_x: x, last_y: y }),
        step(p, MouseEvent::Move(x, y)).1 == seq![
            CanvasOp::LineTo(x, y),
            CanvasOp::Stroke,
            CanvasOp::BeginPath,
            CanvasOp::MoveTo(x, y),
        ],
        step(p, MouseEvent::Move(x, y)).2 == Some(
            Segment { last_x: p.last_x, last_y: p.last_y, new_x: x, new_y: y },
        ),
{
}

/// A release, wherever the pen was, draws the stroke to the released point,
/// lifts the pen, keeps its last point and sends nothing.
pub proof fn lemma_release_finishes_stroke(p: Pen, x: i32, y: i32)
    ensures
        step(p, MouseEvent::Up(x, y)).0 == (Pen { pressed: false, last_x: p.last_x, last_y: p.last_y }),
        step(p, MouseEvent::Up(x, y)).1 == seq![CanvasOp::LineTo(x, y), CanvasOp::Stroke],
        step(p, MouseEvent::Up(x, y)).2 == Option::<Segment>::None,
{
}

} // verus!
