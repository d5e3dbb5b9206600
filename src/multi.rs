//! Several bars on consecutive lines: the messages bars send, the conduit
//! they send them through, and the coordinator's state that turns them
//! into frames.
use crate::pb::{ProgressBar, ProgressSink, DEFAULT_WIDTH};
use crate::tty::{cursor_up_text, move_cursor_up};
use crossbeam_channel::Sender;
use vstd::prelude::*;
use vstd::string::StringExecFns;

verus! {

#[verifier::external_type_specification]
#[verifier::external_body]
#[verifier::reject_recursive_types(T)]
pub struct ExSender<T>(Sender<T>);

/// What a bar tells the coordinator.
pub enum WriteMsg {
    /// The bar at line `level` now reads `text`.
    Update { level: usize, text: String },
    /// The bar at line `level` is finished.
    Finish { level: usize },
}

/// Relies on crossbeam_channel's `Sender::send`: queues `msg` on the
/// channel, or fails when no receiver is left, the message then being
/// dropped. Returns whether it was queued.
#[verifier::external_body]
fn send_msg(chan: &Sender<WriteMsg>, msg: WriteMsg) -> bool {
    chan.send(msg).is_ok()
}

/// The conduit of one bar of several: each text the bar draws becomes a
/// message for its line. The terminal width it reports is the one known
/// when the bar was created.
pub struct Pipe {
    level: usize,
    chan: Sender<WriteMsg>,
    columns: Option<usize>,
    /// Every text taken in, in order.
    log: Ghost<Seq<Seq<char>>>,
    /// Every message sent, in order.
    sent: Ghost<Seq<WriteMsg>>,
}

/// `m` is the message that the conduit of line `level` sends for `text`:
/// a finish for the empty text, else an update to `text`.
pub open spec fn message_of(level: nat, text: Seq<char>, m: WriteMsg) -> bool {
    if text.len() == 0 {
        m == (WriteMsg::Finish { level: level as usize })
    } else {
        m matches WriteMsg::Update { level: l, text: t } && l == level && t@ == text
    }
}

impl Pipe {
    /// The line this conduit reports for.
    pub closed spec fn level_spec(&self) -> nat {
        self.level as nat
    }

    /// The terminal width this conduit reports, if known.
    pub closed spec fn columns_spec(&self) -> Option<usize> {
        self.columns
    }

    /// Every message this conduit has sent, in order.
    pub closed spec fn sent_spec(&self) -> Seq<WriteMsg> {
        self.sent@
    }

    /// A conduit for the bar on line `level`, sending on `chan`, for a
    /// terminal of `columns` columns where known.
    pub fn new(level: usize, chan: Sender<WriteMsg>, columns: Option<usize>) -> (r: Pipe)
        ensures
            r.level_spec() == level,
            r.slot() == level,
            r.columns_spec() == columns,
            r.known_columns() == columns,
            r.taken() == Seq::<Seq<char>>::empty(),
            r.sent_spec() == Seq::<WriteMsg>::empty(),
            r.consistent(),
    {
        Pipe { level, chan, columns, log: Ghost(Seq::empty()), sent: Ghost(Seq::empty()) }
    }

    /// The message for the text `text` drawn on this conduit's line: the
    /// empty text, which a finished bar sends last, means that the bar is
    /// done.
    pub fn message_for(&self, text: &str) -> (r: WriteMsg)
        ensures
            message_of(self.level_spec(), text@, r),
    {
        if text.is_empty() {
            WriteMsg::Finish { level: self.level }
        } else {
            WriteMsg::Update { level: self.level, text: text.to_owned() }
        }
    }
}

impl ProgressSink for Pipe {
    closed spec fn taken(&self) -> Seq<Seq<char>> {
        self.log@
    }

    closed spec fn slot(&self) -> nat {
        self.level as nat
    }

    /// One message was sent per text taken in: the one `message_for` makes.
    closed spec fn consistent(&self) -> bool {
        &&& self.sent@.len() == self.log@.len()
        &&& forall|i: int|
            0 <= i < self.log@.len() ==> message_of(
                self.level as nat,
                #[trigger] self.log@[i],
                self.sent@[i],
            )
    }

    closed spec fn known_columns(&self) -> Option<usize> {
        self.columns
    }

    /// Sends the message for `text`; once the coordinator is gone there is
    /// no display left to update, and the message is dropped.
    fn accept(&mut self, text: &str) {
        let msg = self.message_for(text);
        let ghost m = msg;
        let _queued = send_msg(&self.chan, msg);
        self.log = Ghost(self.log@.push(text@));
        self.sent = Ghost(self.sent@.push(m));
    }

    fn columns(&self) -> (r: Option<usize>) {
        self.columns
    }
}

impl Pipe {
    /// A consistent conduit has sent, for each text it took in, the message
    /// `message_for` makes of it.
    pub proof fn lemma_sent(&self)
        requires
            self.consistent(),
        ensures
            self.sent_spec().len() == self.taken().len(),
            forall|i: int|
                0 <= i < self.taken().len() ==> message_of(
                    self.slot(),
                    #[trigger] self.taken()[i],
                    self.sent_spec()[i],
                ),
    {
    }
}

/// The width a bar of several lays out its line at, given the terminal
/// width known when it was created.
pub open spec fn line_width(columns: Option<usize>) -> nat {
    match columns {
        Some(c) => c as nat,
        None => DEFAULT_WIDTH as nat,
    }
}

/// The lines of a frame, each after a carriage return and before a line
/// feed.
pub open spec fn lines_text(lines: Seq<Seq<char>>) -> Seq<char>
    decreases lines.len(),
{
    if lines.len() == 0 {
        Seq::empty()
    } else {
        lines_text(lines.drop_last()) + seq!['\r'] + lines.last() + seq!['\n']
    }
}

/// A whole frame: the cursor moved up over the previous frame's lines, if
/// there was one, then every line.
pub open spec fn frame_text(prev: Option<nat>, lines: Seq<Seq<char>>) -> Seq<char> {
    match prev {
        Some(n) => cursor_up_text(n) + lines_text(lines),
        None => lines_text(lines),
    }
}

/// Bars still active after `n` were and the messages `msgs` arrived in
/// turn: each finish retires one, while any are left.
pub open spec fn active_after(n: nat, msgs: Seq<WriteMsg>) -> nat
    decreases msgs.len(),
{
    if msgs.len() == 0 {
        n
    } else {
        let m = active_after(n, msgs.drop_last());
        match msgs.last() {
            WriteMsg::Finish { .. } => if m > 0 {
                (m - 1) as nat
            } else {
                0
            },
            WriteMsg::Update { .. } => m,
        }
    }
}

/// The number of finish messages in `msgs`.
pub open spec fn finishes(msgs: Seq<WriteMsg>) -> nat
    decreases msgs.len(),
{
    if msgs.len() == 0 {
        0
    } else {
        finishes(msgs.drop_last()) + if msgs.last() is Finish {
            1nat
        } else {
            0nat
        }
    }
}

/// The coordinator's state: the display lines in order of creation, the
/// number of bars not yet finished, and the size of the last frame.
pub struct MultiState {
    lines: Vec<String>,
    nbars: usize,
    drawn: Option<usize>,
}

impl MultiState {
    /// No more bars are active than there are lines.
    pub closed spec fn wf(&self) -> bool {
        self.nbars <= self.lines@.len()
    }

    /// The display lines, in order.
    pub closed spec fn lines_spec(&self) -> Seq<Seq<char>> {
        self.lines@.map_values(|l: String| l@)
    }

    /// Bars created and not yet finished.
    pub closed spec fn active(&self) -> nat {
        self.nbars as nat
    }

    /// Lines in the last frame, or `None` before the first.
    pub closed spec fn drawn_spec(&self) -> Option<nat> {
        match self.drawn {
            Some(n) => Some(n as nat),
            None => None,
        }
    }

    /// `new` is `old` after the message `msg`: an update replaces the text of
    /// its line, a finish retires one active bar, and a frame of every line
    /// is drawn.
    pub open spec fn applied(old: Self, new: Self, msg: WriteMsg) -> bool {
        &&& new.wf()
        &&& new.active() == active_after(old.active(), seq![msg])
        &&& new.lines_spec() == match msg {
            WriteMsg::Update { level, text } => if level < old.lines_spec().len() {
                old.lines_spec().update(level as int, text@)
            } else {
                old.lines_spec()
            },
            WriteMsg::Finish { .. } => old.lines_spec(),
        }
        &&& new.drawn_spec() == Some(new.lines_spec().len())
    }

    /// No lines, no bars, nothing drawn yet.
    pub fn new() -> (r: MultiState)
        ensures
            r.wf(),
            r.lines_spec().len() == 0,
            r.active() == 0,
            r.drawn_spec() is None,
    {
        MultiState { lines: Vec::new(), nbars: 0, drawn: None }
    }

    /// Adds the text line `s` below the others.
    pub fn println(&mut self, s: &str)
        requires
            old(self).wf(),
        ensures
            final(self).wf(),
            final(self).lines_spec() == old(self).lines_spec().push(s@),
            final(self).active() == old(self).active(),
            final(self).drawn_spec() == old(self).drawn_spec(),
    {
        self.lines.push(s.to_owned());
        proof {
            assert(self.lines_spec() =~= old(self).lines_spec().push(s@));
        }
    }

    /// Adds an empty line for a new bar and counts the bar as active;
    /// returns the line's index.
    pub fn add_bar(&mut self) -> (level: usize)
        requires
            old(self).wf(),
            old(self).lines_spec().len() < usize::MAX,
        ensures
            final(self).wf(),
            level == old(self).lines_spec().len(),
            final(self).lines_spec() == old(self).lines_spec().push(Seq::empty()),
            final(self).active() == old(self).active() + 1,
            final(self).drawn_spec() == old(self).drawn_spec(),
    {
        let level = self.lines.len();
        self.lines.push(String::new());
        self.nbars = self.nbars + 1;
        proof {
            assert(self.lines_spec() =~= old(self).lines_spec().push(Seq::empty()));
        }
        level
    }

    /// Creates the bar for a new line: it counts to `total`, sends on `chan`,
    /// and has drawn its first frame.
    pub fn create_bar(&mut self, chan: Sender<WriteMsg>, columns: Option<usize>, total: u64) -> (r:
        ProgressBar<Pipe>)
        requires
            old(self).wf(),
            old(self).lines_spec().len() < usize::MAX,
        ensures
            final(self).wf(),
            final(self).lines_spec() == old(self).lines_spec().push(Seq::empty()),
            final(self).active() == old(self).active() + 1,
            final(self).drawn_spec() == old(self).drawn_spec(),
            r.wf(),
            r.is_multibar_spec(),
            r.current_spec() == 0,
            r.total_spec() == total,
            !r.is_finish_spec(),
            r.handle_spec().slot() == old(self).lines_spec().len(),
            r.handle_spec().consistent(),
            r.emitted_spec().len() == 1,
            exists|now: nat|
                #[trigger] r.frame(line_width(columns), now) == r.emitted_spec()[0],
    {
        let level = self.add_bar();
        let mut p = ProgressBar::on(Pipe::new(level, chan, columns), total);
        p.set_multibar(true);
        let ghost before = p;
        p.add(0);
        proof {
            p.lemma_unthrottled(before);
            assert(before.layout_width() == line_width(columns));
        }
        p
    }

    /// Number of display lines.
    pub fn line_count(&self) -> (r: usize)
        ensures
            r == self.lines_spec().len(),
    {
        self.lines.len()
    }

    /// Whether every bar has finished.
    pub fn is_done(&self) -> (r: bool)
        ensures
            r == (self.active() == 0),
    {
        self.nbars == 0
    }

    /// Takes in the message `msg` and returns the frame to draw.
    pub fn apply(&mut self, msg: WriteMsg) -> (frame: String)
        requires
            old(self).wf(),
        ensures
            Self::applied(*old(self), *final(self), msg),
            frame@ == frame_text(old(self).drawn_spec(), final(self).lines_spec()),
    {
        proof {
            reveal_with_fuel(active_after, 2);
            assert(seq![msg].drop_last() =~= Seq::<WriteMsg>::empty());
        }
        let ghost m = msg;
        match msg {
            WriteMsg::Update { level, text } => {
                if level < self.lines.len() {
                    self.lines.set(level, text);
                }
            },
            WriteMsg::Finish { .. } => {
                if self.nbars > 0 {
                    self.nbars = self.nbars - 1;
                }
            },
        }
        proof {
            match m {
                WriteMsg::Update { level, text } => {
                    if level < old(self).lines@.len() {
                        assert(self.lines_spec() =~= old(self).lines_spec().update(
                            level as int,
                            text@,
                        ));
                    } else {
                        assert(self.lines_spec() =~= old(self).lines_spec());
                    }
                },
                WriteMsg::Finish { .. } => {
                    assert(self.lines_spec() =~= old(self).lines_spec());
                },
            }
        }
        let mut out = match self.drawn {
            Some(n) => move_cursor_up(n),
            None => String::new(),
        };
        let ghost head = out@;
        let n = self.lines.len();
        let mut i: usize = 0;
        while i < n
            invariant
                n == self.lines@.len(),
                i <= n,
                out@ == head + lines_text(self.lines_spec().subrange(0, i as int)),
            decreases n - i,
        {
            proof {
                reveal_strlit("\r");
                reveal_strlit("\n");
            }
            out.append("\r");
            out.append(self.lines[i].as_str());
            out.append("\n");
            proof {
                let s = self.lines_spec().subrange(0, i + 1);
                assert(s.drop_last() =~= self.lines_spec().subrange(0, i as int));
                assert(out@ =~= head + lines_text(s));
            }
            i = i + 1;
        }
        proof {
            assert(self.lines_spec().subrange(0, n as int) =~= self.lines_spec());
        }
        self.drawn = Some(n);
        out
    }
}

/// Of `n` active bars, messages leave active those not yet matched by a
/// finish.
pub proof fn lemma_active_after(n: nat, msgs: Seq<WriteMsg>)
    ensures
        active_after(n, msgs) == if finishes(msgs) >= n {
            0
        } else {
            (n - finishes(msgs)) as nat
        },
    decreases msgs.len(),
{
    if msgs.len() > 0 {
        lemma_active_after(n, msgs.drop_last());
    }
}

/// While the coordinator takes in messages one at a time, starting with `k`
/// active bars, no bar is left active exactly once `k` finishes have come:
/// listening ends with the `k`-th finish and not before.
pub proof fn lemma_listen_ends(states: Seq<MultiState>, msgs: Seq<WriteMsg>)
    requires
        states.len() == msgs.len() + 1,
        forall|i: int|
            0 <= i < msgs.len() ==> MultiState::applied(
                #[trigger] states[i],
                states[i + 1],
                msgs[i],
            ),
    ensures
        forall|i: int|
            0 <= i <= msgs.len() ==> (#[trigger] states[i].active() == 0 <==> finishes(
                msgs.subrange(0, i),
            ) >= states[0].active()),
{
    assert forall|i: int| 0 <= i <= msgs.len() implies (#[trigger] states[i].active() == 0
        <==> finishes(msgs.subrange(0, i)) >= states[0].active()) by {
        lemma_listen_prefix(states, msgs, i as nat);
        lemma_active_after(states[0].active(), msgs.subrange(0, i));
    }
}

proof fn lemma_listen_prefix(states: Seq<MultiState>, msgs: Seq<WriteMsg>, i: nat)
    requires
        states.len() == msgs.len() + 1,
        i <= msgs.len(),
        forall|j: int|
            0 <= j < msgs.len() ==> MultiState::applied(
                #[trigger] states[j],
                states[j + 1],
                msgs[j],
            ),
    ensures
        states[i as int].active() == active_after(states[0].active(), msgs.subrange(0, i as int)),
    decreases i,
{
    if i == 0 {
        assert(msgs.subrange(0, 0) =~= Seq::<WriteMsg>::empty());
    } else {
        let j = (i - 1) as int;
        lemma_listen_prefix(states, msgs, (i - 1) as nat);
        assert(MultiState::applied(states[j], states[j + 1], msgs[j]));
        let p = msgs.subrange(0, j);
        let q = msgs.subrange(0, i as int);
        assert(q.drop_last() =~= p);
        assert(seq![msgs[j]].drop_last() =~= Seq::<WriteMsg>::empty());
        reveal_with_fuel(active_after, 2);
    }
}

} // verus!
