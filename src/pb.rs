//! A single progress bar: its state, the text it renders, and the rules for
//! when it redraws.
use crate::clock::{clock_origin, duration_nanos, nanos_since};
use crate::text::{
    dec, fixed2, join_parts, lemma_join_first, lemma_repeat, pad_to, padded, push_dec, push_fixed2,
    push_repeat, push_scaled, repeat, round_div, round_div_exec, scaled,
};
use std::time::{Duration, Instant};
use vstd::prelude::*;
use vstd::string::{StrSliceExecFns, StringExecFns};

verus! {

/// Nanoseconds in one second.
pub const NANOS_PER_SEC: u64 = 1_000_000_000;

/// Terminal width used when neither the bar nor its sink names one.
pub const DEFAULT_WIDTH: usize = 80;

/// Lowest value kept for the time of the last redraw; any earlier time
/// throttles nothing, since the clock and every refresh interval fit in
/// `u64`.
pub const REFRESH_FLOOR: i128 = -0x2_0000_0000_0000_0000;

/// How the counter and the speed are written.
#[derive(Debug, Clone, Copy, PartialEq, Eq, Structural)]
pub enum Units {
    /// Plain numbers.
    Default,
    /// Byte counts scaled to B, KB, MB, GB or TB.
    Bytes,
}

/// Where a bar sends what it renders: a terminal, a buffer, or the
/// coordinator of several bars.
pub trait ProgressSink {
    /// Every text the sink has taken in, in order.
    spec fn taken(&self) -> Seq<Seq<char>>;

    /// The display line the sink writes to; zero for a sink that is a
    /// display of its own.
    spec fn slot(&self) -> nat;

    /// The sink's own record agrees with what it has taken in.
    spec fn consistent(&self) -> bool;

    /// The width that `columns` reports.
    spec fn known_columns(&self) -> Option<usize>;

    /// Takes one piece of output: a whole frame, a closing text, or the
    /// empty text that a finished bar sends last.
    fn accept(&mut self, text: &str)
        ensures
            final(self).taken() == old(self).taken().push(text@),
            final(self).slot() == old(self).slot(),
            old(self).consistent() ==> final(self).consistent(),
    ;

    /// The width in columns of the terminal behind the sink, where known.
    fn columns(&self) -> (r: Option<usize>)
        ensures
            r == self.known_columns(),
    ;
}

/// A progress bar that draws itself on the sink `T`.
pub struct ProgressBar<T> {
    /// Clock reading that the times below count from, in nanoseconds.
    origin: Instant,
    /// When counting started.
    start: u64,
    /// When the last frame was drawn; earlier than `start` after a refresh
    /// interval is set.
    last_refresh: i128,
    units: Units,
    /// The count at which the work is complete.
    pub total: u64,
    current: u64,
    bar_start: String,
    bar_current: String,
    bar_current_n: String,
    bar_remain: String,
    bar_end: String,
    tick: Vec<String>,
    tick_state: usize,
    width: Option<usize>,
    message: String,
    /// Least time between two redraws, in nanoseconds.
    max_refresh_rate: Option<u64>,
    /// Set once the bar is finished.
    pub is_finish: bool,
    /// Set for a bar that shares a display with others.
    pub is_multibar: bool,
    pub show_bar: bool,
    pub show_speed: bool,
    pub show_percent: bool,
    pub show_counter: bool,
    pub show_time_left: bool,
    pub show_tick: bool,
    pub show_message: bool,
    handle: T,
}

/// `a + b`, saturated at `u64::MAX`.
pub open spec fn sat_add(a: nat, b: nat) -> nat {
    if a + b > u64::MAX {
        u64::MAX as nat
    } else {
        a + b
    }
}

/// An elapsed time of zero counts as one nanosecond.
pub open spec fn at_least_one(e: nat) -> nat {
    if e == 0 {
        1
    } else {
        e
    }
}

/// Percentage of `c` in `t`, in hundredths; zero when `t` is zero.
pub open spec fn percent_hundredths(c: nat, t: nat) -> nat {
    if t == 0 {
        0
    } else {
        round_div(c * 10000, t)
    }
}

/// The percent box: `"25.00 %"`.
pub open spec fn percent_text(c: nat, t: nat) -> Seq<char> {
    fixed2(percent_hundredths(c, t)) + seq![' ', '%']
}

/// The speed box for `c` items in `e` nanoseconds.
pub open spec fn speed_text(units: Units, c: nat, e: nat) -> Seq<char> {
    let num = (c * NANOS_PER_SEC) as nat;
    match units {
        Units::Default => fixed2(round_div((num * 100) as nat, at_least_one(e))) + seq!['/', 's'],
        Units::Bytes => scaled(num, at_least_one(e)) + seq!['/', 's'],
    }
}

/// The time-left box: the `t - c` items still to come at the speed of `c`
/// items in `e` nanoseconds, in whole seconds below a minute, else in whole
/// minutes.
pub open spec fn eta_text(c: nat, t: nat, e: nat) -> Seq<char> {
    let num = ((t - c) * at_least_one(e)) as nat;
    let den = (c * NANOS_PER_SEC) as nat;
    if num < 60 * den {
        dec(round_div(num, den)) + seq!['s']
    } else {
        dec(round_div(num, (60 * den) as nat)) + seq!['m']
    }
}

/// The counter box: `"3 / 10 "`.
pub open spec fn counter_text(units: Units, c: nat, t: nat) -> Seq<char> {
    match units {
        Units::Default => dec(c) + seq![' ', '/', ' '] + dec(t) + seq![' '],
        Units::Bytes => scaled(c, 1) + seq![' ', '/', ' '] + scaled(t, 1) + seq![' '],
    }
}

/// Cells filled in a bar of `size` cells: `c / t` of them rounded up, all of
/// them once `c` passes `t`; with `t` zero, none for `c` zero, else all.
pub open spec fn fill_count(c: nat, t: nat, size: nat) -> nat {
    if t == 0 {
        if c == 0 {
            0
        } else {
            size
        }
    } else if c * size >= t * size {
        size
    } else {
        ((c * size + t - 1) as nat / t) as nat
    }
}

/// Elapsed time between `start` and `now`, zero when the clock reads
/// earlier than `start`.
pub open spec fn elapsed(start: nat, now: nat) -> nat {
    if now >= start {
        (now - start) as nat
    } else {
        0
    }
}

impl<T: ProgressSink> ProgressBar<T> {
    /// The bar's state is consistent: there is a tick glyph to show.
    pub open spec fn wf(&self) -> bool {
        &&& 0 < self.ticks().len()
        &&& self.tick_state_spec() < self.ticks().len()
        &&& self.last_refresh_spec() >= REFRESH_FLOOR
    }

    /// The count.
    pub closed spec fn current_spec(&self) -> nat {
        self.current as nat
    }

    /// The display a new bar starts with: every box but the tick shown,
    /// plain units, no message, no pinned width, no refresh interval.
    pub open spec fn default_display(&self) -> bool {
        &&& self.shows() == seq![true, true, true, true, true, true]
        &&& !self.show_tick_spec()
        &&& self.units_spec() == Units::Default
        &&& self.message_spec().len() == 0
        &&& self.width_spec() is None
        &&& self.max_refresh_rate_spec() is None
    }

    /// Which boxes other than the tick are shown, in the order bar, speed,
    /// percent, counter, time left, message.
    pub closed spec fn shows(&self) -> Seq<bool> {
        seq![
            self.show_bar,
            self.show_speed,
            self.show_percent,
            self.show_counter,
            self.show_time_left,
            self.show_message,
        ]
    }

    /// The clock origin.
    pub closed spec fn origin_spec(&self) -> Instant {
        self.origin
    }

    /// When counting started.
    pub closed spec fn start_spec(&self) -> nat {
        self.start as nat
    }

    /// Only the bar itself is shown: no message, counter, tick, percent,
    /// speed or time left.
    pub closed spec fn shows_only_bar(&self) -> bool {
        &&& self.show_bar
        &&& !self.show_message && !self.show_counter && !self.show_tick
        &&& !self.show_percent && !self.show_speed && !self.show_time_left
    }

    /// The percent box is shown.
    pub closed spec fn shows_percent(&self) -> bool {
        self.show_percent
    }

    /// The total.
    pub closed spec fn total_spec(&self) -> nat {
        self.total as nat
    }

    /// Whether the bar is finished.
    pub closed spec fn is_finish_spec(&self) -> bool {
        self.is_finish
    }

    /// Whether the bar shares a display with others.
    pub closed spec fn is_multibar_spec(&self) -> bool {
        self.is_multibar
    }

    /// Whether the tick glyph is shown.
    pub closed spec fn show_tick_spec(&self) -> bool {
        self.show_tick
    }

    /// Position of the tick glyph shown.
    pub closed spec fn tick_state_spec(&self) -> nat {
        self.tick_state as nat
    }

    /// The width pinned on the bar, if any.
    pub closed spec fn width_spec(&self) -> Option<usize> {
        self.width
    }

    /// The units of counter and speed.
    pub closed spec fn units_spec(&self) -> Units {
        self.units
    }

    /// The message.
    pub closed spec fn message_spec(&self) -> Seq<char> {
        self.message@
    }

    /// The refresh interval in nanoseconds, if any.
    pub closed spec fn max_refresh_rate_spec(&self) -> Option<u64> {
        self.max_refresh_rate
    }

    /// Clock reading of the last redraw.
    pub closed spec fn last_refresh_spec(&self) -> int {
        self.last_refresh as int
    }

    /// The five bar glyphs in order: start, filled, leading edge, empty, end.
    pub closed spec fn glyphs(&self) -> Seq<Seq<char>> {
        seq![
            self.bar_start@,
            self.bar_current@,
            self.bar_current_n@,
            self.bar_remain@,
            self.bar_end@,
        ]
    }

    /// The tick glyphs in order.
    pub closed spec fn ticks(&self) -> Seq<Seq<char>> {
        self.tick@.map_values(|g: String| g@)
    }

    /// The sink.
    pub closed spec fn handle_spec(&self) -> T {
        self.handle
    }

    /// Every text the sink has taken in, in order.
    pub open spec fn emitted_spec(&self) -> Seq<Seq<char>> {
        self.handle_spec().taken()
    }

    /// The right-hand boxes that are shown, before they are joined.
    pub closed spec fn suffix_parts(&self, e: nat) -> Seq<Seq<char>> {
        let c = self.current as nat;
        let t = self.total as nat;
        let p1 = if self.show_percent {
            seq![percent_text(c, t)]
        } else {
            Seq::empty()
        };
        let p2 = if self.show_speed {
            seq![speed_text(self.units, c, e)]
        } else {
            Seq::empty()
        };
        let p3 = if self.show_time_left && c > 0 && t > c {
            seq![eta_text(c, t, e)]
        } else {
            Seq::empty()
        };
        p1 + p2 + p3
    }

    /// Text right of the bar: a space, then the shown boxes.
    pub closed spec fn suffix(&self, e: nat) -> Seq<char> {
        seq![' '] + join_parts(self.suffix_parts(e))
    }

    /// Text left of the bar: message, counter and tick glyph, as shown.
    pub closed spec fn prefix(&self) -> Seq<char> {
        let m = if self.show_message {
            self.message@
        } else {
            Seq::empty()
        };
        let c = if self.show_counter {
            counter_text(self.units, self.current as nat, self.total as nat)
        } else {
            Seq::empty()
        };
        let k = if self.show_tick {
            self.tick@[self.tick_state as int]@ + seq![' ']
        } else {
            Seq::empty()
        };
        m + c + k
    }

    /// The bar glyphs for a bar of `size` cells.
    pub closed spec fn bar_cells(&self, size: nat) -> Seq<char> {
        let fill = fill_count(self.current as nat, self.total as nat, size);
        let rest = (size - fill) as nat;
        let body = if rest > 0 && fill > 0 {
            repeat(self.bar_current@, (fill - 1) as nat) + self.bar_current_n@
        } else {
            repeat(self.bar_current@, fill)
        };
        self.bar_start@ + body + repeat(self.bar_remain@, rest) + self.bar_end@
    }

    /// The bar between prefix and suffix on a line of `width` columns: the
    /// columns left after both and three more, when there are any.
    pub closed spec fn bar_box(&self, width: nat, e: nat) -> Seq<char> {
        let p = self.prefix().len() + self.suffix(e).len() + 3;
        if self.show_bar && p < width {
            self.bar_cells((width - p) as nat)
        } else {
            Seq::empty()
        }
    }

    /// The rendered line for a terminal of `width` columns, `e` nanoseconds
    /// after the start, padded with spaces to `width` columns.
    #[verifier::opaque]
    pub closed spec fn line(&self, width: nat, e: nat) -> Seq<char> {
        padded(self.prefix() + self.bar_box(width, e) + self.suffix(e), width)
    }

    /// What a redraw at clock reading `now` hands to the sink.
    pub closed spec fn frame(&self, width: nat, now: nat) -> Seq<char> {
        seq!['\r'] + self.line(width, elapsed(self.start as nat, now))
    }

    /// A draw request at clock reading `now`, after a redraw at `last`, is
    /// skipped: a refresh interval is set, less than it has passed, and the
    /// count is below the total.
    pub closed spec fn throttled(&self, last: int, now: nat) -> bool {
        match self.max_refresh_rate {
            Some(d) => now - last < d && self.current < self.total,
            None => false,
        }
    }

    /// Everything but the count, the tick position, the finished flag, the
    /// redraw time, the sink and its output is as in `o`.
    pub open spec fn same_settings(&self, o: &Self) -> bool {
        &&& self.origin_spec() == o.origin_spec()
        &&& self.start_spec() == o.start_spec()
        &&& self.units_spec() == o.units_spec()
        &&& self.total_spec() == o.total_spec()
        &&& self.glyphs() == o.glyphs()
        &&& self.ticks() == o.ticks()
        &&& self.width_spec() == o.width_spec()
        &&& self.message_spec() == o.message_spec()
        &&& self.max_refresh_rate_spec() == o.max_refresh_rate_spec()
        &&& self.is_multibar_spec() == o.is_multibar_spec()
        &&& self.shows() == o.shows()
        &&& self.show_tick_spec() == o.show_tick_spec()
    }

    /// The sink still writes to the same line, and is still consistent if it
    /// was.
    pub open spec fn sink_kept(&self, o: &Self) -> bool {
        &&& self.handle_spec().slot() == o.handle_spec().slot()
        &&& o.handle_spec().consistent() ==> self.handle_spec().consistent()
    }

    /// The width the line is laid out at: the one set on the bar, else the
    /// one the sink reports, else the default.
    pub open spec fn layout_width(&self) -> nat {
        match self.width_spec() {
            Some(w) => w as nat,
            None => match self.handle_spec().known_columns() {
                Some(c) => c as nat,
                None => DEFAULT_WIDTH as nat,
            },
        }
    }

    /// `self` is `old` after a draw request at clock reading `now` on a
    /// terminal of `width` columns, `force` bypassing the throttle: either
    /// nothing happened, or one frame went out and `now` became the redraw
    /// time. Count and settings are those of `self`.
    pub closed spec fn drawn(&self, old: Self, now: nat, width: nat, force: bool) -> bool {
        self.drawn_after(old.last_refresh as int, old.handle.taken(), now, width, force)
    }

    /// `drawn`, given the redraw time `last` and the output `before` of the
    /// bar before the request.
    pub closed spec fn drawn_after(
        &self,
        last: int,
        before: Seq<Seq<char>>,
        now: nat,
        width: nat,
        force: bool,
    ) -> bool {
        &&& now <= u64::MAX
        &&& if !force && self.throttled(last, now) {
            &&& self.handle.taken() == before
            &&& self.last_refresh == last
        } else {
            &&& self.handle.taken() == before.push(self.frame(width, now))
            &&& self.last_refresh == now
        }
    }

    /// Like `drawn`, at some clock reading and at the width `old` lays out
    /// its line at.
    pub closed spec fn redrawn(&self, old: Self, force: bool) -> bool {
        exists|now: nat|
            #[trigger] self.drawn_after(
                old.last_refresh as int,
                old.handle.taken(),
                now,
                old.layout_width(),
                force,
            )
    }

    /// `new` is `old` after its count became `c` and the tick moved on: a
    /// draw request follows when `c` is within the total.
    pub open spec fn advanced(old: Self, new: Self, c: nat) -> bool {
        &&& new.wf()
        &&& new.same_settings(&old)
        &&& new.sink_kept(&old)
        &&& new.total_spec() == old.total_spec()
        &&& new.is_multibar_spec() == old.is_multibar_spec()
        &&& new.current_spec() == c
        &&& new.is_finish_spec() == old.is_finish_spec()
        &&& new.tick_state_spec() == (old.tick_state_spec() + 1) % old.ticks().len()
        &&& if c <= old.total_spec() {
            new.redrawn(old, false)
        } else {
            new.emitted_spec() == old.emitted_spec() && new.last_refresh_spec()
                == old.last_refresh_spec()
        }
    }

    /// `new` is `old` finished: the count raised to the total if below it,
    /// one last frame drawn whatever the throttle says, then the texts of
    /// `tail` handed to the sink.
    pub open spec fn finished_with(old: Self, new: Self, tail: Seq<Seq<char>>) -> bool {
        &&& new.wf()
        &&& new.same_settings(&old)
        &&& new.sink_kept(&old)
        &&& new.total_spec() == old.total_spec()
        &&& new.is_multibar_spec() == old.is_multibar_spec()
        &&& new.tick_state_spec() == old.tick_state_spec()
        &&& new.current_spec() == if old.current_spec() < old.total_spec() {
            old.total_spec()
        } else {
            old.current_spec()
        }
        &&& new.is_finish_spec()
        &&& exists|now: nat|
            now <= u64::MAX && new.last_refresh_spec() == now && new.emitted_spec()
                == old.emitted_spec().push(#[trigger] new.frame(old.layout_width(), now)) + tail
    }
}

fn push_percent(out: &mut String, c: u64, t: u64)
    ensures
        final(out)@ == old(out)@ + percent_text(c as nat, t as nat),
{
    proof {
        reveal_strlit(" %");
    }
    let h: u128 = if t == 0 {
        0
    } else {
        round_div_exec(c as u128 * 10000, t as u128)
    };
    push_fixed2(out, h);
    out.append(" %");
    proof {
        assert(final(out)@ =~= old(out)@ + percent_text(c as nat, t as nat));
    }
}

fn push_speed(out: &mut String, units: Units, c: u64, e: u64)
    ensures
        final(out)@ == old(out)@ + speed_text(units, c as nat, e as nat),
{
    proof {
        reveal_strlit("/s");
        assert(c * 1_000_000_000 <= u64::MAX * 1_000_000_000) by (nonlinear_arith)
            requires
                c <= u64::MAX,
        ;
    }
    let num: u128 = c as u128 * 1_000_000_000;
    let den: u128 = if e == 0 {
        1
    } else {
        e as u128
    };
    match units {
        Units::Default => push_fixed2(out, round_div_exec(num * 100, den)),
        Units::Bytes => push_scaled(out, num, den),
    }
    out.append("/s");
    proof {
        assert(final(out)@ =~= old(out)@ + speed_text(units, c as nat, e as nat));
    }
}

fn push_eta(out: &mut String, c: u64, t: u64, e: u64)
    requires
        0 < c < t,
    ensures
        final(out)@ == old(out)@ + eta_text(c as nat, t as nat, e as nat),
{
    proof {
        reveal_strlit("s");
        reveal_strlit("m");
    }
    let ee: u128 = if e == 0 {
        1
    } else {
        e as u128
    };
    let rest: u128 = (t - c) as u128;
    proof {
        assert(rest * ee <= u64::MAX * u64::MAX) by (nonlinear_arith)
            requires
                rest <= u64::MAX,
                ee <= u64::MAX,
        ;
        assert(c * 1_000_000_000 <= u64::MAX * 1_000_000_000) by (nonlinear_arith)
            requires
                c <= u64::MAX,
        ;
    }
    let num: u128 = rest * ee;
    let den: u128 = c as u128 * 1_000_000_000;
    if num < 60 * den {
        push_dec(out, round_div_exec(num, den));
        out.append("s");
    } else {
        push_dec(out, round_div_exec(num, 60 * den));
        out.append("m");
    }
    proof {
        assert(final(out)@ =~= old(out)@ + eta_text(c as nat, t as nat, e as nat));
    }
}

fn push_counter(out: &mut String, units: Units, c: u64, t: u64)
    ensures
        final(out)@ == old(out)@ + counter_text(units, c as nat, t as nat),
{
    proof {
        reveal_strlit(" / ");
        reveal_strlit(" ");
    }
    match units {
        Units::Default => {
            push_dec(out, c as u128);
            out.append(" / ");
            push_dec(out, t as u128);
        },
        Units::Bytes => {
            push_scaled(out, c as u128, 1);
            out.append(" / ");
            push_scaled(out, t as u128, 1);
        },
    }
    out.append(" ");
    proof {
        assert(final(out)@ =~= old(out)@ + counter_text(units, c as nat, t as nat));
    }
}

/// Appends one more box to a suffix that holds a space and the boxes of
/// `parts`.
fn push_part(out: &mut String, part: &str, first: bool, Ghost(parts): Ghost<Seq<Seq<char>>>)
    requires
        old(out)@ == seq![' '] + join_parts(parts),
        first == (parts.len() == 0),
    ensures
        final(out)@ == seq![' '] + join_parts(parts.push(part@)),
{
    proof {
        reveal_strlit(" ");
        assert(parts.push(part@).drop_last() =~= parts);
    }
    if !first {
        out.append(" ");
    }
    out.append(part);
    proof {
        assert(final(out)@ =~= seq![' '] + join_parts(parts.push(part@)));
    }
}

/// Cells filled in a bar of `size` cells; see `fill_count`.
fn fill_exec(c: u64, t: u64, size: usize) -> (r: usize)
    ensures
        r == fill_count(c as nat, t as nat, size as nat),
        r <= size,
{
    if t == 0 {
        if c == 0 {
            0
        } else {
            size
        }
    } else {
        proof {
            assert(c * size <= u64::MAX * u64::MAX) by (nonlinear_arith)
                requires
                    c <= u64::MAX,
                    size <= u64::MAX,
            ;
            assert(t * size <= u64::MAX * u64::MAX) by (nonlinear_arith)
                requires
                    t <= u64::MAX,
                    size <= u64::MAX,
            ;
        }
        let cs: u128 = c as u128 * size as u128;
        let ts: u128 = t as u128 * size as u128;
        if cs >= ts {
            size
        } else {
            proof {
                assert((cs + t - 1) / (t as int) <= size) by (nonlinear_arith)
                    requires
                        cs < ts,
                        ts == t * size,
                        t > 0,
                ;
            }
            ((cs + t as u128 - 1) / t as u128) as usize
        }
    }
}

impl<T: ProgressSink> ProgressBar<T> {
    fn push_prefix(&self, out: &mut String)
        requires
            self.wf(),
        ensures
            final(out)@ == old(out)@ + self.prefix(),
    {
        proof {
            reveal_strlit(" ");
        }
        if self.show_message {
            out.append(self.message.as_str());
        }
        if self.show_counter {
            push_counter(out, self.units, self.current, self.total);
        }
        if self.show_tick {
            out.append(self.tick[self.tick_state].as_str());
            out.append(" ");
        }
        proof {
            assert(final(out)@ =~= old(out)@ + self.prefix());
        }
    }

    fn suffix_exec(&self, e: u64) -> (r: String)
        ensures
            r@ == self.suffix(e as nat),
    {
        proof {
            reveal_strlit(" ");
        }
        let c = self.current;
        let t = self.total;
        let mut out = String::from_str(" ");
        let ghost mut parts: Seq<Seq<char>> = Seq::empty();
        let mut first = true;
        proof {
            assert(out@ =~= seq![' '] + join_parts(parts));
        }
        if self.show_percent {
            let mut part = String::new();
            push_percent(&mut part, c, t);
            push_part(&mut out, part.as_str(), first, Ghost(parts));
            proof {
                parts = parts.push(part@);
            }
            first = false;
        }
        if self.show_speed {
            let mut part = String::new();
            push_speed(&mut part, self.units, c, e);
            push_part(&mut out, part.as_str(), first, Ghost(parts));
            proof {
                parts = parts.push(part@);
            }
            first = false;
        }
        if self.show_time_left && c > 0 && t > c {
            let mut part = String::new();
            push_eta(&mut part, c, t, e);
            push_part(&mut out, part.as_str(), first, Ghost(parts));
            proof {
                parts = parts.push(part@);
            }
        }
        proof {
            assert(parts =~= self.suffix_parts(e as nat));
        }
        out
    }

    fn push_bar(&self, out: &mut String, size: usize)
        ensures
            final(out)@ == old(out)@ + self.bar_cells(size as nat),
    {
        let fill = fill_exec(self.current, self.total, size);
        let rest = size - fill;
        out.append(self.bar_start.as_str());
        if rest > 0 && fill > 0 {
            push_repeat(out, self.bar_current.as_str(), fill - 1);
            out.append(self.bar_current_n.as_str());
        } else {
            push_repeat(out, self.bar_current.as_str(), fill);
        }
        push_repeat(out, self.bar_remain.as_str(), rest);
        out.append(self.bar_end.as_str());
        proof {
            assert(final(out)@ =~= old(out)@ + self.bar_cells(size as nat));
        }
    }

    /// The line this bar shows on a terminal of `width` columns, `e`
    /// nanoseconds after it started counting.
    pub fn render(&self, width: usize, e: u64) -> (r: String)
        requires
            self.wf(),
        ensures
            r@ == self.line(width as nat, e as nat),
    {
        reveal(ProgressBar::line);
        let mut out = String::new();
        self.push_prefix(&mut out);
        let suffix = self.suffix_exec(e);
        if self.show_bar {
            let p: u128 = out.as_str().unicode_len() as u128 + suffix.as_str().unicode_len() as u128
                + 3;
            if p < width as u128 {
                self.push_bar(&mut out, (width as u128 - p) as usize);
            }
        }
        out.append(suffix.as_str());
        let ghost body = out@;
        pad_to(&mut out, width);
        proof {
            assert(body =~= self.prefix() + self.bar_box(width as nat, e as nat) + self.suffix(
                e as nat,
            ));
        }
        out
    }
}

/// Default bar glyphs: start, filled, leading edge, empty, end.
pub const FORMAT: &'static str = "[=>-]";

/// Default tick glyphs.
pub const TICK_FORMAT: &'static str = "\\|/-";

/// `s` with every line break replaced by a space.
pub open spec fn one_line(s: Seq<char>) -> Seq<char> {
    Seq::new(s.len(), |i: int| if s[i] == '\n' || s[i] == '\r' { ' ' } else { s[i] })
}

/// Whether `a` and `b` hold the same characters.
fn same_text(a: &str, b: &str) -> (r: bool)
    ensures
        r == (a@ == b@),
{
    let n = a.unicode_len();
    if n != b.unicode_len() {
        return false;
    }
    let mut i: usize = 0;
    while i < n
        invariant
            n == a@.len() == b@.len(),
            i <= n,
            a@.subrange(0, i as int) == b@.subrange(0, i as int),
        decreases n - i,
    {
        if a.get_char(i) != b.get_char(i) {
            return false;
        }
        proof {
            assert(a@.subrange(0, i + 1) =~= a@.subrange(0, i as int).push(a@[i as int]));
            assert(b@.subrange(0, i + 1) =~= b@.subrange(0, i as int).push(b@[i as int]));
        }
        i = i + 1;
    }
    proof {
        assert(a@ =~= a@.subrange(0, n as int));
        assert(b@ =~= b@.subrange(0, n as int));
    }
    true
}

impl<T: ProgressSink> ProgressBar<T> {
    /// `self` agrees with `o` on the count, the finished flag, the sink, the
    /// total, the origin and the boxes shown but the tick, and on each group
    /// of settings whose flag is set: units; bar glyphs; tick glyphs, tick
    /// position and whether the tick shows; width; message; refresh interval
    /// and redraw time; sharing a display; start time.
    pub open spec fn keeps(
        &self,
        o: &Self,
        units: bool,
        glyphs: bool,
        ticks: bool,
        width: bool,
        message: bool,
        refresh: bool,
        multibar: bool,
        start: bool,
    ) -> bool {
        &&& self.current_spec() == o.current_spec()
        &&& self.is_finish_spec() == o.is_finish_spec()
        &&& self.handle_spec() == o.handle_spec()
        &&& self.total_spec() == o.total_spec()
        &&& self.origin_spec() == o.origin_spec()
        &&& self.shows() == o.shows()
        &&& units ==> self.units_spec() == o.units_spec()
        &&& glyphs ==> self.glyphs() == o.glyphs()
        &&& ticks ==> {
            &&& self.ticks() == o.ticks()
            &&& self.tick_state_spec() == o.tick_state_spec()
            &&& self.show_tick_spec() == o.show_tick_spec()
        }
        &&& width ==> self.width_spec() == o.width_spec()
        &&& message ==> self.message_spec() == o.message_spec()
        &&& refresh ==> {
            &&& self.max_refresh_rate_spec() == o.max_refresh_rate_spec()
            &&& self.last_refresh_spec() == o.last_refresh_spec()
        }
        &&& multibar ==> self.is_multibar_spec() == o.is_multibar_spec()
        &&& start ==> self.start_spec() == o.start_spec()
    }

    /// `self` differs from `o` at most in its message.
    pub open spec fn same_but_message(&self, o: &Self) -> bool {
        self.keeps(o, true, true, true, true, false, true, true, true)
    }

    /// `self` differs from `o` at most in its bar glyphs.
    pub open spec fn same_but_glyphs(&self, o: &Self) -> bool {
        self.keeps(o, true, false, true, true, true, true, true, true)
    }

    /// `self` differs from `o` at most in its tick glyphs, tick position and
    /// whether the tick shows.
    pub open spec fn same_but_ticks(&self, o: &Self) -> bool {
        self.keeps(o, true, true, false, true, true, true, true, true)
    }

    /// `self` differs from `o` at most in whether it is one of several bars.
    pub open spec fn same_but_multibar(&self, o: &Self) -> bool {
        self.keeps(o, true, true, true, true, true, true, false, true)
    }

    /// `self` differs from `o` at most in its units.
    pub open spec fn same_but_units(&self, o: &Self) -> bool {
        self.keeps(o, false, true, true, true, true, true, true, true)
    }

    /// `self` differs from `o` at most in its width.
    pub open spec fn same_but_width(&self, o: &Self) -> bool {
        self.keeps(o, true, true, true, false, true, true, true, true)
    }

    /// `self` differs from `o` at most in its refresh interval and redraw
    /// time.
    pub open spec fn same_but_refresh(&self, o: &Self) -> bool {
        self.keeps(o, true, true, true, true, true, false, true, true)
    }

    /// Bars with the same settings agree field by field.
    proof fn lemma_settings_fields(self, o: Self)
        requires
            o.same_settings(&self),
        ensures
            o.show_bar == self.show_bar,
            o.show_speed == self.show_speed,
            o.show_percent == self.show_percent,
            o.show_counter == self.show_counter,
            o.show_time_left == self.show_time_left,
            o.show_tick == self.show_tick,
            o.show_message == self.show_message,
            o.tick@.len() == self.tick@.len(),
            forall|i: int| 0 <= i < self.tick@.len() ==> o.tick@[i]@ == #[trigger] self.tick@[i]@,
            o.bar_start@ == self.bar_start@,
            o.bar_current@ == self.bar_current@,
            o.bar_current_n@ == self.bar_current_n@,
            o.bar_remain@ == self.bar_remain@,
            o.bar_end@ == self.bar_end@,
    {
        assert(o.shows()[0] == self.shows()[0]);
        assert(o.shows()[1] == self.shows()[1]);
        assert(o.shows()[2] == self.shows()[2]);
        assert(o.shows()[3] == self.shows()[3]);
        assert(o.shows()[4] == self.shows()[4]);
        assert(o.shows()[5] == self.shows()[5]);
        assert(o.ticks().len() == o.tick@.len());
        assert(self.ticks().len() == self.tick@.len());
        assert(o.glyphs()[0] == self.glyphs()[0]);
        assert(o.glyphs()[1] == self.glyphs()[1]);
        assert(o.glyphs()[2] == self.glyphs()[2]);
        assert(o.glyphs()[3] == self.glyphs()[3]);
        assert(o.glyphs()[4] == self.glyphs()[4]);
        assert forall|i: int| 0 <= i < self.tick@.len() implies o.tick@[i]@ == #[trigger] self.tick@[
            i
        ]@ by {
            assert(o.ticks()[i] == self.ticks()[i]);
            assert(o.ticks()[i] == o.tick@[i]@);
            assert(self.ticks()[i] == self.tick@[i]@);
        }
    }

    /// `self` differs from `o` at most in its sink and what was handed to it.
    pub closed spec fn same_but_sink(&self, o: &Self) -> bool {
        *self == (ProgressBar { handle: self.handle, ..*o })
    }

    /// Bars that agree on settings, count and tick position render the same
    /// frames.
    pub proof fn lemma_frame_same(self, o: Self, width: nat, now: nat)
        requires
            o.same_settings(&self),
            o.current_spec() == self.current_spec(),
            o.tick_state_spec() == self.tick_state_spec(),
            self.wf(),
        ensures
            o.frame(width, now) == self.frame(width, now),
    {
        reveal(ProgressBar::line);
        self.lemma_settings_fields(o);
        assert(o.prefix() == self.prefix());
        assert(o.suffix_parts(elapsed(self.start as nat, now)) == self.suffix_parts(
            elapsed(self.start as nat, now),
        ));
    }

    /// `self` differs from `o` at most in its start time.
    pub open spec fn same_but_start(&self, o: &Self) -> bool {
        self.keeps(o, true, true, true, true, true, true, true, false)
    }

    /// The redraw time after rewinding `last` by the interval `d`.
    pub open spec fn rewound(last: int, d: nat) -> int {
        if last - d >= REFRESH_FLOOR {
            last - d
        } else {
            REFRESH_FLOOR as int
        }
    }

    /// The count.
    pub fn current(&self) -> (r: u64)
        ensures
            r == self.current_spec(),
    {
        self.current
    }

    /// The sink the bar draws on.
    pub fn handle(&self) -> (r: &T)
        ensures
            *r == self.handle_spec(),
    {
        &self.handle
    }

    /// Marks the bar as one of several sharing a display.
    pub(crate) fn set_multibar(&mut self, on: bool)
        requires
            old(self).wf(),
        ensures
            final(self).wf(),
            final(self).is_multibar_spec() == on,
            final(self).same_but_multibar(old(self)),
            final(self).current_spec() == old(self).current_spec(),
            final(self).total_spec() == old(self).total_spec(),
            final(self).is_finish_spec() == old(self).is_finish_spec(),
            final(self).handle_spec() == old(self).handle_spec(),
    {
        self.is_multibar = on;
    }

    /// Sets the units of the counter and the speed.
    pub fn set_units(&mut self, u: Units)
        requires
            old(self).wf(),
        ensures
            final(self).wf(),
            final(self).units_spec() == u,
            final(self).same_but_units(old(self)),
    {
        self.units = u;
    }

    /// Sets the five bar glyphs from the first five characters of `fmt`:
    /// start, filled, leading edge, empty, end. A shorter `fmt` changes
    /// nothing.
    pub fn format(&mut self, fmt: &str)
        requires
            old(self).wf(),
        ensures
            final(self).wf(),
            final(self).same_but_glyphs(old(self)),
            fmt@.len() >= 5 ==> final(self).glyphs() == seq![
                fmt@.subrange(0, 1),
                fmt@.subrange(1, 2),
                fmt@.subrange(2, 3),
                fmt@.subrange(3, 4),
                fmt@.subrange(4, 5),
            ],
            fmt@.len() < 5 ==> *final(self) == *old(self),
    {
        if fmt.unicode_len() >= 5 {
            self.bar_start = fmt.substring_char(0, 1).to_owned();
            self.bar_current = fmt.substring_char(1, 2).to_owned();
            self.bar_current_n = fmt.substring_char(2, 3).to_owned();
            self.bar_remain = fmt.substring_char(3, 4).to_owned();
            self.bar_end = fmt.substring_char(4, 5).to_owned();
        }
    }

    /// The five bar glyphs, in the order `format` takes them.
    pub fn bar_format(&self) -> (r: String)
        ensures
            r@ == self.glyphs()[0] + self.glyphs()[1] + self.glyphs()[2] + self.glyphs()[3]
                + self.glyphs()[4],
    {
        let mut out = self.bar_start.clone();
        out.append(self.bar_current.as_str());
        out.append(self.bar_current_n.as_str());
        out.append(self.bar_remain.as_str());
        out.append(self.bar_end.as_str());
        out
    }

    /// Sets the message shown first on the line; line breaks become spaces.
    pub fn message(&mut self, message: &str)
        requires
            old(self).wf(),
        ensures
            final(self).wf(),
            final(self).message_spec() == one_line(message@),
            final(self).same_but_message(old(self)),
    {
        let n = message.unicode_len();
        let mut out = String::new();
        let mut i: usize = 0;
        proof {
            reveal_strlit(" ");
        }
        while i < n
            invariant
                n == message@.len(),
                i <= n,
                out@ == one_line(message@).subrange(0, i as int),
            decreases n - i,
        {
            proof {
                reveal_strlit(" ");
            }
            let c = message.get_char(i);
            if c == '\n' || c == '\r' {
                out.append(" ");
            } else {
                out.append(message.substring_char(i, i + 1));
            }
            proof {
                assert(out@ =~= one_line(message@).subrange(0, i + 1));
            }
            i = i + 1;
        }
        proof {
            assert(out@ =~= one_line(message@));
        }
        self.message = out;
    }

    /// Sets the tick glyphs, one per character of `tick_fmt`, and starts
    /// showing the tick unless `tick_fmt` is the default. A `tick_fmt` with
    /// no character changes nothing.
    pub fn tick_format(&mut self, tick_fmt: &str)
        requires
            old(self).wf(),
        ensures
            final(self).wf(),
            final(self).same_but_ticks(old(self)),
            tick_fmt@.len() > 0 ==> {
                &&& final(self).ticks() == Seq::new(
                    tick_fmt@.len(),
                    |i: int| tick_fmt@.subrange(i, i + 1),
                )
                &&& final(self).show_tick_spec() == (old(self).show_tick_spec() || tick_fmt@ != TICK_FORMAT@)
                &&& final(self).tick_state_spec() == old(self).tick_state_spec() % tick_fmt@.len()
            },
            tick_fmt@.len() == 0 ==> *final(self) == *old(self),
    {
        let n = tick_fmt.unicode_len();
        if n == 0 {
            return;
        }
        let glyphs = split_glyphs(tick_fmt);
        if !same_text(tick_fmt, TICK_FORMAT) {
            self.show_tick = true;
        }
        self.tick = glyphs;
        self.tick_state = self.tick_state % n;
    }

    /// Pins the line to `w` columns, or with `None` follows the terminal.
    pub fn set_width(&mut self, w: Option<usize>)
        requires
            old(self).wf(),
        ensures
            final(self).wf(),
            final(self).width_spec() == w,
            final(self).same_but_width(old(self)),
    {
        self.width = w;
    }

    /// Sets the least time, in nanoseconds, between two redraws, or with
    /// `None` redraws on every request. The last redraw is taken to be that
    /// much earlier, so that the next request is not skipped.
    pub fn set_max_refresh_nanos(&mut self, w: Option<u64>)
        requires
            old(self).wf(),
        ensures
            final(self).wf(),
            final(self).max_refresh_rate_spec() == w,
            final(self).same_but_refresh(old(self)),
            final(self).last_refresh_spec() == match w {
                Some(d) => Self::rewound(old(self).last_refresh_spec(), d as nat),
                None => old(self).last_refresh_spec(),
            },
    {
        self.max_refresh_rate = w;
        if let Some(d) = w {
            if self.last_refresh - d as i128 >= REFRESH_FLOOR {
                self.last_refresh = self.last_refresh - d as i128;
            } else {
                self.last_refresh = REFRESH_FLOOR;
            }
        }
    }

    /// Sets the least time between two redraws, or with `None` redraws on
    /// every request; see `set_max_refresh_nanos`.
    pub fn set_max_refresh_rate(&mut self, w: Option<Duration>)
        requires
            old(self).wf(),
        ensures
            final(self).wf(),
            final(self).same_but_refresh(old(self)),
            final(self).max_refresh_rate_spec() is Some == w is Some,
            final(self).last_refresh_spec() == match final(self).max_refresh_rate_spec() {
                Some(d) => Self::rewound(old(self).last_refresh_spec(), d as nat),
                None => old(self).last_refresh_spec(),
            },
    {
        let nanos = match &w {
            Some(d) => Some(duration_nanos(d)),
            None => None,
        };
        self.set_max_refresh_nanos(nanos);
    }

    /// Counts elapsed time from now on.
    pub fn reset_start_time(&mut self)
        requires
            old(self).wf(),
        ensures
            final(self).wf(),
            final(self).same_but_start(old(self)),
    {
        self.start = nanos_since(&self.origin);
    }
}

/// The texts of `parts`, one after another.
pub open spec fn concat_all(parts: Seq<Seq<char>>) -> Seq<char>
    decreases parts.len(),
{
    if parts.len() == 0 {
        Seq::empty()
    } else {
        concat_all(parts.drop_last()) + parts.last()
    }
}

/// An output the library does not look into, such as a terminal or a
/// stream, driven from outside.
pub trait TextOut {
    /// Writes `text` and flushes it.
    fn put(&mut self, text: &str);

    /// The width in columns of the terminal behind the output, where known.
    fn columns(&self) -> Option<usize>;
}

/// A sink around an outside output: it hands each text on, and keeps a
/// record of what it took in and of the terminal width last reported,
/// which it asks for when made and after each text.
pub struct Terminal<W> {
    out: W,
    cols: Option<usize>,
    log: Ghost<Seq<Seq<char>>>,
}

impl<W: TextOut> Terminal<W> {
    /// A sink writing to `out`.
    pub fn new(out: W) -> (r: Terminal<W>)
        ensures
            r.taken() == Seq::<Seq<char>>::empty(),
            r.consistent(),
    {
        let cols = out.columns();
        Terminal { out, cols, log: Ghost(Seq::empty()) }
    }

    /// The output written to.
    pub fn get_ref(&self) -> &W {
        &self.out
    }
}

impl<W: TextOut> ProgressSink for Terminal<W> {
    closed spec fn taken(&self) -> Seq<Seq<char>> {
        self.log@
    }

    open spec fn slot(&self) -> nat {
        0
    }

    open spec fn consistent(&self) -> bool {
        true
    }

    closed spec fn known_columns(&self) -> Option<usize> {
        self.cols
    }

    /// Writes `text`, then asks the output for its width again.
    fn accept(&mut self, text: &str) {
        self.out.put(text);
        self.cols = self.out.columns();
        self.log = Ghost(self.log@.push(text@));
    }

    fn columns(&self) -> (r: Option<usize>) {
        self.cols
    }
}

/// A sink that keeps everything it takes in, as one text.
pub struct Buffer {
    text: String,
    log: Ghost<Seq<Seq<char>>>,
}

impl Buffer {
    /// What the buffer holds.
    pub closed spec fn contents_spec(&self) -> Seq<char> {
        self.text@
    }

    /// An empty buffer.
    pub fn new() -> (r: Buffer)
        ensures
            r.taken() == Seq::<Seq<char>>::empty(),
            r.consistent(),
            r.contents_spec() == Seq::<char>::empty(),
    {
        Buffer { text: String::new(), log: Ghost(Seq::empty()) }
    }

    /// What the buffer holds: every text it took in, one after another.
    pub fn contents(&self) -> (r: &str)
        ensures
            r@ == self.contents_spec(),
            self.consistent() ==> r@ == concat_all(self.taken()),
    {
        self.text.as_str()
    }
}

impl ProgressSink for Buffer {
    closed spec fn taken(&self) -> Seq<Seq<char>> {
        self.log@
    }

    open spec fn slot(&self) -> nat {
        0
    }

    closed spec fn consistent(&self) -> bool {
        self.text@ == concat_all(self.log@)
    }

    open spec fn known_columns(&self) -> Option<usize> {
        None
    }

    /// Appends `text`.
    fn accept(&mut self, text: &str) {
        self.text.append(text);
        self.log = Ghost(self.log@.push(text@));
        proof {
            assert(self.log@.drop_last() =~= old(self).log@);
        }
    }

    /// A buffer has no terminal behind it.
    fn columns(&self) -> (r: Option<usize>) {
        None
    }
}

/// One glyph per character of `s`.
fn split_glyphs(s: &str) -> (r: Vec<String>)
    ensures
        r@.len() == s@.len(),
        r@.map_values(|g: String| g@) == Seq::new(s@.len(), |i: int| s@.subrange(i, i + 1)),
{
    let n = s.unicode_len();
    let mut glyphs: Vec<String> = Vec::new();
    let mut i: usize = 0;
    while i < n
        invariant
            n == s@.len(),
            i <= n,
            glyphs@.len() == i,
            forall|j: int| 0 <= j < i ==> #[trigger] glyphs@[j]@ == s@.subrange(j, j + 1),
        decreases n - i,
    {
        glyphs.push(s.substring_char(i, i + 1).to_owned());
        i = i + 1;
    }
    proof {
        assert(glyphs@.map_values(|g: String| g@) =~= Seq::new(
            s@.len(),
            |i: int| s@.subrange(i, i + 1),
        ));
    }
    glyphs
}

impl<T: ProgressSink> ProgressBar<T> {
    /// A bar counting from zero to `total` that draws on `handle`, with the
    /// default glyphs and every box but the tick shown.
    pub fn on(handle: T, total: u64) -> (r: Self)
        ensures
            r.wf(),
            r.current_spec() == 0,
            r.total_spec() == total,
            r.tick_state_spec() == 0,
            !r.is_finish_spec(),
            !r.is_multibar_spec(),
            r.default_display(),
            r.glyphs() == seq![
                FORMAT@.subrange(0, 1),
                FORMAT@.subrange(1, 2),
                FORMAT@.subrange(2, 3),
                FORMAT@.subrange(3, 4),
                FORMAT@.subrange(4, 5),
            ],
            r.ticks() == Seq::new(TICK_FORMAT@.len(), |i: int| TICK_FORMAT@.subrange(i, i + 1)),
            r.handle_spec() == handle,
            r.emitted_spec() == handle.taken(),
    {
        proof {
            reveal_strlit("[=>-]");
            reveal_strlit("\\|/-");
        }
        let origin = clock_origin();
        let now = nanos_since(&origin);
        let tick = split_glyphs(TICK_FORMAT);
        let mut pb = ProgressBar {
            origin,
            start: now,
            last_refresh: now as i128,
            units: Units::Default,
            total,
            current: 0,
            bar_start: String::new(),
            bar_current: String::new(),
            bar_current_n: String::new(),
            bar_remain: String::new(),
            bar_end: String::new(),
            tick,
            tick_state: 0,
            width: None,
            message: String::new(),
            max_refresh_rate: None,
            is_finish: false,
            is_multibar: false,
            show_bar: true,
            show_speed: true,
            show_percent: true,
            show_counter: true,
            show_time_left: true,
            show_tick: false,
            show_message: true,
            handle,
        };
        assert(pb.shows() =~= seq![true, true, true, true, true, true]);
        pb.format(FORMAT);
        pb
    }

    /// Width of the line: the one set on the bar, else the sink's terminal
    /// width, else the default.
    fn width(&self) -> (r: usize)
        ensures
            r == self.layout_width(),
    {
        match self.width {
            Some(w) => w,
            None => match self.handle.columns() {
                Some(w) => w,
                None => DEFAULT_WIDTH,
            },
        }
    }

    /// Hands `text` to the sink.
    fn emit(&mut self, text: &str)
        ensures
            final(self).same_but_sink(old(self)),
            final(self).sink_kept(old(self)),
            final(self).emitted_spec() == old(self).emitted_spec().push(text@),
    {
        self.handle.accept(text);
    }

    /// A draw request at clock reading `now` (nanoseconds from the bar's
    /// clock origin) on a terminal of `width` columns; `force` bypasses the
    /// refresh interval.
    pub fn draw_at(&mut self, now: u64, width: usize, force: bool)
        requires
            old(self).wf(),
        ensures
            final(self).wf(),
            final(self).same_settings(old(self)),
            final(self).sink_kept(old(self)),
            final(self).current_spec() == old(self).current_spec(),
            final(self).tick_state_spec() == old(self).tick_state_spec(),
            final(self).is_finish_spec() == old(self).is_finish_spec(),
            final(self).drawn(*old(self), now as nat, width as nat, force),
    {
        let skip = match self.max_refresh_rate {
            Some(d) => (now as i128) - self.last_refresh < d as i128 && self.current < self.total,
            None => false,
        };
        if force || !skip {
            proof {
                reveal_strlit("\r");
            }
            let e = if now >= self.start {
                now - self.start
            } else {
                0
            };
            let line = self.render(width, e);
            let mut text = String::from_str("\r");
            text.append(line.as_str());
            let ghost pre = *self;
            assert(text@ =~= pre.frame(width as nat, now as nat));
            self.emit(text.as_str());
            self.last_refresh = now as i128;
            proof {
                pre.lemma_frame_same(*self, width as nat, now as nat);
            }
        }
    }

    /// A draw request now, at the bar's width.
    fn draw_now(&mut self, force: bool) -> (used: (u64, usize))
        requires
            old(self).wf(),
        ensures
            final(self).wf(),
            final(self).same_settings(old(self)),
            final(self).sink_kept(old(self)),
            final(self).current_spec() == old(self).current_spec(),
            final(self).tick_state_spec() == old(self).tick_state_spec(),
            final(self).is_finish_spec() == old(self).is_finish_spec(),
            used.1 == old(self).layout_width(),
            final(self).drawn(*old(self), used.0 as nat, used.1 as nat, force),
    {
        let now = nanos_since(&self.origin);
        let w = self.width();
        self.draw_at(now, w, force);
        (now, w)
    }

    /// A draw request now: skipped while the refresh interval since the
    /// last redraw has not passed and the count is below the total.
    /// Returns the clock reading the request was made at.
    pub fn draw(&mut self) -> (now: u64)
        requires
            old(self).wf(),
        ensures
            final(self).wf(),
            final(self).same_settings(old(self)),
            final(self).sink_kept(old(self)),
            final(self).current_spec() == old(self).current_spec(),
            final(self).tick_state_spec() == old(self).tick_state_spec(),
            final(self).is_finish_spec() == old(self).is_finish_spec(),
            final(self).drawn(*old(self), now as nat, old(self).layout_width(), false),
    {
        let used = self.draw_now(false);
        used.0
    }

    /// Moves the tick on and, unless the count has passed the total, asks
    /// for a redraw.
    pub fn tick(&mut self)
        requires
            old(self).wf(),
        ensures
            final(self).wf(),
            Self::advanced(*old(self), *final(self), old(self).current_spec()),
    {
        let n = self.tick.len();
        self.tick_state = (self.tick_state + 1) % n;
        if self.current <= self.total {
            let used = self.draw_now(false);
            assert(used.1 == old(self).layout_width());
            assert(self.drawn_after(
                old(self).last_refresh as int,
                old(self).handle.taken(),
                used.0 as nat,
                old(self).layout_width(),
                false,
            ));
        }
    }

    /// Adds `i` to the count, saturating at `u64::MAX`, then ticks; returns
    /// the new count.
    pub fn add(&mut self, i: u64) -> (r: u64)
        requires
            old(self).wf(),
        ensures
            final(self).wf(),
            Self::advanced(*old(self), *final(self), sat_add(old(self).current_spec(), i as nat)),
            r == final(self).current_spec(),
    {
        self.current = if i > u64::MAX - self.current {
            u64::MAX
        } else {
            self.current + i
        };
        let ghost mid = *self;
        self.tick();
        proof {
            if mid.current <= mid.total {
                self.lemma_redrawn_from(mid, *old(self));
            }
        }
        self.current
    }

    /// Sets the count to `i`, then ticks; returns the new count.
    pub fn set(&mut self, i: u64) -> (r: u64)
        requires
            old(self).wf(),
        ensures
            final(self).wf(),
            Self::advanced(*old(self), *final(self), i as nat),
            r == i,
    {
        self.current = i;
        let ghost mid = *self;
        self.tick();
        proof {
            if mid.current <= mid.total {
                self.lemma_redrawn_from(mid, *old(self));
            }
        }
        self.current
    }

    /// Adds one to the count, as `add(1)` does.
    pub fn inc(&mut self) -> (r: u64)
        requires
            old(self).wf(),
        ensures
            final(self).wf(),
            Self::advanced(*old(self), *final(self), sat_add(old(self).current_spec(), 1)),
            r == final(self).current_spec(),
    {
        self.add(1)
    }

    /// Counts the bytes of `buf` as done, as `add(buf.len())` does; returns
    /// their number.
    pub fn write(&mut self, buf: &[u8]) -> (r: usize)
        requires
            old(self).wf(),
        ensures
            final(self).wf(),
            Self::advanced(*old(self), *final(self), sat_add(old(self).current_spec(), buf@.len())),
            r == buf@.len(),
    {
        let n = buf.len();
        self.add(n as u64);
        n
    }

    /// Raises the count to the total if below it, draws one last frame
    /// whatever the refresh interval, and marks the bar finished.
    fn finish_draw(&mut self) -> (used: (u64, usize))
        requires
            old(self).wf(),
        ensures
            final(self).wf(),
            final(self).same_settings(old(self)),
            final(self).sink_kept(old(self)),
            final(self).tick_state_spec() == old(self).tick_state_spec(),
            final(self).current_spec() == if old(self).current_spec() < old(self).total_spec() {
                old(self).total_spec()
            } else {
                old(self).current_spec()
            },
            final(self).is_finish_spec(),
            used.1 == old(self).layout_width(),
            final(self).last_refresh_spec() == used.0,
            final(self).emitted_spec() == old(self).emitted_spec().push(
                final(self).frame(used.1 as nat, used.0 as nat),
            ),
    {
        if self.current < self.total {
            self.current = self.total;
        }
        let used = self.draw_now(true);
        let ghost drawn = *self;
        self.is_finish = true;
        proof {
            drawn.lemma_frame_same(*self, used.1 as nat, used.0 as nat);
        }
        used
    }

    /// Finishes the bar: the count reaches the total, one last frame is
    /// drawn, and the sink is told with an empty text.
    pub fn finish(&mut self)
        requires
            old(self).wf(),
        ensures
            Self::finished_with(*old(self), *final(self), seq![Seq::empty()]),
    {
        proof {
            reveal_strlit("");
        }
        let used = self.finish_draw();
        let ghost mid = *self;
        assert(""@ =~= Seq::<char>::empty());
        self.emit("");
        proof {
            mid.lemma_frame_same(*self, used.1 as nat, used.0 as nat);
            assert(self.emitted_spec() =~= old(self).emitted_spec().push(
                self.frame(used.1 as nat, used.0 as nat),
            ) + seq![Seq::<char>::empty()]);
        }
    }

    /// Finishes the bar and puts `s`, padded to the line width, in its place.
    pub fn finish_print(&mut self, s: &str)
        requires
            old(self).wf(),
        ensures
            Self::finished_with(*old(self), *final(self), print_tail(s@, old(self).layout_width())),
    {
        proof {
            reveal_strlit("");
            reveal_strlit("\r");
        }
        let w = self.width();
        let used = self.finish_draw();
        let ghost mid = *self;
        let mut body = s.to_owned();
        pad_to(&mut body, w);
        let mut text = String::from_str("\r");
        text.append(body.as_str());
        assert(text@ =~= seq!['\r'] + padded(s@, w as nat));
        assert(""@ =~= Seq::<char>::empty());
        self.emit(text.as_str());
        self.emit("");
        proof {
            mid.lemma_frame_same(*self, used.1 as nat, used.0 as nat);
            assert(self.emitted_spec() =~= old(self).emitted_spec().push(
                self.frame(used.1 as nat, used.0 as nat),
            ) + print_tail(s@, w as nat));
        }
    }

    /// Finishes the bar and writes `s` on the line below it. A bar that is
    /// one of several finishes as `finish_print` does instead, since a new
    /// line would break the shared display.
    pub fn finish_println(&mut self, s: &str)
        requires
            old(self).wf(),
        ensures
            old(self).is_multibar_spec() ==> Self::finished_with(
                *old(self),
                *final(self),
                print_tail(s@, old(self).layout_width()),
            ),
            !old(self).is_multibar_spec() ==> Self::finished_with(
                *old(self),
                *final(self),
                seq![seq!['\n'] + s@],
            ),
    {
        if self.is_multibar {
            self.finish_print(s);
            return;
        }
        proof {
            reveal_strlit("\n");
        }
        let used = self.finish_draw();
        let ghost mid = *self;
        let mut text = String::from_str("\n");
        text.append(s);
        assert(text@ =~= seq!['\n'] + s@);
        self.emit(text.as_str());
        proof {
            mid.lemma_frame_same(*self, used.1 as nat, used.0 as nat);
            assert(self.emitted_spec() =~= old(self).emitted_spec().push(
                self.frame(used.1 as nat, used.0 as nat),
            ) + seq![seq!['\n'] + s@]);
        }
    }
}

/// What `finish_print` hands to the sink after the last frame: `s` padded
/// to `width` columns in place of the bar, then the empty text.
pub open spec fn print_tail(s: Seq<char>, width: nat) -> Seq<Seq<char>> {
    seq![seq!['\r'] + padded(s, width), Seq::empty()]
}

impl<T: ProgressSink> ProgressBar<T> {
    /// Without a refresh interval, a draw request emits one frame, laid out
    /// at the width of the bar before the request.
    pub proof fn lemma_unthrottled(self, old: Self)
        requires
            self.redrawn(old, false),
            self.max_refresh_rate_spec() is None,
        ensures
            exists|now: nat|
                self.emitted_spec() == old.emitted_spec().push(
                    #[trigger] self.frame(old.layout_width(), now),
                ),
    {
        let now = choose|now: nat|
            #[trigger] self.drawn_after(
                old.last_refresh as int,
                old.handle.taken(),
                now,
                old.layout_width(),
                false,
            );
        assert(self.emitted_spec() == old.emitted_spec().push(
            self.frame(old.layout_width(), now),
        ));
    }

    /// The line is the prefix, the bar and the suffix, padded to the width;
    /// a frame is a carriage return and the line at the elapsed time.
    pub proof fn lemma_line_parts(self, width: nat, now: nat)
        ensures
            self.frame(width, now) == seq!['\r'] + self.line(
                width,
                elapsed(self.start_spec(), now),
            ),
            forall|e: nat|
                #[trigger] self.line(width, e) == padded(
                    self.prefix() + self.bar_box(width, e) + self.suffix(e),
                    width,
                ),
    {
        reveal(ProgressBar::line);
    }

    /// A redraw after `mid` is one after `old` too, when the two differ only
    /// in the count.
    proof fn lemma_redrawn_from(self, mid: Self, old: Self)
        requires
            mid == (ProgressBar { current: mid.current, ..old }),
            self.redrawn(mid, false),
        ensures
            self.redrawn(old, false),
    {
        let now = choose|now: nat|
            #[trigger] self.drawn_after(
                mid.last_refresh as int,
                mid.handle.taken(),
                now,
                mid.layout_width(),
                false,
            );
        assert(mid.layout_width() == old.layout_width());
        assert(self.drawn_after(
            old.last_refresh as int,
            old.handle.taken(),
            now,
            old.layout_width(),
            false,
        ));
    }

    /// Lines agree for bars that agree on settings and count, and on the
    /// tick position too where the tick is shown.
    pub proof fn lemma_line_same(self, o: Self, width: nat, e: nat)
        requires
            o.same_settings(&self),
            o.current_spec() == self.current_spec(),
            self.show_tick_spec() ==> o.tick_state_spec() == self.tick_state_spec(),
            self.show_tick_spec() ==> self.wf(),
        ensures
            o.line(width, e) == self.line(width, e),
    {
        reveal(ProgressBar::line);
        self.lemma_settings_fields(o);
        assert(o.prefix() == self.prefix());
        assert(o.suffix_parts(e) == self.suffix_parts(e));
    }

    /// With the percent box shown and a nonzero total, the text right of the
    /// bar opens with the count's share of the total in percent, rounded to
    /// hundredths, and a percent sign.
    pub proof fn lemma_percent_rendered(self, e: nat)
        requires
            self.shows_percent(),
            self.total_spec() > 0,
        ensures
            ({
                let p = fixed2(round_div(self.current_spec() * 10000, self.total_spec())) + seq![
                    ' ',
                    '%',
                ];
                self.suffix(e).subrange(1, 1 + p.len() as int) == p
            }),
    {
        let parts = self.suffix_parts(e);
        let p = percent_text(self.current as nat, self.total as nat);
        assert(parts[0] == p);
        lemma_join_first(parts);
        let j = join_parts(parts);
        assert(self.suffix(e).subrange(1, 1 + p.len() as int) =~= j.subrange(0, p.len() as int));
    }

    /// After the first `i` additions of `incs`, the count is the saturated
    /// sum so far and the settings are unchanged.
    proof fn lemma_adds_prefix(bars: Seq<Self>, incs: Seq<nat>, i: nat)
        requires
            bars.len() == incs.len() + 1,
            i <= incs.len(),
            forall|j: int|
                0 <= j < incs.len() ==> Self::advanced(
                    #[trigger] bars[j],
                    bars[j + 1],
                    sat_add(bars[j].current_spec(), incs[j]),
                ),
        ensures
            bars[i as int].current_spec() == sat_add(
                bars[0].current_spec(),
                sum_of(incs.subrange(0, i as int)),
            ),
            bars[i as int].same_settings(&bars[0]),
        decreases i,
    {
        if i == 0 {
            assert(sum_of(incs.subrange(0, 0)) == 0);
        } else {
            let j = (i - 1) as int;
            Self::lemma_adds_prefix(bars, incs, (i - 1) as nat);
            assert(Self::advanced(bars[j], bars[j + 1], sat_add(bars[j].current_spec(), incs[j])));
            assert(incs.subrange(0, i as int).drop_last() =~= incs.subrange(0, j));
        }
    }

    /// Adding the numbers `incs` one at a time leaves the same count as
    /// adding their sum at once and, with the tick hidden, the same line.
    pub proof fn lemma_adds_compose(bars: Seq<Self>, incs: Seq<nat>, one: Self)
        requires
            bars.len() == incs.len() + 1,
            sum_of(incs) <= u64::MAX,
            forall|i: int|
                0 <= i < incs.len() ==> Self::advanced(
                    #[trigger] bars[i],
                    bars[i + 1],
                    sat_add(bars[i].current_spec(), incs[i]),
                ),
            Self::advanced(bars[0], one, sat_add(bars[0].current_spec(), sum_of(incs))),
        ensures
            bars.last().current_spec() == one.current_spec(),
            !bars[0].show_tick_spec() ==> forall|w: nat, e: nat|
                #[trigger] bars.last().line(w, e) == one.line(w, e),
    {
        Self::lemma_adds_prefix(bars, incs, incs.len());
        assert(incs.subrange(0, incs.len() as int) =~= incs);
        let last = bars.last();
        assert(last == bars[incs.len() as int]);
        if !bars[0].show_tick {
            assert forall|w: nat, e: nat| #[trigger] bars.last().line(w, e) == one.line(w, e) by {
                last.lemma_line_same(one, w, e);
            }
        }
    }

    /// With a refresh interval `d`, of two draw requests that are not
    /// forced, come less than `d` apart, and find the count below the total,
    /// at most one emits a frame.
    pub proof fn lemma_throttle(
        b0: Self,
        b1: Self,
        b2: Self,
        d: u64,
        t1: nat,
        t2: nat,
        w1: nat,
        w2: nat,
    )
        requires
            b1.max_refresh_rate_spec() == Some(d),
            b2.max_refresh_rate_spec() == Some(d),
            b1.drawn(b0, t1, w1, false),
            b2.drawn(b1, t2, w2, false),
            t1 <= t2 < t1 + d,
            b2.current_spec() < b2.total_spec(),
        ensures
            b2.emitted_spec().len() <= b0.emitted_spec().len() + 1,
    {
    }

    /// Finishing a bar whose count has not passed the total leaves the count
    /// at the total, the bar finished, and one more frame followed by the
    /// texts of `tail`.
    pub proof fn lemma_finish_complete(old: Self, new: Self, tail: Seq<Seq<char>>)
        requires
            Self::finished_with(old, new, tail),
            old.current_spec() <= old.total_spec(),
        ensures
            new.current_spec() == new.total_spec(),
            new.is_finish_spec(),
            new.emitted_spec().len() == old.emitted_spec().len() + 1 + tail.len(),
            exists|now: nat|
                #[trigger] new.frame(old.layout_width(), now)
                    == new.emitted_spec()[old.emitted_spec().len() as int],
    {
        let now = choose|now: nat|
            now <= u64::MAX && new.last_refresh_spec() == now && new.emitted_spec()
                == old.emitted_spec().push(#[trigger] new.frame(old.layout_width(), now)) + tail;
        assert(new.frame(old.layout_width(), now)
            == new.emitted_spec()[old.emitted_spec().len() as int]);
    }

    /// With only the bar shown and each bar glyph a single character, the
    /// line on a terminal of `w` columns, `w` at least one, is `w` characters
    /// long.
    pub proof fn lemma_bar_only_width(self, w: nat, e: nat)
        requires
            self.shows_only_bar(),
            w >= 1,
            forall|i: int| 0 <= i < 5 ==> (#[trigger] self.glyphs()[i]).len() == 1,
        ensures
            self.line(w, e).len() == w,
    {
        reveal(ProgressBar::line);
        assert(self.suffix_parts(e) =~= Seq::<Seq<char>>::empty());
        let suffix = self.suffix(e);
        assert(suffix =~= seq![' ']);
        assert(self.prefix() =~= Seq::<char>::empty());
        let g = self.glyphs();
        assert(g[0] == self.bar_start@ && g[1] == self.bar_current@ && g[2] == self.bar_current_n@
            && g[3] == self.bar_remain@ && g[4] == self.bar_end@);
        assert(g[0].len() == 1 && g[1].len() == 1 && g[2].len() == 1 && g[3].len() == 1
            && g[4].len() == 1);
        let body = self.prefix() + self.bar_box(w, e) + suffix;
        if 4 < w {
            let size = (w - 4) as nat;
            let fill = fill_count(self.current as nat, self.total as nat, size);
            let rest = (size - fill) as nat;
            assert(fill <= size) by (nonlinear_arith)
                requires
                    fill == fill_count(self.current as nat, self.total as nat, size),
            {
                if self.total > 0 && !(self.current * size >= self.total * size) {
                    assert((self.current * size + self.total - 1) / (self.total as int) <= size);
                }
            }
            lemma_repeat(self.bar_current@, fill);
            lemma_repeat(self.bar_current@, (fill - 1) as nat);
            lemma_repeat(self.bar_remain@, rest);
            assert(self.bar_cells(size).len() == size + 2);
            assert(body.len() == w - 1);
        } else {
            assert(body =~= seq![' ']);
        }
    }

    /// Setting a format of exactly five characters and reading the five
    /// glyphs back in order gives the format again.
    pub proof fn lemma_format_round_trip(self, fmt: Seq<char>)
        requires
            fmt.len() == 5,
            self.glyphs() == seq![
                fmt.subrange(0, 1),
                fmt.subrange(1, 2),
                fmt.subrange(2, 3),
                fmt.subrange(3, 4),
                fmt.subrange(4, 5),
            ],
        ensures
            self.glyphs()[0] + self.glyphs()[1] + self.glyphs()[2] + self.glyphs()[3]
                + self.glyphs()[4] == fmt,
    {
        let g = self.glyphs();
        assert(g[0] == fmt.subrange(0, 1));
        assert(g[1] == fmt.subrange(1, 2));
        assert(g[2] == fmt.subrange(2, 3));
        assert(g[3] == fmt.subrange(3, 4));
        assert(g[4] == fmt.subrange(4, 5));
        assert(g[0] + g[1] + g[2] + g[3] + g[4] =~= fmt);
    }
}

/// The sum of `s`.
pub open spec fn sum_of(s: Seq<nat>) -> nat
    decreases s.len(),
{
    if s.len() == 0 {
        0
    } else {
        sum_of(s.drop_last()) + s.last()
    }
}

} // verus!
