//! The application state and its event-driven transitions.
//!
//! Two background producers — the keyboard listener and a fixed-period
//! ticker — feed one ordered queue of events; a single render loop pulls
//! one event at a time and calls into this module. The loop itself, the
//! producer threads, the queue, the serial link and the drawing all live
//! outside the library; this module holds every decision they act on: how
//! a key event changes the input buffer and the message log, when the loop
//! must exit, when a producer stops, and how a freshly read wire block
//! updates the displayed telemetry.

use vstd::prelude::*;

use crate::frame::decode_spec;
use crate::frame::FRAME_LEN;
use crate::metric::metric_scaled;
use crate::metric::derive_metric;
use crate::metric::CpuMetric;
use crate::telemetry::decode_frame;
use crate::telemetry::packet_of;
use crate::telemetry::TelemetryPacket;

verus! {

/// A key event, reduced to what the transitions distinguish.
#[derive(Clone, Copy, PartialEq, Eq, Structural, Debug)]
pub enum Key {
    /// A printable character, or the newline that submits the line.
    Char(char),
    /// The backspace key.
    Backspace,
    /// Any other key: arrows, function keys, and the rest.
    Other,
}

/// One entry of the merged event queue.
#[derive(Clone, Copy, PartialEq, Eq, Structural, Debug)]
pub enum Event {
    /// A key published by the input producer.
    Input(Key),
    /// A redraw pulse published by the tick producer.
    Tick,
}

/// Immutable settings shared read-only with the producers.
#[derive(Clone, Copy, PartialEq, Eq, Structural, Debug)]
pub struct Config {
    /// The key that ends the session.
    pub exit_key: char,
    /// The tick producer's period in milliseconds.
    pub tick_millis: u64,
}

impl Default for Config {
    /// The reference settings: `q` exits, ticks come every 250 ms.
    fn default() -> (c: Config)
        ensures
            c.exit_key == 'q',
            c.tick_millis == 250,
    {
        Config { exit_key: 'q', tick_millis: 250 }
    }
}

/// Whether the render loop still runs; `Exiting` is terminal.
#[derive(Clone, Copy, PartialEq, Eq, Structural, Debug)]
pub enum Phase {
    Running,
    Exiting,
}

/// What the render loop must do after a transition, beyond redrawing.
#[derive(PartialEq, Eq, Debug)]
pub enum Action {
    /// Nothing to transmit: redraw and wait for the next event.
    Render,
    /// Send the submitted line over the serial link.
    Transmit(Vec<char>),
    /// Stop the loop; no further reads or writes.
    Exit,
}

/// The event ends the session: its key is the configured exit key.
pub open spec fn is_exit_event(ev: Event, cfg: Config) -> bool {
    ev matches Event::Input(Key::Char(c)) && c == cfg.exit_key
}

/// The event submits the typed line. The exit key wins if the two collide.
pub open spec fn is_submit_event(ev: Event, cfg: Config) -> bool {
    ev matches Event::Input(Key::Char(c)) && c == '\n' && cfg.exit_key != '\n'
}

/// The event types one character into the buffer.
pub open spec fn is_insert_event(ev: Event, cfg: Config) -> bool {
    ev matches Event::Input(Key::Char(c)) && c != cfg.exit_key && c != '\n'
}

/// The event erases the last typed character.
pub open spec fn is_backspace_event(ev: Event) -> bool {
    ev matches Event::Input(Key::Backspace)
}

/// Everything the render loop owns: the line being typed, the log of
/// submitted lines, the last telemetry that decoded, and the phase.
pub struct AppState {
    /// Characters typed and not yet submitted.
    pub input: Vec<char>,
    /// Every line submitted so far, oldest first; append-only.
    pub messages: Vec<Vec<char>>,
    /// The last packet that decoded, if any ever did.
    pub latest: Option<TelemetryPacket>,
    /// The metric derived from `latest`.
    pub metric: Option<CpuMetric>,
    /// Whether the loop still runs.
    pub phase: Phase,
}

impl AppState {
    /// The displayed metric is exactly the one the latest packet derives:
    /// both are absent until a first decode, then move together.
    pub open spec fn wf(self) -> bool {
        match self.latest {
            Some(t) => self.metric matches Some(m) && m.scaled == metric_scaled(t.idle_counter),
            None => self.metric is None,
        }
    }

    /// A fresh session: nothing typed, nothing logged, nothing decoded.
    pub fn new() -> (s: AppState)
        ensures
            s.input@ == Seq::<char>::empty(),
            s.messages@ == Seq::<Vec<char>>::empty(),
            s.latest is None,
            s.metric is None,
            s.phase is Running,
            s.wf(),
    {
        AppState {
            input: Vec::new(),
            messages: Vec::new(),
            latest: None,
            metric: None,
            phase: Phase::Running,
        }
    }

    /// Feeds one 13-byte wire block into the state: a block that decodes
    /// replaces the displayed telemetry and its metric; a malformed block
    /// changes nothing, leaving the previous values on display.
    pub fn apply_frame(&mut self, block: &Vec<u8>) -> (decoded: bool)
        requires
            block@.len() == FRAME_LEN,
            old(self).wf(),
        ensures
            final(self).wf(),
            final(self).input@ == old(self).input@,
            final(self).messages.deep_view() == old(self).messages.deep_view(),
            final(self).phase == old(self).phase,
            decoded <==> decode_spec(block@) is Ok,
            if decode_spec(block@) is Ok {
                &&& final(self).latest == Some(packet_of(decode_spec(block@)->Ok_0))
                &&& (final(self).metric matches Some(m) && m.scaled == metric_scaled(
                    packet_of(decode_spec(block@)->Ok_0).idle_counter,
                ))
            } else {
                &&& final(self).latest == old(self).latest
                &&& final(self).metric == old(self).metric
            },
    {
        match decode_frame(block) {
            Ok(packet) => {
                let m = derive_metric(packet.idle_counter);
                self.latest = Some(packet);
                self.metric = Some(m);
                true
            },
            Err(_) => false,
        }
    }

    /// Applies one event pulled from the queue while the loop runs.
    ///
    /// The exit key moves the phase to its terminal state; a newline
    /// drains the whole typed line into the log and hands it back for
    /// transmission, leaving the buffer empty; any other character is
    /// appended to the buffer; backspace removes the last character and
    /// does nothing on an empty buffer; every other key, and a tick,
    /// changes nothing. Telemetry is never touched by events.
    pub fn handle_event(&mut self, ev: Event, cfg: &Config) -> (a: Action)
        requires
            old(self).phase is Running,
            old(self).wf(),
        ensures
            final(self).wf(),
            final(self).latest == old(self).latest,
            final(self).metric == old(self).metric,
            if is_exit_event(ev, *cfg) {
                &&& final(self).phase is Exiting
                &&& final(self).input@ == old(self).input@
                &&& final(self).messages.deep_view() == old(self).messages.deep_view()
                &&& a is Exit
            } else if is_submit_event(ev, *cfg) {
                &&& final(self).phase is Running
                &&& final(self).input@ == Seq::<char>::empty()
                &&& final(self).messages.deep_view() == old(self).messages.deep_view().push(
                    old(self).input.deep_view(),
                )
                &&& (a matches Action::Transmit(line) && line@ == old(self).input@)
            } else if is_insert_event(ev, *cfg) {
                &&& final(self).phase is Running
                &&& (ev matches Event::Input(Key::Char(c)) && final(self).input@ == old(
                    self,
                ).input@.push(c))
                &&& final(self).messages.deep_view() == old(self).messages.deep_view()
                &&& a is Render
            } else if is_backspace_event(ev) {
                &&& final(self).phase is Running
                &&& (if old(self).input@.len() == 0 {
                    final(self).input@ == old(self).input@
                } else {
                    final(self).input@ == old(self).input@.drop_last()
                })
                &&& final(self).messages.deep_view() == old(self).messages.deep_view()
                &&& a is Render
            } else {
                &&& final(self).phase is Running
                &&& final(self).input@ == old(self).input@
                &&& final(self).messages.deep_view() == old(self).messages.deep_view()
                &&& a is Render
            },
    {
        match ev {
            Event::Input(key) => match key {
                Key::Char(c) => {
                    if c == cfg.exit_key {
                        self.phase = Phase::Exiting;
                        Action::Exit
                    } else if c == '\n' {
                        let mut line: Vec<char> = Vec::new();
                        core::mem::swap(&mut self.input, &mut line);
                        let echo = clone_chars(&line);
                        self.messages.push(line);
                        proof {
                            assert(self.messages.deep_view() =~= old(
                                self,
                            ).messages.deep_view().push(old(self).input.deep_view()));
                        }
                        Action::Transmit(echo)
                    } else {
                        self.input.push(c);
                        Action::Render
                    }
                },
                Key::Backspace => {
                    if self.input.len() > 0 {
                        self.input.pop();
                        proof {
                            assert(self.input@ =~= old(self).input@.drop_last());
                        }
                    }
                    Action::Render
                },
                Key::Other => Action::Render,
            },
            Event::Tick => Action::Render,
        }
    }
}

/// Copies a line of characters.
fn clone_chars(v: &Vec<char>) -> (r: Vec<char>)
    ensures
        r@ == v@,
{
    let mut r: Vec<char> = Vec::new();
    let mut i: usize = 0;
    while i < v.len()
        invariant
            0 <= i <= v@.len(),
            r@ == v@.subrange(0, i as int),
        decreases v@.len() - i,
    {
        r.push(v[i]);
        proof {
            assert(r@ =~= v@.subrange(0, i + 1));
        }
        i += 1;
    }
    proof {
        assert(r@ =~= v@);
    }
    r
}

/// One step of the input producer: it publishes every key as an event and
/// keeps running exactly until it has published the exit key, after which
/// no further input events are produced.
pub fn input_producer_step(key: Key, cfg: &Config) -> (r: (Event, bool))
    ensures
        r.0 == Event::Input(key),
        r.1 <==> !is_exit_event(Event::Input(key), *cfg),
{
    let keep_running = match key {
        Key::Char(c) => c != cfg.exit_key,
        Key::Backspace => true,
        Key::Other => true,
    };
    (Event::Input(key), keep_running)
}

} // verus!
