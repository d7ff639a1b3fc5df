//! The relay engine: the decisions of the byte pump between the local
//! terminal and the remote channel. The caller performs the reads and writes
//! and reports each event; the engine says what to write and when to stop.

use vstd::prelude::*;
use crate::cpr::{CprFilter, FilterPhase, filter_control_sequences, cpr_filtered, filter_step};

verus! {

/// Ctrl-C (`ETX`): ends the session locally.
pub const INTERRUPT_BYTE: u8 = 0x03;

/// Ctrl-D (`EOT`): ends the session locally.
pub const END_OF_INPUT_BYTE: u8 = 0x04;

/// A local byte that ends the session instead of being forwarded.
pub open spec fn is_exit_byte(b: u8) -> bool {
    b == INTERRUPT_BYTE || b == END_OF_INPUT_BYTE
}

/// Where the engine stands.
#[derive(Clone, Copy, Debug, PartialEq, Eq, Structural)]
pub enum RelayPhase {
    /// Created; the two paths are not running yet.
    Starting,
    /// Both paths pump bytes.
    Running,
    /// A reason to stop has come; the counterpart path is being joined.
    Draining,
    /// The channel is closed; the engine takes no more events.
    Closed,
}

/// One of the two data paths.
#[derive(Clone, Copy, Debug, PartialEq, Eq, Structural)]
pub enum Direction {
    /// Keystrokes from the local terminal to the remote channel.
    LocalToRemote,
    /// Output from the remote channel to the local terminal.
    RemoteToLocal,
}

/// Why the engine left `Running`.
#[derive(Clone, Copy, Debug, PartialEq, Eq, Structural)]
pub enum StopReason {
    /// The local user typed Ctrl-C or Ctrl-D.
    Interrupted,
    /// The remote channel ended (a read of zero bytes).
    RemoteEnd,
    /// A read or write failed on the given path.
    IoError(Direction),
}

/// Which paths run through the report filter. The input path is open to
/// question (reports typed locally are normally answers the remote asked
/// for), so each path is chosen on its own.
#[derive(Clone, Copy, Debug, PartialEq, Eq, Structural)]
pub struct FilterPoints {
    /// Filter local keystrokes, byte by byte, before they are sent.
    pub filter_input: bool,
    /// Filter each block of remote output before it is shown.
    pub filter_output: bool,
}

/// What the caller is to do after an event.
#[derive(Clone, Debug)]
pub enum Transfer {
    /// Write these bytes to the other end of the path.
    Send(Vec<u8>),
    /// Nothing to write; keep pumping.
    Nothing,
    /// Stop pumping: the engine is draining.
    Stop,
}

/// The bytes a transfer asks to write.
pub open spec fn sent(t: Transfer) -> Seq<u8> {
    match t {
        Transfer::Send(v) => v@,
        _ => Seq::empty(),
    }
}

/// A transfer of the given bytes: `Nothing` when there are none.
pub open spec fn transfer_of(t: Transfer, bytes: Seq<u8>) -> bool {
    if bytes.len() == 0 {
        t is Nothing
    } else {
        t is Send && sent(t) == bytes
    }
}

/// The relay engine of one session.
pub struct RelayEngine {
    phase: RelayPhase,
    points: FilterPoints,
    input_filter: CprFilter,
    stop: Option<StopReason>,
}

impl RelayEngine {
    /// The engine's phase.
    pub closed spec fn spec_phase(&self) -> RelayPhase {
        self.phase
    }

    /// The paths that are filtered.
    pub closed spec fn spec_points(&self) -> FilterPoints {
        self.points
    }

    /// The state of the input path's filter.
    pub closed spec fn spec_filter(&self) -> (FilterPhase, Seq<u8>) {
        self.input_filter@
    }

    /// Why the engine stopped, once it has.
    pub closed spec fn spec_stop(&self) -> Option<StopReason> {
        self.stop
    }

    /// The input filter is well formed, and a stop reason is known exactly
    /// when the engine is past `Running` by one of the events that end it.
    pub closed spec fn wf(&self) -> bool {
        &&& self.input_filter.wf()
        &&& (self.phase == RelayPhase::Draining ==> self.stop is Some)
        &&& (self.phase == RelayPhase::Starting || self.phase == RelayPhase::Running
            ==> self.stop is None)
    }

    /// A new engine in `Starting`, with an idle input filter.
    pub fn new(points: FilterPoints) -> (r: RelayEngine)
        ensures
            r.wf(),
            r.spec_phase() == RelayPhase::Starting,
            r.spec_points() == points,
            r.spec_filter() == (FilterPhase::Idle, Seq::<u8>::empty()),
            r.spec_stop() is None,
    {
        RelayEngine { phase: RelayPhase::Starting, points, input_filter: CprFilter::new(), stop: None }
    }

    /// The engine's phase.
    pub fn phase(&self) -> (r: RelayPhase)
        ensures
            r == self.spec_phase(),
    {
        self.phase
    }

    /// Why the engine stopped, once it has.
    pub fn stop_reason(&self) -> (r: Option<StopReason>)
        ensures
            r == self.spec_stop(),
    {
        self.stop
    }

    /// Both paths are up: `Starting` becomes `Running`; any other phase stays.
    pub fn start(&mut self)
        requires
            old(self).wf(),
        ensures
            final(self).wf(),
            final(self).spec_phase() == if old(self).spec_phase() == RelayPhase::Starting {
                RelayPhase::Running
            } else {
                old(self).spec_phase()
            },
            final(self).spec_points() == old(self).spec_points(),
            final(self).spec_filter() == old(self).spec_filter(),
            final(self).spec_stop() == old(self).spec_stop(),
    {
        if self.phase == RelayPhase::Starting {
            self.phase = RelayPhase::Running;
        }
    }

    /// Leaves `Running` (or `Starting`) for `Draining` with the given reason;
    /// a later reason does not replace the first.
    fn begin_drain(&mut self, reason: StopReason)
        requires
            old(self).wf(),
        ensures
            final(self).wf(),
            final(self).spec_points() == old(self).spec_points(),
            final(self).spec_filter() == old(self).spec_filter(),
            old(self).spec_phase() == RelayPhase::Starting || old(self).spec_phase()
                == RelayPhase::Running ==> final(self).spec_phase() == RelayPhase::Draining
                && final(self).spec_stop() == Some(reason),
            !(old(self).spec_phase() == RelayPhase::Starting || old(self).spec_phase()
                == RelayPhase::Running) ==> final(self).spec_phase() == old(self).spec_phase()
                && final(self).spec_stop() == old(self).spec_stop(),
    {
        if self.phase == RelayPhase::Starting || self.phase == RelayPhase::Running {
            self.phase = RelayPhase::Draining;
            self.stop = Some(reason);
        }
    }

    /// A byte read from the local terminal. Outside `Running` it is ignored.
    /// Ctrl-C or Ctrl-D is not forwarded: the engine drains. Any other byte
    /// goes to the remote, through the input filter where that path is
    /// filtered.
    pub fn on_local_byte(&mut self, byte: u8) -> (r: Transfer)
        requires
            old(self).wf(),
        ensures
            final(self).wf(),
            final(self).spec_points() == old(self).spec_points(),
            old(self).spec_phase() != RelayPhase::Running ==> {
                &&& r is Nothing
                &&& final(self).spec_phase() == old(self).spec_phase()
                &&& final(self).spec_filter() == old(self).spec_filter()
                &&& final(self).spec_stop() == old(self).spec_stop()
            },
            old(self).spec_phase() == RelayPhase::Running && is_exit_byte(byte) ==> {
                &&& r is Stop
                &&& final(self).spec_phase() == RelayPhase::Draining
                &&& final(self).spec_stop() == Some(StopReason::Interrupted)
                &&& final(self).spec_filter() == old(self).spec_filter()
            },
            old(self).spec_phase() == RelayPhase::Running && !is_exit_byte(byte) ==> {
                &&& final(self).spec_phase() == RelayPhase::Running
                &&& final(self).spec_stop() == old(self).spec_stop()
                &&& if old(self).spec_points().filter_input {
                    let (p, h, out) = filter_step(
                        old(self).spec_filter().0,
                        old(self).spec_filter().1,
                        byte,
                    );
                    &&& final(self).spec_filter() == (p, h)
                    &&& transfer_of(r, out)
                } else {
                    &&& final(self).spec_filter() == old(self).spec_filter()
                    &&& transfer_of(r, seq![byte])
                }
            },
    {
        if self.phase != RelayPhase::Running {
            return Transfer::Nothing;
        }
        if byte == INTERRUPT_BYTE || byte == END_OF_INPUT_BYTE {
            self.begin_drain(StopReason::Interrupted);
            return Transfer::Stop;
        }
        if self.points.filter_input {
            match self.input_filter.process(byte) {
                Some(bytes) => Transfer::Send(bytes),
                None => Transfer::Nothing,
            }
        } else {
            let out = vec![byte];
            assert(out@ =~= seq![byte]);
            Transfer::Send(out)
        }
    }

    /// A block read from the remote channel; an empty block is the end of
    /// the remote stream, and the engine drains. Outside `Running` it is
    /// ignored. Otherwise the block goes to the local terminal, through the
    /// block filter where that path is filtered.
    pub fn on_remote_data(&mut self, chunk: &[u8]) -> (r: Transfer)
        requires
            old(self).wf(),
        ensures
            final(self).wf(),
            final(self).spec_points() == old(self).spec_points(),
            final(self).spec_filter() == old(self).spec_filter(),
            old(self).spec_phase() != RelayPhase::Running ==> {
                &&& r is Nothing
                &&& final(self).spec_phase() == old(self).spec_phase()
                &&& final(self).spec_stop() == old(self).spec_stop()
            },
            old(self).spec_phase() == RelayPhase::Running && chunk@.len() == 0 ==> {
                &&& r is Stop
                &&& final(self).spec_phase() == RelayPhase::Draining
                &&& final(self).spec_stop() == Some(StopReason::RemoteEnd)
            },
            old(self).spec_phase() == RelayPhase::Running && chunk@.len() > 0 ==> {
                &&& final(self).spec_phase() == RelayPhase::Running
                &&& final(self).spec_stop() == old(self).spec_stop()
                &&& transfer_of(
                    r,
                    if old(self).spec_points().filter_output {
                        cpr_filtered(chunk@)
                    } else {
                        chunk@
                    },
                )
            },
    {
        if self.phase != RelayPhase::Running {
            return Transfer::Nothing;
        }
        if chunk.len() == 0 {
            self.begin_drain(StopReason::RemoteEnd);
            return Transfer::Stop;
        }
        let out = if self.points.filter_output {
            filter_control_sequences(chunk)
        } else {
            let mut copy: Vec<u8> = Vec::with_capacity(chunk.len());
            let mut k: usize = 0;
            while k < chunk.len()
                invariant
                    k <= chunk@.len(),
                    copy@ == chunk@.take(k as int),
                decreases chunk@.len() - k,
            {
                copy.push(chunk[k]);
                k = k + 1;
                assert(copy@ =~= chunk@.take(k as int));
            }
            assert(chunk@.take(chunk@.len() as int) =~= chunk@);
            copy
        };
        if out.len() == 0 {
            Transfer::Nothing
        } else {
            Transfer::Send(out)
        }
    }

    /// A read or write failed on one path: the engine drains, with no retry.
    pub fn on_io_error(&mut self, direction: Direction)
        requires
            old(self).wf(),
        ensures
            final(self).wf(),
            final(self).spec_points() == old(self).spec_points(),
            final(self).spec_filter() == old(self).spec_filter(),
            old(self).spec_phase() == RelayPhase::Starting || old(self).spec_phase()
                == RelayPhase::Running ==> final(self).spec_phase() == RelayPhase::Draining
                && final(self).spec_stop() == Some(StopReason::IoError(direction)),
            !(old(self).spec_phase() == RelayPhase::Starting || old(self).spec_phase()
                == RelayPhase::Running) ==> final(self).spec_phase() == old(self).spec_phase()
                && final(self).spec_stop() == old(self).spec_stop(),
    {
        self.begin_drain(StopReason::IoError(direction));
    }

    /// The counterpart path is joined and the channel closed: `Draining`
    /// becomes `Closed`. Returns whether this call closed the engine.
    pub fn finish(&mut self) -> (r: bool)
        requires
            old(self).wf(),
        ensures
            final(self).wf(),
            r == (old(self).spec_phase() == RelayPhase::Draining),
            final(self).spec_phase() == if r {
                RelayPhase::Closed
            } else {
                old(self).spec_phase()
            },
            final(self).spec_points() == old(self).spec_points(),
            final(self).spec_filter() == old(self).spec_filter(),
            final(self).spec_stop() == old(self).spec_stop(),
    {
        if self.phase == RelayPhase::Draining {
            self.phase = RelayPhase::Closed;
            true
        } else {
            false
        }
    }
}

} // verus!
