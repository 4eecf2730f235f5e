//! The live-session layer: snapshots, commands, the rolling-buffer policy
//! and the controller handle. The background thread and the audio devices
//! live outside this crate; every decision they act on is made here.

pub mod engine;

use vstd::prelude::*;

use crate::audio::capture::{CaptureConfig, LatencyRange};
use crate::pronunciation::{AlignmentReport, CaptureSettings, PronunciationError,
    PronunciationScores, TARGET_SAMPLE_RATE};
use crate::text::format_u64;

verus! {

/// How long one capture poll may wait for a chunk, in milliseconds.
pub const CAPTURE_POLL_MS: u64 = 20;

/// The minimum-signal threshold is the target rate divided by this.
pub const MIN_SIGNAL_FRACTION: usize = 10;

/// A command sent from a controller to the session engine.
#[derive(Debug, Clone, Copy, PartialEq, Eq, Structural)]
pub enum SessionCommand {
    Start,
    Stop,
    Shutdown,
}

/// A complete, immutable description of session state at one point in time.
#[derive(Debug, Clone)]
pub struct SessionSnapshot {
    pub alignment: AlignmentReport,
    pub scores: PronunciationScores,
    pub recording: bool,
    pub reference_playing: bool,
    pub latency_ms: u64,
    pub error: Option<String>,
}

impl SessionSnapshot {
    /// The snapshot before anything has happened.
    pub fn new() -> (r: SessionSnapshot)
        ensures
            r.recording == false,
            r.reference_playing == false,
            r.latency_ms == 0,
            r.error is None,
            r.alignment.phonemes@.len() == 0,
    {
        SessionSnapshot {
            alignment: AlignmentReport::empty(),
            scores: PronunciationScores::empty(),
            recording: false,
            reference_playing: false,
            latency_ms: 0,
            error: None,
        }
    }

    pub fn with_recording(self, recording: bool, playing: bool) -> (r: SessionSnapshot)
        ensures
            r == (SessionSnapshot { recording, reference_playing: playing, ..self }),
    {
        let mut next = self;
        next.recording = recording;
        next.reference_playing = playing;
        next
    }

    pub fn with_error_message(self, message: String) -> (r: SessionSnapshot)
        ensures
            r == (SessionSnapshot { error: Some(message), ..self }),
    {
        let mut next = self;
        next.error = Some(message);
        next
    }

    pub fn with_alignment(self, alignment: AlignmentReport, scores: PronunciationScores) -> (r:
        SessionSnapshot)
        ensures
            r == (SessionSnapshot { alignment, scores, ..self }),
    {
        let mut next = self;
        next.alignment = alignment;
        next.scores = scores;
        next
    }
}

/// Appends a chunk to the rolling buffer, then drops the oldest samples so
/// that at most `max_samples` remain: the buffer always holds the most
/// recent window.
pub fn append_limited(buffer: &mut Vec<i32>, chunk: &Vec<i32>, max_samples: usize)
    requires
        old(buffer)@.len() + chunk@.len() <= usize::MAX,
    ensures
        final(buffer)@ == (old(buffer)@ + chunk@).skip(
            if old(buffer)@.len() + chunk@.len() > max_samples {
                old(buffer)@.len() + chunk@.len() - max_samples
            } else {
                0
            },
        ),
        final(buffer)@.len() <= max_samples,
{
    let ghost joined = old(buffer)@ + chunk@;
    let n = chunk.len();
    for i in 0..n
        invariant
            buffer@ == old(buffer)@ + chunk@.subrange(0, i as int),
            n == chunk@.len(),
            buffer@.len() == old(buffer)@.len() + i,
    {
        buffer.push(chunk[i]);
        proof {
            assert(buffer@ =~= old(buffer)@ + chunk@.subrange(0, i + 1));
        }
    }
    proof {
        assert(buffer@ =~= joined);
    }
    if buffer.len() > max_samples {
        let excess = buffer.len() - max_samples;
        let mut kept: Vec<i32> = Vec::new();
        let total = buffer.len();
        for i in excess..total
            invariant
                total == buffer@.len(),
                excess <= total,
                buffer@ == joined,
                kept@ == buffer@.subrange(excess as int, i as int),
        {
            kept.push(buffer[i]);
            proof {
                assert(kept@ =~= buffer@.subrange(excess as int, i + 1));
            }
        }
        proof {
            assert(kept@ =~= joined.skip(excess as int));
        }
        *buffer = kept;
    } else {
        proof {
            assert(joined.skip(0) =~= joined);
        }
    }
}

/// Samples required in the rolling buffer before an alignment is attempted:
/// about 100 ms of signal at the target rate.
pub fn min_required_samples() -> (r: usize)
    ensures
        r == TARGET_SAMPLE_RATE as int / MIN_SIGNAL_FRACTION as int,
{
    (TARGET_SAMPLE_RATE as usize) / MIN_SIGNAL_FRACTION
}

/// Latency measurement and budget check: records the measured latency and
/// carries an over-budget warning in the error field, clearing a stale
/// error otherwise.
impl SessionSnapshot {
    pub fn with_latency(self, latency_ms: u64, budget_ms: u32) -> (r: SessionSnapshot)
        ensures
            r.latency_ms == latency_ms,
            r.alignment == self.alignment && r.scores == self.scores && r.recording
                == self.recording && r.reference_playing == self.reference_playing,
            latency_ms > budget_ms ==> (r.error matches Some(m) && m@ == latency_message(
                latency_ms as int,
                budget_ms as int,
            )),
            latency_ms <= budget_ms ==> r.error is None,
    {
        let mut next = self;
        next.latency_ms = latency_ms;
        if latency_ms > budget_ms as u64 {
            let mut message = "latency ".to_owned();
            let shown = format_u64(latency_ms);
            message.append(shown.as_str());
            message.append(" ms exceeds budget ");
            let budget = format_u64(budget_ms as u64);
            message.append(budget.as_str());
            message.append(" ms");
            proof {
                reveal_strlit("latency ");
                reveal_strlit(" ms exceeds budget ");
                reveal_strlit(" ms");
                assert(message@ =~= latency_message(latency_ms as int, budget_ms as int));
            }
            next.error = Some(message);
        } else if next.error.is_some() {
            next.error = None;
        }
        next
    }
}

/// The text of an over-budget warning.
pub open spec fn latency_message(latency_ms: int, budget_ms: int) -> Seq<char> {
    "latency "@ + crate::text::spec_decimal(latency_ms) + " ms exceeds budget "@
        + crate::text::spec_decimal(budget_ms) + " ms"@
}

/// A command sent from a controller to the engine; `Shutdown` stands in
/// when the channel is gone.
#[derive(Debug, Clone, Copy, PartialEq, Eq, Structural)]
pub enum RecvPoll {
    Got(SessionCommand),
    Empty,
    Disconnected,
}

/// Relies on `std::sync::mpsc::Sender` as an opaque channel handle.
#[verifier::external_type_specification]
#[verifier::external_body]
#[verifier::reject_recursive_types(T)]
pub struct ExSender<T>(std::sync::mpsc::Sender<T>);

/// Relies on `std::sync::mpsc::Receiver` as an opaque channel handle.
#[verifier::external_type_specification]
#[verifier::external_body]
#[verifier::reject_recursive_types(T)]
pub struct ExReceiver<T>(std::sync::mpsc::Receiver<T>);

/// Relies on `std::sync::mpsc::Sender::clone`: a sender clone feeds the
/// same channel.
pub assume_specification<T>[ <std::sync::mpsc::Sender<T> as std::clone::Clone>::clone ](
    tx: &std::sync::mpsc::Sender<T>,
) -> std::sync::mpsc::Sender<T>;

/// Relies on `std::sync::mpsc::Sender::send`: delivers the command unless
/// the receiving side is gone; the result says which happened.
#[verifier::external_body]
fn send_command(tx: &std::sync::mpsc::Sender<SessionCommand>, command: SessionCommand) -> (r:
    bool) {
    tx.send(command).is_ok()
}

/// Relies on `std::sync::mpsc::Receiver::try_recv`: hands back one queued
/// command without blocking, or reports the channel empty or disconnected.
#[verifier::external_body]
fn try_recv_command(rx: &std::sync::mpsc::Receiver<SessionCommand>) -> (r: RecvPoll) {
    match rx.try_recv() {
        Ok(command) => RecvPoll::Got(command),
        Err(std::sync::mpsc::TryRecvError::Empty) => RecvPoll::Empty,
        Err(std::sync::mpsc::TryRecvError::Disconnected) => RecvPoll::Disconnected,
    }
}

/// What one non-blocking command poll outcome means to the drive loop:
/// a waiting command passes through, an empty channel yields nothing, and
/// a disconnected channel reads as an implicit shutdown.
pub open spec fn interpret_poll_spec(poll: RecvPoll) -> Option<SessionCommand> {
    match poll {
        RecvPoll::Got(command) => Some(command),
        RecvPoll::Empty => None,
        RecvPoll::Disconnected => Some(SessionCommand::Shutdown),
    }
}

/// The verified decision behind `poll_command`.
pub fn interpret_poll(poll: RecvPoll) -> (r: Option<SessionCommand>)
    ensures
        r == interpret_poll_spec(poll),
{
    match poll {
        RecvPoll::Got(command) => Some(command),
        RecvPoll::Empty => None,
        RecvPoll::Disconnected => Some(SessionCommand::Shutdown),
    }
}

/// Non-blocking command check for the drive loop: the channel poll goes
/// through the trusted wrapper, and the outcome is mapped by the
/// contracted `interpret_poll`.
pub fn poll_command(commands: &std::sync::mpsc::Receiver<SessionCommand>) -> Option<
    SessionCommand,
> {
    interpret_poll(try_recv_command(commands))
}

/// What the drive loop does next after one command poll.
#[derive(Debug, Clone, Copy, PartialEq, Eq, Structural)]
pub enum DriveAction {
    KeepPolling,
    StopTake,
    ShutDown,
}

/// The drive loop's dispatch for a polled command: stop ends the take,
/// shutdown ends the whole session, and a redundant start or no command
/// keeps polling.
pub open spec fn drive_decision_spec(command: Option<SessionCommand>) -> DriveAction {
    match command {
        Some(SessionCommand::Shutdown) => DriveAction::ShutDown,
        Some(SessionCommand::Stop) => DriveAction::StopTake,
        _ => DriveAction::KeepPolling,
    }
}

/// The verified dispatch behind the drive loop.
pub fn drive_decision(command: Option<SessionCommand>) -> (r: DriveAction)
    ensures
        r == drive_decision_spec(command),
{
    match command {
        Some(SessionCommand::Shutdown) => DriveAction::ShutDown,
        Some(SessionCommand::Stop) => DriveAction::StopTake,
        _ => DriveAction::KeepPolling,
    }
}

/// Cloneable handle over the send side of the command channel; any number
/// of callers may hold one.
#[derive(Clone)]
pub struct SessionController {
    tx: std::sync::mpsc::Sender<SessionCommand>,
}

impl SessionController {
    /// Wraps the send side of a command channel.
    pub fn new(tx: std::sync::mpsc::Sender<SessionCommand>) -> (r: SessionController) {
        SessionController { tx }
    }

    pub fn start(&self) -> (r: Result<(), PronunciationError>)
        ensures
            r matches Err(e) ==> e.spec_message() == "failed to "@ + "start session"@,
    {
        self.send(SessionCommand::Start, "start session")
    }

    pub fn stop(&self) -> (r: Result<(), PronunciationError>)
        ensures
            r matches Err(e) ==> e.spec_message() == "failed to "@ + "stop session"@,
    {
        self.send(SessionCommand::Stop, "stop session")
    }

    pub fn shutdown(&self) -> (r: Result<(), PronunciationError>)
        ensures
            r matches Err(e) ==> e.spec_message() == "failed to "@ + "shutdown session"@,
    {
        self.send(SessionCommand::Shutdown, "shutdown session")
    }

    /// Sends one command; a closed channel is reported as a plain error,
    /// not retried.
    pub fn send(&self, command: SessionCommand, label: &str) -> (r: Result<
        (),
        PronunciationError,
    >)
        ensures
            r matches Err(e) ==> e.spec_message() == "failed to "@ + label@,
    {
        if send_command(&self.tx, command) {
            Ok(())
        } else {
            let mut message = "failed to ".to_owned();
            message.append(label);
            proof {
                reveal_strlit("failed to ");
            }
            Err(PronunciationError::new(message.as_str()))
        }
    }
}

/// Builds the capture configuration a live capture source is opened with.
pub fn build_capture_config(settings: &CaptureSettings) -> (r: CaptureConfig)
    ensures
        r.device_name is Some <==> settings.device_name is Some,
        r.device_name matches Some(s) ==> settings.device_name matches Some(t) && s@ == t@,
        r.sample_rate == settings.sample_rate,
        r.latency_ms == settings.latency_ms,
        r.duration_ms == 0,
{
    CaptureConfig {
        device_name: clone_device_name(&settings.device_name),
        sample_rate: settings.sample_rate,
        latency_ms: clone_range(&settings.latency_ms),
        duration_ms: 0,
    }
}

/// Copies an inclusive latency window.
pub fn clone_range(range: &LatencyRange) -> (r: LatencyRange)
    ensures
        r == *range,
{
    LatencyRange { min: range.min, max: range.max }
}

fn clone_device_name(name: &Option<String>) -> (r: Option<String>)
    ensures
        r is Some <==> name is Some,
        r matches Some(s) ==> name matches Some(t) && s@ == t@,
{
    match name {
        Some(n) => Some(n.as_str().to_owned()),
        None => None,
    }
}

} // verus!

