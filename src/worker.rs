//! The recording state machine of the capture worker.
//!
//! The worker owns the accumulator. Whoever drives it hands it one event at a
//! time (a command, a chunk of mono samples, a quiet poll, the loss of the
//! sample source) and carries out the action it answers with.

use vstd::prelude::*;
use crate::WHISPER_SAMPLE_RATE;
use crate::resample::{lemma_constant_resamples_to_constant, resample_simple, resampled, resampled_len};
use crate::trim::{lemma_zero_clip_trims_to_empty, trim_silence, trimmed, TRIM_PADDING};

verus! {

/// Amplitude at or below which a sample counts as silence: 0.01 of full scale.
pub const SILENCE_THRESHOLD: i32 = 10_000;

/// An operator request to the worker.
#[derive(Clone, Copy, Debug, PartialEq, Eq, Structural)]
pub enum Command {
    /// Begin a recording from an empty accumulator.
    Start,
    /// End the recording and deliver the finished clip.
    Stop,
    /// Leave the control loop for good.
    Shutdown,
}

/// What reaches the worker in one turn of its loop.
pub enum Event {
    Command(Command),
    /// A chunk of mono samples at the device rate.
    Samples(Vec<i32>),
    /// No chunk arrived within the poll interval.
    Timeout,
    /// The sample source is gone.
    Disconnected,
}

/// The model of an `Event`.
pub enum Input {
    Command(Command),
    Samples(Seq<i32>),
    Timeout,
    Disconnected,
}

impl View for Event {
    type V = Input;

    open spec fn view(&self) -> Input {
        match self {
            Event::Command(c) => Input::Command(*c),
            Event::Samples(v) => Input::Samples(v@),
            Event::Timeout => Input::Timeout,
            Event::Disconnected => Input::Disconnected,
        }
    }
}

/// What the worker asks its driver to do after an event.
#[derive(Debug, PartialEq, Eq)]
pub enum Action {
    /// Go on polling.
    Continue,
    /// Send this clip once on the pending stop request's reply channel.
    Reply(Vec<i32>),
    /// Leave the loop.
    Exit,
}

/// The model of an `Action`.
pub enum Outcome {
    Continue,
    Reply(Seq<i32>),
    Exit,
}

impl View for Action {
    type V = Outcome;

    open spec fn view(&self) -> Outcome {
        match self {
            Action::Continue => Outcome::Continue,
            Action::Reply(v) => Outcome::Reply(v@),
            Action::Exit => Outcome::Exit,
        }
    }
}

/// Where the worker stands.
#[derive(Clone, Copy, Debug, PartialEq, Eq, Structural)]
pub enum Phase {
    Idle,
    Recording,
    Terminated,
}

/// The model of a worker: its phase, the device rate and the accumulator.
pub struct WorkerModel {
    pub phase: Phase,
    pub rate: nat,
    pub buffer: Seq<i32>,
}

/// The clip that a recording of `buffer` at `rate` Hz yields: converted to the
/// delivery rate, then trimmed of silence.
pub open spec fn finished(buffer: Seq<i32>, rate: nat) -> Seq<i32> {
    trimmed(
        resampled(buffer, rate, WHISPER_SAMPLE_RATE as nat),
        SILENCE_THRESHOLD,
        TRIM_PADDING as nat,
    )
}

/// An accumulator of `len` samples at `rate` Hz can be held and converted.
pub open spec fn fits(len: nat, rate: nat) -> bool {
    &&& len <= usize::MAX
    &&& resampled_len(len, rate, WHISPER_SAMPLE_RATE as nat) <= usize::MAX
}

/// A worker that has just been created for a device running at `rate` Hz.
pub open spec fn initial(rate: nat) -> WorkerModel {
    WorkerModel { phase: Phase::Idle, rate, buffer: Seq::empty() }
}

/// The state a worker moves to on `input`, and what it asks of its driver.
/// A terminated worker stays so and asks to exit. Samples are kept only while
/// recording, and a chunk that would make the accumulator too long to hold or
/// convert is dropped.
pub open spec fn next(m: WorkerModel, input: Input) -> (WorkerModel, Outcome) {
    if m.phase == Phase::Terminated {
        (m, Outcome::Exit)
    } else {
        match input {
            Input::Command(Command::Start) => (
                WorkerModel { phase: Phase::Recording, rate: m.rate, buffer: Seq::empty() },
                Outcome::Continue,
            ),
            Input::Command(Command::Stop) => (
                WorkerModel { phase: Phase::Idle, rate: m.rate, buffer: Seq::empty() },
                Outcome::Reply(finished(m.buffer, m.rate)),
            ),
            Input::Command(Command::Shutdown) => (
                WorkerModel { phase: Phase::Terminated, ..m },
                Outcome::Exit,
            ),
            Input::Samples(chunk) => if m.phase == Phase::Recording && fits(
                m.buffer.len() + chunk.len(),
                m.rate,
            ) {
                (WorkerModel { buffer: m.buffer + chunk, ..m }, Outcome::Continue)
            } else {
                (m, Outcome::Continue)
            },
            Input::Timeout => (m, Outcome::Continue),
            Input::Disconnected => (
                WorkerModel { phase: Phase::Terminated, ..m },
                Outcome::Exit,
            ),
        }
    }
}

/// A silent recording (every sample zero) yields an empty clip.
pub proof fn lemma_silent_recording_finishes_empty(buffer: Seq<i32>, rate: nat)
    requires
        rate > 0,
        forall|i: int| 0 <= i < buffer.len() ==> buffer[i] == 0,
    ensures
        finished(buffer, rate) == Seq::<i32>::empty(),
{
    let r = resampled(buffer, rate, WHISPER_SAMPLE_RATE as nat);
    lemma_constant_resamples_to_constant(buffer, 0, rate, WHISPER_SAMPLE_RATE as nat);
    lemma_zero_clip_trims_to_empty(r, SILENCE_THRESHOLD, TRIM_PADDING as nat);
}

/// A `Stop` that reaches a worker before any `Start` is answered with an empty clip.
pub proof fn lemma_stop_before_start_replies_empty(rate: nat)
    requires
        rate > 0,
    ensures
        next(initial(rate), Input::Command(Command::Stop)).1 == Outcome::Reply(Seq::<i32>::empty()),
{
    lemma_silent_recording_finishes_empty(Seq::empty(), rate);
}

/// A `Start` forgets everything before it: the state it leads to depends on the
/// device rate alone.
pub proof fn lemma_start_forgets_history(m1: WorkerModel, m2: WorkerModel)
    requires
        m1.rate == m2.rate,
        m1.phase != Phase::Terminated,
        m2.phase != Phase::Terminated,
    ensures
        next(m1, Input::Command(Command::Start)).0 == next(m2, Input::Command(Command::Start)).0,
        next(m1, Input::Command(Command::Start)).0 == (WorkerModel {
            phase: Phase::Recording,
            rate: m1.rate,
            buffer: Seq::empty(),
        }),
{
}

/// `Start`, samples `a`, `Start`, samples `b`, `Stop`: the clip comes from `b`
/// alone; what was recorded before the second `Start` is discarded.
pub proof fn lemma_restart_discards_earlier_samples(m: WorkerModel, a: Seq<i32>, b: Seq<i32>)
    requires
        model_wf(m),
        m.phase != Phase::Terminated,
        fits(b.len(), m.rate),
    ensures
        ({
            let s1 = next(m, Input::Command(Command::Start)).0;
            let s2 = next(s1, Input::Samples(a)).0;
            let s3 = next(s2, Input::Command(Command::Start)).0;
            let s4 = next(s3, Input::Samples(b)).0;
            next(s4, Input::Command(Command::Stop)).1 == Outcome::Reply(finished(b, m.rate))
        }),
{
    let s3 = next(next(next(m, Input::Command(Command::Start)).0, Input::Samples(a)).0, Input::Command(Command::Start)).0;
    assert(s3.buffer + b =~= b);
}

/// Starting, recording only silence and stopping yields an empty clip.
pub proof fn lemma_silent_session_replies_empty(m: WorkerModel, chunk: Seq<i32>)
    requires
        model_wf(m),
        m.phase != Phase::Terminated,
        forall|i: int| 0 <= i < chunk.len() ==> chunk[i] == 0,
    ensures
        ({
            let s1 = next(m, Input::Command(Command::Start)).0;
            let s2 = next(s1, Input::Samples(chunk)).0;
            next(s2, Input::Command(Command::Stop)).1 == Outcome::Reply(Seq::<i32>::empty())
        }),
{
    let s1 = next(m, Input::Command(Command::Start)).0;
    let s2 = next(s1, Input::Samples(chunk)).0;
    assert(s1.buffer + chunk =~= chunk);
    lemma_silent_recording_finishes_empty(s2.buffer, m.rate);
    lemma_silent_recording_finishes_empty(Seq::empty(), m.rate);
}

/// `Shutdown` ends the worker from any state, with no reply to anyone.
pub proof fn lemma_shutdown_is_terminal(m: WorkerModel, later: Input)
    ensures
        next(m, Input::Command(Command::Shutdown)).1 == Outcome::Exit,
        next(m, Input::Command(Command::Shutdown)).0.phase == Phase::Terminated,
        next(next(m, Input::Command(Command::Shutdown)).0, later) == (
        next(m, Input::Command(Command::Shutdown)).0,
        Outcome::Exit,
        ),
{
}

/// The recording state machine of the capture worker.
pub struct CaptureWorker {
    sample_rate: u32,
    phase: Phase,
    buffer: Vec<i32>,
}

impl View for CaptureWorker {
    type V = WorkerModel;

    closed spec fn view(&self) -> WorkerModel {
        WorkerModel { phase: self.phase, rate: self.sample_rate as nat, buffer: self.buffer@ }
    }
}

/// Well-formed worker states: a positive rate, an accumulator that can be
/// converted, and samples only while recording.
pub open spec fn model_wf(m: WorkerModel) -> bool {
    &&& m.rate > 0
    &&& fits(m.buffer.len(), m.rate)
    &&& m.phase == Phase::Idle ==> m.buffer.len() == 0
}

/// Converts a recording made at `device_rate` Hz to the delivery rate and trims
/// its silence.
pub fn finish_clip(samples: &[i32], device_rate: u32) -> (clip: Vec<i32>)
    requires
        device_rate > 0,
        fits(samples@.len(), device_rate as nat),
    ensures
        clip@ == finished(samples@, device_rate as nat),
{
    let mut clip = resample_simple(samples, device_rate, WHISPER_SAMPLE_RATE);
    trim_silence(&mut clip, SILENCE_THRESHOLD);
    clip
}

impl CaptureWorker {
    pub open spec fn wf(&self) -> bool {
        model_wf(self@)
    }

    /// An idle worker with an empty accumulator for a device at `sample_rate` Hz.
    pub fn new(sample_rate: u32) -> (w: Self)
        requires
            sample_rate > 0,
        ensures
            w.wf(),
            w@ == initial(sample_rate as nat),
    {
        let w = CaptureWorker { sample_rate, phase: Phase::Idle, buffer: Vec::new() };
        assert(w@.buffer.len() * (WHISPER_SAMPLE_RATE as nat) == 0);
        w
    }

    /// The device rate the worker converts from.
    pub fn sample_rate(&self) -> (r: u32)
        ensures
            r == self@.rate,
    {
        self.sample_rate
    }

    /// Where the worker stands.
    pub fn phase(&self) -> (p: Phase)
        ensures
            p == self@.phase,
    {
        self.phase
    }

    /// Number of samples accumulated so far.
    pub fn buffered_len(&self) -> (n: usize)
        ensures
            n == self@.buffer.len(),
    {
        self.buffer.len()
    }

    /// Applies one event and returns what the driver must do next.
    pub fn step(&mut self, event: Event) -> (action: Action)
        requires
            old(self).wf(),
        ensures
            final(self).wf(),
            final(self)@ == next(old(self)@, event@).0,
            action@ == next(old(self)@, event@).1,
    {
        if self.phase == Phase::Terminated {
            return Action::Exit;
        }
        match event {
            Event::Command(Command::Start) => {
                self.buffer.clear();
                self.phase = Phase::Recording;
                assert(self@.buffer.len() * (WHISPER_SAMPLE_RATE as nat) == 0);
                Action::Continue
            },
            Event::Command(Command::Stop) => {
                let mut taken: Vec<i32> = Vec::new();
                std::mem::swap(&mut taken, &mut self.buffer);
                self.phase = Phase::Idle;
                assert(self@.buffer.len() * (WHISPER_SAMPLE_RATE as nat) == 0);
                let clip = finish_clip(taken.as_slice(), self.sample_rate);
                Action::Reply(clip)
            },
            Event::Command(Command::Shutdown) => {
                self.phase = Phase::Terminated;
                Action::Exit
            },
            Event::Samples(chunk) => {
                if self.phase == Phase::Recording {
                    let total: u128 = self.buffer.len() as u128 + chunk.len() as u128;
                    let fits_now: bool = total <= usize::MAX as u128
                        && total * (WHISPER_SAMPLE_RATE as u128) / (self.sample_rate as u128)
                        <= usize::MAX as u128;
                    assert(fits_now == fits(old(self)@.buffer.len() + chunk@.len(), old(self)@.rate));
                    if fits_now {
                        self.buffer.extend_from_slice(chunk.as_slice());
                        assert(self.buffer@ =~= old(self)@.buffer + chunk@);
                    }
                }
                Action::Continue
            },
            Event::Timeout => Action::Continue,
            Event::Disconnected => {
                self.phase = Phase::Terminated;
                Action::Exit
            },
        }
    }
}

} // verus!
