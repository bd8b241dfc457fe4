//! State of the audio and keystroke capture processes.
//!
//! The caller spawns and kills the processes and reads their output; these
//! types decide the command lines, apply what is read, and keep the
//! activity flags.

use vstd::prelude::*;

use crate::audio_buffer::{AudioBuffer, AudioBufferModel, chunk_payload, model_empty, model_push};
use crate::audio_ipc::Message;
use crate::format::{ascii_chars, decimal_ascii, decimal_string};
use crate::kpm_calculator::{KpmCalculator, KpmModel};
use crate::kpm_ipc::Batch;

verus! {

/// Audio chunk buffer capacity (about one second at 10 ms per chunk).
pub const AUDIO_BUFFER_CAPACITY: usize = 100;

/// Batch interval passed to the keystroke counter, in milliseconds.
pub const KPM_BATCH_INTERVAL_MS: u64 = 50;

/// Sliding window of the rate, in milliseconds.
pub const KPM_WINDOW_DURATION_MS: u64 = 5000;

/// The audio capture process's state.
pub struct AudioState {
    pub buffer: AudioBuffer,
    pub active: bool,
}

/// What a message from the audio capture process did.
#[derive(Debug)]
pub enum AudioEffect {
    /// Format parameters cached.
    ParamsStored,
    /// A chunk was buffered.
    ChunkBuffered,
    /// The buffer's sequence numbers are exhausted; the chunk was dropped.
    ChunkRejected,
    /// The process reported a non-fatal error.
    CaptureError(String),
}

impl AudioState {
    pub open spec fn wf(&self) -> bool {
        self.buffer.wf() && self.buffer@.capacity == AUDIO_BUFFER_CAPACITY
    }

    /// Inactive, with an empty buffer.
    pub fn new() -> (s: AudioState)
        ensures
            s.wf(),
            !s.active,
            s.buffer@ == model_empty(AUDIO_BUFFER_CAPACITY as nat),
    {
        AudioState { buffer: AudioBuffer::new(AUDIO_BUFFER_CAPACITY), active: false }
    }

    /// Marks the capture active and returns the command line to spawn
    /// (`<exe> --device <device>`), or `None` when already active.
    pub fn start(&mut self, exe_path: &str, device_name: &str) -> (args: Option<Vec<String>>)
        ensures
            final(self).active,
            final(self).buffer == old(self).buffer,
            old(self).active ==> args is None,
            !old(self).active ==> args is Some && args->0.deep_view() == seq![
                exe_path@,
                "--device"@,
                device_name@,
            ],
    {
        if self.active {
            return None;
        }
        let mut args: Vec<String> = Vec::new();
        args.push(exe_path.to_owned());
        args.push("--device".to_owned());
        args.push(device_name.to_owned());
        self.active = true;
        assert(args.deep_view() =~= seq![exe_path@, "--device"@, device_name@]);
        Some(args)
    }

    /// Applies a message read from the process.
    pub fn apply_message(&mut self, msg: Message) -> (effect: AudioEffect)
        requires
            old(self).wf(),
        ensures
            final(self).wf(),
            final(self).active == old(self).active,
            match msg {
                Message::AudioParams(p) => effect is ParamsStored && final(self).buffer@ == (
                AudioBufferModel { params: Some(p), ..old(self).buffer@ }),
                Message::AudioFrame(f) => if old(self).buffer@.next_sequence < u32::MAX {
                    effect is ChunkBuffered && final(self).buffer@ == model_push(
                        old(self).buffer@,
                        chunk_payload(f.timestamp_us, f.pcm_data@),
                    )
                } else {
                    effect is ChunkRejected && final(self).buffer@ == old(self).buffer@
                },
                Message::Error(e) => (match effect {
                    AudioEffect::CaptureError(t) => t@ == e@,
                    _ => false,
                }) && final(self).buffer@ == old(self).buffer@,
            },
    {
        match msg {
            Message::AudioParams(params) => {
                self.buffer.set_audio_params(params);
                AudioEffect::ParamsStored
            },
            Message::AudioFrame(frame) => {
                if self.buffer.accepts_chunk() {
                    self.buffer.push_chunk(&frame);
                    AudioEffect::ChunkBuffered
                } else {
                    AudioEffect::ChunkRejected
                }
            },
            Message::Error(e) => AudioEffect::CaptureError(e),
        }
    }

    /// The process's output ended: inactive, buffer cleared.
    pub fn reader_finished(&mut self)
        requires
            old(self).wf(),
        ensures
            final(self).wf(),
            !final(self).active,
            final(self).buffer@ == model_empty(AUDIO_BUFFER_CAPACITY as nat),
    {
        self.active = false;
        self.buffer.reset();
    }

    /// Stops the capture: returns `false` (changing nothing) when inactive;
    /// otherwise the caller kills the process, and the buffer is cleared.
    pub fn stop(&mut self) -> (stopped: bool)
        requires
            old(self).wf(),
        ensures
            final(self).wf(),
            stopped == old(self).active,
            !final(self).active,
            stopped ==> final(self).buffer@ == model_empty(AUDIO_BUFFER_CAPACITY as nat),
            !stopped ==> final(self).buffer@ == old(self).buffer@,
    {
        if !self.active {
            return false;
        }
        self.active = false;
        self.buffer.reset();
        true
    }
}

/// The keystroke counter process's state.
pub struct KpmState {
    pub calculator: KpmCalculator,
    pub active: bool,
}

impl KpmState {
    /// Inactive, with a 5 s window fed every 50 ms.
    pub fn new() -> (s: KpmState)
        ensures
            !s.active,
            s.calculator@ == (KpmModel {
                entries: Seq::empty(),
                window_us: (KPM_WINDOW_DURATION_MS * 1000) as nat,
                capacity: (KPM_WINDOW_DURATION_MS / KPM_BATCH_INTERVAL_MS + 10) as nat,
            }),
    {
        KpmState {
            calculator: KpmCalculator::new(KPM_WINDOW_DURATION_MS, KPM_BATCH_INTERVAL_MS),
            active: false,
        }
    }

    /// Marks the counter active and returns the command line to spawn
    /// (`<exe> --batch-interval 50`), or `None` when already active.
    pub fn start(&mut self, exe_path: &str) -> (args: Option<Vec<String>>)
        ensures
            final(self).active,
            final(self).calculator@ == old(self).calculator@,
            old(self).active ==> args is None,
            !old(self).active ==> args is Some && args->0.deep_view() == seq![
                exe_path@,
                "--batch-interval"@,
                ascii_chars(decimal_ascii(KPM_BATCH_INTERVAL_MS as nat)),
            ],
    {
        if self.active {
            return None;
        }
        let mut args: Vec<String> = Vec::new();
        args.push(exe_path.to_owned());
        args.push("--batch-interval".to_owned());
        args.push(decimal_string(KPM_BATCH_INTERVAL_MS));
        self.active = true;
        assert(args.deep_view() =~= seq![
            exe_path@,
            "--batch-interval"@,
            ascii_chars(decimal_ascii(KPM_BATCH_INTERVAL_MS as nat)),
        ]);
        Some(args)
    }

    /// Records a batch read from the process.
    pub fn apply_batch(&mut self, batch: &Batch)
        ensures
            final(self).active == old(self).active,
            final(self).calculator@ == crate::kpm_calculator::model_push(
                old(self).calculator@,
                batch.t,
                batch.c,
            ),
    {
        self.calculator.push_batch(batch.t, batch.c);
    }

    /// The process's output ended: inactive, window cleared.
    pub fn reader_finished(&mut self)
        ensures
            !final(self).active,
            final(self).calculator@ == (KpmModel { entries: Seq::empty(), ..old(self).calculator@ }),
    {
        self.active = false;
        self.calculator.reset();
    }

    /// Stops the counter: returns `false` (changing nothing) when inactive;
    /// otherwise the caller kills the process, and the window is cleared.
    pub fn stop(&mut self) -> (stopped: bool)
        ensures
            stopped == old(self).active,
            !final(self).active,
            stopped ==> final(self).calculator@ == (KpmModel {
                entries: Seq::empty(),
                ..old(self).calculator@
            }),
            !stopped ==> final(self).calculator@ == old(self).calculator@,
    {
        if !self.active {
            return false;
        }
        self.active = false;
        self.calculator.reset();
        true
    }
}

} // verus!
