//! Registry of capture streams, each fed by a capture process.
//!
//! The registry keeps, per stream, its window handle, status, generation
//! and frame buffer, and decides what the process manager does: which
//! command line to spawn, when a process is replaced, and what each message
//! read from a process changes. Spawning, killing and reading processes is
//! the caller's part.

use vstd::prelude::*;

use crate::format::{ascii_chars, decimal_ascii, decimal_string};
use crate::strmap::StrMap;
use crate::video_buffer::{StreamBuffer, StreamBufferModel, model_empty, model_push};
use crate::video_ipc::Message;

verus! {

/// Frame buffer capacity of every stream (about one second at 60 fps).
pub const FRAME_BUFFER_CAPACITY: usize = 60;

/// Status of a capture stream.
#[derive(Debug, Clone, Copy, PartialEq, Eq, Structural)]
pub enum StreamStatus {
    /// Spawned; no codec parameters received yet.
    Starting,
    /// Codec parameters received; frames flow.
    Running,
    /// The process ended or was killed.
    Stopped,
}

impl StreamStatus {
    /// The lower-case name used in the API.
    pub fn name(&self) -> (s: &'static str)
        ensures
            s@ == match self {
                StreamStatus::Starting => "starting"@,
                StreamStatus::Running => "running"@,
                StreamStatus::Stopped => "stopped"@,
            },
    {
        match self {
            StreamStatus::Starting => "starting",
            StreamStatus::Running => "running",
            StreamStatus::Stopped => "stopped",
        }
    }
}

/// Crop region for crop-mode capture.
#[derive(Debug, Clone, Copy, PartialEq, Eq, Structural)]
pub struct CropParams {
    pub min_x: u32,
    pub min_y: u32,
    pub max_x: u32,
    pub max_y: u32,
}

/// A stream as the list endpoint reports it.
#[derive(Debug)]
pub struct StreamInfo {
    pub id: String,
    pub hwnd: String,
    pub status: StreamStatus,
    pub generation: u32,
}

/// One capture stream.
pub struct CaptureStream {
    pub id: String,
    pub hwnd: String,
    pub status: StreamStatus,
    pub buffer: StreamBuffer,
    /// Bumped each time the underlying capture process is replaced.
    pub generation: u32,
}

/// A capture stream's abstract state.
pub struct StreamModel {
    pub id: Seq<char>,
    pub hwnd: Seq<char>,
    pub status: StreamStatus,
    pub buffer: StreamBufferModel,
    pub generation: nat,
}

impl DeepView for CaptureStream {
    type V = StreamModel;

    open spec fn deep_view(&self) -> StreamModel {
        StreamModel {
            id: self.id@,
            hwnd: self.hwnd@,
            status: self.status,
            buffer: self.buffer@,
            generation: self.generation as nat,
        }
    }
}

/// The text of a number in decimal.
pub open spec fn dec(n: nat) -> Seq<char> {
    ascii_chars(decimal_ascii(n))
}

/// The command line of a resample-mode capture process.
pub open spec fn resample_args(exe: Seq<char>, hwnd: Seq<char>, width: u32, height: u32) -> Seq<
    Seq<char>,
> {
    seq![exe, "--hwnd"@, hwnd, "--width"@, dec(width as nat), "--height"@, dec(height as nat)]
}

/// The command line of a crop-mode capture process, with `--fps` when a
/// frame rate is given.
pub open spec fn crop_args(exe: Seq<char>, hwnd: Seq<char>, crop: CropParams, fps: Option<u32>) -> Seq<
    Seq<char>,
> {
    let base = seq![
        exe,
        "--hwnd"@,
        hwnd,
        "--crop-min-x"@,
        dec(crop.min_x as nat),
        "--crop-min-y"@,
        dec(crop.min_y as nat),
        "--crop-max-x"@,
        dec(crop.max_x as nat),
        "--crop-max-y"@,
        dec(crop.max_y as nat),
    ];
    match fps {
        Some(f) => base + seq!["--fps"@, dec(f as nat)],
        None => base,
    }
}

/// A freshly spawned stream.
pub open spec fn new_stream(id: Seq<char>, hwnd: Seq<char>) -> StreamModel {
    StreamModel {
        id,
        hwnd,
        status: StreamStatus::Starting,
        buffer: model_empty(FRAME_BUFFER_CAPACITY as nat),
        generation: 1,
    }
}

/// A stream whose process is replaced: new window, starting again, an empty
/// buffer and the next generation.
pub open spec fn replaced_stream(s: StreamModel, hwnd: Seq<char>) -> StreamModel {
    StreamModel {
        hwnd,
        status: StreamStatus::Starting,
        buffer: model_empty(FRAME_BUFFER_CAPACITY as nat),
        generation: s.generation + 1,
        ..s
    }
}

/// A stream's exec state is sound: its buffer is well formed with the
/// registry's capacity.
pub open spec fn stream_ok(s: CaptureStream) -> bool {
    s.buffer.wf() && s.buffer@.capacity == FRAME_BUFFER_CAPACITY
}

pub open spec fn stream_ok_fn() -> spec_fn(CaptureStream) -> bool {
    |s: CaptureStream| stream_ok(s)
}

/// What a message from a capture process did.
#[derive(Debug)]
pub enum MessageEffect {
    /// No stream has that id (it was destroyed meanwhile).
    UnknownStream,
    /// Codec parameters cached; `started` when the stream thereby went from
    /// starting to running.
    CodecParamsStored { started: bool },
    /// A frame was buffered.
    FrameBuffered,
    /// The buffer's sequence numbers are exhausted; the frame was not
    /// buffered.
    FrameRejected,
    /// The process reported a non-fatal error.
    CaptureError(String),
}

/// All capture streams, by id.
pub struct StreamRegistry {
    streams: StrMap<CaptureStream>,
    /// Path of the capture executable.
    exe_path: String,
}

/// The registry's abstract state.
pub struct RegistryModel {
    pub streams: Map<Seq<char>, StreamModel>,
    pub exe_path: Seq<char>,
}

impl View for StreamRegistry {
    type V = RegistryModel;

    closed spec fn view(&self) -> RegistryModel {
        RegistryModel { streams: self.streams.view(), exe_path: self.exe_path@ }
    }
}

/// Builds an owned string from a literal.
fn owned(s: &str) -> (r: String)
    ensures
        r@ == s@,
{
    s.to_owned()
}

/// The command line of a resample-mode capture process.
pub fn resample_command(exe: &str, hwnd: &str, width: u32, height: u32) -> (args: Vec<String>)
    ensures
        args.deep_view() == resample_args(exe@, hwnd@, width, height),
{
    let mut args: Vec<String> = Vec::new();
    args.push(owned(exe));
    args.push(owned("--hwnd"));
    args.push(owned(hwnd));
    args.push(owned("--width"));
    args.push(decimal_string(width as u64));
    args.push(owned("--height"));
    args.push(decimal_string(height as u64));
    assert(args.deep_view() =~= resample_args(exe@, hwnd@, width, height));
    args
}

/// The command line of a crop-mode capture process.
pub fn crop_command(exe: &str, hwnd: &str, crop: &CropParams, fps: Option<u32>) -> (args: Vec<String>)
    ensures
        args.deep_view() == crop_args(exe@, hwnd@, *crop, fps),
{
    let mut args: Vec<String> = Vec::new();
    args.push(owned(exe));
    args.push(owned("--hwnd"));
    args.push(owned(hwnd));
    args.push(owned("--crop-min-x"));
    args.push(decimal_string(crop.min_x as u64));
    args.push(owned("--crop-min-y"));
    args.push(decimal_string(crop.min_y as u64));
    args.push(owned("--crop-max-x"));
    args.push(decimal_string(crop.max_x as u64));
    args.push(owned("--crop-max-y"));
    args.push(decimal_string(crop.max_y as u64));
    let ghost base = args.deep_view();
    match fps {
        Some(f) => {
            args.push(owned("--fps"));
            args.push(decimal_string(f as u64));
            assert(args.deep_view() =~= base + seq!["--fps"@, dec(f as nat)]);
        },
        None => {},
    }
    assert(args.deep_view() =~= crop_args(exe@, hwnd@, *crop, fps));
    args
}

impl StreamRegistry {
    pub closed spec fn wf(&self) -> bool {
        &&& self.streams.wf()
        &&& self.streams.values_satisfy(stream_ok_fn())
        &&& forall|k: Seq<char>| #[trigger]
            self.streams.view().contains_key(k) ==> self.streams.view()[k].id == k
    }

    /// An empty registry spawning `exe_path`.
    pub fn new(exe_path: String) -> (r: StreamRegistry)
        ensures
            r.wf(),
            r@ == (RegistryModel { streams: Map::empty(), exe_path: exe_path@ }),
    {
        StreamRegistry { streams: StrMap::new(), exe_path }
    }

    /// The capture executable's path.
    pub fn exe_path(&self) -> (p: &String)
        ensures
            p@ == self@.exe_path,
    {
        &self.exe_path
    }

    /// The stream with the given id.
    pub fn get(&self, id: &str) -> (r: Option<&CaptureStream>)
        requires
            self.wf(),
        ensures
            match r {
                Some(s) => self@.streams.contains_key(id@) && self@.streams[id@] == s.deep_view()
                    && s.buffer.wf(),
                None => !self@.streams.contains_key(id@),
            },
    {
        let r = self.streams.get(id);
        proof {
            if r is Some {
                let p = stream_ok_fn();
                assert(self.streams.values_satisfy(p));
            }
        }
        r
    }

    /// Every stream, as the list endpoint reports it.
    pub fn list(&self) -> (infos: Vec<StreamInfo>)
        requires
            self.wf(),
        ensures
            infos@.len() == self@.streams.dom().len(),
            forall|i: int|
                0 <= i < infos@.len() ==> {
                    let s = #[trigger] infos@[i];
                    &&& self@.streams.contains_key(s.id@)
                    &&& self@.streams[s.id@].hwnd == s.hwnd@
                    &&& self@.streams[s.id@].status == s.status
                    &&& self@.streams[s.id@].generation == s.generation
                },
            forall|i: int, j: int| 0 <= i < j < infos@.len() ==> infos@[i].id@ != infos@[j].id@,
    {
        let es = self.streams.entries();
        let ghost ps = es@.map_values(|e: (String, CaptureStream)| (e.0@, e.1.deep_view()));
        proof {
            crate::strmap::lemma_pairs_map(ps);
        }
        let mut infos: Vec<StreamInfo> = Vec::new();
        let mut i: usize = 0;
        while i < es.len()
            invariant
                i <= es@.len(),
                es@.len() == self@.streams.dom().len(),
                ps == es@.map_values(|e: (String, CaptureStream)| (e.0@, e.1.deep_view())),
                crate::strmap::distinct_keys(ps),
                crate::strmap::pairs_map(ps) == self@.streams,
                forall|k: Seq<char>| #[trigger]
                    self@.streams.contains_key(k) ==> self@.streams[k].id == k,
                infos@.len() == i,
                forall|j: int| 0 <= j < i ==> (#[trigger] infos@[j]).id@ == ps[j].0 && infos@[j].hwnd@
                    == ps[j].1.hwnd && infos@[j].status == ps[j].1.status && infos@[j].generation
                    == ps[j].1.generation,
            decreases es@.len() - i,
        {
            let s = &es[i].1;
            assert(ps[i as int] == (es@[i as int].0@, s.deep_view()));
            infos.push(
                StreamInfo {
                    id: es[i].0.clone(),
                    hwnd: s.hwnd.clone(),
                    status: s.status,
                    generation: s.generation,
                },
            );
            i = i + 1;
        }
        proof {
            crate::strmap::lemma_pairs_map(ps);
            assert forall|i: int| 0 <= i < infos@.len() implies {
                let s = #[trigger] infos@[i];
                &&& self@.streams.contains_key(s.id@)
                &&& self@.streams[s.id@].hwnd == s.hwnd@
                &&& self@.streams[s.id@].status == s.status
                &&& self@.streams[s.id@].generation == s.generation
            } by {
                assert(ps[i].0 == infos@[i].id@);
            }
            assert forall|i: int, j: int| 0 <= i < j < infos@.len() implies infos@[i].id@ != infos@[j].id@ by {
                assert(ps[i].0 != ps[j].0);
            }
        }
        infos
    }

    /// Adds a stream in the `Starting` state and returns the command line
    /// of its capture process; a stream of the same id is replaced.
    fn spawn_capture(&mut self, id: String, hwnd: &str)
        requires
            old(self).wf(),
        ensures
            final(self).wf(),
            final(self)@ == (RegistryModel {
                streams: old(self)@.streams.insert(id@, new_stream(id@, hwnd@)),
                ..old(self)@
            }),
    {
        let stream = CaptureStream {
            id: id.clone(),
            hwnd: hwnd.to_owned(),
            status: StreamStatus::Starting,
            buffer: StreamBuffer::new(FRAME_BUFFER_CAPACITY),
            generation: 1,
        };
        let ghost p = stream_ok_fn();
        assert(p(stream));
        self.streams.insert(id, stream);
        assert(self.streams.values_satisfy(p));
        proof {
            let m = self.streams.view();
            assert forall|k: Seq<char>| #[trigger] m.contains_key(k) implies m[k].id == k by {
                if k != id@ {
                    assert(old(self).streams.view().contains_key(k));
                }
            }
        }
    }

    /// Creates a resample-mode stream under `id` (a fresh random id, see
    /// `format_short_id`) and returns its process's command line.
    pub fn create_stream(&mut self, id: String, hwnd: &str, width: u32, height: u32) -> (args: Vec<
        String,
    >)
        requires
            old(self).wf(),
        ensures
            final(self).wf(),
            final(self)@ == (RegistryModel {
                streams: old(self)@.streams.insert(id@, new_stream(id@, hwnd@)),
                ..old(self)@
            }),
            args.deep_view() == resample_args(old(self)@.exe_path, hwnd@, width, height),
    {
        let args = resample_command(self.exe_path.as_str(), hwnd, width, height);
        self.spawn_capture(id, hwnd);
        args
    }

    /// Creates a crop-mode stream under `id` and returns its process's
    /// command line.
    pub fn create_crop_stream(&mut self, id: String, hwnd: &str, crop: &CropParams, fps: Option<u32>) -> (args: Vec<String>)
        requires
            old(self).wf(),
        ensures
            final(self).wf(),
            final(self)@ == (RegistryModel {
                streams: old(self)@.streams.insert(id@, new_stream(id@, hwnd@)),
                ..old(self)@
            }),
            args.deep_view() == crop_args(old(self)@.exe_path, hwnd@, *crop, fps),
    {
        let args = crop_command(self.exe_path.as_str(), hwnd, crop, fps);
        self.spawn_capture(id, hwnd);
        args
    }

    /// Whether the stream `id` can be replaced in place: absent, or with a
    /// generation that can still be bumped.
    pub fn can_replace(&self, id: &str) -> (b: bool)
        requires
            self.wf(),
        ensures
            b == (!self@.streams.contains_key(id@) || self@.streams[id@].generation < u32::MAX),
    {
        match self.streams.get(id) {
            Some(s) => s.generation < u32::MAX,
            None => true,
        }
    }

    /// Replaces the process of a well-known stream in place, or creates the
    /// stream when there is none; returns whether one was replaced (whose
    /// old process the caller kills first).
    fn replace_or_create(&mut self, id: &str, hwnd: &str) -> (replaced: bool)
        requires
            old(self).wf(),
            !old(self)@.streams.contains_key(id@) || old(self)@.streams[id@].generation < u32::MAX,
        ensures
            final(self).wf(),
            replaced == old(self)@.streams.contains_key(id@),
            final(self)@ == (RegistryModel {
                streams: old(self)@.streams.insert(
                    id@,
                    if replaced {
                        replaced_stream(old(self)@.streams[id@], hwnd@)
                    } else {
                        new_stream(id@, hwnd@)
                    },
                ),
                ..old(self)@
            }),
    {
        let ghost p = stream_ok_fn();
        let ghost m0 = self.streams.view();
        match self.streams.take(id) {
            Some(mut stream) => {
                assert(self.streams.values_satisfy(p));
                assert(p(stream));
                stream.hwnd = hwnd.to_owned();
                stream.status = StreamStatus::Starting;
                stream.buffer.reset();
                stream.generation = stream.generation + 1;
                assert(p(stream));
                let key = id.to_owned();
                self.streams.insert(key, stream);
                proof {
                    let m = self.streams.view();
                    assert(m =~= m0.insert(id@, replaced_stream(m0[id@], hwnd@)));
                    assert forall|k: Seq<char>| #[trigger] m.contains_key(k) implies m[k].id == k by {
                        if k != id@ {
                            assert(m0.contains_key(k));
                        }
                    }
                }
                true
            },
            None => {
                assert(self.streams.view() =~= m0);
                self.spawn_capture(id.to_owned(), hwnd);
                false
            },
        }
    }

    /// Replaces the resample-mode stream `id` in place (or creates it) and
    /// returns whether one was replaced and the new process's command line.
    pub fn replace_stream(&mut self, id: &str, hwnd: &str, width: u32, height: u32) -> (r: (
        bool,
        Vec<String>,
    ))
        requires
            old(self).wf(),
            !old(self)@.streams.contains_key(id@) || old(self)@.streams[id@].generation < u32::MAX,
        ensures
            final(self).wf(),
            r.0 == old(self)@.streams.contains_key(id@),
            final(self)@ == (RegistryModel {
                streams: old(self)@.streams.insert(
                    id@,
                    if r.0 {
                        replaced_stream(old(self)@.streams[id@], hwnd@)
                    } else {
                        new_stream(id@, hwnd@)
                    },
                ),
                ..old(self)@
            }),
            r.1.deep_view() == resample_args(old(self)@.exe_path, hwnd@, width, height),
    {
        let args = resample_command(self.exe_path.as_str(), hwnd, width, height);
        let replaced = self.replace_or_create(id, hwnd);
        (replaced, args)
    }

    /// Replaces the crop-mode stream `id` in place (or creates it) and
    /// returns whether one was replaced and the new process's command line.
    pub fn replace_crop_stream(&mut self, id: &str, hwnd: &str, crop: &CropParams, fps: Option<u32>) -> (r: (bool, Vec<String>))
        requires
            old(self).wf(),
            !old(self)@.streams.contains_key(id@) || old(self)@.streams[id@].generation < u32::MAX,
        ensures
            final(self).wf(),
            r.0 == old(self)@.streams.contains_key(id@),
            final(self)@ == (RegistryModel {
                streams: old(self)@.streams.insert(
                    id@,
                    if r.0 {
                        replaced_stream(old(self)@.streams[id@], hwnd@)
                    } else {
                        new_stream(id@, hwnd@)
                    },
                ),
                ..old(self)@
            }),
            r.1.deep_view() == crop_args(old(self)@.exe_path, hwnd@, *crop, fps),
    {
        let args = crop_command(self.exe_path.as_str(), hwnd, crop, fps);
        let replaced = self.replace_or_create(id, hwnd);
        (replaced, args)
    }

    /// Removes a stream; returns whether it existed (its process is then
    /// the caller's to kill).
    pub fn destroy_stream(&mut self, id: &str) -> (existed: bool)
        requires
            old(self).wf(),
        ensures
            final(self).wf(),
            existed == old(self)@.streams.contains_key(id@),
            final(self)@ == (RegistryModel { streams: old(self)@.streams.remove(id@), ..old(self)@ }),
    {
        let ghost p = stream_ok_fn();
        let ghost m0 = self.streams.view();
        let r = self.streams.take(id);
        proof {
            assert(self.streams.values_satisfy(p));
            let m = self.streams.view();
            assert forall|k: Seq<char>| #[trigger] m.contains_key(k) implies m[k].id == k by {
                assert(m0.contains_key(k));
            }
        }
        r.is_some()
    }

    /// Removes every stream and returns their ids.
    pub fn destroy_all(&mut self) -> (ids: Vec<String>)
        requires
            old(self).wf(),
        ensures
            final(self).wf(),
            final(self)@ == (RegistryModel { streams: Map::empty(), ..old(self)@ }),
            ids@.len() == old(self)@.streams.dom().len(),
            forall|i: int| 0 <= i < ids@.len() ==> old(self)@.streams.contains_key(#[trigger] ids@[i]@),
    {
        let infos = self.list();
        let mut ids: Vec<String> = Vec::new();
        let mut i: usize = 0;
        while i < infos.len()
            invariant
                i <= infos@.len(),
                ids@.len() == i,
                forall|j: int| 0 <= j < i ==> (#[trigger] ids@[j])@ == infos@[j].id@,
            decreases infos@.len() - i,
        {
            ids.push(infos[i].id.clone());
            i = i + 1;
        }
        self.streams.clear();
        assert forall|i: int| 0 <= i < ids@.len() implies old(self)@.streams.contains_key(
            #[trigger] ids@[i]@,
        ) by {
            assert(ids@[i]@ == infos@[i].id@);
        }
        ids
    }

    /// Applies a message read from the capture process of stream `id`:
    /// codec parameters are cached (and a starting stream becomes running),
    /// frames are buffered, errors are handed back for logging.
    pub fn apply_message(&mut self, id: &str, msg: Message) -> (effect: MessageEffect)
        requires
            old(self).wf(),
        ensures
            final(self).wf(),
            !old(self)@.streams.contains_key(id@) ==> effect is UnknownStream && final(self)@ == old(
                self,
            )@,
            old(self)@.streams.contains_key(id@) ==> {
                let s = old(self)@.streams[id@];
                match msg {
                    Message::CodecParams(p) => {
                        &&& effect == (MessageEffect::CodecParamsStored {
                            started: s.status == StreamStatus::Starting,
                        })
                        &&& final(self)@ == (RegistryModel {
                            streams: old(self)@.streams.insert(
                                id@,
                                StreamModel {
                                    status: if s.status == StreamStatus::Starting {
                                        StreamStatus::Running
                                    } else {
                                        s.status
                                    },
                                    buffer: StreamBufferModel {
                                        codec_params: Some(p@),
                                        ..s.buffer
                                    },
                                    ..s
                                },
                            ),
                            ..old(self)@
                        })
                    },
                    Message::Frame(f) => if s.buffer.next_sequence < u32::MAX {
                        &&& effect is FrameBuffered
                        &&& final(self)@ == (RegistryModel {
                            streams: old(self)@.streams.insert(
                                id@,
                                StreamModel { buffer: model_push(s.buffer, f@), ..s },
                            ),
                            ..old(self)@
                        })
                    } else {
                        effect is FrameRejected && final(self)@ == old(self)@
                    },
                    Message::Error(e) => (match effect {
                        MessageEffect::CaptureError(t) => t@ == e@,
                        _ => false,
                    }) && final(self)@ == old(self)@,
                }
            },
    {
        let ghost p = stream_ok_fn();
        let ghost m0 = self.streams.view();
        match msg {
            Message::Error(e) => {
                if self.streams.contains_key(id) {
                    MessageEffect::CaptureError(e)
                } else {
                    MessageEffect::UnknownStream
                }
            },
            Message::CodecParams(params) => {
                match self.streams.take(id) {
                    Some(mut stream) => {
                        assert(self.streams.values_satisfy(p));
                        assert(p(stream));
                        let started = stream.status == StreamStatus::Starting;
                        let ghost s0 = stream.deep_view();
                        let ghost pv = params@;
                        stream.buffer.set_codec_params(params);
                        if started {
                            stream.status = StreamStatus::Running;
                        }
                        assert(p(stream));
                        let ghost s1 = stream.deep_view();
                        self.streams.insert(id.to_owned(), stream);
                        proof {
                            let m = self.streams.view();
                            assert(s0 == m0[id@]);
                            assert(s1 == StreamModel {
                                status: if s0.status == StreamStatus::Starting {
                                    StreamStatus::Running
                                } else {
                                    s0.status
                                },
                                buffer: StreamBufferModel { codec_params: Some(pv), ..s0.buffer },
                                ..s0
                            });
                            assert(m =~= m0.insert(id@, s1));
                            assert forall|k: Seq<char>| #[trigger] m.contains_key(k) implies m[k].id
                                == k by {
                                if k != id@ {
                                    assert(m0.contains_key(k));
                                }
                            }
                        }
                        MessageEffect::CodecParamsStored { started }
                    },
                    None => {
                        assert(self.streams.view() =~= m0);
                        MessageEffect::UnknownStream
                    },
                }
            },
            Message::Frame(frame) => {
                match self.streams.take(id) {
                    Some(mut stream) => {
                        assert(self.streams.values_satisfy(p));
                        assert(p(stream));
                        let ghost s0 = stream.deep_view();
                        let accepted = stream.buffer.accepts_frame();
                        if accepted {
                            stream.buffer.push_frame(&frame);
                        }
                        assert(p(stream));
                        let ghost s1 = stream.deep_view();
                        self.streams.insert(id.to_owned(), stream);
                        proof {
                            let m = self.streams.view();
                            assert(s0 == m0[id@]);
                            if !accepted {
                                assert(s1 == s0);
                                assert(m =~= m0);
                            } else {
                                assert(s1 == StreamModel { buffer: model_push(s0.buffer, frame@), ..s0 });
                                assert(m =~= m0.insert(id@, s1));
                            }
                            assert forall|k: Seq<char>| #[trigger] m.contains_key(k) implies m[k].id
                                == k by {
                                if k != id@ {
                                    assert(m0.contains_key(k));
                                }
                            }
                        }
                        if accepted {
                            MessageEffect::FrameBuffered
                        } else {
                            MessageEffect::FrameRejected
                        }
                    },
                    None => {
                        assert(self.streams.view() =~= m0);
                        MessageEffect::UnknownStream
                    },
                }
            },
        }
    }

    /// Marks a stream stopped once its process's output ended.
    pub fn mark_stopped(&mut self, id: &str)
        requires
            old(self).wf(),
        ensures
            final(self).wf(),
            final(self)@ == (RegistryModel {
                streams: if old(self)@.streams.contains_key(id@) {
                    old(self)@.streams.insert(
                        id@,
                        StreamModel { status: StreamStatus::Stopped, ..old(self)@.streams[id@] },
                    )
                } else {
                    old(self)@.streams
                },
                ..old(self)@
            }),
    {
        let ghost p = stream_ok_fn();
        let ghost m0 = self.streams.view();
        match self.streams.take(id) {
            Some(mut stream) => {
                assert(self.streams.values_satisfy(p));
                assert(p(stream));
                stream.status = StreamStatus::Stopped;
                self.streams.insert(id.to_owned(), stream);
                proof {
                    let m = self.streams.view();
                    assert(m =~= m0.insert(id@, StreamModel { status: StreamStatus::Stopped, ..m0[id@] }));
                    assert forall|k: Seq<char>| #[trigger] m.contains_key(k) implies m[k].id == k by {
                        if k != id@ {
                            assert(m0.contains_key(k));
                        }
                    }
                }
            },
            None => {
                assert(self.streams.view() =~= m0);
            },
        }
    }
}

} // verus!
