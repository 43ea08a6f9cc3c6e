//! Per-call WAV recorder. One file per transmission, named
//! `<localtime>_tg<talkgroup>_src<source>.wav`, 8 kHz, 16 bit, mono.
//!
//! The recorder decides; the files themselves are handled outside. Each of
//! [`Recorder::start`], [`Recorder::note_meta`], [`Recorder::write`] and
//! [`Recorder::finish`] is noted down, and [`Recorder::next_action`] hands out
//! what is to be done on disk, one action at a time. Its outcome comes back
//! through [`Recorder::report`].
use crate::bytes::{le32, push_samples, sample_bytes};
use crate::outside::{is_stamp, local_time};
use crate::text::{chars_of, decimal, push_decimal};
use crate::wav::{data_len_of, header, riff_len, wav_header, wav_sizes};
use std::collections::VecDeque;
use vstd::prelude::*;
use vstd::string::StringExecFns;

verus! {

/// A recording in progress.
struct Active {
    samples: u32,
    started: String,
    src: u32,
    tg: u32,
}

/// Something that was asked for and not done yet.
enum Op {
    /// Close the file in progress.
    Finish,
    /// Begin a new file.
    Open { src: u32, tg: u32 },
    /// Ids of the call that were decoded.
    Note { seen_src: Option<u32>, seen_tg: Option<u32> },
    /// Samples to add to the file in progress.
    Append { pcm: Vec<i16> },
}

/// The action whose outcome is awaited.
enum Doing {
    Opening { src: u32, tg: u32 },
    Appending { samples: u32 },
    Discarding,
    Saving { name: String },
}

/// What is to be done on disk. The file in progress has a name of its own until
/// it is saved.
pub enum RecorderAction {
    /// Create the file in progress, with this header.
    Create { header: Vec<u8> },
    /// Add bytes to the file in progress.
    Append { bytes: Vec<u8> },
    /// Remove the file in progress.
    Discard,
    /// Write over the two length fields of the header, and give the file its
    /// final name. The outcome is that of the renaming.
    Save { riff_len: Vec<u8>, data_len: Vec<u8>, name: String },
}

/// Records call audio to per-call WAV files.
pub struct Recorder {
    enabled: bool,
    min_samples: u32,
    active: Option<Active>,
    doing: Option<Doing>,
    pending: VecDeque<Op>,
    /// Files saved.
    pub files_written: u64,
    /// Name of the file saved last.
    pub last_file: Option<String>,
}

/// Mathematical value of a recording in progress.
pub struct ActiveView {
    /// Samples in the file, modulo 2^32.
    pub samples: u32,
    /// Local time at which it was begun.
    pub started: Seq<char>,
    pub src: u32,
    pub tg: u32,
}

/// Mathematical value of something that was asked for.
pub enum OpView {
    Finish,
    Open { src: u32, tg: u32 },
    Note { seen_src: Option<u32>, seen_tg: Option<u32> },
    Append { pcm: Seq<i16> },
}

/// Mathematical value of the action whose outcome is awaited.
pub enum DoingView {
    Opening { src: u32, tg: u32 },
    Appending { samples: u32 },
    Discarding,
    Saving { name: Seq<char> },
}

/// Mathematical value of a [`RecorderAction`].
pub enum ActionView {
    Create { header: Seq<u8> },
    Append { bytes: Seq<u8> },
    Discard,
    Save { riff_len: Seq<u8>, data_len: Seq<u8>, name: Seq<char> },
}

/// Mathematical value of a [`Recorder`].
pub struct RecorderView {
    pub enabled: bool,
    pub min_samples: u32,
    pub active: Option<ActiveView>,
    pub doing: Option<DoingView>,
    /// What was asked for and not done yet, oldest first.
    pub pending: Seq<OpView>,
    /// Files saved, modulo 2^64.
    pub files_written: u64,
    pub last_file: Option<Seq<char>>,
}

/// A recorder with the next action that it hands out.
pub struct RecorderStep {
    pub recorder: RecorderView,
    pub action: Option<ActionView>,
}

impl View for Active {
    type V = ActiveView;

    closed spec fn view(&self) -> ActiveView {
        ActiveView { samples: self.samples, started: self.started@, src: self.src, tg: self.tg }
    }
}

impl View for Op {
    type V = OpView;

    closed spec fn view(&self) -> OpView {
        match *self {
            Op::Finish => OpView::Finish,
            Op::Open { src, tg } => OpView::Open { src, tg },
            Op::Note { seen_src, seen_tg } => OpView::Note { seen_src, seen_tg },
            Op::Append { pcm } => OpView::Append { pcm: pcm@ },
        }
    }
}

impl View for Doing {
    type V = DoingView;

    closed spec fn view(&self) -> DoingView {
        match *self {
            Doing::Opening { src, tg } => DoingView::Opening { src, tg },
            Doing::Appending { samples } => DoingView::Appending { samples },
            Doing::Discarding => DoingView::Discarding,
            Doing::Saving { name } => DoingView::Saving { name: name@ },
        }
    }
}

impl View for RecorderAction {
    type V = ActionView;

    open spec fn view(&self) -> ActionView {
        match *self {
            RecorderAction::Create { header } => ActionView::Create { header: header@ },
            RecorderAction::Append { bytes } => ActionView::Append { bytes: bytes@ },
            RecorderAction::Discard => ActionView::Discard,
            RecorderAction::Save { riff_len, data_len, name } => ActionView::Save {
                riff_len: riff_len@,
                data_len: data_len@,
                name: name@,
            },
        }
    }
}

impl View for Recorder {
    type V = RecorderView;

    closed spec fn view(&self) -> RecorderView {
        RecorderView {
            enabled: self.enabled,
            min_samples: self.min_samples,
            active: match self.active {
                Some(a) => Some(a@),
                None => None,
            },
            doing: match self.doing {
                Some(d) => Some(d@),
                None => None,
            },
            pending: self.pending@.map_values(|op: Op| op@),
            files_written: self.files_written,
            last_file: match self.last_file {
                Some(s) => Some(s@),
                None => None,
            },
        }
    }
}

/// The final name of a recording.
pub open spec fn file_name(started: Seq<char>, tg: u32, src: u32) -> Seq<char> {
    started + "_tg"@ + decimal(tg as nat) + "_src"@ + decimal(src as nat) + ".wav"@
}

fn name_of(started: &String, tg: u32, src: u32) -> (r: String)
    ensures
        r@ == file_name(started@, tg, src),
{
    let mut out = started.clone();
    out.append("_tg");
    push_decimal(&mut out, tg as u64);
    out.append("_src");
    push_decimal(&mut out, src as u64);
    out.append(".wav");
    out
}

/// `new` where it is known and not 0, `old` otherwise.
pub open spec fn refined(old_id: u32, new_id: Option<u32>) -> u32 {
    match new_id {
        Some(id) => if id != 0 {
            id
        } else {
            old_id
        },
        None => old_id,
    }
}

impl RecorderView {
    /// A recorder that does nothing.
    pub open spec fn off() -> RecorderView {
        RecorderView {
            enabled: false,
            min_samples: 0,
            active: None,
            doing: None,
            pending: seq![],
            files_written: 0,
            last_file: None,
        }
    }

    /// What a recorder keeps to: one that is off has nothing to do.
    pub open spec fn valid(self) -> bool {
        !self.enabled ==> self.active is None && self.doing is None && self.pending.len() == 0
    }

    pub open spec fn asked(self, op: OpView) -> RecorderView {
        if self.enabled {
            RecorderView { pending: self.pending.push(op), ..self }
        } else {
            self
        }
    }

    /// A recording is to begin; one in progress is finished first.
    pub open spec fn started(self, src: u32, tg: u32) -> RecorderView {
        self.asked(OpView::Finish).asked(OpView::Open { src, tg })
    }

    pub open spec fn noted(self, src: Option<u32>, tg: Option<u32>) -> RecorderView {
        self.asked(OpView::Note { seen_src: src, seen_tg: tg })
    }

    pub open spec fn wrote(self, pcm: Seq<i16>) -> RecorderView {
        self.asked(OpView::Append { pcm })
    }

    pub open spec fn finished(self) -> RecorderView {
        self.asked(OpView::Finish)
    }

    /// The next action, with what precedes it done. There is none while the
    /// outcome of the last one is awaited.
    pub open spec fn next(self) -> RecorderStep
        decreases self.pending.len(),
    {
        if self.doing is Some || self.pending.len() == 0 {
            RecorderStep { recorder: self, action: None }
        } else {
            let rest = RecorderView { pending: self.pending.drop_first(), ..self };
            match self.pending[0] {
                OpView::Finish => match self.active {
                    None => rest.next(),
                    Some(a) => {
                        let idle = RecorderView { active: None, ..rest };
                        if a.samples < self.min_samples {
                            RecorderStep {
                                recorder: RecorderView { doing: Some(DoingView::Discarding), ..idle },
                                action: Some(ActionView::Discard),
                            }
                        } else {
                            let name = file_name(a.started, a.tg, a.src);
                            RecorderStep {
                                recorder: RecorderView {
                                    doing: Some(DoingView::Saving { name }),
                                    ..idle
                                },
                                action: Some(
                                    ActionView::Save {
                                        riff_len: le32(riff_len(data_len_of(a.samples))),
                                        data_len: le32(data_len_of(a.samples)),
                                        name,
                                    },
                                ),
                            }
                        }
                    },
                },
                OpView::Open { src, tg } => RecorderStep {
                    recorder: RecorderView { doing: Some(DoingView::Opening { src, tg }), ..rest },
                    action: Some(ActionView::Create { header: header(0) }),
                },
                OpView::Note { seen_src, seen_tg } => match self.active {
                    None => rest.next(),
                    Some(a) => RecorderView {
                        active: Some(
                            ActiveView {
                                src: refined(a.src, seen_src),
                                tg: refined(a.tg, seen_tg),
                                ..a
                            },
                        ),
                        ..rest
                    }.next(),
                },
                OpView::Append { pcm } => match self.active {
                    None => rest.next(),
                    Some(a) => RecorderStep {
                        recorder: RecorderView {
                            doing: Some(
                                DoingView::Appending {
                                    samples: (pcm.len() % 0x1_0000_0000) as u32,
                                },
                            ),
                            ..rest
                        },
                        action: Some(ActionView::Append { bytes: sample_bytes(pcm) }),
                    },
                },
            }
        }
    }

    /// Whether an outcome means that a file was begun.
    pub open spec fn begins(self, ok: bool) -> bool {
        ok && self.doing matches Some(DoingView::Opening { src, tg })
    }

    /// The outcome of the last action comes back, at local time `now`.
    pub open spec fn reported(self, ok: bool, now: Seq<char>) -> RecorderView {
        let done = RecorderView { doing: None, ..self };
        if !ok {
            done
        } else {
            match self.doing {
                Some(DoingView::Opening { src, tg }) => RecorderView {
                    active: Some(ActiveView { samples: 0, started: now, src, tg }),
                    ..done
                },
                Some(DoingView::Appending { samples }) => match self.active {
                    Some(a) => RecorderView {
                        active: Some(
                            ActiveView { samples: a.samples.wrapping_add(samples), ..a },
                        ),
                        ..done
                    },
                    None => done,
                },
                Some(DoingView::Saving { name }) => RecorderView {
                    files_written: self.files_written.wrapping_add(1),
                    last_file: Some(name),
                    ..done
                },
                _ => done,
            }
        }
    }
}

impl Recorder {
    /// A recorder that records nothing.
    pub fn disabled() -> (r: Self)
        ensures
            r@ == RecorderView::off(),
    {
        let r = Recorder {
            enabled: false,
            min_samples: 0,
            active: None,
            doing: None,
            pending: VecDeque::new(),
            files_written: 0,
            last_file: None,
        };
        assert(r@.pending =~= seq![]);
        r
    }

    /// A recorder that drops calls of fewer than `min_samples` samples.
    pub fn new(min_samples: u32) -> (r: Self)
        ensures
            r@ == (RecorderView { enabled: true, min_samples, ..RecorderView::off() }),
    {
        let r = Recorder {
            enabled: true,
            min_samples,
            active: None,
            doing: None,
            pending: VecDeque::new(),
            files_written: 0,
            last_file: None,
        };
        assert(r@.pending =~= seq![]);
        r
    }

    pub fn enabled(&self) -> (r: bool)
        ensures
            r == self@.enabled,
    {
        self.enabled
    }

    fn ask(&mut self, op: Op)
        ensures
            final(self)@ == old(self)@.asked(op@),
    {
        if self.enabled {
            self.pending.push_back(op);
            assert(self@.pending =~= old(self)@.pending.push(op@));
        }
    }

    /// Begins a recording. `src` and `tg` are the ids known so far (0 if not yet
    /// decoded). Any file in progress is finished first.
    pub fn start(&mut self, src: u32, tg: u32)
        ensures
            final(self)@ == old(self)@.started(src, tg),
    {
        self.ask(Op::Finish);
        self.ask(Op::Open { src, tg });
    }

    /// Updates the ids of the call as they get decoded; 0 changes nothing.
    pub fn note_meta(&mut self, src: Option<u32>, tg: Option<u32>)
        ensures
            final(self)@ == old(self)@.noted(src, tg),
    {
        self.ask(Op::Note { seen_src: src, seen_tg: tg });
    }

    /// Adds one frame of samples.
    pub fn write(&mut self, pcm: &[i16])
        ensures
            final(self)@ == old(self)@.wrote(pcm@),
    {
        if self.enabled {
            let mut copy: Vec<i16> = Vec::new();
            copy.extend_from_slice(pcm);
            assert(copy@ =~= pcm@);
            self.ask(Op::Append { pcm: copy });
        }
    }

    /// Closes the recording in progress.
    pub fn finish(&mut self)
        ensures
            final(self)@ == old(self)@.finished(),
    {
        self.ask(Op::Finish);
    }

    /// What is to be done on disk next. Its outcome goes to [`Recorder::report`]
    /// before the next action is asked for.
    pub fn next_action(&mut self) -> (r: Option<RecorderAction>)
        ensures
            final(self)@ == old(self)@.next().recorder,
            match r {
                Some(a) => old(self)@.next().action == Some(a@),
                None => old(self)@.next().action is None,
            },
    {
        if self.doing.is_some() {
            return None;
        }
        loop
            invariant
                self.doing is None,
                self@.next() == old(self)@.next(),
            decreases self.pending@.len(),
        {
            let ghost before = self@;
            let op = match self.pending.pop_front() {
                Some(op) => op,
                None => return None,
            };
            assert(before.pending[0] == op@);
            assert(self@.pending =~= before.pending.drop_first());
            match op {
                Op::Finish => {
                    if let Some(a) = self.active.take() {
                        if a.samples < self.min_samples {
                            self.doing = Some(Doing::Discarding);
                            return Some(RecorderAction::Discard);
                        }
                        let (riff_len, data_len) = wav_sizes(a.samples);
                        let name = name_of(&a.started, a.tg, a.src);
                        self.doing = Some(Doing::Saving { name: name.clone() });
                        return Some(RecorderAction::Save { riff_len, data_len, name });
                    }
                },
                Op::Open { src, tg } => {
                    self.doing = Some(Doing::Opening { src, tg });
                    return Some(RecorderAction::Create { header: wav_header(0) });
                },
                Op::Note { seen_src, seen_tg } => {
                    if let Some(mut a) = self.active.take() {
                        if let Some(s) = seen_src {
                            if s != 0 {
                                a.src = s;
                            }
                        }
                        if let Some(t) = seen_tg {
                            if t != 0 {
                                a.tg = t;
                            }
                        }
                        self.active = Some(a);
                    }
                },
                Op::Append { pcm } => {
                    if self.active.is_some() {
                        let mut bytes: Vec<u8> = Vec::new();
                        push_samples(&mut bytes, pcm.as_slice());
                        assert(bytes@ =~= sample_bytes(pcm@));
                        let samples: u32 = (pcm.len() as u64 % 0x1_0000_0000) as u32;
                        self.doing = Some(Doing::Appending { samples });
                        return Some(RecorderAction::Append { bytes });
                    }
                },
            }
        }
    }

    /// The outcome of the last action comes back. A file that was begun has the
    /// local time.
    pub fn report(&mut self, ok: bool)
        ensures
            exists|now: Seq<char>|
                {
                    &&& final(self)@ == #[trigger] old(self)@.reported(ok, now)
                    &&& old(self)@.begins(ok) ==> is_stamp(now)
                },
    {
        let opening = match self.doing {
            Some(Doing::Opening { .. }) => true,
            _ => false,
        };
        let now = if ok && opening {
            local_time("%Y%m%d-%H%M%S")
        } else {
            String::new()
        };
        let ghost stamp = now@;
        self.report_at(ok, now);
        assert(self@ == old(self)@.reported(ok, stamp));
    }

    /// The outcome of the last action comes back, at local time `now`.
    pub fn report_at(&mut self, ok: bool, now: String)
        ensures
            final(self)@ == old(self)@.reported(ok, now@),
    {
        let doing = self.doing.take();
        if !ok {
            return ;
        }
        match doing {
            Some(Doing::Opening { src, tg }) => {
                self.active = Some(Active { samples: 0, started: now, src, tg });
            },
            Some(Doing::Appending { samples }) => {
                if let Some(mut a) = self.active.take() {
                    a.samples = a.samples.wrapping_add(samples);
                    self.active = Some(a);
                }
            },
            Some(Doing::Saving { name }) => {
                self.files_written = self.files_written.wrapping_add(1);
                self.last_file = Some(name);
            },
            _ => {},
        }
    }
}

/// A file in the directory of recordings.
pub struct RecordingFile {
    pub name: String,
    /// Bytes in the file.
    pub len: u64,
    /// When it was last changed, in nanoseconds from some fixed point in time.
    pub modified: i128,
}

/// Mathematical value of a [`RecordingFile`].
pub struct FileView {
    pub name: Seq<char>,
    pub len: u64,
    pub modified: i128,
}

impl View for RecordingFile {
    type V = FileView;

    open spec fn view(&self) -> FileView {
        FileView { name: self.name@, len: self.len, modified: self.modified }
    }
}

/// Whether a name is that of a recording.
pub open spec fn is_recording(name: Seq<char>) -> bool {
    name.len() >= 4 && name.skip(name.len() - 4) == ".wav"@
}

/// The files that are recordings, in their order.
pub open spec fn recordings(files: Seq<FileView>) -> Seq<FileView>
    decreases files.len(),
{
    if files.len() == 0 {
        seq![]
    } else if is_recording(files.last().name) {
        recordings(files.drop_last()).push(files.last())
    } else {
        recordings(files.drop_last())
    }
}

/// `files` with `f` put in behind the last file that is not older.
pub open spec fn placed(files: Seq<FileView>, f: FileView) -> Seq<FileView>
    decreases files.len(),
{
    if files.len() == 0 || files.last().modified >= f.modified {
        files.push(f)
    } else {
        placed(files.drop_last(), f).push(files.last())
    }
}

/// The files, newest first. Those changed at the same time keep their order.
pub open spec fn newest_first(files: Seq<FileView>) -> Seq<FileView>
    decreases files.len(),
{
    if files.len() == 0 {
        seq![]
    } else {
        placed(newest_first(files.drop_last()), files.last())
    }
}

/// The names and sizes of the newest recordings, at most `limit`.
pub open spec fn listing(files: Seq<FileView>, limit: nat) -> Seq<(Seq<char>, u64)> {
    let all = newest_first(recordings(files));
    let n = if limit < all.len() {
        limit
    } else {
        all.len()
    };
    Seq::new(n, |i: int| (all[i].name, all[i].len))
}

/// The files changed at time `t`, in their order.
pub open spec fn changed_at(files: Seq<FileView>, t: i128) -> Seq<FileView>
    decreases files.len(),
{
    if files.len() == 0 {
        seq![]
    } else if files.last().modified == t {
        changed_at(files.drop_last(), t).push(files.last())
    } else {
        changed_at(files.drop_last(), t)
    }
}

proof fn lemma_placed(files: Seq<FileView>, f: FileView, pos: int)
    requires
        0 <= pos <= files.len(),
        pos > 0 ==> files[pos - 1].modified >= f.modified,
        forall|i: int| pos <= i < files.len() ==> (#[trigger] files[i]).modified < f.modified,
    ensures
        placed(files, f) == files.insert(pos, f),
    decreases files.len(),
{
    if pos < files.len() {
        let front = files.drop_last();
        lemma_placed(front, f, pos);
        assert(front.insert(pos, f).push(files.last()) =~= files.insert(pos, f));
    } else {
        assert(files.insert(pos, f) =~= files.push(f));
    }
}

proof fn lemma_placed_sorted(files: Seq<FileView>, f: FileView)
    requires
        forall|i: int, j: int|
            0 <= i < j < files.len() ==> (#[trigger] files[i]).modified >= (
            #[trigger] files[j]).modified,
    ensures
        ({
            let p = placed(files, f);
            &&& p.len() == files.len() + 1
            &&& forall|i: int, j: int|
                0 <= i < j < p.len() ==> (#[trigger] p[i]).modified >= (#[trigger] p[j]).modified
            &&& forall|i: int|
                0 <= i < p.len() ==> #[trigger] p[i] == f || exists|k: int|
                    0 <= k < files.len() && files[k] == p[i]
            &&& p.to_multiset() == files.to_multiset().insert(f)
        }),
    decreases files.len(),
{
    broadcast use vstd::seq_lib::group_to_multiset_ensures;

    let p = placed(files, f);
    if files.len() == 0 || files.last().modified >= f.modified {
        assert forall|i: int| 0 <= i < p.len() implies #[trigger] p[i] == f || exists|k: int|
            0 <= k < files.len() && files[k] == p[i] by {
            if i < files.len() {
                assert(files[i] == p[i]);
            }
        }
    } else {
        let front = files.drop_last();
        let b = placed(front, f);
        let last = files.len() - 1;
        lemma_placed_sorted(front, f);
        assert forall|i: int| 0 <= i < p.len() implies #[trigger] p[i] == f || exists|k: int|
            0 <= k < files.len() && files[k] == p[i] by {
            if i < b.len() {
                assert(p[i] == b[i]);
                if b[i] != f {
                    let k = choose|k: int| 0 <= k < front.len() && front[k] == b[i];
                    assert(files[k] == p[i]);
                }
            } else {
                assert(files[last] == p[i]);
            }
        }
        assert forall|i: int, j: int| 0 <= i < j < p.len() implies (#[trigger] p[i]).modified >= (
        #[trigger] p[j]).modified by {
            if j < b.len() {
                assert(p[i] == b[i] && p[j] == b[j]);
            } else {
                assert(p[i] == b[i]);
                if b[i] != f {
                    let k = choose|k: int| 0 <= k < front.len() && front[k] == b[i];
                    assert(files[k] == b[i]);
                }
            }
        }
        assert(files =~= front.push(files.last()));
        assert(p.to_multiset() =~= files.to_multiset().insert(f));
    }
}

proof fn lemma_placed_stable(files: Seq<FileView>, f: FileView, t: i128)
    ensures
        changed_at(placed(files, f), t) == changed_at(files.push(f), t),
    decreases files.len(),
{
    let p = placed(files, f);
    assert(files.push(f).drop_last() =~= files);
    if files.len() > 0 && files.last().modified < f.modified {
        let front = files.drop_last();
        lemma_placed_stable(front, f, t);
        assert(front.push(f).drop_last() =~= front);
        assert(p.drop_last() =~= placed(front, f));
        assert(p.last() == files.last());
        assert(changed_at(front.push(f), t) == if f.modified == t {
            changed_at(front, t).push(f)
        } else {
            changed_at(front, t)
        });
        assert(changed_at(files.push(f), t) == if f.modified == t {
            changed_at(files, t).push(f)
        } else {
            changed_at(files, t)
        });
    }
}

/// The listing is in order: newest first, nothing lost or added, and files
/// changed at the same time in the order in which they came.
pub proof fn law_newest_first_sorts(files: Seq<FileView>, t: i128)
    ensures
        ({
            let r = newest_first(files);
            &&& forall|i: int, j: int|
                0 <= i < j < r.len() ==> (#[trigger] r[i]).modified >= (#[trigger] r[j]).modified
            &&& r.to_multiset() == files.to_multiset()
            &&& changed_at(r, t) == changed_at(files, t)
        }),
    decreases files.len(),
{
    broadcast use vstd::seq_lib::group_to_multiset_ensures;

    if files.len() > 0 {
        let front = files.drop_last();
        let f = files.last();
        let b = newest_first(front);
        law_newest_first_sorts(front, t);
        lemma_placed_sorted(b, f);
        lemma_placed_stable(b, f, t);
        assert(b.push(f).drop_last() =~= b);
        assert(files =~= front.push(f));
    } else {
        assert(files =~= seq![]);
    }
}

/// Whether a name is that of a recording.
pub fn names_recording(cs: &[char]) -> (r: bool)
    ensures
        r == is_recording(cs@),
{
    let n: usize = cs.len();
    proof {
        reveal_strlit(".wav");
    }
    if n < 4 {
        return false;
    }
    let r = cs[n - 4] == '.' && cs[n - 3] == 'w' && cs[n - 2] == 'a' && cs[n - 1] == 'v';
    proof {
        let end = cs@.skip(n - 4);
        assert(end[0] == cs@[n - 4] && end[1] == cs@[n - 3] && end[2] == cs@[n - 2] && end[3]
            == cs@[n - 1]);
        if r {
            assert(end =~= ".wav"@);
        } else {
            assert(".wav"@[0] == '.' && ".wav"@[1] == 'w' && ".wav"@[2] == 'a' && ".wav"@[3]
                == 'v');
        }
    }
    r
}

/// Lists the recordings among the files of a directory, newest first: name and
/// size.
pub fn list_recordings(files: &Vec<RecordingFile>, limit: usize) -> (r: Vec<(String, u64)>)
    ensures
        r@.map_values(|e: (String, u64)| (e.0@, e.1)) == listing(
            files@.map_values(|f: RecordingFile| f@),
            limit as nat,
        ),
{
    let ghost all = files@.map_values(|f: RecordingFile| f@);
    // Indices into `files`, newest first.
    let mut order: Vec<usize> = Vec::new();
    let mut i: usize = 0;
    assert(all.take(0) =~= seq![]);
    assert(picked(all, order@) =~= seq![]);
    while i < files.len()
        invariant
            i <= files@.len(),
            all == files@.map_values(|f: RecordingFile| f@),
            forall|k: int| 0 <= k < order@.len() ==> (#[trigger] order@[k]) < files@.len(),
            picked(all, order@) == newest_first(recordings(all.take(i as int))),
        decreases files@.len() - i,
    {
        let ghost before = recordings(all.take(i as int));
        proof {
            assert(all.take(i + 1).drop_last() =~= all.take(i as int));
            assert(all.take(i + 1).last() == files@[i as int]@);
        }
        if names_recording(chars_of(files[i].name.as_str()).as_slice()) {
            let ghost f = files@[i as int]@;
            let modified = files[i].modified;
            let mut pos: usize = order.len();
            while pos > 0 && files[order[pos - 1]].modified < modified
                invariant
                    pos <= order@.len(),
                    all == files@.map_values(|f: RecordingFile| f@),
                    forall|k: int| 0 <= k < order@.len() ==> (#[trigger] order@[k]) < files@.len(),
                    forall|k: int|
                        pos <= k < order@.len() ==> (#[trigger] picked(all, order@)[k]).modified
                            < modified,
                decreases pos,
            {
                pos = pos - 1;
            }
            proof {
                let sorted = picked(all, order@);
                lemma_placed(sorted, f, pos as int);
                assert(before.push(f).drop_last() =~= before);
                assert(picked(all, order@.insert(pos as int, i)) =~= sorted.insert(pos as int, f));
            }
            order.insert(pos, i);
        }
        i = i + 1;
    }
    assert(all.take(i as int) =~= all);
    let n: usize = if limit < order.len() {
        limit
    } else {
        order.len()
    };
    let mut out: Vec<(String, u64)> = Vec::new();
    let mut k: usize = 0;
    while k < n
        invariant
            k <= n <= order@.len(),
            all == files@.map_values(|f: RecordingFile| f@),
            forall|j: int| 0 <= j < order@.len() ==> (#[trigger] order@[j]) < files@.len(),
            out@.len() == k,
            forall|j: int|
                0 <= j < k ==> (#[trigger] out@[j]).0@ == picked(all, order@)[j].name && out@[j].1
                    == picked(all, order@)[j].len,
        decreases n - k,
    {
        let f = &files[order[k]];
        out.push((f.name.clone(), f.len));
        k = k + 1;
    }
    assert(out@.map_values(|e: (String, u64)| (e.0@, e.1)) =~= listing(all, limit as nat));
    out
}

/// The files that the indices name.
spec fn picked(files: Seq<FileView>, order: Seq<usize>) -> Seq<FileView> {
    order.map_values(|k: usize| files[k as int])
}

/// A name is that of a recording exactly when it ends in `.wav`.
pub proof fn law_recordings_end_in_wav(name: Seq<char>)
    ensures
        is_recording(name) == (name.len() >= 4 && name[name.len() - 4] == '.' && name[name.len()
            - 3] == 'w' && name[name.len() - 2] == 'a' && name[name.len() - 1] == 'v'),
{
    reveal_strlit(".wav");
    if name.len() >= 4 {
        let end = name.skip(name.len() - 4);
        assert(end[0] == name[name.len() - 4] && end[1] == name[name.len() - 3] && end[2]
            == name[name.len() - 2] && end[3] == name[name.len() - 1]);
        assert(".wav"@[0] == '.' && ".wav"@[1] == 'w' && ".wav"@[2] == 'a' && ".wav"@[3] == 'v');
        if name[name.len() - 4] == '.' && name[name.len() - 3] == 'w' && name[name.len() - 2] == 'a'
            && name[name.len() - 1] == 'v' {
            assert(end =~= ".wav"@);
        }
    }
}

/// The recordings among some files are those with the name of one, and no other.
pub proof fn law_recordings_are_those_so_named(files: Seq<FileView>, f: FileView)
    ensures
        recordings(files).contains(f) == (files.contains(f) && is_recording(f.name)),
    decreases files.len(),
{
    let all = recordings(files);
    if files.len() > 0 {
        let front = files.drop_last();
        let last = files.last();
        law_recordings_are_those_so_named(front, f);
        let b = recordings(front);
        if files.contains(f) && is_recording(f.name) {
            let i = choose|i: int| 0 <= i < files.len() && files[i] == f;
            if i < front.len() {
                assert(front[i] == f);
                let k = choose|k: int| 0 <= k < b.len() && b[k] == f;
                assert(all[k] == f);
            } else {
                assert(all.last() == f);
            }
        }
        if all.contains(f) {
            let k = choose|k: int| 0 <= k < all.len() && all[k] == f;
            if k < b.len() {
                assert(b[k] == f);
                let i = choose|i: int| 0 <= i < front.len() && front[i] == f;
                assert(files[i] == f);
            } else {
                assert(files[files.len() - 1] == f);
            }
        }
    }
}

/// The listing has the newest recordings in their order, by name and size, as many
/// as there are up to the limit.
pub proof fn law_listing_has_the_newest(files: Seq<FileView>, limit: nat, i: int)
    ensures
        ({
            let all = newest_first(recordings(files));
            let shown = listing(files, limit);
            &&& limit <= all.len() ==> shown.len() == limit
            &&& limit >= all.len() ==> shown.len() == all.len()
            &&& 0 <= i < shown.len() ==> shown[i] == (all[i].name, all[i].len)
        }),
{
}

} // verus!
