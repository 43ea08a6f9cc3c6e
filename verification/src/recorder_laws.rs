//! What holds of the recorder as a whole.
use crate::bytes::{le32, lemma_sample_bytes_concat, sample_bytes};
use crate::dashboard::is_safe_name;
use crate::outside::is_stamp;
use crate::recorder::{
    file_name, is_recording, refined, ActionView, ActiveView, DoingView, OpView, RecorderStep,
    RecorderView,
};
use crate::scan::find;
use crate::text::{decimal, is_digit, law_parse_of_decimal};
use crate::wav::{
    clip_of, data_len_of, header, law_patched_file_is_whole, law_read_of_recording, patched,
    riff_len, ClipView, WavError, SAMPLE_RATE,
};
use vstd::prelude::*;

verus! {

/// A recorder that is off stays as it is, whatever it is asked for, and has
/// nothing done on disk.
pub proof fn law_off_does_nothing(
    r: RecorderView,
    src: u32,
    tg: u32,
    seen_src: Option<u32>,
    seen_tg: Option<u32>,
    pcm: Seq<i16>,
)
    requires
        r.valid(),
        !r.enabled,
    ensures
        r.started(src, tg) == r,
        r.noted(seen_src, seen_tg) == r,
        r.wrote(pcm) == r,
        r.finished() == r,
        r.next() == (RecorderStep { recorder: r, action: None }),
{
}

/// Handing out an action and taking its outcome keep a recorder valid, and neither
/// turns it on or off.
pub proof fn law_actions_keep_valid(r: RecorderView, ok: bool, now: Seq<char>)
    requires
        r.valid(),
    ensures
        r.next().recorder.valid(),
        r.next().recorder.enabled == r.enabled,
        r.reported(ok, now).valid(),
        r.reported(ok, now).enabled == r.enabled,
{
    lemma_next_keeps_enabled(r);
}

proof fn lemma_next_keeps_enabled(r: RecorderView)
    ensures
        r.next().recorder.enabled == r.enabled,
    decreases r.pending.len(),
{
    if r.doing is None && r.pending.len() > 0 {
        lemma_next_keeps_enabled(after_first(r));
    }
}

/// The recorder with its first open point done, where that takes no action.
spec fn after_first(r: RecorderView) -> RecorderView {
    let rest = RecorderView { pending: r.pending.drop_first(), ..r };
    match (r.pending[0], r.active) {
        (OpView::Note { seen_src, seen_tg }, Some(a)) => RecorderView {
            active: Some(
                ActiveView { src: refined(a.src, seen_src), tg: refined(a.tg, seen_tg), ..a },
            ),
            ..rest
        },
        _ => rest,
    }
}

/// Whether `file` is the file in progress and holds the samples `pcm`: the header
/// of an empty recording, then every sample.
pub open spec fn holds(r: RecorderView, file: Seq<u8>, pcm: Seq<i16>) -> bool {
    &&& r.doing is None
    &&& r.active matches Some(a) && a.samples == pcm.len() % 0x1_0000_0000
    &&& file == header(0) + sample_bytes(pcm)
}

/// A recording begins with a file that holds no sample.
pub proof fn law_recording_begins_empty(r: RecorderView, src: u32, tg: u32, now: Seq<char>)
    requires
        r.doing is None,
        r.pending.len() > 0,
        r.pending[0] == (OpView::Open { src, tg }),
    ensures
        r.next().action matches Some(ActionView::Create { header }) && holds(
            r.next().recorder.reported(true, now),
            header,
            seq![],
        ),
        r.next().recorder.reported(true, now).active == Some(
            ActiveView { samples: 0, started: now, src, tg },
        ),
{
    assert(header(0) + sample_bytes(seq![]) =~= header(0));
}

/// Samples that are written come after those that are in the file; a write that
/// fails leaves them out.
pub proof fn law_recording_grows(
    r: RecorderView,
    file: Seq<u8>,
    pcm: Seq<i16>,
    more: Seq<i16>,
    now: Seq<char>,
)
    requires
        holds(r, file, pcm),
        r.pending.len() > 0,
        r.pending[0] == (OpView::Append { pcm: more }),
    ensures
        r.next().action matches Some(ActionView::Append { bytes }) && holds(
            r.next().recorder.reported(true, now),
            file + bytes,
            pcm + more,
        ),
        holds(r.next().recorder.reported(false, now), file, pcm),
{
    lemma_sample_bytes_concat(pcm, more);
    lemma_appended(header(0), sample_bytes(pcm), sample_bytes(more));
    lemma_count(pcm.len(), more.len());
}

proof fn lemma_appended(a: Seq<u8>, b: Seq<u8>, c: Seq<u8>)
    ensures
        a + b + c == a + (b + c),
{
    assert(a + b + c =~= a + (b + c));
}

/// Counting modulo 2^32 may be done part by part.
proof fn lemma_count(a: nat, b: nat)
    ensures
        ((a % 0x1_0000_0000) as u32).wrapping_add((b % 0x1_0000_0000) as u32) == (a + b)
            % 0x1_0000_0000,
{
}

proof fn lemma_patched_reads_back(pcm: Seq<i16>, samples: u32)
    requires
        samples == pcm.len(),
        2 * pcm.len() + 36 <= u32::MAX,
    ensures
        clip_of(
            patched(
                header(0) + sample_bytes(pcm),
                le32(riff_len(data_len_of(samples))),
                le32(data_len_of(samples)),
            ),
        ) == Ok::<ClipView, WavError>(
            ClipView { samples: pcm, rate: SAMPLE_RATE },
        ),
{
    law_patched_file_is_whole(sample_bytes(pcm), data_len_of(samples));
    law_read_of_recording(pcm);
}

/// A recording that is long enough is saved whole, under the name of its call:
/// the finished file is one from which the very samples are read back.
pub proof fn law_recording_is_saved_whole(
    r: RecorderView,
    file: Seq<u8>,
    pcm: Seq<i16>,
    now: Seq<char>,
)
    requires
        holds(r, file, pcm),
        r.pending.len() > 0,
        r.pending[0] is Finish,
        2 * pcm.len() + 36 <= u32::MAX,
        pcm.len() >= r.min_samples,
    ensures
        ({
            let a = r.active->0;
            let saved = r.next().recorder.reported(true, now);
            &&& r.next().action matches Some(ActionView::Save { riff_len, data_len, name })
                && name == file_name(a.started, a.tg, a.src) && clip_of(
                patched(file, riff_len, data_len),
            ) == Ok::<ClipView, WavError>(
                ClipView { samples: pcm, rate: SAMPLE_RATE },
            )
            &&& saved.active is None
            &&& saved.files_written == r.files_written.wrapping_add(1)
            &&& saved.last_file == Some(file_name(a.started, a.tg, a.src))
        }),
{
    let a = r.active->0;
    lemma_patched_reads_back(pcm, a.samples);
    let name = file_name(a.started, a.tg, a.src);
    assert(r.next().action == Some(
        ActionView::Save {
            riff_len: le32(riff_len(data_len_of(a.samples))),
            data_len: le32(data_len_of(a.samples)),
            name,
        },
    ));
    assert(r.next().recorder.doing == Some(DoingView::Saving { name }));
}

/// A recording that is too short is dropped, and no file counts for it.
pub proof fn law_short_recording_is_dropped(r: RecorderView, ok: bool, now: Seq<char>)
    requires
        r.doing is None,
        r.pending.len() > 0,
        r.pending[0] is Finish,
        r.active matches Some(a) && a.samples < r.min_samples,
    ensures
        r.next().action == Some(ActionView::Discard),
        r.next().recorder.reported(ok, now).active is None,
        r.next().recorder.reported(ok, now).files_written == r.files_written,
        r.next().recorder.reported(ok, now).last_file == r.last_file,
{
}

/// A disk: the file in progress, and the files that were saved.
pub struct Disk {
    pub part: Seq<u8>,
    pub saved: Seq<(Seq<char>, Seq<u8>)>,
}

impl Disk {
    /// An action is carried out.
    pub open spec fn performed(self, action: ActionView) -> Disk {
        match action {
            ActionView::Create { header } => Disk { part: header, ..self },
            ActionView::Append { bytes } => Disk { part: self.part + bytes, ..self },
            ActionView::Discard => Disk { part: seq![], ..self },
            ActionView::Save { riff_len, data_len, name } => Disk {
                saved: self.saved.push((name, patched(self.part, riff_len, data_len))),
                ..self
            },
        }
    }
}

/// The disk once all that a recorder asks for has been done, with success, at
/// local time `now`.
pub open spec fn settled(r: RecorderView, disk: Disk, now: Seq<char>) -> Disk
    decreases r.pending.len(),
{
    let step = r.next();
    match step.action {
        Some(action) => if step.recorder.pending.len() < r.pending.len() {
            settled(step.recorder.reported(true, now), disk.performed(action), now)
        } else {
            disk
        },
        None => disk,
    }
}

/// A recorder that was given some runs of samples to write.
pub open spec fn wrote_all(r: RecorderView, runs: Seq<Seq<i16>>) -> RecorderView
    decreases runs.len(),
{
    if runs.len() == 0 {
        r
    } else {
        wrote_all(r, runs.drop_last()).wrote(runs.last())
    }
}

/// The samples of some runs, one run after another.
pub open spec fn all_samples(runs: Seq<Seq<i16>>) -> Seq<i16>
    decreases runs.len(),
{
    if runs.len() == 0 {
        seq![]
    } else {
        runs[0] + all_samples(runs.skip(1))
    }
}

/// What remains to be done for some runs of samples.
spec fn appends(runs: Seq<Seq<i16>>) -> Seq<OpView> {
    runs.map_values(|pcm: Seq<i16>| OpView::Append { pcm })
}

proof fn lemma_wrote_all(r: RecorderView, runs: Seq<Seq<i16>>)
    requires
        r.enabled,
    ensures
        wrote_all(r, runs) == (RecorderView { pending: r.pending + appends(runs), ..r }),
    decreases runs.len(),
{
    if runs.len() == 0 {
        assert(r.pending + appends(runs) =~= r.pending);
    } else {
        let front = runs.drop_last();
        lemma_wrote_all(r, front);
        assert((r.pending + appends(front)).push(OpView::Append { pcm: runs.last() })
            =~= r.pending + appends(runs));
    }
}

/// From a file in progress on, the rest of a call is written and saved.
proof fn lemma_rest_is_saved(
    r: RecorderView,
    disk: Disk,
    pcm: Seq<i16>,
    runs: Seq<Seq<i16>>,
    now: Seq<char>,
)
    requires
        holds(r, disk.part, pcm),
        r.pending == appends(runs).push(OpView::Finish),
        2 * (pcm + all_samples(runs)).len() + 36 <= u32::MAX,
        (pcm + all_samples(runs)).len() >= r.min_samples,
    ensures
        ({
            let a = r.active->0;
            let after = settled(r, disk, now).saved;
            &&& after.len() == disk.saved.len() + 1
            &&& after.drop_last() == disk.saved
            &&& after.last().0 == file_name(a.started, a.tg, a.src)
            &&& clip_of(after.last().1) == Ok::<ClipView, WavError>(
                ClipView { samples: pcm + all_samples(runs), rate: SAMPLE_RATE },
            )
        }),
    decreases runs.len(),
{
    let step = r.next();
    if runs.len() == 0 {
        assert(pcm + all_samples(runs) =~= pcm);
        assert(r.pending[0] is Finish);
        law_recording_is_saved_whole(r, disk.part, pcm, now);
        let after = step.recorder.reported(true, now);
        assert(after.pending =~= seq![]);
        assert(settled(after, disk.performed(step.action->0), now) == disk.performed(
            step.action->0,
        ));
        assert(settled(r, disk, now).saved.drop_last() =~= disk.saved);
    } else {
        let first = runs[0];
        let rest = runs.skip(1);
        assert(r.pending[0] == (OpView::Append { pcm: first }));
        law_recording_grows(r, disk.part, pcm, first, now);
        let after = step.recorder.reported(true, now);
        assert(after.pending =~= appends(rest).push(OpView::Finish));
        assert(pcm + first + all_samples(rest) =~= pcm + all_samples(runs));
        lemma_rest_is_saved(after, disk.performed(step.action->0), pcm + first, rest, now);
    }
}

/// A call that is recorded is saved whole: where nothing fails on disk, one file
/// is added, named after the time and the ids of the call, and the samples read
/// from it are those that were written, in order.
pub proof fn law_call_is_recorded_whole(
    r: RecorderView,
    disk: Disk,
    src: u32,
    tg: u32,
    runs: Seq<Seq<i16>>,
    now: Seq<char>,
)
    requires
        r.enabled,
        r.active is None,
        r.doing is None,
        r.pending.len() == 0,
        2 * all_samples(runs).len() + 36 <= u32::MAX,
        all_samples(runs).len() >= r.min_samples,
    ensures
        ({
            let after = settled(wrote_all(r.started(src, tg), runs).finished(), disk, now).saved;
            &&& after.len() == disk.saved.len() + 1
            &&& after.drop_last() == disk.saved
            &&& after.last().0 == file_name(now, tg, src)
            &&& clip_of(after.last().1) == Ok::<ClipView, WavError>(
                ClipView { samples: all_samples(runs), rate: SAMPLE_RATE },
            )
        }),
{
    let begun = r.started(src, tg);
    lemma_wrote_all(begun, runs);
    let asked = wrote_all(begun, runs).finished();
    let ops = appends(runs).push(OpView::Finish);
    let opened = RecorderView { pending: seq![OpView::Open { src, tg }] + ops, ..r };
    assert(asked.pending =~= seq![OpView::Finish] + opened.pending);
    assert(asked.pending.drop_first() =~= opened.pending);
    assert(asked.next() == opened.next());
    law_recording_begins_empty(opened, src, tg, now);
    let step = opened.next();
    let after = step.recorder.reported(true, now);
    let created = disk.performed(step.action->0);
    assert(after.pending =~= ops);
    assert(Seq::<i16>::empty() + all_samples(runs) =~= all_samples(runs));
    lemma_rest_is_saved(after, created, seq![], runs, now);
    assert(settled(asked, disk, now) == settled(after, created, now));
}

/// Every file that is saved is listed as a recording.
pub proof fn law_saved_files_are_listed(started: Seq<char>, tg: u32, src: u32)
    ensures
        is_recording(file_name(started, tg, src)),
{
    reveal_strlit(".wav");
    let name = file_name(started, tg, src);
    assert(name.skip(name.len() - 4) =~= ".wav"@);
}

/// A name that has one dot has no two in a row.
proof fn lemma_no_two_dots(name: Seq<char>)
    requires
        forall|i: int, j: int|
            0 <= i < j < name.len() ==> !(#[trigger] name[i] == '.' && #[trigger] name[j] == '.'),
    ensures
        find(name, ".."@) is None,
    decreases name.len(),
{
    reveal_strlit("..");
    if name.len() >= 2 {
        if name.take(2) == ".."@ {
            assert(name.take(2)[0] == name[0] && name.take(2)[1] == name[1]);
            assert(name[0] == '.' && name[1] == '.');
            assert(false);
        }
        let rest = name.skip(1);
        assert forall|i: int, j: int| 0 <= i < j < rest.len() implies !(#[trigger] rest[i] == '.'
            && #[trigger] rest[j] == '.') by {
            assert(rest[i] == name[i + 1] && rest[j] == name[j + 1]);
        }
        lemma_no_two_dots(rest);
    }
}

/// A file that was begun at some local time can be fetched under its name.
pub proof fn law_saved_files_can_be_fetched(started: Seq<char>, tg: u32, src: u32)
    requires
        is_stamp(started),
    ensures
        is_safe_name(file_name(started, tg, src)),
{
    reveal_strlit("_tg");
    reveal_strlit("_src");
    reveal_strlit(".wav");
    law_parse_of_decimal(tg as nat);
    law_parse_of_decimal(src as nat);
    law_saved_files_are_listed(started, tg, src);
    let name = file_name(started, tg, src);
    let front = started + "_tg"@ + decimal(tg as nat) + "_src"@ + decimal(src as nat);
    assert(name =~= front + ".wav"@);
    assert forall|i: int| 0 <= i < front.len() implies #[trigger] front[i] != '/' && front[i]
        != '.' by {
        let a = started.len() as int;
        let b = a + 3;
        let c = b + decimal(tg as nat).len();
        let d = c + 4;
        if i < a {
            assert(front[i] == started[i]);
            assert(i == 0 || i == a - 7 || is_digit(started[i]));
        } else if i < b {
            assert(front[i] == "_tg"@[i - a]);
        } else if i < c {
            assert(front[i] == decimal(tg as nat)[i - b]);
        } else if i < d {
            assert(front[i] == "_src"@[i - c]);
        } else {
            assert(front[i] == decimal(src as nat)[i - d]);
        }
    }
    assert forall|i: int| 0 <= i < name.len() implies name[i] != '/' && (name[i] == '.' ==> i
        == front.len()) by {
        if i < front.len() {
            assert(name[i] == front[i]);
        } else {
            assert(name[i] == ".wav"@[i - front.len()]);
        }
    }
    lemma_no_two_dots(name);
}

/// Whether the file in progress was begun at a local time, and every file that is
/// being saved or was saved last can be fetched.
pub open spec fn is_fetchable(r: RecorderView) -> bool {
    &&& r.active matches Some(a) ==> is_stamp(a.started)
    &&& r.doing matches Some(DoingView::Saving { name }) ==> is_safe_name(name)
    &&& r.last_file matches Some(name) ==> is_safe_name(name)
}

/// Every file that is saved can be fetched: it holds at the start, whatever is
/// asked for keeps it, handing out an action and taking its outcome keep it, and
/// the name under which a file is saved is one that is served.
pub proof fn law_every_saved_file_can_be_fetched(
    r: RecorderView,
    op: OpView,
    min_samples: u32,
    ok: bool,
    now: Seq<char>,
)
    requires
        is_fetchable(r),
        r.begins(ok) ==> is_stamp(now),
    ensures
        is_fetchable(RecorderView::off()),
        is_fetchable(RecorderView { enabled: true, min_samples, ..RecorderView::off() }),
        is_fetchable(r.asked(op)),
        is_fetchable(r.reported(ok, now)),
        is_fetchable(r.next().recorder),
        r.next().action matches Some(ActionView::Save { riff_len, data_len, name })
            ==> is_safe_name(name),
{
    lemma_next_is_fetchable(r);
}

proof fn lemma_next_is_fetchable(r: RecorderView)
    requires
        is_fetchable(r),
    ensures
        is_fetchable(r.next().recorder),
        r.next().action matches Some(ActionView::Save { riff_len, data_len, name })
            ==> is_safe_name(name),
    decreases r.pending.len(),
{
    if r.doing is None && r.pending.len() > 0 {
        lemma_next_is_fetchable(after_first(r));
        if r.active is Some {
            let a = r.active->0;
            law_saved_files_can_be_fetched(a.started, a.tg, a.src);
        }
    }
}

/// What was noted of a call, as something to be done.
pub open spec fn notes(seen: Seq<(Option<u32>, Option<u32>)>) -> Seq<OpView> {
    seen.map_values(
        |n: (Option<u32>, Option<u32>)| OpView::Note { seen_src: n.0, seen_tg: n.1 },
    )
}

/// Whether an id that was noted says anything.
pub open spec fn is_id(id: Option<u32>) -> bool {
    id matches Some(n) && n != 0
}

/// Whether `id` is the last source id other than 0 that was noted, or `begun` where
/// there is none.
pub open spec fn is_last_source(
    id: u32,
    begun: u32,
    seen: Seq<(Option<u32>, Option<u32>)>,
) -> bool {
    ||| exists|k: int|
        {
            &&& 0 <= k < seen.len()
            &&& (#[trigger] seen[k]).0 == Some(id)
            &&& id != 0
            &&& forall|j: int| k < j < seen.len() ==> !is_id((#[trigger] seen[j]).0)
        }
    ||| id == begun && forall|j: int| 0 <= j < seen.len() ==> !is_id((#[trigger] seen[j]).0)
}

/// Whether `id` is the last talkgroup other than 0 that was noted, or `begun` where
/// there is none.
pub open spec fn is_last_talkgroup(
    id: u32,
    begun: u32,
    seen: Seq<(Option<u32>, Option<u32>)>,
) -> bool {
    ||| exists|k: int|
        {
            &&& 0 <= k < seen.len()
            &&& (#[trigger] seen[k]).1 == Some(id)
            &&& id != 0
            &&& forall|j: int| k < j < seen.len() ==> !is_id((#[trigger] seen[j]).1)
        }
    ||| id == begun && forall|j: int| 0 <= j < seen.len() ==> !is_id((#[trigger] seen[j]).1)
}

/// A recording bears the ids that were decoded last: its name has the last source
/// and the last talkgroup other than 0 that were noted since it was begun, and
/// those that it was begun with where none was.
pub proof fn law_name_has_the_last_ids(
    r: RecorderView,
    seen: Seq<(Option<u32>, Option<u32>)>,
    src: u32,
    tg: u32,
)
    requires
        r.doing is None,
        r.active matches Some(a) && a.samples >= r.min_samples,
        r.pending == notes(seen).push(OpView::Finish),
        is_last_source(src, r.active->0.src, seen),
        is_last_talkgroup(tg, r.active->0.tg, seen),
    ensures
        r.next().action matches Some(ActionView::Save { riff_len, data_len, name }) && name
            == r.active->0.started + "_tg"@ + decimal(tg as nat) + "_src"@ + decimal(src as nat)
            + ".wav"@,
    decreases seen.len(),
{
    let a = r.active->0;
    if seen.len() == 0 {
        assert(r.pending[0] is Finish);
        assert(src == a.src && tg == a.tg);
    } else {
        let rest = seen.skip(1);
        assert(r.pending[0] == (OpView::Note { seen_src: seen[0].0, seen_tg: seen[0].1 }));
        let s = if is_id(seen[0].0) {
            seen[0].0->0
        } else {
            a.src
        };
        let t = if is_id(seen[0].1) {
            seen[0].1->0
        } else {
            a.tg
        };
        let after = RecorderView {
            pending: r.pending.drop_first(),
            active: Some(ActiveView { src: s, tg: t, ..a }),
            ..r
        };
        assert(r.pending.drop_first() =~= notes(rest).push(OpView::Finish));
        assert(r.next() == after.next());
        lemma_last_to_rest(src, tg, a.src, a.tg, s, t, seen);
        law_name_has_the_last_ids(after, rest, src, tg);
    }
}

proof fn lemma_last_to_rest(
    src: u32,
    tg: u32,
    begun_src: u32,
    begun_tg: u32,
    s: u32,
    t: u32,
    seen: Seq<(Option<u32>, Option<u32>)>,
)
    requires
        seen.len() > 0,
        is_last_source(src, begun_src, seen),
        is_last_talkgroup(tg, begun_tg, seen),
        s == (if is_id(seen[0].0) {
            seen[0].0->0
        } else {
            begun_src
        }),
        t == (if is_id(seen[0].1) {
            seen[0].1->0
        } else {
            begun_tg
        }),
    ensures
        is_last_source(src, s, seen.skip(1)),
        is_last_talkgroup(tg, t, seen.skip(1)),
{
    let rest = seen.skip(1);
    assert forall|j: int| 0 <= j < rest.len() implies #[trigger] rest[j] == seen[j + 1] by {}
    if exists|k: int|
        0 <= k < seen.len() && (#[trigger] seen[k]).0 == Some(src) && src != 0 && forall|j: int|
            k < j < seen.len() ==> !is_id((#[trigger] seen[j]).0) {
        let k = choose|k: int|
            0 <= k < seen.len() && (#[trigger] seen[k]).0 == Some(src) && src != 0 && forall|j: int|
                k < j < seen.len() ==> !is_id((#[trigger] seen[j]).0);
        if k > 0 {
            assert(rest[k - 1].0 == Some(src));
        }
    }
    if exists|k: int|
        0 <= k < seen.len() && (#[trigger] seen[k]).1 == Some(tg) && tg != 0 && forall|j: int|
            k < j < seen.len() ==> !is_id((#[trigger] seen[j]).1) {
        let k = choose|k: int|
            0 <= k < seen.len() && (#[trigger] seen[k]).1 == Some(tg) && tg != 0 && forall|j: int|
                k < j < seen.len() ==> !is_id((#[trigger] seen[j]).1);
        if k > 0 {
            assert(rest[k - 1].1 == Some(tg));
        }
    }
}

/// One note, then the end: an id other than 0 is taken over, and 0 or none leaves
/// the one that was there.
pub proof fn law_note_renames_the_recording(
    r: RecorderView,
    seen_src: Option<u32>,
    seen_tg: Option<u32>,
)
    requires
        r.doing is None,
        r.active matches Some(a) && a.samples >= r.min_samples,
        r.pending == seq![OpView::Note { seen_src, seen_tg }, OpView::Finish],
    ensures
        ({
            let a = r.active->0;
            let src = match seen_src {
                Some(id) => if id == 0 {
                    a.src
                } else {
                    id
                },
                None => a.src,
            };
            let tg = match seen_tg {
                Some(id) => if id == 0 {
                    a.tg
                } else {
                    id
                },
                None => a.tg,
            };
            r.next().action matches Some(ActionView::Save { riff_len, data_len, name }) && name
                == file_name(a.started, tg, src)
        }),
{
    let a = r.active->0;
    let after = after_first(r);
    assert(after.pending[0] is Finish);
    assert(r.next() == after.next());
}

/// Actions are handed out one at a time: while the outcome of one is awaited there
/// is no other.
pub proof fn law_one_action_at_a_time(r: RecorderView)
    ensures
        r.doing is Some ==> r.next() == (RecorderStep { recorder: r, action: None }),
        r.next().action is Some ==> r.next().recorder.next().action is None,
    decreases r.pending.len(),
{
    if r.doing is None && r.pending.len() > 0 {
        law_one_action_at_a_time(after_first(r));
    }
}

/// What is asked for waits in order behind what was asked for before. A start ends
/// the file in progress before it begins another.
pub proof fn law_requests_wait_in_order(
    r: RecorderView,
    src: u32,
    tg: u32,
    seen_src: Option<u32>,
    seen_tg: Option<u32>,
    pcm: Seq<i16>,
)
    requires
        r.enabled,
    ensures
        r.started(src, tg) == (RecorderView {
            pending: r.pending + seq![OpView::Finish, OpView::Open { src, tg }],
            ..r
        }),
        r.noted(seen_src, seen_tg) == (RecorderView {
            pending: r.pending.push(OpView::Note { seen_src, seen_tg }),
            ..r
        }),
        r.wrote(pcm) == (RecorderView { pending: r.pending.push(OpView::Append { pcm }), ..r }),
        r.finished() == (RecorderView { pending: r.pending.push(OpView::Finish), ..r }),
{
    assert(r.started(src, tg).pending =~= r.pending + seq![
        OpView::Finish,
        OpView::Open { src, tg },
    ]);
}

/// Without a file in progress nothing is noted, written or finished: the only
/// action there can be is to begin one.
pub proof fn law_without_a_file_only_a_start_counts(r: RecorderView)
    requires
        r.active is None,
    ensures
        r.next().action matches Some(a) ==> a == (ActionView::Create { header: header(0) }),
        r.next().recorder.active is None,
        r.next().recorder.files_written == r.files_written,
        r.next().recorder.last_file == r.last_file,
    decreases r.pending.len(),
{
    if r.doing is None && r.pending.len() > 0 {
        law_without_a_file_only_a_start_counts(after_first(r));
    }
}

/// An action that fails has no effect: no file is begun, no sample counted and no
/// file counted as saved.
pub proof fn law_failed_action_counts_for_nothing(r: RecorderView, now: Seq<char>)
    ensures
        r.reported(false, now) == (RecorderView { doing: None, ..r }),
{
}

/// A file counts as saved, once, when its renaming has succeeded, and it is then
/// the last one; other actions count no file.
pub proof fn law_files_are_counted_when_saved(r: RecorderView, now: Seq<char>)
    ensures
        ({
            let after = r.reported(true, now);
            match r.doing {
                Some(DoingView::Saving { name }) => after.files_written
                    == r.files_written.wrapping_add(1) && after.last_file == Some(name),
                _ => after.files_written == r.files_written && after.last_file == r.last_file,
            }
        }),
        r.next().recorder.files_written == r.files_written,
        r.next().recorder.last_file == r.last_file,
    decreases r.pending.len(),
{
    if r.doing is None && r.pending.len() > 0 {
        law_files_are_counted_when_saved(after_first(r), now);
    }
}

} // verus!
