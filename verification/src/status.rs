//! Runtime status, and the tail of the decoder's console output.
use crate::pcm::CLIP_PEAK;
use std::collections::VecDeque;
use vstd::prelude::*;
use vstd::string::StringExecFns;

verus! {

/// What the dashboard shows.
#[derive(Debug)]
pub struct Status {
    pub decoder_running: bool,
    pub decoder_pid: Option<u32>,
    pub decoder_restarts: u64,
    pub pcm_frames: u64,
    pub seconds_since_pcm: Option<u64>,
    pub last_meta_line: String,
    pub active_call: bool,
    pub current_source: Option<u32>,
    pub calls_total: u64,
    pub last_error: Option<String>,
    /// Peak of the audio on its way to the encoder, held and slowly let go.
    pub pcm_peak: i16,
    /// Number of frames that were clipped.
    pub pcm_clip: u64,
}

/// Mathematical value of a [`Status`]. The counters are modulo 2^64.
pub struct StatusView {
    pub decoder_running: bool,
    pub decoder_pid: Option<u32>,
    pub decoder_restarts: u64,
    pub pcm_frames: u64,
    pub seconds_since_pcm: Option<u64>,
    pub last_meta_line: Seq<char>,
    pub active_call: bool,
    pub current_source: Option<u32>,
    pub calls_total: u64,
    pub last_error: Option<Seq<char>>,
    pub pcm_peak: i16,
    pub pcm_clip: u64,
}

impl View for Status {
    type V = StatusView;

    open spec fn view(&self) -> StatusView {
        StatusView {
            decoder_running: self.decoder_running,
            decoder_pid: self.decoder_pid,
            decoder_restarts: self.decoder_restarts,
            pcm_frames: self.pcm_frames,
            seconds_since_pcm: self.seconds_since_pcm,
            last_meta_line: self.last_meta_line@,
            active_call: self.active_call,
            current_source: self.current_source,
            calls_total: self.calls_total,
            last_error: crate::meta::text_of(self.last_error),
            pcm_peak: self.pcm_peak,
            pcm_clip: self.pcm_clip,
        }
    }
}

/// A peak after the time of one frame: three in a hundred less, rounded down.
pub open spec fn decayed(peak: i16) -> i16 {
    (peak * 97 / 100) as i16
}

impl StatusView {
    /// The status at the start.
    pub open spec fn initial() -> StatusView {
        StatusView {
            decoder_running: false,
            decoder_pid: None,
            decoder_restarts: 0,
            pcm_frames: 0,
            seconds_since_pcm: None,
            last_meta_line: ""@,
            active_call: false,
            current_source: None,
            calls_total: 0,
            last_error: None,
            pcm_peak: 0,
            pcm_clip: 0,
        }
    }

    /// A console line was applied to the calls.
    pub open spec fn after_meta(
        self,
        line: Seq<char>,
        active_call: bool,
        current_source: Option<u32>,
        calls_total: u64,
    ) -> StatusView {
        StatusView { last_meta_line: line, active_call, current_source, calls_total, ..self }
    }

    /// A metadata pattern was refused.
    pub open spec fn after_bad_pattern(self, reason: Seq<char>) -> StatusView {
        StatusView { last_error: Some("regex: "@ + reason), ..self }
    }

    /// The decoder could not be started.
    pub open spec fn after_spawn_failed(self, reason: Seq<char>) -> StatusView {
        StatusView { decoder_running: false, last_error: Some("spawn: "@ + reason), ..self }
    }

    /// The decoder runs.
    pub open spec fn after_spawned(self, pid: u32) -> StatusView {
        StatusView { decoder_running: true, decoder_pid: Some(pid), last_error: None, ..self }
    }

    /// The decoder has stopped.
    pub open spec fn after_stopped(self) -> StatusView {
        StatusView {
            decoder_running: false,
            decoder_pid: None,
            decoder_restarts: self.decoder_restarts.wrapping_add(1),
            ..self
        }
    }

    /// A PCM frame with the given peak has been passed on.
    pub open spec fn after_pcm(self, peak: i16) -> StatusView {
        StatusView {
            pcm_frames: self.pcm_frames.wrapping_add(1),
            seconds_since_pcm: Some(0),
            pcm_peak: if peak > self.pcm_peak {
                peak
            } else {
                decayed(self.pcm_peak)
            },
            pcm_clip: if peak >= CLIP_PEAK {
                self.pcm_clip.wrapping_add(1)
            } else {
                self.pcm_clip
            },
            ..self
        }
    }
}

impl Default for Status {
    fn default() -> (r: Self)
        ensures
            r@ == StatusView::initial(),
    {
        Status {
            decoder_running: false,
            decoder_pid: None,
            decoder_restarts: 0,
            pcm_frames: 0,
            seconds_since_pcm: None,
            last_meta_line: "".to_string(),
            active_call: false,
            current_source: None,
            calls_total: 0,
            last_error: None,
            pcm_peak: 0,
            pcm_clip: 0,
        }
    }
}

impl Clone for Status {
    fn clone(&self) -> (r: Self)
        ensures
            r@ == self@,
    {
        Status {
            decoder_running: self.decoder_running,
            decoder_pid: self.decoder_pid,
            decoder_restarts: self.decoder_restarts,
            pcm_frames: self.pcm_frames,
            seconds_since_pcm: self.seconds_since_pcm,
            last_meta_line: self.last_meta_line.clone(),
            active_call: self.active_call,
            current_source: self.current_source,
            calls_total: self.calls_total,
            last_error: match &self.last_error {
                Some(e) => Some(e.clone()),
                None => None,
            },
            pcm_peak: self.pcm_peak,
            pcm_clip: self.pcm_clip,
        }
    }
}

impl Status {
    /// A PCM frame with the given peak has been passed on.
    pub fn note_pcm(&mut self, peak: i16)
        requires
            peak >= 0,
        ensures
            final(self)@ == old(self)@.after_pcm(peak),
    {
        self.pcm_frames = self.pcm_frames.wrapping_add(1);
        self.seconds_since_pcm = Some(0);
        self.pcm_peak = if peak > self.pcm_peak {
            peak
        } else {
            (self.pcm_peak as i32 * 97 / 100) as i16
        };
        if peak >= CLIP_PEAK {
            self.pcm_clip = self.pcm_clip.wrapping_add(1);
        }
    }

    /// A console line was applied to the calls.
    pub fn note_meta(
        &mut self,
        line: &str,
        active_call: bool,
        current_source: Option<u32>,
        calls_total: u64,
    )
        ensures
            final(self)@ == old(self)@.after_meta(line@, active_call, current_source, calls_total),
    {
        self.last_meta_line = line.to_string();
        self.active_call = active_call;
        self.current_source = current_source;
        self.calls_total = calls_total;
    }

    /// A metadata pattern was refused.
    pub fn note_bad_pattern(&mut self, reason: &str)
        ensures
            final(self)@ == old(self)@.after_bad_pattern(reason@),
    {
        let mut text = "regex: ".to_string();
        text.append(reason);
        self.last_error = Some(text);
    }

    /// The decoder could not be started.
    pub fn note_spawn_failed(&mut self, reason: &str)
        ensures
            final(self)@ == old(self)@.after_spawn_failed(reason@),
    {
        let mut text = "spawn: ".to_string();
        text.append(reason);
        self.decoder_running = false;
        self.last_error = Some(text);
    }

    /// The decoder runs, as process `pid`.
    pub fn note_spawned(&mut self, pid: u32)
        ensures
            final(self)@ == old(self)@.after_spawned(pid),
    {
        self.decoder_running = true;
        self.decoder_pid = Some(pid);
        self.last_error = None;
    }

    /// The decoder has stopped and will be started again.
    pub fn note_stopped(&mut self)
        ensures
            final(self)@ == old(self)@.after_stopped(),
    {
        self.decoder_running = false;
        self.decoder_pid = None;
        self.decoder_restarts = self.decoder_restarts.wrapping_add(1);
    }
}

/// The status that all parts report to. Threads share one behind a lock; that all
/// its holders see one value is then what the lock gives.
pub struct SharedStatus {
    status: Status,
}

impl View for SharedStatus {
    type V = StatusView;

    closed spec fn view(&self) -> StatusView {
        self.status@
    }
}

impl SharedStatus {
    pub fn new() -> (r: Self)
        ensures
            r@ == StatusView::initial(),
    {
        SharedStatus { status: Status::default() }
    }

    /// The status as it is now.
    pub fn snapshot(&self) -> (r: Status)
        ensures
            r@ == self@,
    {
        self.status.clone()
    }

    /// Replaces the status by what `f` makes of it.
    pub fn update<F: FnOnce(Status) -> Status>(&mut self, f: F)
        requires
            forall|s: Status| s@ == old(self)@ ==> call_requires(f, (s,)),
        ensures
            exists|before: Status, after: Status|
                before@ == old(self)@ && after@ == final(self)@ && #[trigger] call_ensures(
                    f,
                    (before,),
                    after,
                ),
    {
        let before = self.status.clone();
        self.status = f(before);
    }
}

/// A louder frame lifts the peak that is shown to its own; any other lets it
/// fall, down to 0.
pub proof fn law_peak_is_held_and_let_go(s: StatusView, peak: i16)
    requires
        peak >= 0,
        s.pcm_peak >= 0,
    ensures
        s.after_pcm(peak).pcm_peak >= 0,
        peak > s.pcm_peak ==> s.after_pcm(peak).pcm_peak == peak,
        peak <= s.pcm_peak && s.pcm_peak > 0 ==> s.after_pcm(peak).pcm_peak < s.pcm_peak,
{
}

/// A bounded run of the latest console lines. It is shared as [`SharedStatus`] is.
pub struct SharedLog {
    lines: VecDeque<String>,
    cap: usize,
}

/// Mathematical value of a [`SharedLog`].
pub struct LogView {
    /// The lines held, oldest first.
    pub lines: Seq<Seq<char>>,
    pub cap: usize,
}

impl View for SharedLog {
    type V = LogView;

    closed spec fn view(&self) -> LogView {
        LogView { lines: self.lines@.map_values(|s: String| s@), cap: self.cap }
    }
}

impl LogView {
    /// One more line: the oldest one goes when there is no room.
    pub open spec fn pushed(self, line: Seq<char>) -> LogView {
        LogView {
            lines: if self.lines.len() > 0 && self.lines.len() >= self.cap {
                self.lines.drop_first().push(line)
            } else {
                self.lines.push(line)
            },
            ..self
        }
    }

    /// All of `lines`, one after another.
    pub open spec fn pushed_all(self, lines: Seq<Seq<char>>) -> LogView
        decreases lines.len(),
    {
        if lines.len() == 0 {
            self
        } else {
            self.pushed_all(lines.drop_last()).pushed(lines.last())
        }
    }
}

/// The last `n` of the lines, or all if there are fewer.
pub open spec fn last_of(lines: Seq<Seq<char>>, n: nat) -> Seq<Seq<char>> {
    if n < lines.len() {
        lines.skip(lines.len() - n)
    } else {
        lines
    }
}

/// Lines with a newline between each two.
pub open spec fn joined(lines: Seq<Seq<char>>) -> Seq<char>
    decreases lines.len(),
{
    if lines.len() == 0 {
        seq![]
    } else if lines.len() == 1 {
        lines[0]
    } else {
        joined(lines.drop_last()) + "\n"@ + lines.last()
    }
}

/// An empty log holds, of the lines it is given, just the latest: as many as it
/// has room for (room for none counts as room for one).
pub proof fn law_log_holds_the_latest(cap: usize, lines: Seq<Seq<char>>)
    ensures
        (LogView { lines: seq![], cap }).pushed_all(lines).lines == last_of(
            lines,
            if cap == 0 {
                1
            } else {
                cap as nat
            },
        ),
    decreases lines.len(),
{
    let empty = LogView { lines: seq![], cap };
    let room: nat = if cap == 0 {
        1
    } else {
        cap as nat
    };
    if lines.len() > 0 {
        let front = lines.drop_last();
        law_log_holds_the_latest(cap, front);
        lemma_pushed_all_keeps_cap(empty, front);
        assert(empty.pushed_all(lines).lines =~= last_of(lines, room));
    } else {
        assert(lines =~= seq![]);
    }
}

proof fn lemma_pushed_all_keeps_cap(log: LogView, lines: Seq<Seq<char>>)
    ensures
        log.pushed_all(lines).cap == log.cap,
    decreases lines.len(),
{
    if lines.len() > 0 {
        lemma_pushed_all_keeps_cap(log, lines.drop_last());
    }
}

impl SharedLog {
    pub fn new(cap: usize) -> (r: Self)
        ensures
            r@ == (LogView { lines: seq![], cap }),
    {
        let r = SharedLog { lines: VecDeque::new(), cap };
        assert(r@.lines =~= seq![]);
        r
    }

    /// Adds a line.
    pub fn push(&mut self, line: &str)
        ensures
            final(self)@ == old(self)@.pushed(line@),
    {
        if self.lines.len() >= self.cap {
            let _ = self.lines.pop_front();
        }
        let text = line.to_string();
        self.lines.push_back(text);
        proof {
            assert(self@.lines =~= old(self)@.pushed(line@).lines);
        }
    }

    /// The last `n` lines with newlines between them, oldest first.
    pub fn tail(&self, n: usize) -> (r: String)
        ensures
            r@ == joined(last_of(self@.lines, n as nat)),
    {
        let len: usize = self.lines.len();
        let skip: usize = len.saturating_sub(n);
        let ghost all = last_of(self@.lines, n as nat);
        let mut out = String::new();
        let mut i: usize = skip;
        assert(all.take(0) =~= seq![]);
        assert(out@ =~= joined(all.take(0)));
        while i < len
            invariant
                skip <= i <= len,
                len == self.lines@.len(),
                all == last_of(self@.lines, n as nat),
                all.len() == len - skip,
                forall|k: int| 0 <= k < all.len() ==> all[k] == self@.lines[skip + k],
                out@ == joined(all.take(i - skip)),
            decreases len - i,
        {
            if i > skip {
                out.append("\n");
            }
            out.append(self.lines[i].as_str());
            proof {
                let t = all.take(i - skip + 1);
                assert(t.drop_last() =~= all.take(i - skip));
                assert(t.last() == self.lines@[i as int]@);
                assert(out@ =~= joined(t));
            }
            i = i + 1;
        }
        assert(all.take(i - skip) =~= all);
        out
    }
}

/// The meter after a frame: one more frame, whose audio came just now; a louder
/// peak is taken over, a held one loses three in a hundred, rounded down; and a
/// frame counts as clipped from a peak of 32760 on. Nothing else changes.
pub proof fn law_meter_follows_the_frames(s: StatusView, peak: i16)
    requires
        0 <= peak,
        0 <= s.pcm_peak,
    ensures
        ({
            let after = s.after_pcm(peak);
            &&& after == (StatusView {
                pcm_frames: after.pcm_frames,
                seconds_since_pcm: Some(0),
                pcm_peak: after.pcm_peak,
                pcm_clip: after.pcm_clip,
                ..s
            })
            &&& after.pcm_frames == (s.pcm_frames + 1) % 0x1_0000_0000_0000_0000
            &&& after.pcm_clip == (if peak >= 32760 {
                (s.pcm_clip + 1) % 0x1_0000_0000_0000_0000
            } else {
                s.pcm_clip as int
            })
            &&& peak > s.pcm_peak ==> after.pcm_peak == peak
            &&& peak <= s.pcm_peak ==> 100 * after.pcm_peak <= 97 * s.pcm_peak < 100
                * after.pcm_peak + 100
        }),
{
}

/// A log never holds more than it has room for, and always holds the line that came
/// last.
pub proof fn law_log_stays_bounded(log: LogView, line: Seq<char>)
    requires
        log.lines.len() <= log.cap,
        log.cap > 0,
    ensures
        log.pushed(line).lines.len() <= log.cap,
        log.pushed(line).cap == log.cap,
        log.pushed(line).lines.last() == line,
        log.lines.len() < log.cap ==> log.pushed(line).lines == log.lines.push(line),
        log.lines.len() == log.cap ==> log.pushed(line).lines.drop_last()
            == log.lines.drop_first(),
{
    if log.lines.len() == log.cap {
        assert(log.lines.drop_first().push(line).drop_last() =~= log.lines.drop_first());
    }
}

/// Whether only what concerns the decoder differs.
pub open spec fn same_but_for_the_decoder(a: StatusView, b: StatusView) -> bool {
    a == (StatusView {
        decoder_running: a.decoder_running,
        decoder_pid: a.decoder_pid,
        decoder_restarts: a.decoder_restarts,
        last_error: a.last_error,
        ..b
    })
}

/// The status follows the decoder, whatever it was before: one that runs shows its
/// process and no error, one that could not be started shows why and does not run,
/// and each stop counts one restart. Nothing else changes.
pub proof fn law_status_follows_the_decoder(s: StatusView, pid: u32, reason: Seq<char>)
    ensures
        ({
            let up = s.after_spawned(pid);
            let failed = s.after_spawn_failed(reason);
            let down = s.after_stopped();
            let refused = s.after_bad_pattern(reason);
            &&& up.decoder_running && up.decoder_pid == Some(pid) && up.last_error is None
            &&& up.decoder_restarts == s.decoder_restarts
            &&& !failed.decoder_running && failed.last_error == Some("spawn: "@ + reason)
            &&& failed.decoder_pid == s.decoder_pid && failed.decoder_restarts == s.decoder_restarts
            &&& !down.decoder_running && down.decoder_pid is None && down.last_error == s.last_error
            &&& down.decoder_restarts == (s.decoder_restarts + 1) % 0x1_0000_0000_0000_0000
            &&& refused == (StatusView { last_error: Some("regex: "@ + reason), ..s })
            &&& same_but_for_the_decoder(up, s)
            &&& same_but_for_the_decoder(failed, s)
            &&& same_but_for_the_decoder(down, s)
        }),
{
}

/// A line that was applied is shown with the state of the calls, and nothing else
/// changes.
pub proof fn law_status_shows_the_line(
    s: StatusView,
    line: Seq<char>,
    active_call: bool,
    current_source: Option<u32>,
    calls_total: u64,
)
    ensures
        ({
            let after = s.after_meta(line, active_call, current_source, calls_total);
            &&& after.last_meta_line == line
            &&& after.active_call == active_call
            &&& after.current_source == current_source
            &&& after.calls_total == calls_total
            &&& s == (StatusView {
                last_meta_line: s.last_meta_line,
                active_call: s.active_call,
                current_source: s.current_source,
                calls_total: s.calls_total,
                ..after
            })
        }),
{
}

/// At the start nothing has happened.
pub proof fn law_status_starts_empty()
    ensures
        ({
            let s = StatusView::initial();
            &&& !s.decoder_running && s.decoder_pid is None && s.decoder_restarts == 0
            &&& s.pcm_frames == 0 && s.seconds_since_pcm is None && s.pcm_peak == 0 && s.pcm_clip
                == 0
            &&& !s.active_call && s.current_source is None && s.calls_total == 0
            &&& s.last_error is None && s.last_meta_line.len() == 0
        }),
{
    reveal_strlit("");
}

} // verus!
