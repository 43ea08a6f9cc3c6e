//! A synthetic call: the options of the command that sends one, and its frames.
//!
//! It proves the injecting side end to end, with no receiver and no decoder: a
//! tone or a clip is heard on the chosen group.
use crate::ipc::{
    BodyView, FlowDmrBody, FlowDmrFrame, FrameView, PCM_SAMPLES_PER_FRAME, VOICE_FLAG_FIRST,
    VOICE_FLAG_LAST,
};
use crate::scan::same_text;
use crate::text::{
    chars_of, decimal, law_numbers_are_read_up_to_the_limit,
    law_signed_numbers_are_read_within_the_limits, parse_between, parse_up_to, parsed_between,
    parsed_up_to, signed_decimal,
};
use vstd::prelude::*;

verus! {

/// The stream of the synthetic call.
pub const TEST_STREAM: u32 = 0xC0_FFEE;

/// Milliseconds of speech in a frame.
pub const FRAME_MS: u64 = 30;

/// Milliseconds to wait at the end for the last frames to play.
pub const DRAIN_MS: u64 = 600;

/// What is to be sent. Fractional values are kept as they were written, in order.
#[derive(Debug)]
pub struct Opts {
    pub entity: String,
    pub tg: u32,
    pub src: u32,
    pub secs: Vec<String>,
    pub tone_hz: Vec<String>,
    pub amplitude: i16,
    pub wav: Option<String>,
}

/// Mathematical value of [`Opts`].
pub struct OptsView {
    pub entity: Seq<char>,
    pub tg: u32,
    pub src: u32,
    pub secs: Seq<Seq<char>>,
    pub tone_hz: Seq<Seq<char>>,
    pub amplitude: i16,
    pub wav: Option<Seq<char>>,
}

impl View for Opts {
    type V = OptsView;

    open spec fn view(&self) -> OptsView {
        OptsView {
            entity: self.entity@,
            tg: self.tg,
            src: self.src,
            secs: crate::config::texts(self.secs@),
            tone_hz: crate::config::texts(self.tone_hz@),
            amplitude: self.amplitude,
            wav: crate::meta::text_of(self.wav),
        }
    }
}

/// The options where none are given.
pub open spec fn default_opts() -> OptsView {
    OptsView {
        entity: "127.0.0.1:23471"@,
        tg: 5000,
        src: 1_234_567,
        secs: seq![],
        tone_hz: seq![],
        amplitude: 8000,
        wav: None,
    }
}

impl Default for Opts {
    fn default() -> (r: Self)
        ensures
            r@ == default_opts(),
    {
        let r = Opts {
            entity: "127.0.0.1:23471".to_string(),
            tg: 5000,
            src: 1_234_567,
            secs: Vec::new(),
            tone_hz: Vec::new(),
            amplitude: 8000,
            wav: None,
        };
        assert(r@.secs =~= seq![]);
        assert(r@.tone_hz =~= seq![]);
        r
    }
}

/// What a command line asks for.
#[derive(Debug)]
pub enum Command {
    Send(Opts),
    Help,
    /// An option that is not known.
    Unknown(String),
}

/// Mathematical value of a [`Command`].
pub enum CommandView {
    Send(OptsView),
    Help,
    Unknown(Seq<char>),
}

impl View for Command {
    type V = CommandView;

    open spec fn view(&self) -> CommandView {
        match *self {
            Command::Send(o) => CommandView::Send(o@),
            Command::Help => CommandView::Help,
            Command::Unknown(s) => CommandView::Unknown(s@),
        }
    }
}

impl OptsView {
    /// The options with one more set. A value that is no number of its kind leaves
    /// the option as it was. None if the option is not known.
    pub open spec fn with_option(self, name: Seq<char>, value: Seq<char>) -> Option<OptsView> {
        if name == "--entity"@ {
            Some(OptsView { entity: value, ..self })
        } else if name == "--tg"@ {
            Some(
                OptsView {
                    tg: parsed_up_to(value, u32::MAX as nat).unwrap_or(self.tg as nat) as u32,
                    ..self
                },
            )
        } else if name == "--src"@ {
            Some(
                OptsView {
                    src: parsed_up_to(value, u32::MAX as nat).unwrap_or(self.src as nat) as u32,
                    ..self
                },
            )
        } else if name == "--secs"@ {
            Some(OptsView { secs: self.secs.push(value), ..self })
        } else if name == "--tone"@ {
            Some(OptsView { tone_hz: self.tone_hz.push(value), ..self })
        } else if name == "--amp"@ {
            Some(
                OptsView {
                    amplitude: parsed_between(value, i16::MIN as int, i16::MAX as int).unwrap_or(
                        self.amplitude as int,
                    ) as i16,
                    ..self
                },
            )
        } else if name == "--wav"@ {
            Some(OptsView { wav: Some(value), ..self })
        } else {
            None
        }
    }

    /// What the rest of a command line asks for. An option at its end has the empty
    /// value.
    pub open spec fn with_args(self, args: Seq<Seq<char>>) -> CommandView
        decreases args.len(),
    {
        if args.len() == 0 {
            CommandView::Send(self)
        } else if args[0] == "--help"@ || args[0] == "-h"@ {
            CommandView::Help
        } else if args.len() == 1 {
            match self.with_option(args[0], ""@) {
                Some(o) => CommandView::Send(o),
                None => CommandView::Unknown(args[0]),
            }
        } else {
            match self.with_option(args[0], args[1]) {
                Some(o) => o.with_args(args.skip(2)),
                None => CommandView::Unknown(args[0]),
            }
        }
    }
}

fn set_option(o: &mut Opts, name: &str, value: String) -> (known: bool)
    ensures
        match old(o)@.with_option(name@, value@) {
            Some(after) => known && final(o)@ == after,
            None => !known && final(o)@ == old(o)@,
        },
{
    let n = chars_of(name);
    let v = chars_of(value.as_str());
    if same_text(n.as_slice(), "--entity") {
        o.entity = value;
    } else if same_text(n.as_slice(), "--tg") {
        if let Some(tg) = parse_up_to(v.as_slice(), u32::MAX as u64) {
            o.tg = tg as u32;
        }
    } else if same_text(n.as_slice(), "--src") {
        if let Some(src) = parse_up_to(v.as_slice(), u32::MAX as u64) {
            o.src = src as u32;
        }
    } else if same_text(n.as_slice(), "--secs") {
        o.secs.push(value);
        assert(o@.secs =~= old(o)@.secs.push(value@));
    } else if same_text(n.as_slice(), "--tone") {
        o.tone_hz.push(value);
        assert(o@.tone_hz =~= old(o)@.tone_hz.push(value@));
    } else if same_text(n.as_slice(), "--amp") {
        if let Some(amp) = parse_between(v.as_slice(), i16::MIN as i64, i16::MAX as i64) {
            o.amplitude = amp as i16;
        }
    } else if same_text(n.as_slice(), "--wav") {
        o.wav = Some(value);
    } else {
        return false;
    }
    true
}

/// Reads the options of the command.
pub fn parse_opts(args: &Vec<String>) -> (r: Command)
    ensures
        r@ == default_opts().with_args(crate::config::texts(args@)),
{
    let ghost all = crate::config::texts(args@);
    let mut o = Opts::default();
    let mut i: usize = 0;
    let len: usize = args.len();
    assert(all.skip(0) =~= all);
    while i < len
        invariant
            i <= len,
            len == args@.len(),
            all == crate::config::texts(args@),
            o@.with_args(all.skip(i as int)) == default_opts().with_args(all),
        decreases len - i,
    {
        let ghost rest = all.skip(i as int);
        assert(rest[0] == args@[i as int]@);
        let name = args[i].as_str();
        let cs = chars_of(name);
        if same_text(cs.as_slice(), "--help") || same_text(cs.as_slice(), "-h") {
            return Command::Help;
        }
        let last = len - i == 1;
        let value = if last {
            "".to_string()
        } else {
            assert(rest[1] == args@[i + 1]@);
            args[i + 1].clone()
        };
        if !set_option(&mut o, name, value) {
            return Command::Unknown(args[i].clone());
        }
        if last {
            assert(all.skip(len as int) =~= seq![]);
            i = len;
        } else {
            assert(rest.skip(2) =~= all.skip(i + 2));
            i = i + 2;
        }
    }
    assert(all.skip(i as int) =~= seq![]);
    Command::Send(o)
}

/// Number of frames that `len` samples fill.
pub open spec fn frame_count(len: nat) -> nat {
    (len + 239) / 240
}

/// The samples of frame `i`; the last frame is filled up with silence.
pub open spec fn frame_samples(pcm: Seq<i16>, i: int) -> Seq<i16> {
    Seq::new(
        PCM_SAMPLES_PER_FRAME as nat,
        |k: int|
            if 240 * i + k < pcm.len() {
                pcm[240 * i + k]
            } else {
                0
            },
    )
}

/// The flags of frame `i` of `n`: the first and the last one are marked.
pub open spec fn frame_flags(i: int, n: nat) -> u16 {
    if i == 0 && i + 1 == n {
        VOICE_FLAG_FIRST | VOICE_FLAG_LAST
    } else if i == 0 {
        VOICE_FLAG_FIRST
    } else if i + 1 == n {
        VOICE_FLAG_LAST
    } else {
        0
    }
}

/// Voice frame `i` of the synthetic call.
pub open spec fn voice_frame(pcm: Seq<i16>, i: int) -> FrameView {
    FrameView {
        stream_id: TEST_STREAM,
        body: BodyView::Voice {
            seq: (i % 0x1_0000_0000) as u32,
            flags: frame_flags(i, frame_count(pcm.len())),
            pcm: frame_samples(pcm, i),
        },
    }
}

/// The start of the synthetic call.
pub open spec fn start_frame(tg: u32, src: u32) -> FrameView {
    FrameView {
        stream_id: TEST_STREAM,
        body: BodyView::CallStart { source_id: src, dmr_tg: tg, target_gssi: tg, priority: 0 },
    }
}

/// The frames of the synthetic call.
pub open spec fn test_call(tg: u32, src: u32, pcm: Seq<i16>) -> Seq<FrameView> {
    seq![start_frame(tg, src)] + Seq::new(frame_count(pcm.len()), |i: int| voice_frame(pcm, i))
        + seq![FrameView { stream_id: TEST_STREAM, body: BodyView::CallEnd }]
}

/// Nothing of the clip is lost: every sample is sent, in its place, in a frame of
/// the size that the entity takes, and silence fills up the last one.
pub proof fn law_whole_clip_is_sent(tg: u32, src: u32, pcm: Seq<i16>, k: int)
    requires
        0 <= k < 240 * frame_count(pcm.len()),
    ensures
        ({
            let frames = test_call(tg, src, pcm);
            &&& frames.len() == frame_count(pcm.len()) + 2
            &&& 0 <= k / 240 < frame_count(pcm.len())
            &&& frames[1 + k / 240].body matches BodyView::Voice { seq, flags, pcm: sent }
                && sent.len() == PCM_SAMPLES_PER_FRAME && sent[k % 240] == (if k < pcm.len() {
                pcm[k]
            } else {
                0
            })
        }),
{
    assert(k == 240 * (k / 240) + k % 240);
}

fn samples_of(pcm: &Vec<i16>, i: usize, n: usize) -> (r: Vec<i16>)
    requires
        i < n,
        n == frame_count(pcm@.len()),
    ensures
        r@ == frame_samples(pcm@, i as int),
{
    let len: usize = pcm.len();
    let from: usize = 240 * i;
    let mut out: Vec<i16> = Vec::new();
    let mut k: usize = 0;
    while k < PCM_SAMPLES_PER_FRAME
        invariant
            k <= PCM_SAMPLES_PER_FRAME,
            len == pcm@.len(),
            from == 240 * i,
            from < len,
            out@ == frame_samples(pcm@, i as int).take(k as int),
        decreases PCM_SAMPLES_PER_FRAME - k,
    {
        if k < len - from {
            out.push(pcm[from + k]);
        } else {
            out.push(0);
        }
        k = k + 1;
        assert(out@ =~= frame_samples(pcm@, i as int).take(k as int));
    }
    assert(out@ =~= frame_samples(pcm@, i as int));
    out
}

/// The frames of a synthetic call that plays `pcm`.
pub fn test_frames(tg: u32, src: u32, pcm: &Vec<i16>) -> (r: Vec<FlowDmrFrame>)
    ensures
        r@.map_values(|f: FlowDmrFrame| f@) == test_call(tg, src, pcm@),
{
    let len: usize = pcm.len();
    let n: usize = if len % 240 == 0 {
        len / 240
    } else {
        len / 240 + 1
    };
    assert(n == frame_count(pcm@.len()));
    let mut out: Vec<FlowDmrFrame> = Vec::new();
    out.push(
        FlowDmrFrame::new(
            TEST_STREAM,
            FlowDmrBody::CallStart { source_id: src, dmr_tg: tg, target_gssi: tg, priority: 0 },
        ),
    );
    let mut i: usize = 0;
    while i < n
        invariant
            i <= n,
            n == frame_count(pcm@.len()),
            out@.len() == i + 1,
            out@[0]@ == start_frame(tg, src),
            forall|k: int| 0 <= k < i ==> (#[trigger] out@[k + 1])@ == voice_frame(pcm@, k),
        decreases n - i,
    {
        let mut flags: u16 = 0;
        if i == 0 {
            flags = flags | VOICE_FLAG_FIRST;
        }
        if i + 1 == n {
            flags = flags | VOICE_FLAG_LAST;
        }
        assert(flags == frame_flags(i as int, n as nat)) by {
            assert(0u16 | VOICE_FLAG_FIRST == VOICE_FLAG_FIRST) by (bit_vector);
            assert(0u16 | VOICE_FLAG_LAST == VOICE_FLAG_LAST) by (bit_vector);
        }
        let seq: u32 = (i as u64 % 0x1_0000_0000) as u32;
        let samples = samples_of(pcm, i, n);
        let ghost before = out@;
        let frame = FlowDmrFrame::new(TEST_STREAM, FlowDmrBody::Voice { seq, flags, pcm: samples });
        out.push(frame);
        assert forall|k: int| 0 <= k < i + 1 implies (#[trigger] out@[k + 1])@ == voice_frame(
            pcm@,
            k,
        ) by {
            if k < i {
                assert(out@[k + 1] == before[k + 1]);
            }
        }
        i = i + 1;
    }
    out.push(FlowDmrFrame::new(TEST_STREAM, FlowDmrBody::CallEnd));
    proof {
        let got = out@.map_values(|f: FlowDmrFrame| f@);
        let want = test_call(tg, src, pcm@);
        assert forall|k: int| 0 <= k < got.len() implies got[k] == want[k] by {
            if 0 < k < n + 1 {
                assert(out@[(k - 1) + 1]@ == voice_frame(pcm@, k - 1));
            }
        }
        assert(got =~= want);
    }
    out
}

/// The synthetic call is one call: its start, for the group as source and target,
/// the voice frames numbered from 0, the first and the last one marked, and its
/// end, all on one stream. There are just enough frames for the clip.
pub proof fn law_synthetic_call_is_one_call(tg: u32, src: u32, pcm: Seq<i16>, i: int)
    ensures
        ({
            let frames = test_call(tg, src, pcm);
            let n = frames.len() - 2;
            &&& n >= 0
            &&& 240 * n >= pcm.len()
            &&& n > 0 ==> 240 * (n - 1) < pcm.len()
            &&& pcm.len() == 0 ==> n == 0
            &&& frames[0] == (FrameView {
                stream_id: 0xC0FFEE,
                body: BodyView::CallStart {
                    source_id: src,
                    dmr_tg: tg,
                    target_gssi: tg,
                    priority: 0,
                },
            })
            &&& frames[n + 1] == (FrameView { stream_id: 0xC0FFEE, body: BodyView::CallEnd })
            &&& 0 <= i < n ==> frames[i + 1].stream_id == 0xC0FFEE && (
            frames[i + 1].body matches BodyView::Voice { seq, flags, pcm: sent } && seq == i
                % 0x1_0000_0000 && flags == (if i == 0 {
                1int
            } else {
                0
            }) + (if i == n - 1 {
                2int
            } else {
                0
            }))
        }),
{
    assert(1u16 | 2u16 == 3u16) by (bit_vector);
}

/// Options set what they name and nothing else: a number is taken over if it fits,
/// and otherwise the option stays as it was.
pub proof fn law_options_set_what_they_name(o: OptsView, n: nat, i: int, text: Seq<char>)
    ensures
        o.with_option("--entity"@, text) == Some(OptsView { entity: text, ..o }),
        o.with_option("--tg"@, decimal(n)) == Some(
            OptsView {
                tg: if n <= u32::MAX {
                    n as u32
                } else {
                    o.tg
                },
                ..o
            },
        ),
        o.with_option("--src"@, decimal(n)) == Some(
            OptsView {
                src: if n <= u32::MAX {
                    n as u32
                } else {
                    o.src
                },
                ..o
            },
        ),
        o.with_option("--amp"@, signed_decimal(i)) == Some(
            OptsView {
                amplitude: if i16::MIN <= i <= i16::MAX {
                    i as i16
                } else {
                    o.amplitude
                },
                ..o
            },
        ),
        o.with_option("--secs"@, text) == Some(OptsView { secs: o.secs.push(text), ..o }),
        o.with_option("--tone"@, text) == Some(OptsView { tone_hz: o.tone_hz.push(text), ..o }),
        o.with_option("--wav"@, text) == Some(OptsView { wav: Some(text), ..o }),
{
    reveal_strlit("--entity");
    reveal_strlit("--tg");
    reveal_strlit("--src");
    reveal_strlit("--secs");
    reveal_strlit("--tone");
    reveal_strlit("--amp");
    reveal_strlit("--wav");
    assert("--src"@[2] == 's' && "--amp"@[2] == 'a' && "--wav"@[2] == 'w');
    assert("--secs"@[2] == 's' && "--tone"@[2] == 't');
    assert("--entity"@.len() == 8 && "--tg"@.len() == 4);
    assert("--src"@.len() == 5 && "--amp"@.len() == 5 && "--wav"@.len() == 5);
    assert("--secs"@.len() == 6 && "--tone"@.len() == 6);
    law_numbers_are_read_up_to_the_limit(n, u32::MAX as nat);
    law_signed_numbers_are_read_within_the_limits(i, i16::MIN as int, i16::MAX as int);
}

/// Options are read in pairs, from left to right, until help is asked for or an
/// option is not known.
pub proof fn law_options_are_read_in_pairs(o: OptsView, args: Seq<Seq<char>>)
    ensures
        args.len() == 0 ==> o.with_args(args) == CommandView::Send(o),
        args.len() > 0 && (args[0] == "-h"@ || args[0] == "--help"@) ==> o.with_args(args)
            == CommandView::Help,
        args.len() >= 2 && args[0] != "-h"@ && args[0] != "--help"@ ==> o.with_args(args) == (
        match o.with_option(args[0], args[1]) {
            Some(after) => after.with_args(args.skip(2)),
            None => CommandView::Unknown(args[0]),
        }),
{
}

} // verus!
