//! The decoder process: its command line, what its console output leads to, and
//! when it is started again.
use crate::config::{copy_texts, texts, ConfigView, LiveSettings, SharedConfig};
use crate::meta::{MetaLine, MetaParser};
use crate::scan::{lemma_upto, split_once, upto};
use crate::session::{CallManager, FrameSink};
use crate::status::{Status, StatusView};
use crate::text::{
    decimal, is_digit, law_parse_of_decimal, law_parse_of_signed_decimal, parsed_signed,
    parsed_unsigned, push_decimal, push_signed_decimal, signed_decimal,
};
use vstd::prelude::*;
use vstd::string::StringExecFns;

verus! {

/// Milliseconds to wait after the decoder could not be started.
pub const SPAWN_RETRY_MS: u64 = 3000;

/// Milliseconds to wait before the decoder is started again.
pub const RESTART_PAUSE_MS: u64 = 400;

/// Milliseconds to wait for a console line before other things are looked at.
pub const POLL_MS: u64 = 150;

/// The input that the decoder is told to use:
/// `rtl:<device>:<frequency>:<gain>:<ppm>:<bandwidth>:<squelch>:<volume>`.
pub open spec fn rtl_input(cfg: ConfigView, live: LiveSettings, freq: Seq<char>, gain: i64) -> Seq<
    char,
> {
    "rtl:"@ + decimal(cfg.rtl_device as nat) + ":"@ + freq + ":"@ + signed_decimal(gain as int)
        + ":"@ + signed_decimal(live.ppm as int) + ":"@ + decimal(cfg.rtl_bandwidth_khz as nat)
        + ":"@ + decimal(cfg.squelch as nat) + ":"@ + decimal(cfg.volume as nat)
}

/// The output that the decoder is told to use.
pub open spec fn udp_output(port: u16) -> Seq<char> {
    "udp:127.0.0.1:"@ + decimal(port as nat)
}

/// The decoder's arguments: the mode, the input, the output, then the further
/// ones.
pub open spec fn decoder_args(
    cfg: ConfigView,
    live: LiveSettings,
    freq: Seq<char>,
    gain: i64,
) -> Seq<Seq<char>> {
    cfg.dsd_mode_args + seq!["-i"@, rtl_input(cfg, live, freq, gain), "-o"@, udp_output(
        cfg.dsd_pcm_port,
    )] + cfg.dsd_extra_args
}

/// Builds the decoder's arguments. `freq` is the frequency as the decoder wants it
/// written, `gain` the gain in whole dB.
pub fn build_args(cfg: &SharedConfig, freq: &str, gain: i64) -> (r: Vec<String>)
    ensures
        texts(r@) == decoder_args(cfg@.static_cfg, cfg@.live, freq@, gain),
{
    let s = cfg.static_cfg();
    let live = cfg.live();
    let mut rtl = "rtl:".to_string();
    push_decimal(&mut rtl, s.rtl_device as u64);
    rtl.append(":");
    rtl.append(freq);
    rtl.append(":");
    push_signed_decimal(&mut rtl, gain);
    rtl.append(":");
    push_signed_decimal(&mut rtl, live.ppm as i64);
    rtl.append(":");
    push_decimal(&mut rtl, s.rtl_bandwidth_khz as u64);
    rtl.append(":");
    push_decimal(&mut rtl, s.squelch as u64);
    rtl.append(":");
    push_decimal(&mut rtl, s.volume as u64);
    let mut udp = "udp:127.0.0.1:".to_string();
    push_decimal(&mut udp, s.dsd_pcm_port as u64);
    let mut args = copy_texts(&s.dsd_mode_args);
    let ghost mode = args@;
    args.push("-i".to_string());
    args.push(rtl);
    args.push("-o".to_string());
    args.push(udp);
    let mut extra = copy_texts(&s.dsd_extra_args);
    let ghost last = extra@;
    args.append(&mut extra);
    proof {
        let want = decoder_args(cfg@.static_cfg, cfg@.live, freq@, gain);
        assert(texts(mode) == cfg@.static_cfg.dsd_mode_args);
        assert(texts(last) == cfg@.static_cfg.dsd_extra_args);
        assert forall|i: int| 0 <= i < args@.len() implies texts(args@)[i] == want[i] by {
            if i < mode.len() {
                assert(texts(mode)[i] == mode[i]@);
            } else if i >= mode.len() + 4 {
                assert(texts(last)[i - mode.len() - 4] == last[i - mode.len() - 4]@);
            }
        }
        assert(texts(args@) =~= want);
    }
    args
}

/// Whether a line says nothing.
pub open spec fn says_nothing(m: MetaLine) -> bool {
    m.source is None && m.talkgroup is None && !m.call_end
}

/// The status after a line that says `m` has been applied, with the calls then
/// being `manager`.
pub open spec fn status_after_line(
    status: StatusView,
    m: MetaLine,
    line: Seq<char>,
    manager: crate::session::ManagerView,
) -> StatusView {
    if says_nothing(m) {
        status
    } else {
        StatusView {
            last_meta_line: line,
            active_call: manager.session is Some,
            current_source: match manager.session {
                Some(s) => Some(s.source_id),
                None => None,
            },
            calls_total: manager.calls_started,
            ..status
        }
    }
}

/// Applies a console line: to the calls, and to the status if it says anything.
pub fn on_line<S: FrameSink>(
    parser: &MetaParser,
    line: &str,
    target_gssi: u32,
    now_ms: u64,
    manager: &mut CallManager,
    status: &mut Status,
    sink: &mut S,
)
    ensures
        final(manager)@ == old(manager)@.after_meta(
            parser@.meta(line@),
            target_gssi,
            now_ms,
        ).manager,
        final(sink).sent() == old(sink).sent() + old(manager)@.after_meta(
            parser@.meta(line@),
            target_gssi,
            now_ms,
        ).sent,
        final(status)@ == status_after_line(
            old(status)@,
            parser@.meta(line@),
            line@,
            final(manager)@,
        ),
{
    let m = parser.parse_line(line);
    apply_meta(&m, line, target_gssi, now_ms, manager, status, sink);
}

/// Applies what a console line says.
pub fn apply_meta<S: FrameSink>(
    m: &MetaLine,
    line: &str,
    target_gssi: u32,
    now_ms: u64,
    manager: &mut CallManager,
    status: &mut Status,
    sink: &mut S,
)
    ensures
        final(manager)@ == old(manager)@.after_meta(*m, target_gssi, now_ms).manager,
        final(sink).sent() == old(sink).sent() + old(manager)@.after_meta(
            *m,
            target_gssi,
            now_ms,
        ).sent,
        final(status)@ == status_after_line(old(status)@, *m, line@, final(manager)@),
{
    if m.is_empty() {
        assert(sink.sent() =~= old(sink).sent() + Seq::<crate::ipc::FrameView>::empty());
        return ;
    }
    manager.on_meta(m, target_gssi, now_ms, sink);
    status.note_meta(
        line,
        manager.has_active_call(),
        manager.current_source(),
        manager.calls_started(),
    );
}

/// What was read from the decoder.
#[derive(Debug, Clone, Copy, PartialEq, Eq, Structural)]
pub enum Output {
    /// A line, or nothing for a while.
    Open,
    /// There will be nothing more.
    Closed,
}

/// What the system says of the decoder process.
#[derive(Debug, Clone, Copy, PartialEq, Eq, Structural)]
pub enum Process {
    Running,
    Exited,
    /// It could not be asked.
    Unknown,
}

/// What to do with the running decoder.
#[derive(Debug, Clone, Copy, PartialEq, Eq, Structural)]
pub enum Supervision {
    /// Let it run.
    Continue,
    /// End it, and start it again with the new settings.
    Retune,
    /// Start it again.
    Restart,
}

/// What to do with a decoder that was started in generation `at_start`, now that
/// the generation is `now`.
pub open spec fn supervision(
    output: Output,
    process: Process,
    at_start: u64,
    now: u64,
) -> Supervision {
    if output == Output::Closed {
        Supervision::Restart
    } else if now != at_start {
        Supervision::Retune
    } else if process == Process::Running {
        Supervision::Continue
    } else {
        Supervision::Restart
    }
}

/// Watches over one run of the decoder.
pub struct Supervisor {
    at_start: u64,
}

impl View for Supervisor {
    type V = u64;

    closed spec fn view(&self) -> u64 {
        self.at_start
    }
}

impl Supervisor {
    /// The decoder is started with the settings of `cfg`.
    pub fn start(cfg: &SharedConfig) -> (r: Self)
        ensures
            r@ == cfg@.restart_gen,
    {
        Supervisor { at_start: cfg.restart_generation() }
    }

    /// Decides what to do with the decoder.
    pub fn decide(&self, output: Output, process: Process, cfg: &SharedConfig) -> (r: Supervision)
        ensures
            r == supervision(output, process, self@, cfg@.restart_gen),
    {
        if output == Output::Closed {
            return Supervision::Restart;
        }
        if cfg.restart_generation() != self.at_start {
            return Supervision::Retune;
        }
        if process == Process::Running {
            Supervision::Continue
        } else {
            Supervision::Restart
        }
    }
}

/// A decoder that runs and can be read is left alone by a change of the group,
/// and retuned by a change of the frequency, the gain or the correction.
pub proof fn law_retunes_with_the_settings(cfg: crate::config::SharedView, new: LiveSettings)
    ensures
        supervision(
            Output::Open,
            Process::Running,
            cfg.restart_gen,
            cfg.applied(new).restart_gen,
        ) == if crate::config::retunes(cfg.live, new) {
            Supervision::Retune
        } else {
            Supervision::Continue
        },
{
}

/// A running decoder is retuned by any change of the frequency or of the
/// correction, up or down, and by a gain that is another number.
pub proof fn law_decoder_follows_the_tuning(c: crate::config::SharedView, new: LiveSettings)
    ensures
        ({
            let a = c.live.gain_db_bits;
            let b = new.gain_db_bits;
            let verdict = supervision(
                Output::Open,
                Process::Running,
                c.restart_gen,
                c.applied(new).restart_gen,
            );
            &&& new.rx_freq_hz != c.live.rx_freq_hz ==> verdict == Supervision::Retune
            &&& new.ppm != c.live.ppm ==> verdict == Supervision::Retune
            &&& a != b && !(a % 0x8000_0000 == 0 && b % 0x8000_0000 == 0) ==> verdict
                == Supervision::Retune
            &&& new.rx_freq_hz == c.live.rx_freq_hz && new.ppm == c.live.ppm && a == b && a
                % 0x8000_0000 <= 0x7F80_0000 ==> verdict == Supervision::Continue
        }),
{
}

/// A decoder that cannot be read any more is started again, whatever else holds;
/// one that can is retuned when the generation is another than at its start, and
/// otherwise goes on exactly as long as it is known to run.
pub proof fn law_decoder_is_kept_running(output: Output, process: Process, at_start: u64, now: u64)
    ensures
        ({
            let verdict = supervision(output, process, at_start, now);
            &&& output is Closed ==> verdict == Supervision::Restart
            &&& output is Open && at_start != now ==> verdict == Supervision::Retune
            &&& output is Open && at_start == now ==> (verdict == Supervision::Continue) == (
            process is Running)
            &&& output is Open && at_start == now && !(process is Running) ==> verdict
                == Supervision::Restart
        }),
{
}

/// The `n`th of the fields that colons part, counted from 0; the last one where
/// there are fewer.
pub open spec fn nth_field(s: Seq<char>, n: nat) -> Seq<char>
    decreases n,
{
    match split_once(s, ':') {
        Some((field, rest)) => if n == 0 {
            field
        } else {
            nth_field(rest, (n - 1) as nat)
        },
        None => s,
    }
}

proof fn lemma_last_field(s: Seq<char>)
    requires
        !s.contains(':'),
    ensures
        nth_field(s, 0) == s,
{
    lemma_upto(s, ':');
    if upto(s, ':') < s.len() {
        assert(s.contains(s[upto(s, ':')]));
    }
}

/// A text without colons is what stands before the first colon behind it.
proof fn lemma_field(s: Seq<char>, rest: Seq<char>)
    requires
        !s.contains(':'),
    ensures
        nth_field(s + (":"@ + rest), 0) == s,
        forall|n: nat|
            n > 0 ==> #[trigger] nth_field(s + (":"@ + rest), n) == nth_field(
                rest,
                (n - 1) as nat,
            ),
{
    reveal_strlit(":");
    let all = s + (":"@ + rest);
    lemma_upto(all, ':');
    let n = upto(all, ':');
    assert(all[s.len() as int] == ':');
    if n < s.len() {
        assert(all[n] == s[n]);
        assert(s.contains(s[n]));
    }
    assert(all.take(n) =~= s);
    assert(all.skip(n + 1) =~= rest);
    assert(split_once(all, ':') == Some((s, rest)));
}

proof fn lemma_no_colon(n: int)
    ensures
        !signed_decimal(n).contains(':'),
        n >= 0 ==> !decimal(n as nat).contains(':'),
{
    let m = if n < 0 {
        (-n) as nat
    } else {
        n as nat
    };
    law_parse_of_decimal(m);
    assert forall|i: int| 0 <= i < decimal(m).len() implies decimal(m)[i] != ':' by {
        assert(is_digit(decimal(m)[i]));
    }
    assert forall|i: int| 0 <= i < signed_decimal(n).len() implies signed_decimal(n)[i] != ':' by {
        if n < 0 && i > 0 {
            assert(signed_decimal(n)[i] == decimal(m)[i - 1]);
        }
    }
}

/// The input that the decoder is told reads back as the settings, field by field:
/// device, frequency, gain, correction, bandwidth, squelch and volume.
pub proof fn law_input_reads_back(
    cfg: ConfigView,
    live: LiveSettings,
    freq: Seq<char>,
    gain: i64,
)
    requires
        !freq.contains(':'),
    ensures
        nth_field(rtl_input(cfg, live, freq, gain), 0) == "rtl"@,
        parsed_unsigned(nth_field(rtl_input(cfg, live, freq, gain), 1)) == Some(
            cfg.rtl_device as nat,
        ),
        nth_field(rtl_input(cfg, live, freq, gain), 2) == freq,
        parsed_signed(nth_field(rtl_input(cfg, live, freq, gain), 3)) == Some(gain as int),
        parsed_signed(nth_field(rtl_input(cfg, live, freq, gain), 4)) == Some(live.ppm as int),
        parsed_unsigned(nth_field(rtl_input(cfg, live, freq, gain), 5)) == Some(
            cfg.rtl_bandwidth_khz as nat,
        ),
        parsed_unsigned(nth_field(rtl_input(cfg, live, freq, gain), 6)) == Some(cfg.squelch as nat),
        parsed_unsigned(nth_field(rtl_input(cfg, live, freq, gain), 7)) == Some(cfg.volume as nat),
{
    let dev = decimal(cfg.rtl_device as nat);
    let gain_text = signed_decimal(gain as int);
    let ppm = signed_decimal(live.ppm as int);
    let band = decimal(cfg.rtl_bandwidth_khz as nat);
    let squelch = decimal(cfg.squelch as nat);
    let volume = decimal(cfg.volume as nat);
    lemma_no_colon(cfg.rtl_device as int);
    lemma_no_colon(gain as int);
    lemma_no_colon(live.ppm as int);
    lemma_no_colon(cfg.rtl_bandwidth_khz as int);
    lemma_no_colon(cfg.squelch as int);
    lemma_no_colon(cfg.volume as int);
    law_parse_of_decimal(cfg.rtl_device as nat);
    law_parse_of_signed_decimal(gain as int);
    law_parse_of_signed_decimal(live.ppm as int);
    law_parse_of_decimal(cfg.rtl_bandwidth_khz as nat);
    law_parse_of_decimal(cfg.squelch as nat);
    law_parse_of_decimal(cfg.volume as nat);
    lemma_input_nests(cfg, live, freq, gain);
    lemma_eight_fields(dev, freq, gain_text, ppm, band, squelch, volume);
}

/// The text of eight fields with colons between them, from the last one inwards.
spec fn nested(
    a: Seq<char>,
    b: Seq<char>,
    c: Seq<char>,
    d: Seq<char>,
    e: Seq<char>,
    f: Seq<char>,
    g: Seq<char>,
) -> Seq<char> {
    "rtl"@ + (":"@ + (a + (":"@ + (b + (":"@ + (c + (":"@ + (d + (":"@ + (e + (":"@ + (f + (":"@
        + g)))))))))))))
}

proof fn lemma_input_nests(cfg: ConfigView, live: LiveSettings, freq: Seq<char>, gain: i64)
    ensures
        rtl_input(cfg, live, freq, gain) == nested(
            decimal(cfg.rtl_device as nat),
            freq,
            signed_decimal(gain as int),
            signed_decimal(live.ppm as int),
            decimal(cfg.rtl_bandwidth_khz as nat),
            decimal(cfg.squelch as nat),
            decimal(cfg.volume as nat),
        ),
{
    reveal_strlit("rtl:");
    reveal_strlit("rtl");
    reveal_strlit(":");
    assert("rtl:"@ =~= "rtl"@ + ":"@);
    assert(rtl_input(cfg, live, freq, gain) =~= nested(
        decimal(cfg.rtl_device as nat),
        freq,
        signed_decimal(gain as int),
        signed_decimal(live.ppm as int),
        decimal(cfg.rtl_bandwidth_khz as nat),
        decimal(cfg.squelch as nat),
        decimal(cfg.volume as nat),
    ));
}

proof fn lemma_eight_fields(
    a: Seq<char>,
    b: Seq<char>,
    c: Seq<char>,
    d: Seq<char>,
    e: Seq<char>,
    f: Seq<char>,
    g: Seq<char>,
)
    requires
        !a.contains(':'),
        !b.contains(':'),
        !c.contains(':'),
        !d.contains(':'),
        !e.contains(':'),
        !f.contains(':'),
        !g.contains(':'),
    ensures
        nth_field(nested(a, b, c, d, e, f, g), 0) == "rtl"@,
        nth_field(nested(a, b, c, d, e, f, g), 1) == a,
        nth_field(nested(a, b, c, d, e, f, g), 2) == b,
        nth_field(nested(a, b, c, d, e, f, g), 3) == c,
        nth_field(nested(a, b, c, d, e, f, g), 4) == d,
        nth_field(nested(a, b, c, d, e, f, g), 5) == e,
        nth_field(nested(a, b, c, d, e, f, g), 6) == f,
        nth_field(nested(a, b, c, d, e, f, g), 7) == g,
{
    reveal_strlit("rtl");
    let r6 = f + (":"@ + g);
    let r5 = e + (":"@ + r6);
    let r4 = d + (":"@ + r5);
    let r3 = c + (":"@ + r4);
    let r2 = b + (":"@ + r3);
    let r1 = a + (":"@ + r2);
    let r0 = "rtl"@ + (":"@ + r1);
    lemma_last_field(g);
    lemma_field(f, g);
    lemma_field(e, r6);
    lemma_field(d, r5);
    lemma_field(c, r4);
    lemma_field(b, r3);
    lemma_field(a, r2);
    lemma_field("rtl"@, r1);
    assert(nth_field(r6, 1) == nth_field(g, 0));
    assert(nth_field(r5, 1) == nth_field(r6, 0));
    assert(nth_field(r5, 2) == nth_field(r6, 1));
    assert(nth_field(r4, 1) == nth_field(r5, 0));
    assert(nth_field(r4, 2) == nth_field(r5, 1));
    assert(nth_field(r4, 3) == nth_field(r5, 2));
    assert(nth_field(r3, 1) == nth_field(r4, 0));
    assert(nth_field(r3, 2) == nth_field(r4, 1));
    assert(nth_field(r3, 3) == nth_field(r4, 2));
    assert(nth_field(r3, 4) == nth_field(r4, 3));
    assert(nth_field(r2, 1) == nth_field(r3, 0));
    assert(nth_field(r2, 2) == nth_field(r3, 1));
    assert(nth_field(r2, 3) == nth_field(r3, 2));
    assert(nth_field(r2, 4) == nth_field(r3, 3));
    assert(nth_field(r2, 5) == nth_field(r3, 4));
    assert(nth_field(r1, 1) == nth_field(r2, 0));
    assert(nth_field(r1, 2) == nth_field(r2, 1));
    assert(nth_field(r1, 3) == nth_field(r2, 2));
    assert(nth_field(r1, 4) == nth_field(r2, 3));
    assert(nth_field(r1, 5) == nth_field(r2, 4));
    assert(nth_field(r1, 6) == nth_field(r2, 5));
    assert(nth_field(r0, 1) == nth_field(r1, 0));
    assert(nth_field(r0, 2) == nth_field(r1, 1));
    assert(nth_field(r0, 3) == nth_field(r1, 2));
    assert(nth_field(r0, 4) == nth_field(r1, 3));
    assert(nth_field(r0, 5) == nth_field(r1, 4));
    assert(nth_field(r0, 6) == nth_field(r1, 5));
    assert(nth_field(r0, 7) == nth_field(r1, 6));
}

/// The decoder is told its mode first, then where to read, then where to send the
/// audio, then whatever else is configured; the port is that of the settings, on
/// this machine.
pub proof fn law_arguments_are_in_order(
    cfg: ConfigView,
    live: LiveSettings,
    freq: Seq<char>,
    gain: i64,
)
    ensures
        ({
            let args = decoder_args(cfg, live, freq, gain);
            let n = cfg.dsd_mode_args.len() as int;
            &&& args.len() == n + 4 + cfg.dsd_extra_args.len()
            &&& args.take(n) == cfg.dsd_mode_args
            &&& args[n] == "-i"@
            &&& args[n + 1] == rtl_input(cfg, live, freq, gain)
            &&& args[n + 2] == "-o"@
            &&& args[n + 3] == "udp:127.0.0.1:"@ + decimal(cfg.dsd_pcm_port as nat)
            &&& args.skip(n + 4) == cfg.dsd_extra_args
        }),
{
    let args = decoder_args(cfg, live, freq, gain);
    let n = cfg.dsd_mode_args.len() as int;
    assert(args.take(n) =~= cfg.dsd_mode_args);
    assert(args.skip(n + 4) =~= cfg.dsd_extra_args);
}

/// A line that says anything is shown, with the state of the calls after it; any
/// other leaves the status as it is. Nothing but these four fields changes.
pub proof fn law_status_follows_the_lines(
    status: StatusView,
    m: MetaLine,
    line: Seq<char>,
    manager: crate::session::ManagerView,
)
    ensures
        ({
            let after = status_after_line(status, m, line, manager);
            if m.source is Some || m.talkgroup is Some || m.call_end {
                &&& after == (StatusView {
                    last_meta_line: line,
                    active_call: after.active_call,
                    current_source: after.current_source,
                    calls_total: manager.calls_started,
                    ..status
                })
                &&& manager.session matches Some(s) ==> after.active_call && after.current_source
                    == Some(s.source_id)
                &&& manager.session is None ==> !after.active_call && after.current_source is None
            } else {
                after == status
            }
        }),
{
}

} // verus!
