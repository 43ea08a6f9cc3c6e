//! Configuration of the receiver side. Part of it can be changed at runtime.
//!
//! Fractional settings are held as the bits of their IEEE 754 single-precision
//! value: they are passed through, and compared as such numbers are.
use vstd::prelude::*;

verus! {

/// Settings that can be changed at runtime.
#[derive(Debug, Clone, Copy, PartialEq, Eq, Structural)]
pub struct LiveSettings {
    /// Centre frequency in Hz.
    pub rx_freq_hz: u64,
    /// Bits of the tuner gain in dB (0 lets the driver pick).
    pub gain_db_bits: u32,
    /// Frequency correction in parts per million.
    pub ppm: i32,
    /// Group on which the audio is injected. It must be local to the cell.
    pub injection_tg: u32,
}

/// The live settings at the start.
pub open spec fn default_live() -> LiveSettings {
    LiveSettings { rx_freq_hz: 439_000_000, gain_db_bits: 0, ppm: 0, injection_tg: 5000 }
}

impl Default for LiveSettings {
    fn default() -> (r: Self)
        ensures
            r == default_live(),
    {
        LiveSettings { rx_freq_hz: 439_000_000, gain_db_bits: 0, ppm: 0, injection_tg: 5000 }
    }
}

/// Bits of 0.8.
pub const DEFAULT_PCM_GAIN_BITS: u32 = 0x3F4C_CCCD;

/// All settings. Those outside `live` take a restart to change.
#[derive(Debug)]
pub struct Config {
    /// Path of the decoder.
    pub dsd_bin: String,
    /// Arguments that select the decoder's mode.
    pub dsd_mode_args: Vec<String>,
    /// Further arguments for the decoder.
    pub dsd_extra_args: Vec<String>,
    /// Index of the receiver.
    pub rtl_device: u32,
    /// Bandwidth of the receiver in kHz. It must give a whole number of samples
    /// per symbol: 24 and 48 do, 12 does not.
    pub rtl_bandwidth_khz: u32,
    /// Squelch level (0 = open).
    pub squelch: u32,
    /// Volume of the decoder. Above 1 voice peaks are clipped.
    pub volume: u32,
    /// Bits of the gain applied to the decoded audio. Below 1 the encoder gets
    /// headroom.
    pub pcm_gain_bits: u32,
    /// Port to which the decoder sends audio.
    pub dsd_pcm_port: u16,
    /// Whether the decoder sends two channels.
    pub dsd_audio_stereo: bool,
    /// Address of the injection entity.
    pub entity_addr: String,
    /// Address of the dashboard.
    pub dashboard_bind: String,
    /// A call without audio for so long ends.
    pub silence_timeout_ms: u64,
    /// If not 0, the one source id under which everything is injected.
    pub fixed_source_id: u32,
    /// Directory of the recordings; empty for none.
    pub record_dir: String,
    /// Pattern whose group 1 is the source id.
    pub re_source: String,
    /// Pattern whose group 1 is the talkgroup.
    pub re_talkgroup: String,
    /// Pattern that marks the end of a call.
    pub re_call_end: String,
    /// What can be changed at runtime.
    pub live: LiveSettings,
}

/// Mathematical value of a [`Config`].
pub struct ConfigView {
    pub dsd_bin: Seq<char>,
    pub dsd_mode_args: Seq<Seq<char>>,
    pub dsd_extra_args: Seq<Seq<char>>,
    pub rtl_device: u32,
    pub rtl_bandwidth_khz: u32,
    pub squelch: u32,
    pub volume: u32,
    pub pcm_gain_bits: u32,
    pub dsd_pcm_port: u16,
    pub dsd_audio_stereo: bool,
    pub entity_addr: Seq<char>,
    pub dashboard_bind: Seq<char>,
    pub silence_timeout_ms: u64,
    pub fixed_source_id: u32,
    pub record_dir: Seq<char>,
    pub re_source: Seq<char>,
    pub re_talkgroup: Seq<char>,
    pub re_call_end: Seq<char>,
    pub live: LiveSettings,
}

/// The texts of a list of strings.
pub open spec fn texts(v: Seq<String>) -> Seq<Seq<char>> {
    v.map_values(|s: String| s@)
}

impl View for Config {
    type V = ConfigView;

    open spec fn view(&self) -> ConfigView {
        ConfigView {
            dsd_bin: self.dsd_bin@,
            dsd_mode_args: texts(self.dsd_mode_args@),
            dsd_extra_args: texts(self.dsd_extra_args@),
            rtl_device: self.rtl_device,
            rtl_bandwidth_khz: self.rtl_bandwidth_khz,
            squelch: self.squelch,
            volume: self.volume,
            pcm_gain_bits: self.pcm_gain_bits,
            dsd_pcm_port: self.dsd_pcm_port,
            dsd_audio_stereo: self.dsd_audio_stereo,
            entity_addr: self.entity_addr@,
            dashboard_bind: self.dashboard_bind@,
            silence_timeout_ms: self.silence_timeout_ms,
            fixed_source_id: self.fixed_source_id,
            record_dir: self.record_dir@,
            re_source: self.re_source@,
            re_talkgroup: self.re_talkgroup@,
            re_call_end: self.re_call_end@,
            live: self.live,
        }
    }
}

/// The settings used where none are given.
pub open spec fn default_config() -> ConfigView {
    ConfigView {
        dsd_bin: "dsd-neo"@,
        dsd_mode_args: seq!["-fs"@, "-nm"@],
        dsd_extra_args: seq![],
        rtl_device: 0,
        rtl_bandwidth_khz: 24,
        squelch: 0,
        volume: 1,
        pcm_gain_bits: DEFAULT_PCM_GAIN_BITS,
        dsd_pcm_port: 23470,
        dsd_audio_stereo: true,
        entity_addr: "127.0.0.1:23471"@,
        dashboard_bind: "0.0.0.0:8081"@,
        silence_timeout_ms: 1200,
        fixed_source_id: 1,
        record_dir: ""@,
        re_source: "(?i)\\b(?:source|src)\\D{0,4}(\\d{2,8})"@,
        re_talkgroup: "(?i)\\b(?:target|group|tg|tgt)\\D{0,4}(\\d{1,8})"@,
        re_call_end: "(?i)(no sync|sync:\\s*no|call end|terminator|voice end)"@,
        live: default_live(),
    }
}

impl Default for Config {
    fn default() -> (r: Self)
        ensures
            r@ == default_config(),
    {
        let mut mode: Vec<String> = Vec::new();
        mode.push("-fs".to_string());
        mode.push("-nm".to_string());
        let extra: Vec<String> = Vec::new();
        assert(texts(mode@) =~= seq!["-fs"@, "-nm"@]);
        assert(texts(extra@) =~= seq![]);
        Config {
            dsd_bin: "dsd-neo".to_string(),
            dsd_mode_args: mode,
            dsd_extra_args: extra,
            rtl_device: 0,
            rtl_bandwidth_khz: 24,
            squelch: 0,
            volume: 1,
            pcm_gain_bits: DEFAULT_PCM_GAIN_BITS,
            dsd_pcm_port: 23470,
            dsd_audio_stereo: true,
            entity_addr: "127.0.0.1:23471".to_string(),
            dashboard_bind: "0.0.0.0:8081".to_string(),
            silence_timeout_ms: 1200,
            fixed_source_id: 1,
            record_dir: "".to_string(),
            re_source: "(?i)\\b(?:source|src)\\D{0,4}(\\d{2,8})".to_string(),
            re_talkgroup: "(?i)\\b(?:target|group|tg|tgt)\\D{0,4}(\\d{1,8})".to_string(),
            re_call_end: "(?i)(no sync|sync:\\s*no|call end|terminator|voice end)".to_string(),
            live: LiveSettings::default(),
        }
    }
}

/// A copy of a list of strings.
pub(crate) fn copy_texts(v: &Vec<String>) -> (r: Vec<String>)
    ensures
        texts(r@) == texts(v@),
{
    let mut out: Vec<String> = Vec::new();
    let mut i: usize = 0;
    while i < v.len()
        invariant
            i <= v@.len(),
            out@.len() == i,
            forall|k: int| 0 <= k < i ==> (#[trigger] out@[k])@ == v@[k]@,
        decreases v@.len() - i,
    {
        out.push(v[i].clone());
        i = i + 1;
    }
    assert(texts(out@) =~= texts(v@));
    out
}

impl Clone for Config {
    fn clone(&self) -> (r: Self)
        ensures
            r@ == self@,
    {
        Config {
            dsd_bin: self.dsd_bin.clone(),
            dsd_mode_args: copy_texts(&self.dsd_mode_args),
            dsd_extra_args: copy_texts(&self.dsd_extra_args),
            rtl_device: self.rtl_device,
            rtl_bandwidth_khz: self.rtl_bandwidth_khz,
            squelch: self.squelch,
            volume: self.volume,
            pcm_gain_bits: self.pcm_gain_bits,
            dsd_pcm_port: self.dsd_pcm_port,
            dsd_audio_stereo: self.dsd_audio_stereo,
            entity_addr: self.entity_addr.clone(),
            dashboard_bind: self.dashboard_bind.clone(),
            silence_timeout_ms: self.silence_timeout_ms,
            fixed_source_id: self.fixed_source_id,
            record_dir: self.record_dir.clone(),
            re_source: self.re_source.clone(),
            re_talkgroup: self.re_talkgroup.clone(),
            re_call_end: self.re_call_end.clone(),
            live: self.live,
        }
    }
}

/// Whether the bits stand for no number.
pub open spec fn is_nan(bits: u32) -> bool {
    bits % 0x8000_0000 > 0x7F80_0000
}

/// Whether two single-precision values differ as numbers: the zeros are equal, and
/// what is no number differs from everything.
pub open spec fn differs(a: u32, b: u32) -> bool {
    ||| is_nan(a)
    ||| is_nan(b)
    ||| a != b && !(a % 0x8000_0000 == 0 && b % 0x8000_0000 == 0)
}

/// Whether a change of the live settings changes what is received.
pub open spec fn retunes(before: LiveSettings, after: LiveSettings) -> bool {
    ||| before.rx_freq_hz != after.rx_freq_hz
    ||| differs(before.gain_db_bits, after.gain_db_bits)
    ||| before.ppm != after.ppm
}

fn bits_differ(a: u32, b: u32) -> (r: bool)
    ensures
        r == differs(a, b),
{
    let m: u32 = a % 0x8000_0000;
    let n: u32 = b % 0x8000_0000;
    m > 0x7F80_0000 || n > 0x7F80_0000 || (a != b && !(m == 0 && n == 0))
}

/// The configuration that all parts share. Threads share one behind a lock; that all
/// its holders see one value is then what the lock gives.
pub struct SharedConfig {
    static_cfg: Config,
    live: LiveSettings,
    restart_gen: u64,
    config_path: Option<String>,
}

/// Mathematical value of a [`SharedConfig`].
pub struct SharedView {
    pub static_cfg: ConfigView,
    pub live: LiveSettings,
    /// How often the receiver had to be retuned, modulo 2^64.
    pub restart_gen: u64,
    pub config_path: Option<Seq<char>>,
}

impl View for SharedConfig {
    type V = SharedView;

    closed spec fn view(&self) -> SharedView {
        SharedView {
            static_cfg: self.static_cfg@,
            live: self.live,
            restart_gen: self.restart_gen,
            config_path: crate::meta::text_of(self.config_path),
        }
    }
}

impl SharedView {
    /// What is to be written back, and where.
    pub open spec fn persisted(self) -> Option<(Seq<char>, ConfigView)> {
        match self.config_path {
            Some(path) => Some((path, ConfigView { live: self.live, ..self.static_cfg })),
            None => None,
        }
    }

    /// The live settings are replaced.
    pub open spec fn applied(self, new: LiveSettings) -> SharedView {
        SharedView {
            live: new,
            restart_gen: if retunes(self.live, new) {
                self.restart_gen.wrapping_add(1)
            } else {
                self.restart_gen
            },
            ..self
        }
    }
}

impl SharedConfig {
    pub fn new(cfg: Config, config_path: Option<String>) -> (r: Self)
        ensures
            r@ == (SharedView {
                static_cfg: cfg@,
                live: cfg@.live,
                restart_gen: 0,
                config_path: crate::meta::text_of(config_path),
            }),
    {
        let live = cfg.live;
        SharedConfig { static_cfg: cfg, live, restart_gen: 0, config_path }
    }

    /// The settings that take a restart to change.
    pub fn static_cfg(&self) -> (r: &Config)
        ensures
            r@ == self@.static_cfg,
    {
        &self.static_cfg
    }

    pub fn live(&self) -> (r: LiveSettings)
        ensures
            r == self@.live,
    {
        self.live
    }

    /// A number that changes whenever the decoder must be started again.
    pub fn restart_generation(&self) -> (r: u64)
        ensures
            r == self@.restart_gen,
    {
        self.restart_gen
    }

    /// Applies new live settings. Returns whether the decoder must be started
    /// again; for the group alone it need not.
    pub fn apply_live(&mut self, new: LiveSettings) -> (r: bool)
        ensures
            final(self)@ == old(self)@.applied(new),
            r == retunes(old(self)@.live, new),
    {
        let rf_changed = self.live.rx_freq_hz != new.rx_freq_hz || bits_differ(
            self.live.gain_db_bits,
            new.gain_db_bits,
        ) || self.live.ppm != new.ppm;
        self.live = new;
        if rf_changed {
            self.restart_gen = self.restart_gen.wrapping_add(1);
        }
        rf_changed
    }

    /// What is to be written back, and where: the configuration with the live
    /// settings as they are now.
    pub fn to_persist(&self) -> (r: Option<(String, Config)>)
        ensures
            match r {
                Some((path, cfg)) => self@.persisted() == Some((path@, cfg@)),
                None => self@.persisted() is None,
            },
    {
        match &self.config_path {
            Some(path) => {
                let mut cfg = self.static_cfg.clone();
                cfg.live = self.live;
                Some((path.clone(), cfg))
            },
            None => None,
        }
    }
}

/// The group alone does not retune, and takes effect at once.
pub proof fn law_group_alone_does_not_retune(c: SharedView, injection_tg: u32)
    requires
        !is_nan(c.live.gain_db_bits),
    ensures
        ({
            let new = LiveSettings { injection_tg, ..c.live };
            &&& !retunes(c.live, new)
            &&& c.applied(new) == (SharedView { live: new, ..c })
        }),
{
}

/// The generation moves exactly when the frequency, the gain or the correction
/// changes.
pub proof fn law_generation_moves_with_the_tuning(c: SharedView, new: LiveSettings)
    ensures
        (c.applied(new).restart_gen != c.restart_gen) == retunes(c.live, new),
{
}

/// Any change of the frequency or of the correction retunes, up or down, and so
/// does a gain that is another number, or no number. Where none of them changes
/// nothing is retuned.
pub proof fn law_any_change_of_tuning_retunes(c: SharedView, new: LiveSettings)
    ensures
        ({
            let after = c.applied(new);
            let a = c.live.gain_db_bits;
            let b = new.gain_db_bits;
            let numbers = a % 0x8000_0000 <= 0x7F80_0000 && b % 0x8000_0000 <= 0x7F80_0000;
            let zeros = a % 0x8000_0000 == 0 && b % 0x8000_0000 == 0;
            &&& after.live == new
            &&& after.static_cfg == c.static_cfg
            &&& after.config_path == c.config_path
            &&& new.rx_freq_hz != c.live.rx_freq_hz ==> after.restart_gen
                == c.restart_gen.wrapping_add(1)
            &&& new.ppm != c.live.ppm ==> after.restart_gen == c.restart_gen.wrapping_add(1)
            &&& !numbers ==> after.restart_gen == c.restart_gen.wrapping_add(1)
            &&& numbers && a != b && !zeros ==> after.restart_gen == c.restart_gen.wrapping_add(1)
            &&& new.rx_freq_hz == c.live.rx_freq_hz && new.ppm == c.live.ppm && numbers && (a == b
                || zeros) ==> after.restart_gen == c.restart_gen
        }),
{
}

/// What is written back after a change is what was loaded with the new live settings
/// in it, to the file that it came from; without a file nothing is.
pub proof fn law_changes_are_written_back(c: SharedView, new: LiveSettings)
    ensures
        ({
            let out = c.applied(new).persisted();
            &&& c.config_path is None ==> out is None
            &&& c.config_path matches Some(path) ==> out matches Some((to, cfg)) && to == path
                && cfg.live == new && cfg == (ConfigView { live: new, ..c.static_cfg })
        }),
{
}

} // verus!
