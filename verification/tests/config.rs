use flowdmr::config::{Config, LiveSettings, SharedConfig};
use flowdmr::decoder::{apply_meta, build_args, on_line, Output, Process, Supervision, Supervisor};
use flowdmr::meta::{MetaLine, MetaParser};
use flowdmr::session::{CallManager, FrameQueue};
use flowdmr::status::{SharedLog, SharedStatus, Status};
use std::sync::{Arc, Mutex};

#[test]
fn rf_change_triggers_restart_but_tg_does_not() {
    let mut shared = SharedConfig::new(Config::default(), None);
    let mut live = shared.live();
    live.injection_tg = 5123;
    assert!(!shared.apply_live(live), "TG change must not restart decoder");

    let mut live = shared.live();
    live.rx_freq_hz = 440_100_000;
    assert!(shared.apply_live(live), "freq change must restart decoder");
    assert_eq!(shared.restart_generation(), 1);
}

#[test]
fn builds_expected_rtl_command() {
    let mut cfg = Config::default();
    cfg.rtl_device = 0;
    cfg.dsd_pcm_port = 23470;
    cfg.rtl_bandwidth_khz = 12;
    cfg.volume = 2;
    let mut shared = SharedConfig::new(cfg, None);
    let mut live = shared.live();
    live.rx_freq_hz = 439_000_000;
    live.gain_db_bits = 0.0f32.to_bits();
    live.ppm = 0;
    shared.apply_live(live);

    let freq = format!("{:.4}M", shared.live().rx_freq_hz as f64 / 1_000_000.0);
    let gain = f32::from_bits(shared.live().gain_db_bits).round() as i64;
    let args = build_args(&shared, &freq, gain);
    let joined = args.join(" ");
    assert!(joined.contains("-i rtl:0:439.0000M:0:0:12:0:2"), "got: {joined}");
    assert!(joined.contains("-o udp:127.0.0.1:23470"), "got: {joined}");
    assert!(joined.starts_with("-fs -nm"), "mode args first: {joined}");
}

#[test]
fn arguments_are_complete() {
    let mut cfg = Config::default();
    cfg.dsd_extra_args = vec!["-x".to_string(), "1".to_string()];
    let mut shared = SharedConfig::new(cfg, None);
    let mut live = shared.live();
    live.ppm = -3;
    shared.apply_live(live);
    let args = build_args(&shared, "851.0125M", -7);
    assert_eq!(
        args,
        vec!["-fs", "-nm", "-i", "rtl:0:851.0125M:-7:-3:24:0:1", "-o", "udp:127.0.0.1:23470", "-x", "1"]
    );
}

#[test]
fn defaults_are_as_documented() {
    let c = Config::default();
    assert_eq!(c.dsd_bin, "dsd-neo");
    assert_eq!(f32::from_bits(c.pcm_gain_bits), 0.8);
    assert_eq!(c.entity_addr, "127.0.0.1:23471");
    assert_eq!(c.dashboard_bind, "0.0.0.0:8081");
    assert_eq!((c.silence_timeout_ms, c.fixed_source_id), (1200, 1));
    assert_eq!((c.rtl_bandwidth_khz, c.volume, c.squelch), (24, 1, 0));
    assert_eq!(c.re_source, r"(?i)\b(?:source|src)\D{0,4}(\d{2,8})");
    assert_eq!(c.re_talkgroup, r"(?i)\b(?:target|group|tg|tgt)\D{0,4}(\d{1,8})");
    assert_eq!(c.re_call_end, r"(?i)(no sync|sync:\s*no|call end|terminator|voice end)");
    assert!(c.dsd_audio_stereo && c.record_dir.is_empty());
    let l = LiveSettings::default();
    assert_eq!((l.rx_freq_hz, l.ppm, l.injection_tg), (439_000_000, 0, 5000));
    assert_eq!(f32::from_bits(l.gain_db_bits), 0.0);
    assert_eq!(c.live, l);
}

#[test]
fn gains_are_told_apart_as_numbers() {
    let values = [0.0f32, -0.0, 1.5, -1.5, f32::NAN, f32::INFINITY, f32::MIN_POSITIVE / 2.0];
    for a in values {
        for b in values {
            let mut cfg = Config::default();
            cfg.live.gain_db_bits = a.to_bits();
            let mut shared = SharedConfig::new(cfg, None);
            let mut live = shared.live();
            live.gain_db_bits = b.to_bits();
            assert_eq!(shared.apply_live(live), a != b, "{a} {b}");
            assert_eq!(shared.live().gain_db_bits, b.to_bits());
        }
    }
}

#[test]
fn live_settings_are_written_back() {
    let mut shared = SharedConfig::new(Config::default(), Some("a.toml".to_string()));
    let mut live = shared.live();
    live.injection_tg = 5999;
    shared.apply_live(live);
    let (path, cfg) = shared.to_persist().unwrap();
    assert_eq!(path, "a.toml");
    assert_eq!(cfg.live.injection_tg, 5999);
    assert_eq!(cfg.dsd_mode_args, vec!["-fs", "-nm"]);
    assert_eq!(shared.static_cfg().live.injection_tg, 5000);
    assert!(SharedConfig::new(Config::default(), None).to_persist().is_none());
}

#[test]
fn decoder_is_watched() {
    let mut shared = SharedConfig::new(Config::default(), None);
    let s = Supervisor::start(&shared);
    assert_eq!(s.decide(Output::Open, Process::Running, &shared), Supervision::Continue);
    assert_eq!(s.decide(Output::Open, Process::Exited, &shared), Supervision::Restart);
    assert_eq!(s.decide(Output::Open, Process::Unknown, &shared), Supervision::Restart);
    assert_eq!(s.decide(Output::Closed, Process::Running, &shared), Supervision::Restart);
    let mut live = shared.live();
    live.ppm = 1;
    shared.apply_live(live);
    assert_eq!(s.decide(Output::Open, Process::Running, &shared), Supervision::Retune);
    assert_eq!(s.decide(Output::Open, Process::Exited, &shared), Supervision::Retune);
    assert_eq!(s.decide(Output::Closed, Process::Running, &shared), Supervision::Restart);
    let s = Supervisor::start(&shared);
    assert_eq!(s.decide(Output::Open, Process::Running, &shared), Supervision::Continue);
}

#[test]
fn console_lines_reach_calls_and_status() {
    let c = Config::default();
    let p = MetaParser::new(&c.re_source, &c.re_talkgroup, &c.re_call_end).unwrap();
    let mut cm = CallManager::new(0);
    let mut status = Status::default();
    let mut sink = FrameQueue::new();
    on_line(&p, "hello", 5000, 0, &mut cm, &mut status, &mut sink);
    assert!(sink.pop().is_none() && status.last_meta_line.is_empty());
    on_line(&p, "Source: 42 Target: 9", 5000, 0, &mut cm, &mut status, &mut sink);
    assert!(sink.pop().is_some());
    assert_eq!(status.last_meta_line, "Source: 42 Target: 9");
    assert_eq!((status.active_call, status.current_source, status.calls_total), (true, Some(42), 1));
    let end = MetaLine { call_end: true, ..Default::default() };
    apply_meta(&end, "bye", 5000, 0, &mut cm, &mut status, &mut sink);
    assert_eq!((status.active_call, status.current_source, status.calls_total), (false, None, 1));
    assert_eq!(status.last_meta_line, "bye");
}

#[test]
fn status_notes_the_decoder() {
    let mut shared = SharedStatus::new();
    shared.update(|mut s| {
        s.note_spawn_failed("no such file");
        s
    });
    assert_eq!(shared.snapshot().last_error.as_deref(), Some("spawn: no such file"));
    shared.update(|mut s| {
        s.note_spawned(17);
        s
    });
    let s = shared.snapshot();
    assert_eq!((s.decoder_running, s.decoder_pid, s.last_error), (true, Some(17), None));
    shared.update(|mut s| {
        s.note_stopped();
        s.note_bad_pattern("oops");
        s
    });
    let s = shared.snapshot();
    assert_eq!((s.decoder_running, s.decoder_pid, s.decoder_restarts), (false, None, 1));
    assert_eq!(s.last_error.as_deref(), Some("regex: oops"));
}

#[test]
fn log_holds_the_latest_lines() {
    let mut log = SharedLog::new(3);
    assert_eq!(log.tail(5), "");
    for l in ["a", "b", "c", "d"] {
        log.push(l);
    }
    assert_eq!(log.tail(10), "b\nc\nd");
    assert_eq!(log.tail(2), "c\nd");
    assert_eq!(log.tail(0), "");
    let mut one = SharedLog::new(0);
    one.push("a");
    one.push("b");
    assert_eq!(one.tail(9), "b");
}

#[test]
fn holders_of_a_shared_status_see_one_value() {
    let s = Arc::new(Mutex::new(SharedStatus::new()));
    let t = s.clone();
    s.lock().unwrap().update(|mut x| {
        x.note_spawned(3);
        x
    });
    let before = s.lock().unwrap().snapshot();
    let mut calls = 0;
    s.lock().unwrap().update(|mut x| {
        calls += 1;
        assert_eq!((x.decoder_pid, x.decoder_running), (before.decoder_pid, before.decoder_running));
        x.note_stopped();
        x
    });
    assert_eq!(calls, 1);
    for handle in [&s, &t] {
        let now = handle.lock().unwrap().snapshot();
        assert_eq!((now.decoder_pid, now.decoder_restarts), (None, 1));
    }
    assert_eq!((before.decoder_pid, before.decoder_restarts), (Some(3), 0));
}
