use flowdmr::config::{Config, LiveSettings, SharedConfig};
use flowdmr::dashboard::{
    apply_control, json_escape, parse_control, parse_request, recordings_json, reply, respond,
    respond_recording, route, status_json, Request, Route,
};
use flowdmr::status::Status;

fn routed(line: &str) -> Route {
    route(&parse_request(line))
}

#[test]
fn requests_are_routed() {
    assert_eq!(routed("GET / HTTP/1.1\r\nHost: x\r\n\r\n"), Route::Page);
    assert_eq!(routed("GET /api/status HTTP/1.1\r\n\r\n"), Route::Status);
    assert_eq!(routed("GET /api/log HTTP/1.1"), Route::Log);
    assert_eq!(routed("GET /api/recordings HTTP/1.1"), Route::Recordings);
    assert_eq!(routed("POST /api/control HTTP/1.1\r\n\r\nppm=1"), Route::Control);
    assert_eq!(routed("GET /api/control HTTP/1.1"), Route::NotFound);
    assert_eq!(routed("POST / HTTP/1.1"), Route::NotFound);
    assert_eq!(routed(""), Route::NotFound);
    assert_eq!(routed("GET"), Route::Page); // without a path: the root
    assert_eq!(routed("  GET\t/api/log "), Route::Log);
}

#[test]
fn names_cannot_leave_the_directory() {
    assert_eq!(routed("GET /rec/a.wav HTTP/1.1"), Route::Recording("a.wav".to_string()));
    assert_eq!(routed("GET /rec/.wav HTTP/1.1"), Route::Recording(".wav".to_string()));
    for bad in ["", "a.mp3", "x/a.wav", "../a.wav", "a..wav", "wav", "/a.wav"] {
        assert_eq!(routed(&format!("GET /rec/{bad} HTTP/1.1")), Route::BadName, "{bad}");
    }
}

#[test]
fn body_stands_behind_the_first_empty_line() {
    let r = parse_request("POST /x HTTP/1.1\r\nA: b\r\n\r\none\r\n\r\ntwo");
    assert_eq!((r.method.as_str(), r.path.as_str(), r.body.as_str()), ("POST", "/x", "one"));
    assert_eq!(parse_request("POST /x\r\n\r\nrest").body, "rest");
    assert_eq!(parse_request("POST /x\r\n").body, "");
    let r: Request = parse_request("\nGET /");
    assert_eq!((r.method.as_str(), r.path.as_str()), ("", "/"));
}

#[test]
fn json_text_is_escaped() {
    assert_eq!(json_escape("a\"b\\c\n\r\td\u{1}\u{1f}e\u{e9}"), "a\\\"b\\\\c   de\u{e9}");
    assert_eq!(json_escape(""), "");
}

#[test]
fn answers_have_their_length_in_bytes() {
    assert_eq!(
        respond("200 OK", "text/plain", "h\u{e9}"),
        "HTTP/1.1 200 OK\r\nContent-Type: text/plain\r\nContent-Length: 3\r\nConnection: close\r\n\
         Cache-Control: no-store\r\n\r\nh\u{e9}"
    );
    assert_eq!(
        respond_recording("a.wav", 44),
        "HTTP/1.1 200 OK\r\nContent-Type: audio/wav\r\nContent-Length: 44\r\nContent-Disposition: \
         attachment; filename=\"a.wav\"\r\nConnection: close\r\n\r\n"
    );
}

#[test]
fn recordings_become_json() {
    assert_eq!(recordings_json(&vec![]), "[]");
    assert_eq!(
        recordings_json(&vec![("a\"b.wav".to_string(), 12), ("c.wav".to_string(), 0)]),
        "[{\"name\":\"a\\\"b.wav\",\"size\":12},{\"name\":\"c.wav\",\"size\":0}]"
    );
}

#[test]
fn status_becomes_json() {
    let mut s = Status::default();
    let mut live = LiveSettings::default();
    live.ppm = -2;
    assert_eq!(
        status_json(&s, &live, "-99.0", "0"),
        "{\"decoder_running\":false,\"decoder_pid\":null,\"decoder_restarts\":0,\"pcm_frames\":0,\
         \"active_call\":false,\"current_source\":null,\"calls_total\":0,\"last_meta_line\":\"\",\
         \"last_error\":null,\"peak_dbfs\":-99.0,\"pcm_clip\":0,\"freq_hz\":439000000,\"gain_db\":0,\
         \"ppm\":-2,\"injection_tg\":5000}"
    );
    s.note_spawned(7);
    s.last_error = Some("a\"b".to_string());
    s.current_source = Some(5);
    let j = status_json(&s, &live, "-1.5", "20.5");
    assert!(j.contains("\"decoder_running\":true,\"decoder_pid\":7"));
    assert!(j.contains("\"last_error\":\"a\\\"b\",\"peak_dbfs\":-1.5"));
    assert!(j.contains("\"current_source\":5") && j.contains("\"gain_db\":20.5"));
}

#[test]
fn control_values_are_read() {
    let c = parse_control("freq_mhz=439.5&gain_db= 12 &ppm=-3&injection_tg=5001&x=y&ppm=z&&junk");
    assert_eq!(c.freq_mhz, vec!["439.5"]);
    assert_eq!(c.gain_db, vec!["12"]);
    assert_eq!((c.ppm, c.injection_tg), (Some(-3), Some(5001)));
    let c = parse_control("ppm=1&ppm=2147483648&injection_tg=-1&injection_tg=4294967296&freq_mhz=a&freq_mhz=b");
    assert_eq!((c.ppm, c.injection_tg), (Some(1), None));
    assert_eq!(c.freq_mhz, vec!["a", "b"]);
    let c = parse_control("");
    assert!(c.freq_mhz.is_empty() && c.gain_db.is_empty() && c.ppm.is_none());
    assert_eq!(parse_control("ppm=-2147483648").ppm, Some(i32::MIN));
    assert_eq!(parse_control("ppm=\u{2003}7\u{a0}").ppm, Some(7));
    assert_eq!(parse_control("freq_mhz=a=b").freq_mhz, vec!["a=b"]);
}

#[test]
fn control_changes_what_it_names() {
    let mut cfg = SharedConfig::new(Config::default(), None);
    let c = parse_control("injection_tg=5001");
    assert!(!apply_control(&mut cfg, &c, None, None));
    assert_eq!(cfg.live().injection_tg, 5001);
    let c = parse_control("ppm=4");
    assert!(apply_control(&mut cfg, &c, Some(440_000_000), Some(1.5f32.to_bits())));
    let l = cfg.live();
    assert_eq!((l.rx_freq_hz, l.ppm, l.injection_tg), (440_000_000, 4, 5001));
    assert_eq!(f32::from_bits(l.gain_db_bits), 1.5);
    assert_eq!(cfg.restart_generation(), 1);
}

#[test]
fn saved_recordings_can_be_fetched() {
    assert_eq!(
        routed("GET /rec/20260102-030405_tg9_src100.wav HTTP/1.1"),
        Route::Recording("20260102-030405_tg9_src100.wav".to_string())
    );
}

#[test]
fn control_pairs_apply_in_order() {
    assert_eq!(parse_control("ppm=1&ppm=2").ppm, Some(2));
    assert_eq!(parse_control("ppm=2&ppm=1").ppm, Some(1));
}

#[test]
fn routes_are_answered() {
    assert_eq!(reply(&Route::Page, "p"), respond("200 OK", "text/html; charset=utf-8", "p"));
    assert_eq!(reply(&Route::Log, "l"), respond("200 OK", "text/plain; charset=utf-8", "l"));
    for r in [Route::Status, Route::Recordings, Route::Control] {
        assert_eq!(reply(&r, "{}"), respond("200 OK", "application/json", "{}"));
    }
    assert_eq!(reply(&Route::BadName, "x"), respond("400 Bad Request", "text/plain", "bad name"));
    for r in [Route::NotFound, Route::Recording("a.wav".to_string())] {
        assert_eq!(reply(&r, "x"), respond("404 Not Found", "text/plain", "not found"));
    }
}
