use flowdmr::cli::{parse_args, Cli};
use flowdmr::ipc::FlowDmrBody;
use flowdmr::testinject::{parse_opts, test_frames, Command};

fn words(s: &str) -> Vec<String> {
    s.split_whitespace().map(|w| w.to_string()).collect()
}

#[test]
fn options_have_defaults() {
    match parse_opts(&vec![]) {
        Command::Send(o) => {
            assert_eq!(o.entity, "127.0.0.1:23471");
            assert_eq!((o.tg, o.src, o.amplitude), (5000, 1_234_567, 8000));
            assert!(o.secs.is_empty() && o.tone_hz.is_empty() && o.wav.is_none());
        }
        other => panic!("got {other:?}"),
    }
}

#[test]
fn options_are_read() {
    let args = words("--tg 5001 --src 42 --amp -5 --secs 1.5 --secs x --tone 440 --wav a.wav --entity h:1 --tg no");
    match parse_opts(&args) {
        Command::Send(o) => {
            assert_eq!((o.tg, o.src, o.amplitude), (5001, 42, -5));
            assert_eq!(o.secs, vec!["1.5", "x"]);
            assert_eq!(o.tone_hz, vec!["440"]);
            assert_eq!((o.wav.as_deref(), o.entity.as_str()), (Some("a.wav"), "h:1"));
        }
        other => panic!("got {other:?}"),
    }
    match parse_opts(&words("--amp 32768 --wav")) {
        Command::Send(o) => {
            assert_eq!(o.amplitude, 8000);
            assert_eq!(o.wav.as_deref(), Some(""));
        }
        other => panic!("got {other:?}"),
    }
    assert!(matches!(parse_opts(&words("--tg 1 -h --bad")), Command::Help));
    match parse_opts(&words("--tg --help --bad")) {
        Command::Unknown(a) => assert_eq!(a, "--bad"), // `--help` was the value of `--tg`
        other => panic!("got {other:?}"),
    }
}

#[test]
fn synthetic_call_plays_the_whole_clip() {
    let pcm: Vec<i16> = (0..500).map(|i| i as i16).collect();
    let frames = test_frames(5000, 42, &pcm);
    assert_eq!(frames.len(), 5);
    assert!(frames.iter().all(|f| f.stream_id == 0xC0FFEE));
    assert_eq!(
        frames[0].body,
        FlowDmrBody::CallStart { source_id: 42, dmr_tg: 5000, target_gssi: 5000, priority: 0 }
    );
    let mut heard = Vec::new();
    for (i, f) in frames[1..4].iter().enumerate() {
        match &f.body {
            FlowDmrBody::Voice { seq, flags, pcm } => {
                assert_eq!(*seq, i as u32);
                assert_eq!(*flags, [1, 0, 2][i]);
                assert_eq!(pcm.len(), 240);
                heard.extend(pcm.clone());
            }
            other => panic!("got {other:?}"),
        }
    }
    assert_eq!(&heard[..500], &pcm[..]);
    assert!(heard[500..].iter().all(|s| *s == 0));
    assert_eq!(frames[4].body, FlowDmrBody::CallEnd);
}

#[test]
fn one_frame_is_first_and_last() {
    let frames = test_frames(1, 2, &vec![7; 240]);
    assert_eq!(frames.len(), 3);
    assert_eq!(frames[1].body, FlowDmrBody::Voice { seq: 0, flags: 3, pcm: vec![7; 240] });
    assert_eq!(test_frames(1, 2, &vec![]).len(), 2);
}

#[test]
fn command_line_is_read() {
    assert_eq!(parse_args(&vec![]), Cli::Run { config_path: None });
    assert_eq!(parse_args(&words("-c a")), Cli::Run { config_path: Some("a".to_string()) });
    assert_eq!(parse_args(&words("-c a --config b")), Cli::Run { config_path: Some("b".to_string()) });
    assert_eq!(parse_args(&words("-c a --config")), Cli::Run { config_path: None });
    assert_eq!(
        parse_args(&words("--write-default-config x --bad")),
        Cli::WriteDefault { path: "x".to_string() }
    );
    assert_eq!(
        parse_args(&words("--write-default-config")),
        Cli::WriteDefault { path: "flowdmr-sidecar.toml".to_string() }
    );
    assert_eq!(parse_args(&words("-c a -h")), Cli::Help);
    assert_eq!(parse_args(&words("--bad")), Cli::Unknown { arg: "--bad".to_string() });
}
