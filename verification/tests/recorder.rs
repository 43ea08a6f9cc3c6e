use flowdmr::recorder::{list_recordings, Recorder, RecorderAction, RecordingFile};
use flowdmr::wav::{parse_wav, wav_header, wav_sizes, WavError, DATA_LEN_AT, RIFF_LEN_AT};

// A disk with one file in progress and the files that were saved.
#[derive(Default)]
struct Disk {
    part: Vec<u8>,
    saved: Vec<(String, Vec<u8>)>,
    discarded: usize,
}

impl Disk {
    // Carries out all that the recorder asks for.
    fn run(&mut self, r: &mut Recorder) {
        while let Some(a) = r.next_action() {
            match a {
                RecorderAction::Create { header } => self.part = header,
                RecorderAction::Append { bytes } => self.part.extend(bytes),
                RecorderAction::Discard => self.discarded += 1,
                RecorderAction::Save { riff_len, data_len, name } => {
                    let at = RIFF_LEN_AT as usize;
                    self.part[at..at + 4].copy_from_slice(&riff_len);
                    let at = DATA_LEN_AT as usize;
                    self.part[at..at + 4].copy_from_slice(&data_len);
                    self.saved.push((name, self.part.clone()));
                }
            }
            r.report(true);
        }
    }
}

#[test]
fn disabled_is_noop() {
    let mut r = Recorder::disabled();
    r.start(1, 2);
    r.write(&[0i16; 240]);
    r.finish();
    assert_eq!(r.files_written, 0);
    assert!(!r.enabled());
    assert!(r.next_action().is_none());
}

#[test]
fn writes_a_valid_wav() {
    let mut disk = Disk::default();
    let mut r = Recorder::new(0);
    assert!(r.enabled());
    r.start(0, 9);
    r.note_meta(Some(2604123), Some(9));
    for _ in 0..10 {
        r.write(&[1000i16; 240]);
    }
    r.finish();
    disk.run(&mut r);
    assert_eq!(r.files_written, 1);

    let files: Vec<RecordingFile> = disk
        .saved
        .iter()
        .map(|(name, bytes)| RecordingFile { name: name.clone(), len: bytes.len() as u64, modified: 0 })
        .collect();
    let files = list_recordings(&files, 10);
    assert_eq!(files.len(), 1);
    let (name, size) = &files[0];
    assert!(name.contains("tg9") && name.contains("src2604123"), "name: {name}");
    // 2400 samples * 2 bytes + 44 header
    assert_eq!(*size, 2400 * 2 + 44);
    let bytes = &disk.saved[0].1;
    assert_eq!(&bytes[0..4], b"RIFF");
    assert_eq!(&bytes[8..12], b"WAVE");
    // What was recorded is read back.
    let clip = parse_wav(bytes).unwrap();
    assert_eq!(clip.samples, vec![1000i16; 2400]);
    assert_eq!(clip.rate, 8000);
    assert_eq!(r.last_file.as_deref(), Some(name.as_str()));
}

#[test]
fn name_starts_with_the_local_time() {
    let mut disk = Disk::default();
    let mut r = Recorder::new(0);
    let before = chrono::Local::now().format("%Y%m%d-%H%M%S").to_string();
    r.start(5, 6);
    disk.run(&mut r);
    let after = chrono::Local::now().format("%Y%m%d-%H%M%S").to_string();
    r.finish();
    disk.run(&mut r);
    let name = &disk.saved[0].0;
    let stamp = &name[..15];
    assert!(before.as_str() <= stamp && stamp <= after.as_str(), "name: {name}");
    assert_eq!(&name[15..], "_tg6_src5.wav");
}

#[test]
fn given_time_is_used_for_the_name() {
    let mut r = Recorder::new(0);
    r.start(5, 6);
    assert!(matches!(r.next_action(), Some(RecorderAction::Create { .. })));
    assert!(r.next_action().is_none(), "the outcome is awaited");
    r.report_at(true, "20260102-030405".to_string());
    r.finish();
    match r.next_action() {
        Some(RecorderAction::Save { name, riff_len, data_len }) => {
            assert_eq!(name, "20260102-030405_tg6_src5.wav");
            assert_eq!(riff_len, vec![36, 0, 0, 0]);
            assert_eq!(data_len, vec![0, 0, 0, 0]);
        }
        _ => panic!("not saved"),
    }
    r.report_at(true, String::new());
    assert_eq!(r.files_written, 1);
}

#[test]
fn short_calls_are_dropped() {
    let mut disk = Disk::default();
    let mut r = Recorder::new(481);
    r.start(1, 1);
    r.write(&[1; 240]);
    r.write(&[1; 240]);
    r.finish();
    disk.run(&mut r);
    assert_eq!((disk.discarded, disk.saved.len(), r.files_written), (1, 0, 0));
    r.start(1, 1);
    r.write(&[1; 481]);
    r.finish();
    disk.run(&mut r);
    assert_eq!((disk.discarded, disk.saved.len(), r.files_written), (1, 1, 1));
}

#[test]
fn starting_again_finishes_the_file_in_progress() {
    let mut disk = Disk::default();
    let mut r = Recorder::new(0);
    r.start(1, 1);
    r.write(&[7; 3]);
    r.start(2, 2);
    r.note_meta(Some(0), None); // 0 is no id
    r.finish();
    disk.run(&mut r);
    assert_eq!(disk.saved.len(), 2);
    assert!(disk.saved[0].0.ends_with("_tg1_src1.wav"));
    assert!(disk.saved[1].0.ends_with("_tg2_src2.wav"));
    assert_eq!(disk.saved[0].1.len(), 44 + 6);
    assert_eq!(disk.saved[1].1.len(), 44);
}

#[test]
fn failures_on_disk_are_survived() {
    let mut r = Recorder::new(0);
    r.start(1, 1);
    assert!(matches!(r.next_action(), Some(RecorderAction::Create { .. })));
    r.report(false);
    r.write(&[1; 10]);
    r.finish();
    assert!(r.next_action().is_none(), "no file, nothing to do");

    r.start(1, 1);
    assert!(matches!(r.next_action(), Some(RecorderAction::Create { .. })));
    r.report(true);
    r.write(&[1; 10]);
    assert!(matches!(r.next_action(), Some(RecorderAction::Append { .. })));
    r.report(false); // not written, not counted
    r.write(&[1; 4]);
    assert!(matches!(r.next_action(), Some(RecorderAction::Append { .. })));
    r.report(true);
    r.finish();
    match r.next_action() {
        Some(RecorderAction::Save { data_len, .. }) => assert_eq!(data_len, vec![8, 0, 0, 0]),
        _ => panic!("not saved"),
    }
    r.report(false);
    assert_eq!(r.files_written, 0);
    assert_eq!(r.last_file, None);
}

fn file(name: &str, len: u64, modified: i128) -> RecordingFile {
    RecordingFile { name: name.to_string(), len, modified }
}

#[test]
fn recordings_are_listed_newest_first() {
    let files = vec![
        file("a.wav", 1, 10),
        file("x.part", 2, 99),
        file("b.wav", 3, 30),
        file("c.wav", 4, 10),
        file(".wav", 5, 20),
        file("wav", 6, 20),
    ];
    let all = list_recordings(&files, 10);
    let names: Vec<&str> = all.iter().map(|f| f.0.as_str()).collect();
    assert_eq!(names, vec!["b.wav", ".wav", "a.wav", "c.wav"]);
    assert_eq!(all[0].1, 3);
    assert_eq!(list_recordings(&files, 2).len(), 2);
    assert!(list_recordings(&files, 0).is_empty());
}

#[test]
fn header_bytes_are_exact() {
    let h = wav_header(4);
    let mut want: Vec<u8> = Vec::new();
    want.extend(b"RIFF");
    want.extend(40u32.to_le_bytes());
    want.extend(b"WAVEfmt ");
    want.extend(16u32.to_le_bytes());
    want.extend(1u16.to_le_bytes());
    want.extend(1u16.to_le_bytes());
    want.extend(8000u32.to_le_bytes());
    want.extend(16000u32.to_le_bytes());
    want.extend(2u16.to_le_bytes());
    want.extend(16u16.to_le_bytes());
    want.extend(b"data");
    want.extend(4u32.to_le_bytes());
    assert_eq!(h, want);
    assert_eq!(wav_sizes(3), (42u32.to_le_bytes().to_vec(), 6u32.to_le_bytes().to_vec()));
}

fn wav(channels: u16, rate: u32, bits: u16, data: &[u8]) -> Vec<u8> {
    let mut b: Vec<u8> = Vec::new();
    b.extend(b"RIFF");
    b.extend(0u32.to_le_bytes());
    b.extend(b"WAVE");
    b.extend(b"LIST");
    b.extend(3u32.to_le_bytes());
    b.extend([1, 2, 3, 0]); // an odd chunk with its padding
    b.extend(b"fmt ");
    b.extend(16u32.to_le_bytes());
    b.extend(1u16.to_le_bytes());
    b.extend(channels.to_le_bytes());
    b.extend(rate.to_le_bytes());
    b.extend(0u32.to_le_bytes());
    b.extend(0u16.to_le_bytes());
    b.extend(bits.to_le_bytes());
    b.extend(b"data");
    b.extend((data.len() as u32).to_le_bytes());
    b.extend(data);
    b
}

fn wav_bytes_of(samples: &[i16]) -> Vec<u8> {
    samples.iter().flat_map(|s| s.to_le_bytes()).collect()
}

#[test]
fn stereo_clips_are_mixed() {
    let b = wav(2, 44100, 16, &wav_bytes_of(&[10, 20, -3, 0, i16::MAX, i16::MAX, 5]));
    let clip = parse_wav(&b).unwrap();
    assert_eq!(clip.samples, vec![15, -1, i16::MAX]);
    assert_eq!(clip.rate, 44100);
}

#[test]
fn clip_that_is_cut_off_is_read_as_far_as_it_goes() {
    let mut b = wav(1, 8000, 16, &wav_bytes_of(&[1, 2, 3, 4]));
    b.truncate(b.len() - 3);
    assert_eq!(parse_wav(&b).unwrap().samples, vec![1, 2]);
}

#[test]
fn files_that_are_no_clips_are_refused() {
    assert_eq!(parse_wav(b"RIFF").err(), Some(WavError::NotRiffWave));
    assert_eq!(parse_wav(b"RIFX\0\0\0\0WAVE").err(), Some(WavError::NotRiffWave));
    assert_eq!(parse_wav(b"RIFF\0\0\0\0WAVE").err(), Some(WavError::NoDataChunk));
    let b = wav(1, 8000, 8, &[0; 4]);
    assert_eq!(parse_wav(&b).err(), Some(WavError::BitsPerSample(8)));
    assert_eq!(WavError::NotRiffWave.message(), "not a RIFF/WAVE file");
    assert_eq!(WavError::NoDataChunk.message(), "no data chunk");
    assert_eq!(WavError::BitsPerSample(24).message(), "only 16-bit PCM supported (got 24-bit)");
}

#[test]
fn local_time_has_its_form() {
    let mut disk = Disk::default();
    let mut r = Recorder::new(0);
    r.start(1, 2);
    r.finish();
    disk.run(&mut r);
    let name = &disk.saved[0].0;
    let stamp: Vec<char> = name.strip_suffix("_tg2_src1.wav").unwrap().chars().collect();
    assert_eq!(stamp.len(), 15);
    assert_eq!(stamp[8], '-');
    assert!(stamp.iter().enumerate().all(|(i, c)| i == 8 || c.is_ascii_digit()));
    let part = |from: usize| stamp[from].to_digit(10).unwrap() * 10 + stamp[from + 1].to_digit(10).unwrap();
    assert!((1..=12).contains(&part(4)) && (1..=31).contains(&part(6)));
    assert!(part(9) <= 23 && part(11) <= 59 && part(13) <= 60);
    let req = flowdmr::dashboard::parse_request(&format!("GET /rec/{name} HTTP/1.1"));
    assert_eq!(flowdmr::dashboard::route(&req), flowdmr::dashboard::Route::Recording(name.clone()));
}
