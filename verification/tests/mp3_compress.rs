use ttk::media::{DirEntry, InputProbe, Plan};
use ttk::mp3_compress::{finish_dir_run, is_mp3, run, Mp3CompressArgs};

fn args(input: &str, stereo: bool) -> Mp3CompressArgs {
    Mp3CompressArgs { input: input.to_string(), output_dir: None, stereo }
}

fn probe(exists: bool, is_file: bool, listing: Vec<DirEntry>) -> InputProbe {
    InputProbe { ffmpeg_found: true, exists, is_file, listing: Ok(listing) }
}

#[test]
fn test_mp3_missing_input_err() {
    let result = run(&args("/tmp/ttk-test/nope", false), &probe(false, false, vec![]));
    match result {
        Err(e) if e.contains("ffmpeg not found") => {}
        Err(e) => assert!(e.contains("not found"), "unexpected: {}", e),
        Ok(_) => panic!("expected error"),
    }
}

#[test]
fn test_mp3_no_mp3_files_err() {
    let result = run(
        &args("/tmp/ttk-test", false),
        &probe(true, false, vec![DirEntry { path: "/tmp/ttk-test/a.txt".to_string(), is_file: true }]),
    );
    match result {
        Err(e) if e.contains("ffmpeg not found") => {}
        Err(e) => assert!(e.contains("no MP3 files"), "unexpected: {}", e),
        Ok(_) => panic!("expected error"),
    }
}

#[test]
fn test_is_mp3() {
    assert!(is_mp3("track.mp3"));
    assert!(is_mp3("TRACK.MP3"));
    assert!(!is_mp3("track.m4a"));
    assert!(!is_mp3("track.wav"));
}

#[test]
fn test_mp3_single_file_not_mp3_err() {
    let result = run(&args("/tmp/ttk-test/audio.wav", false), &probe(true, true, vec![]));
    match result {
        Err(e) if e.contains("ffmpeg not found") => {}
        Err(e) => assert!(e.contains("not an MP3 file"), "unexpected: {}", e),
        Ok(_) => panic!("expected error"),
    }
}

#[test]
fn is_mp3_edge_cases() {
    assert!(!is_mp3(".mp3"));
    assert!(!is_mp3("mp3"));
    assert!(is_mp3("dir.d/a.b.mP3"));
    assert!(!is_mp3("track.mp3/.."));
}

#[test]
fn missing_ffmpeg_message() {
    let r = run(&args("x.mp3", false), &InputProbe { ffmpeg_found: false, exists: true, is_file: true, listing: Ok(vec![]) });
    assert_eq!(r.err().unwrap(), "ffmpeg not found \u{2014} install it first");
}

#[test]
fn single_file_arguments_mono_and_stereo() {
    match run(&args("music/track.mp3", false), &probe(true, true, vec![])) {
        Ok(Plan::File(c)) => {
            assert_eq!(c.output, "music/track.m4a");
            assert_eq!(c.args, vec!["-i", "music/track.mp3", "-ac", "1", "-c:a", "aac", "-b:a", "96k", "music/track.m4a"]);
        }
        _ => panic!("expected a single conversion"),
    }
    match run(&args("/track.MP3", true), &probe(true, true, vec![])) {
        Ok(Plan::File(c)) => {
            assert_eq!(c.output, "/track.m4a");
            assert_eq!(c.args[3], "2");
        }
        _ => panic!("expected a single conversion"),
    }
}

#[test]
fn directory_run_writes_next_to_inputs_or_to_output_dir() {
    let listing = vec![
        DirEntry { path: "m/a.mp3".to_string(), is_file: true },
        DirEntry { path: "m/b.wav".to_string(), is_file: true },
    ];
    match run(
        &Mp3CompressArgs { input: "m".to_string(), output_dir: Some("out".to_string()), stereo: false },
        &probe(true, false, listing),
    ) {
        Ok(Plan::Dir(cs)) => {
            assert_eq!(cs.len(), 1);
            assert_eq!(cs[0].output, "out/a.m4a");
        }
        _ => panic!("expected directory conversions"),
    }
}

#[test]
fn directory_run_verdict() {
    let (report, verdict) = finish_dir_run(0, 3);
    assert_eq!(report, "converted 0/3 files");
    assert_eq!(verdict.unwrap_err(), "all 3 file(s) failed to convert");
    let (report, verdict) = finish_dir_run(2, 3);
    assert_eq!(report, "converted 2/3 files");
    assert!(verdict.is_ok());
    assert!(finish_dir_run(0, 0).1.is_ok());
}
