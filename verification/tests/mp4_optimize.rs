use ttk::media::{DirEntry, InputProbe, Plan};
use ttk::mp4_optimize::{is_mp4, run, dir_run_report, Mp4OptimizeArgs, Quality};

fn probe(exists: bool, is_file: bool, listing: Vec<DirEntry>) -> InputProbe {
    InputProbe { ffmpeg_found: true, exists, is_file, listing: Ok(listing) }
}

#[test]
fn test_quality_parse_valid() {
    assert_eq!(Quality::parse("high").unwrap(), Quality::High);
    assert_eq!(Quality::parse("medium").unwrap(), Quality::Medium);
    assert_eq!(Quality::parse("low").unwrap(), Quality::Low);
    assert_eq!(Quality::parse("web").unwrap(), Quality::Web);
}

#[test]
fn test_quality_parse_invalid() {
    let err = Quality::parse("ultra").unwrap_err();
    assert!(err.contains("invalid quality"));
    assert!(err.contains("high|medium|low|web"));
}

#[test]
fn test_quality_presets() {
    assert_eq!(Quality::High.crf(), 18);
    assert_eq!(Quality::Medium.crf(), 23);
    assert_eq!(Quality::Low.crf(), 28);
    assert_eq!(Quality::Web.crf(), 25);

    assert_eq!(Quality::High.max_w(), 1920);
    assert_eq!(Quality::Low.max_h(), 480);
    assert_eq!(Quality::Web.video_bitrate(), "1500k");
    assert_eq!(Quality::High.audio_bitrate(), "192k");
}

#[test]
fn test_mp4_missing_input_err() {
    let result = run(
        &Mp4OptimizeArgs { input: "/tmp/ttk-test/nope".to_string(), output_dir: None, quality: Quality::Web },
        &probe(false, false, vec![]),
    );
    match result {
        Err(e) if e.contains("ffmpeg not found") => {}
        Err(e) => assert!(e.contains("not found"), "unexpected: {}", e),
        Ok(_) => panic!("expected error"),
    }
}

#[test]
fn test_mp4_no_mp4_files_err() {
    let result = run(
        &Mp4OptimizeArgs { input: "/tmp/ttk-test".to_string(), output_dir: None, quality: Quality::Web },
        &probe(true, false, vec![DirEntry { path: "/tmp/ttk-test/a.txt".to_string(), is_file: true }]),
    );
    match result {
        Err(e) if e.contains("ffmpeg not found") => {}
        Err(e) => assert!(e.contains("no MP4 files"), "unexpected: {}", e),
        Ok(_) => panic!("expected error"),
    }
}

#[test]
fn test_is_mp4() {
    assert!(is_mp4("clip.mp4"));
    assert!(is_mp4("CLIP.MP4"));
    assert!(!is_mp4("clip.avi"));
    assert!(!is_mp4("clip.mkv"));
}

#[test]
fn parse_is_case_sensitive_and_gives_exact_message() {
    assert_eq!(Quality::parse("HIGH").unwrap_err(), "invalid quality 'HIGH', use high|medium|low|web");
    assert_eq!(Quality::parse("").unwrap_err(), "invalid quality '', use high|medium|low|web");
}

#[test]
fn presets_table() {
    assert_eq!(Quality::Medium.max_w(), 1280);
    assert_eq!(Quality::Web.max_h(), 720);
    assert_eq!(Quality::High.max_h(), 1080);
    assert_eq!(Quality::Low.max_w(), 854);
    assert_eq!(Quality::High.video_bitrate(), "5000k");
    assert_eq!(Quality::Medium.video_bitrate(), "2500k");
    assert_eq!(Quality::Low.video_bitrate(), "1000k");
    assert_eq!(Quality::Medium.audio_bitrate(), "128k");
    assert_eq!(Quality::Web.audio_bitrate(), "128k");
    assert_eq!(Quality::Low.audio_bitrate(), "96k");
    assert_eq!(Quality::High.profile(), "high");
    assert_eq!(Quality::Web.profile(), "baseline");
    assert_eq!(Quality::Medium.profile(), "baseline");
    assert_eq!(Quality::Low.profile(), "baseline");
    assert_eq!(Quality::High.bufsize(), "10000k");
    assert_eq!(Quality::Web.bufsize(), "3000k");
    assert_eq!(Quality::Low.bufsize(), "2000k");
    assert_eq!(
        Quality::Low.scale_filter(),
        "scale='min(854,iw)':'min(480,ih)':force_original_aspect_ratio=decrease,fps=30"
    );
}

#[test]
fn missing_ffmpeg_comes_first() {
    let result = run(
        &Mp4OptimizeArgs { input: "x.mp4".to_string(), output_dir: None, quality: Quality::Web },
        &InputProbe { ffmpeg_found: false, exists: false, is_file: false, listing: Ok(vec![]) },
    );
    assert_eq!(result.err().unwrap(), "ffmpeg not found");
}

#[test]
fn single_file_conversion_arguments() {
    let result = run(
        &Mp4OptimizeArgs { input: "videos/clip.MP4".to_string(), output_dir: None, quality: Quality::High },
        &probe(true, true, vec![]),
    );
    match result {
        Ok(Plan::File(c)) => {
            assert_eq!(c.input, "videos/clip.MP4");
            assert_eq!(c.output, "videos/clip_optimized.mp4");
            let expected: Vec<&str> = vec![
                "-i", "videos/clip.MP4", "-c:v", "libx264", "-profile:v", "high", "-level:v", "3.0",
                "-crf", "18", "-maxrate", "5000k", "-bufsize", "10000k", "-vf",
                "scale='min(1920,iw)':'min(1080,ih)':force_original_aspect_ratio=decrease,fps=30",
                "-pix_fmt", "yuv420p", "-c:a", "aac", "-b:a", "192k", "-ac", "2", "-ar", "44100",
                "-movflags", "+faststart", "-preset", "slow", "-tune", "film", "-y",
                "videos/clip_optimized.mp4",
            ];
            assert_eq!(c.args, expected);
        }
        _ => panic!("expected a single conversion"),
    }
}

#[test]
fn single_file_without_parent_or_with_output_dir() {
    match run(
        &Mp4OptimizeArgs { input: "clip.mp4".to_string(), output_dir: None, quality: Quality::Web },
        &probe(true, true, vec![]),
    ) {
        Ok(Plan::File(c)) => assert_eq!(c.output, "clip_optimized.mp4"),
        _ => panic!("expected a single conversion"),
    }
    match run(
        &Mp4OptimizeArgs { input: "a/clip.mp4".to_string(), output_dir: Some("out/".to_string()), quality: Quality::Web },
        &probe(true, true, vec![]),
    ) {
        Ok(Plan::File(c)) => assert_eq!(c.output, "out/clip_optimized.mp4"),
        _ => panic!("expected a single conversion"),
    }
}

#[test]
fn single_non_mp4_file_is_refused() {
    let r = run(
        &Mp4OptimizeArgs { input: "a/clip.avi".to_string(), output_dir: None, quality: Quality::Web },
        &probe(true, true, vec![]),
    );
    assert_eq!(r.err().unwrap(), "no MP4 files found in a/clip.avi");
}

#[test]
fn directory_run_keeps_listing_order_and_regular_mp4_files() {
    let listing = vec![
        DirEntry { path: "v/b.mp4".to_string(), is_file: true },
        DirEntry { path: "v/sub.mp4".to_string(), is_file: false },
        DirEntry { path: "v/notes.txt".to_string(), is_file: true },
        DirEntry { path: "v/a.Mp4".to_string(), is_file: true },
    ];
    match run(
        &Mp4OptimizeArgs { input: "v".to_string(), output_dir: None, quality: Quality::Low },
        &probe(true, false, listing),
    ) {
        Ok(Plan::Dir(cs)) => {
            assert_eq!(cs.len(), 2);
            assert_eq!(cs[0].input, "v/b.mp4");
            assert_eq!(cs[0].output, "v/b_optimized.mp4");
            assert_eq!(cs[1].input, "v/a.Mp4");
            assert_eq!(cs[1].output, "v/a_optimized.mp4");
        }
        _ => panic!("expected directory conversions"),
    }
}

#[test]
fn unreadable_directory() {
    let r = run(
        &Mp4OptimizeArgs { input: "v".to_string(), output_dir: None, quality: Quality::Low },
        &InputProbe { ffmpeg_found: true, exists: true, is_file: false, listing: Err("denied".to_string()) },
    );
    assert_eq!(r.err().unwrap(), "read dir v: denied");
}

#[test]
fn directory_report() {
    assert_eq!(dir_run_report(2, 3), "2/3 files succeeded");
}
