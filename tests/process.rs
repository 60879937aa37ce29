use vidflow::process::{
    build_downloader_args, build_metadata_args, build_probe_args, cookie_file_name, decimal_text,
    downloader_outdated,
    fragment_files, integrity_verdict, same_text, Guardrails,
};
use vidflow::task::percent;

const TEMPLATE: &str =
    "%(progress.downloaded_bytes)s|%(progress.total_bytes)s|%(progress.speed)s|%(progress.eta)s";

#[test]
fn downloader_args_with_format() {
    let args = build_downloader_args("https://example/video", &None, &None, &Some("137".to_string()));
    assert_eq!(
        args,
        vec![
            "--newline", "--no-warnings", "-N", "8", "--progress-template", TEMPLATE,
            "--add-metadata", "--embed-thumbnail", "-f", "137+bestaudio/best",
            "--merge-output-format", "mp4/mkv", "https://example/video",
        ]
    );
}

#[test]
fn downloader_args_audio_with_cookies_and_dir() {
    let args = build_downloader_args(
        "https://example/song",
        &Some("/tmp/vidflow_cookies_x.txt".to_string()),
        &Some("/music".to_string()),
        &Some("audio".to_string()),
    );
    assert_eq!(
        args,
        vec![
            "--newline", "--no-warnings", "-N", "8", "--progress-template", TEMPLATE,
            "--cookies", "/tmp/vidflow_cookies_x.txt", "--add-metadata", "--embed-thumbnail",
            "-P", "/music", "-x", "--audio-format", "mp3", "https://example/song",
        ]
    );
}

#[test]
fn downloader_args_without_format() {
    let args = build_downloader_args("u", &None, &None, &None);
    assert_eq!(args.len(), 9);
    assert_eq!(args[8], "u");
}

#[test]
fn metadata_and_probe_args() {
    assert_eq!(
        build_metadata_args("https://example/list"),
        vec!["-J", "--flat-playlist", "--no-warnings", "--playlist-end", "100", "https://example/list"]
    );
    assert_eq!(
        build_probe_args("/tmp/out.mkv"),
        vec!["-v", "error", "-show_format", "-show_streams", "/tmp/out.mkv"]
    );
}

#[test]
fn task_file_names() {
    assert_eq!(cookie_file_name("abc"), "vidflow_cookies_abc.txt");
    assert_eq!(fragment_files("/tmp/o.mp4"), vec!["/tmp/o.mp4.part", "/tmp/o.mp4.ytdl"]);
}

#[test]
fn decimal_text_values() {
    assert_eq!(decimal_text(0), "0");
    assert_eq!(decimal_text(8), "8");
    assert_eq!(decimal_text(100), "100");
    assert_eq!(decimal_text(u64::MAX), u64::MAX.to_string());
}

#[test]
fn same_text_compares() {
    assert!(same_text("audio", "audio"));
    assert!(!same_text("audio", "audi"));
    assert!(!same_text("audio", "Audio"));
}

#[test]
fn integrity_verdicts() {
    assert_eq!(integrity_verdict(true, 10, true, ""), Ok(()));
    assert_eq!(integrity_verdict(false, 10, true, ""), Err("Output file does not exist".to_string()));
    assert_eq!(integrity_verdict(true, 0, true, ""), Err("Output file is empty".to_string()));
    assert_eq!(
        integrity_verdict(true, 10, false, "moov atom not found"),
        Err("Corrupt media container detected: moov atom not found".to_string())
    );
    assert_eq!(
        integrity_verdict(true, 10, true, "warning"),
        Err("Corrupt media container detected: warning".to_string())
    );
}

#[test]
fn integrity_message_is_truncated() {
    let long = "x".repeat(5000);
    let msg = integrity_verdict(true, 1, false, &long).unwrap_err();
    assert_eq!(msg.len(), "Corrupt media container detected: ".len() + 1024);
}

#[test]
fn percent_values() {
    assert_eq!(percent(1000, 10000), 1000);
    assert_eq!(percent(5000, 10000), 5000);
    assert_eq!(percent(1, 3), 3333);
    assert_eq!(percent(7, 0), 0);
    assert_eq!(percent(20, 10), 10000);
    assert_eq!(percent(u64::MAX - 1, u64::MAX), 9999);
}

#[test]
fn guardrail_values() {
    let g = Guardrails::system();
    assert_eq!(g.max_concurrent_downloads, 2);
    assert_eq!(g.max_playlist_items, 100);
    assert_eq!(g.default_fragments, 8);
    assert_eq!(g.ipc_version, 1);
}

#[test]
fn downloader_version_check() {
    assert!(downloader_outdated("2022.12.31"));
    assert!(downloader_outdated("2023.01"));
    assert!(downloader_outdated(""));
    assert!(!downloader_outdated("2023.01.01"));
    assert!(!downloader_outdated("2024.03.10"));
    assert!(!downloader_outdated("2023.01.01.1"));
}
