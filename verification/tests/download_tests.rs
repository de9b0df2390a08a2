use tl_cli::callback::{clear_sender, register_sender, SenderSlot};
use tl_cli::config::{apply_cli_overrides, AppConfig};
use tl_cli::cli::Args;
use tl_cli::download::{
    build_tasks, download_outcome, engine_settings, filename_from, infer_filename, join_path, plan_run, rand_u16,
    rename_plan, uuid_v4, ActiveFiles,
};

#[test]
fn infer_filename_from_url_path() {
    assert_eq!(infer_filename("https://example.com/file.zip"), "file.zip");
    assert_eq!(infer_filename("https://example.com/dir/data.csv?x=1#top"), "data.csv");
    assert_eq!(infer_filename("https://example.com/"), "index.html");
    assert_eq!(infer_filename("https://example.com"), "example.com");
    assert_eq!(infer_filename("https://example.com/a/b/"), "index.html");
    assert_eq!(infer_filename("https://example.com/countries/vi%E1%BB%87t"), "vi%E1%BB%87t");
}

#[test]
fn infer_filename_fallback_for_non_urls() {
    assert_eq!(infer_filename("some/local/path.bin"), "path.bin");
    assert_eq!(infer_filename("plainname"), "plainname");
    assert_eq!(infer_filename("dir/what?x"), "index.html");
    assert_eq!(infer_filename("dir/frag#x"), "index.html");
    assert_eq!(infer_filename(""), "index.html");
}

#[test]
fn filename_from_given_path() {
    // A parsed path is used when its last segment is not empty.
    assert_eq!(filename_from("ignored", Some("/a/b.iso".to_string())), "b.iso");
    // A path not starting with `/` (cannot-be-a-base) is not used.
    assert_eq!(filename_from("mailto:x", Some("x".to_string())), "mailto:x");
    assert_eq!(filename_from("a/b", None), "b");
}

#[test]
fn join_path_adds_one_separator() {
    assert_eq!(join_path("./downloads", "f.zip"), "./downloads/f.zip");
    assert_eq!(join_path("/tmp/", "f.zip"), "/tmp/f.zip");
    assert_eq!(std::path::Path::new("./downloads").join("f.zip").to_string_lossy(), join_path("./downloads", "f.zip"));
}

fn urls(v: &[&str]) -> Vec<String> {
    v.iter().map(|s| s.to_string()).collect()
}

#[test]
fn build_tasks_single_output_file() {
    let t = build_tasks(&urls(&["https://e.com/file.zip"]), Some("my.zip"), "", true);
    assert_eq!(t.len(), 1);
    assert_eq!(t[0].url, "https://e.com/file.zip");
    assert_eq!(t[0].save_path.as_deref(), Some("my.zip.part"));
    assert_eq!(t[0].show_name, "my.zip");
    assert!(t[0].stale_part.is_none());
    let t = build_tasks(&urls(&["https://e.com/file.zip"]), Some("my.zip"), "", false);
    assert_eq!(t[0].save_path.as_deref(), Some("my.zip"));
}

#[test]
fn build_tasks_stdout_and_directory() {
    // `-O -` streams to standard output: no file, no partial file.
    let t = build_tasks(&urls(&["https://e.com/data.csv"]), Some("-"), "dl", true);
    assert_eq!(t[0].save_path, None);
    assert_eq!(t[0].show_name, "data.csv");
    assert!(t[0].stale_part.is_none());
    let t = build_tasks(&urls(&["https://a.com/1.zip", "https://b.com/2.zip"]), Some("x"), "dl", true);
    assert_eq!(t.len(), 2);
    assert_eq!(t[0].save_path.as_deref(), Some("dl/1.zip.part"));
    assert_eq!(t[1].show_name, "dl/2.zip");
    let t = build_tasks(&urls(&["https://a.com/1.zip"]), None, "", false);
    assert_eq!(t[0].save_path.as_deref(), Some("1.zip"));
    assert_eq!(t[0].stale_part.as_deref(), Some("1.zip.part"));
}

#[test]
fn rename_plan_matches_tasks() {
    let u = urls(&["https://a.com/1.zip"]);
    let t = build_tasks(&u, None, "dl", true);
    let r = rename_plan(&t);
    assert_eq!(r[0], Some(("dl/1.zip.part".to_string(), "dl/1.zip".to_string())));
    let t = build_tasks(&u, Some("-"), "dl", true);
    assert_eq!(rename_plan(&t)[0], None);
    let t = build_tasks(&u, Some("out.bin"), "", true);
    assert_eq!(rename_plan(&t)[0], Some(("out.bin.part".to_string(), "out.bin".to_string())));
    let t = build_tasks(&u, Some("out.bin"), "", false);
    assert_eq!(rename_plan(&t)[0], None);
}

#[test]
fn rename_plan_with_several_urls_and_output() {
    // With several URLs `-O` does not apply: each partial file is renamed to
    // its own shown name.
    let u = urls(&["https://a.com/1.zip", "https://b.com/2.zip"]);
    let t = build_tasks(&u, Some("o"), "", true);
    let r = rename_plan(&t);
    assert_eq!(r[0], Some(("1.zip.part".to_string(), "1.zip".to_string())));
    assert_eq!(r[1], Some(("2.zip.part".to_string(), "2.zip".to_string())));
}

#[test]
fn plan_run_rejects_empty_url_list() {
    let cfg = apply_cli_overrides(AppConfig::default(), &Args::default());
    let e = plan_run(&vec![], &cfg, None, false).unwrap_err();
    assert_eq!(e, "no URLs to download");
    // Streaming to standard output keeps the progress display on stderr.
    let p = plan_run(&urls(&["https://e.com/a"]), &cfg, Some("-"), false).unwrap();
    assert!(p.is_stdout);
    assert!(p.show_progress);
    assert_eq!(p.tasks.len(), 1);
    assert_eq!(p.tasks[0].save_path, None);
    let p = plan_run(&urls(&["https://e.com/a"]), &cfg, None, true).unwrap();
    assert!(!p.is_stdout);
    assert!(!p.show_progress);
}

#[test]
fn engine_settings_fallbacks() {
    let mut a = Args::default();
    a.retries = Some(0);
    a.user_agent = Some(String::new());
    let cfg = apply_cli_overrides(AppConfig::default(), &a);
    let e = engine_settings(&cfg);
    assert_eq!(e.max_retries, usize::MAX);
    assert!(e.user_agent.contains("Chrome/131.0.0.0"));
    assert!(e.proxy_url.is_none());
    assert_eq!(e.thread_count, 64);
    let mut a = Args::default();
    a.proxy = Some("http://p:1".to_string());
    let e = engine_settings(&apply_cli_overrides(AppConfig::default(), &a));
    assert_eq!(e.proxy_url.as_deref(), Some("http://p:1"));
    assert_eq!(e.max_retries, 3);
    assert_eq!(e.user_agent, "tlcli/0.1.0");
}

#[test]
fn outcome_of_a_run() {
    assert_eq!(download_outcome(Ok(())), Ok(()));
    assert_eq!(download_outcome(Err("timeout".to_string())), Err("download failed: timeout".to_string()));
}

#[test]
fn active_files_messages() {
    let mut a = ActiveFiles::new();
    assert_eq!(a.start_one("a.zip".to_string()), "a.zip");
    assert_eq!(a.start_one("b.zip".to_string()), "[2] a.zip, b.zip");
    assert_eq!(a.start_one("a.zip".to_string()), "[2] a.zip, b.zip");
    assert_eq!(a.len(), 2);
    assert_eq!(a.end_one("a.zip"), "[1] b.zip");
    assert_eq!(a.end_one("b.zip"), "finishing...");
    assert_eq!(a.end_one("c.zip"), "finishing...");
    assert_eq!(a.len(), 0);
}

#[test]
fn start_then_end_restores_active_files() {
    let mut a = ActiveFiles::new();
    a.start_one("x".to_string());
    a.start_one("y".to_string());
    a.end_one("y");
    assert_eq!(a.len(), 1);
    assert_eq!(a.start_one("z".to_string()), "[2] x, z");
}

#[test]
fn task_identifiers() {
    assert_eq!(rand_u16(65535), 0);
    assert_eq!(rand_u16(70000), 4465);
    assert_eq!(uuid_v4(0x1f, 0xab), "000000000000001f-00ab");
    assert_eq!(uuid_v4(1700000000123456789, 42), format!("{:016x}-{:04x}", 1700000000123456789u128, 42u16));
}

#[test]
fn sender_slot_returns_previous_sender() {
    let mut slot: SenderSlot<u32> = SenderSlot::new();
    assert_eq!(register_sender(&mut slot, 1), None);
    assert_eq!(register_sender(&mut slot, 2), Some(1));
    assert_eq!(slot.current(), Some(&2));
    clear_sender(&mut slot);
    assert_eq!(slot.current(), None);
    assert_eq!(register_sender(&mut slot, 3), None);
}
