use tl_cli::cli::Args;
use tl_cli::config::{apply_cli_overrides, load_config, merge_configs, AppConfig, DownloadConfig, HttpConfig, ProxyConfig};
use tl_cli::headers::Headers;

fn empty_file() -> AppConfig {
    // What a configuration file without any section gives.
    AppConfig { http: HttpConfig::default(), download: DownloadConfig::default(), proxy: ProxyConfig::default() }
}

#[test]
fn default_config_has_builtin_values() {
    let c = AppConfig::default();
    assert_eq!(c.http.user_agent, "tlcli/0.1.0");
    assert_eq!(c.http.headers.get("Accept"), Some("*/*".to_string()));
    assert_eq!(c.http.headers.get("Accept-Encoding"), Some("gzip, deflate".to_string()));
    assert_eq!(c.http.headers.len(), 2);
    assert!(!c.http.insecure);
    assert_eq!(c.http.timeout, 30);
    assert_eq!(c.http.bind_address, "");
    assert_eq!(c.download.threads, 64);
    assert_eq!(c.download.chunk_size_mb, 10);
    assert_eq!(c.download.max_retries, 3);
    assert_eq!(c.download.retry_delay_ms, 1000);
    assert_eq!(c.download.max_retry_delay_ms, 30000);
    assert_eq!(c.download.limit_rate, 0);
    assert!(c.download.resume);
    assert_eq!(c.download.output_dir, "");
    assert_eq!(c.proxy.url, "");
}

#[test]
fn missing_sections_hold_builtin_values() {
    let e = empty_file();
    assert_eq!(e.http.user_agent, "tlcli/0.1.0");
    assert_eq!(e.download.threads, 64);
    assert_eq!(e.download.chunk_size_mb, 10);
    assert_eq!(e.download.max_retries, 3);
    assert_eq!(e.http.timeout, 30);
    assert!(e.download.resume);
}

#[test]
fn merge_takes_what_the_file_sets() {
    let mut file = AppConfig::default();
    file.download.threads = 8;
    file.download.chunk_size_mb = 64;
    file.http.user_agent = "curl/8".to_string();
    file.http.headers.insert("Referer".to_string(), "https://e.com".to_string());
    file.proxy.url = "socks5://127.0.0.1:1080".to_string();
    file.download.resume = false;
    file.download.limit_rate = 500;
    let mut base = AppConfig::default();
    base.download.threads = 4;
    let m = merge_configs(base, file);
    assert_eq!(m.download.threads, 8);
    assert_eq!(m.download.chunk_size_mb, 64);
    assert_eq!(m.http.user_agent, "curl/8");
    assert_eq!(m.http.headers.get("Referer"), Some("https://e.com".to_string()));
    assert_eq!(m.http.headers.get("Accept"), Some("*/*".to_string()));
    assert_eq!(m.proxy.url, "socks5://127.0.0.1:1080");
    // A file's `resume: false` overrides the built-in `true`.
    assert!(!m.download.resume);
    assert_eq!(m.download.limit_rate, 500);
}

#[test]
fn merge_keeps_base_where_file_has_builtin_values() {
    let mut base = AppConfig::default();
    base.download.threads = 4;
    base.http.timeout = 90;
    base.proxy.url = "http://proxy:8080".to_string();
    base.download.limit_rate = 5;
    base.http.bind_address = "10.0.0.1".to_string();
    base.download.output_dir = "/data".to_string();
    base.http.user_agent = "mine/1".to_string();
    base.http.headers.insert("Accept".to_string(), "text/html".to_string());
    let m = merge_configs(base, AppConfig::default());
    assert_eq!(m.download.threads, 4);
    assert_eq!(m.http.timeout, 90);
    assert_eq!(m.proxy.url, "http://proxy:8080");
    assert_eq!(m.download.limit_rate, 5);
    assert_eq!(m.http.bind_address, "10.0.0.1");
    assert_eq!(m.download.output_dir, "/data");
    assert_eq!(m.http.user_agent, "mine/1");
    assert_eq!(m.http.headers.get("Accept"), Some("text/html".to_string()));
}

#[test]
fn file_with_empty_user_agent_sets_it_empty() {
    let mut base = AppConfig::default();
    base.http.user_agent = "mine/1".to_string();
    let mut file = AppConfig::default();
    file.http.user_agent = String::new();
    let m = merge_configs(base, file);
    assert_eq!(m.http.user_agent, "");
}

#[test]
fn merge_with_itself_changes_nothing() {
    let mut c = AppConfig::default();
    c.download.threads = 12;
    c.http.bind_address = "10.0.0.1".to_string();
    let m = merge_configs(c.clone(), c.clone());
    assert_eq!(m.download.threads, 12);
    assert_eq!(m.http.bind_address, "10.0.0.1");
    assert_eq!(m.http.headers.len(), 2);
}

#[test]
fn file_with_only_a_proxy_keeps_builtin_values() {
    let mut f = empty_file();
    f.proxy.url = "http://127.0.0.1:8080".to_string();
    let c = load_config(vec![f]);
    assert_eq!(c.proxy.url, "http://127.0.0.1:8080");
    assert_eq!(c.download.threads, 64);
    assert_eq!(c.download.chunk_size_mb, 10);
    assert_eq!(c.download.max_retries, 3);
    assert_eq!(c.http.timeout, 30);
    assert_eq!(c.http.user_agent, "tlcli/0.1.0");
}

#[test]
fn load_config_prefers_the_higher_priority_file() {
    assert_eq!(load_config(vec![]).download.threads, 64);
    let mut home = AppConfig::default();
    home.download.threads = 8;
    let mut cwd = AppConfig::default();
    cwd.download.threads = 16;
    cwd.download.max_retries = 5;
    // Highest priority first: the home file, then ./tlcli.yaml.
    let c = load_config(vec![home, cwd]);
    assert_eq!(c.download.threads, 8);
    assert_eq!(c.download.max_retries, 5);
}

#[test]
fn cli_flags_override_config() {
    let mut cfg = AppConfig::default();
    cfg.download.threads = 8;
    cfg.proxy.url = "http://from-config".to_string();
    let mut a = Args::default();
    a.threads = Some(4);
    a.user_agent = Some("curl/8".to_string());
    a.headers = vec!["Referer: https://example.com".to_string(), "Cookie :token=xxx ".to_string(), "bad".to_string()];
    a.proxy = Some("socks5://127.0.0.1:1080".to_string());
    a.no_resume = true;
    a.directory_prefix = Some("./downloads".to_string());
    a.limit_rate = Some(1048576);
    a.retries = Some(0);
    a.insecure = true;
    a.timeout = Some(5);
    a.bind_address = Some("192.168.1.2".to_string());
    let m = apply_cli_overrides(cfg, &a);
    assert_eq!(m.threads, 4);
    assert_eq!(m.user_agent, "curl/8");
    assert_eq!(m.headers.get("Referer"), Some("https://example.com".to_string()));
    assert_eq!(m.headers.get("Cookie"), Some("token=xxx".to_string()));
    assert_eq!(m.headers.get("bad"), None);
    assert_eq!(m.headers.len(), 4);
    assert_eq!(m.proxy_url, "socks5://127.0.0.1:1080");
    assert!(!m.resume);
    assert_eq!(m.output_dir, "./downloads");
    assert_eq!(m.limit_rate, 1048576);
    assert_eq!(m.max_retries, 0);
    assert_eq!(m.chunk_size_mb, 10);
    assert!(m.insecure);
    assert_eq!(m.timeout, 5);
    assert_eq!(m.bind_address, "192.168.1.2");
}

#[test]
fn cli_defaults_keep_config() {
    let mut cfg = AppConfig::default();
    cfg.download.threads = 8;
    cfg.download.chunk_size_mb = 20;
    cfg.http.user_agent = "from-config".to_string();
    cfg.download.output_dir = "/tmp/out".to_string();
    cfg.http.timeout = 60;
    let m = apply_cli_overrides(cfg, &Args::default());
    assert_eq!(m.threads, 8);
    assert_eq!(m.chunk_size_mb, 20);
    assert_eq!(m.user_agent, "from-config");
    assert_eq!(m.output_dir, "/tmp/out");
    assert_eq!(m.timeout, 60);
    assert!(!m.insecure);
    assert_eq!(m.bind_address, "");
    assert!(m.resume);
}

#[test]
fn a_given_flag_wins_even_at_its_default() {
    let mut cfg = AppConfig::default();
    cfg.download.threads = 8;
    let mut a = Args::default();
    a.threads = Some(64);
    assert_eq!(apply_cli_overrides(cfg, &a).threads, 64);
}

#[test]
fn headers_map_insert_and_get() {
    let mut h = Headers::new();
    assert_eq!(h.len(), 0);
    h.insert("A".to_string(), "1".to_string());
    h.insert("B".to_string(), "2".to_string());
    h.insert("A".to_string(), "3".to_string());
    assert_eq!(h.len(), 2);
    assert_eq!(h.get("A"), Some("3".to_string()));
    assert_eq!(h.get("b"), None);
    let mut other = Headers::new();
    other.insert("B".to_string(), "9".to_string());
    other.insert("C".to_string(), "4".to_string());
    h.extend_from(&other);
    assert_eq!(h.pairs(), vec![("A".to_string(), "3".to_string()), ("B".to_string(), "9".to_string()), ("C".to_string(), "4".to_string())]);
    let c = h.clone();
    assert_eq!(c.pairs(), h.pairs());
}
