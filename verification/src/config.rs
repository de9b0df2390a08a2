//! Configuration: built-in defaults, merging of configuration files, and the
//! command-line overrides that produce the final settings.
use vstd::prelude::*;

use crate::cli::Args;
use crate::headers::{distinct_names, lemma_pairs_map_dom, pairs_map, Headers};
use crate::text::{split_once, split_once_spec, str_eq, string_of, trim, trim_spec};

verus! {

/// User-facing configuration file structure: the `http` section.
#[derive(Debug, Clone)]
pub struct HttpConfig {
    pub user_agent: String,
    pub headers: Headers,
    pub insecure: bool,
    pub timeout: u64,
    pub bind_address: String,
}

/// The `download` section of the configuration file.
#[derive(Debug, Clone)]
pub struct DownloadConfig {
    pub threads: usize,
    pub chunk_size_mb: usize,
    pub max_retries: usize,
    pub retry_delay_ms: u64,
    pub max_retry_delay_ms: u64,
    pub limit_rate: u64,
    pub resume: bool,
    pub output_dir: String,
}

/// The `proxy` section of the configuration file.
#[derive(Debug, Clone)]
pub struct ProxyConfig {
    pub url: String,
}

/// User-facing configuration file structure.
#[derive(Debug, Clone)]
pub struct AppConfig {
    pub http: HttpConfig,
    pub download: DownloadConfig,
    pub proxy: ProxyConfig,
}

/// Final merged settings handed to the download engine.
#[derive(Debug, Clone)]
pub struct MergedConfig {
    pub user_agent: String,
    pub headers: Headers,
    pub insecure: bool,
    pub timeout: u64,
    pub bind_address: String,
    pub threads: usize,
    pub chunk_size_mb: usize,
    pub max_retries: usize,
    pub retry_delay_ms: u64,
    pub max_retry_delay_ms: u64,
    pub limit_rate: u64,
    pub resume: bool,
    pub output_dir: String,
    pub proxy_url: String,
}

/// The mathematical content of an `AppConfig`.
pub struct ConfigModel {
    pub user_agent: Seq<char>,
    pub headers: Map<Seq<char>, Seq<char>>,
    pub insecure: bool,
    pub timeout: u64,
    pub bind_address: Seq<char>,
    pub threads: usize,
    pub chunk_size_mb: usize,
    pub max_retries: usize,
    pub retry_delay_ms: u64,
    pub max_retry_delay_ms: u64,
    pub limit_rate: u64,
    pub resume: bool,
    pub output_dir: Seq<char>,
    pub proxy_url: Seq<char>,
}

/// The mathematical content of a `MergedConfig`.
pub struct MergedModel {
    pub user_agent: Seq<char>,
    pub headers: Map<Seq<char>, Seq<char>>,
    pub insecure: bool,
    pub timeout: u64,
    pub bind_address: Seq<char>,
    pub threads: usize,
    pub chunk_size_mb: usize,
    pub max_retries: usize,
    pub retry_delay_ms: u64,
    pub max_retry_delay_ms: u64,
    pub limit_rate: u64,
    pub resume: bool,
    pub output_dir: Seq<char>,
    pub proxy_url: Seq<char>,
}

impl View for AppConfig {
    type V = ConfigModel;

    open spec fn view(&self) -> ConfigModel {
        ConfigModel {
            user_agent: self.http.user_agent@,
            headers: self.http.headers@,
            insecure: self.http.insecure,
            timeout: self.http.timeout,
            bind_address: self.http.bind_address@,
            threads: self.download.threads,
            chunk_size_mb: self.download.chunk_size_mb,
            max_retries: self.download.max_retries,
            retry_delay_ms: self.download.retry_delay_ms,
            max_retry_delay_ms: self.download.max_retry_delay_ms,
            limit_rate: self.download.limit_rate,
            resume: self.download.resume,
            output_dir: self.download.output_dir@,
            proxy_url: self.proxy.url@,
        }
    }
}

impl View for MergedConfig {
    type V = MergedModel;

    open spec fn view(&self) -> MergedModel {
        MergedModel {
            user_agent: self.user_agent@,
            headers: self.headers@,
            insecure: self.insecure,
            timeout: self.timeout,
            bind_address: self.bind_address@,
            threads: self.threads,
            chunk_size_mb: self.chunk_size_mb,
            max_retries: self.max_retries,
            retry_delay_ms: self.retry_delay_ms,
            max_retry_delay_ms: self.max_retry_delay_ms,
            limit_rate: self.limit_rate,
            resume: self.resume,
            output_dir: self.output_dir@,
            proxy_url: self.proxy_url@,
        }
    }
}

// ---------------------------------------------------------------------------
// Built-in defaults

/// The built-in User-Agent.
pub open spec fn builtin_user_agent() -> Seq<char> {
    "tlcli/0.1.0"@
}

fn default_user_agent() -> (s: String)
    ensures
        s@ == builtin_user_agent(),
{
    string_of("tlcli/0.1.0")
}

fn default_timeout() -> (r: u64)
    ensures
        r == 30,
{
    30
}

fn default_threads() -> (r: usize)
    ensures
        r == 64,
{
    64
}

fn default_chunk_size() -> (r: usize)
    ensures
        r == 10,
{
    10
}

fn default_max_retries() -> (r: usize)
    ensures
        r == 3,
{
    3
}

fn default_retry_delay() -> (r: u64)
    ensures
        r == 1000,
{
    1000
}

fn default_max_retry_delay() -> (r: u64)
    ensures
        r == 30000,
{
    30000
}

fn default_resume() -> (r: bool)
    ensures
        r,
{
    true
}

/// The built-in headers.
pub open spec fn builtin_headers() -> Map<Seq<char>, Seq<char>> {
    Map::empty().insert("Accept"@, "*/*"@).insert("Accept-Encoding"@, "gzip, deflate"@)
}

/// The configuration used when no file is found.
pub open spec fn default_model() -> ConfigModel {
    ConfigModel {
        user_agent: builtin_user_agent(),
        headers: builtin_headers(),
        insecure: false,
        timeout: 30,
        bind_address: Seq::empty(),
        threads: 64,
        chunk_size_mb: 10,
        max_retries: 3,
        retry_delay_ms: 1000,
        max_retry_delay_ms: 30000,
        limit_rate: 0,
        resume: true,
        output_dir: Seq::empty(),
        proxy_url: Seq::empty(),
    }
}

fn builtin_header_map() -> (h: Headers)
    ensures
        h@ == builtin_headers(),
{
    let mut h = Headers::new();
    h.insert(string_of("Accept"), string_of("*/*"));
    h.insert(string_of("Accept-Encoding"), string_of("gzip, deflate"));
    h
}

impl Default for HttpConfig {
    /// An `http` section holding the built-in values (what a missing section
    /// gives).
    fn default() -> (c: HttpConfig)
        ensures
            c.user_agent@ == builtin_user_agent(),
            c.headers@ == builtin_headers(),
            !c.insecure,
            c.timeout == 30,
            c.bind_address@ == Seq::<char>::empty(),
    {
        HttpConfig {
            user_agent: default_user_agent(),
            headers: builtin_header_map(),
            insecure: false,
            timeout: default_timeout(),
            bind_address: String::new(),
        }
    }
}

impl Default for DownloadConfig {
    /// A `download` section holding the built-in values (what a missing
    /// section gives).
    fn default() -> (c: DownloadConfig)
        ensures
            c.threads == 64,
            c.chunk_size_mb == 10,
            c.max_retries == 3,
            c.retry_delay_ms == 1000,
            c.max_retry_delay_ms == 30000,
            c.limit_rate == 0,
            c.resume,
            c.output_dir@ == Seq::<char>::empty(),
    {
        DownloadConfig {
            threads: default_threads(),
            chunk_size_mb: default_chunk_size(),
            max_retries: default_max_retries(),
            retry_delay_ms: default_retry_delay(),
            max_retry_delay_ms: default_max_retry_delay(),
            limit_rate: 0,
            resume: default_resume(),
            output_dir: String::new(),
        }
    }
}

impl Default for ProxyConfig {
    /// A `proxy` section with an empty URL.
    fn default() -> (c: ProxyConfig)
        ensures
            c.url@ == Seq::<char>::empty(),
    {
        ProxyConfig { url: String::new() }
    }
}

impl Default for AppConfig {
    /// The built-in configuration.
    fn default() -> (c: AppConfig)
        ensures
            c@ == default_model(),
    {
        AppConfig {
            http: HttpConfig::default(),
            download: DownloadConfig::default(),
            proxy: ProxyConfig::default(),
        }
    }
}

// ---------------------------------------------------------------------------
// Merging configuration files

/// A setting that can be compared with the built-in default.
pub trait SettingValue: Sized {
    /// The two values are the same setting.
    spec fn same_setting(&self, other: &Self) -> bool;

    /// Executable `same_setting`.
    fn same(&self, other: &Self) -> (r: bool)
        ensures
            r == self.same_setting(other),
    ;
}

impl SettingValue for u64 {
    open spec fn same_setting(&self, other: &Self) -> bool {
        *self == *other
    }

    fn same(&self, other: &Self) -> (r: bool) {
        *self == *other
    }
}

impl SettingValue for usize {
    open spec fn same_setting(&self, other: &Self) -> bool {
        *self == *other
    }

    fn same(&self, other: &Self) -> (r: bool) {
        *self == *other
    }
}

impl SettingValue for bool {
    open spec fn same_setting(&self, other: &Self) -> bool {
        *self == *other
    }

    fn same(&self, other: &Self) -> (r: bool) {
        *self == *other
    }
}

impl SettingValue for String {
    open spec fn same_setting(&self, other: &Self) -> bool {
        self@ == other@
    }

    fn same(&self, other: &Self) -> (r: bool) {
        *self == *other
    }
}

/// `val`, unless it equals the built-in default, in which case `default`.
fn pick<T: SettingValue>(val: T, default: T, builtin: T) -> (r: T)
    ensures
        r == if val.same_setting(&builtin) {
            default
        } else {
            val
        },
{
    if val.same(&builtin) {
        default
    } else {
        val
    }
}

/// `val`, unless it equals the built-in default, in which case `default`.
pub open spec fn pick_spec<T>(val: T, default: T, builtin: T) -> T {
    if val == builtin {
        default
    } else {
        val
    }
}

/// The headers of a file that set something: those that are not a built-in
/// header with its built-in value.
pub open spec fn file_headers(m: Map<Seq<char>, Seq<char>>) -> Map<Seq<char>, Seq<char>> {
    Map::new(
        |k: Seq<char>|
            m.dom().contains(k) && !(builtin_headers().dom().contains(k) && builtin_headers()[k]
                == m[k]),
        |k: Seq<char>| m[k],
    )
}

/// The configuration obtained by laying the file `over` on top of `base`.
///
/// A value of the file wins when it differs from the built-in default (for the
/// bind address, output directory and proxy the built-in default is empty);
/// `insecure` wins when set, and each header of the file that is not a
/// built-in header with its built-in value is laid over those of `base`.
/// Everything else keeps the value of `base`.
pub open spec fn merge_spec(base: ConfigModel, over: ConfigModel) -> ConfigModel {
    ConfigModel {
        user_agent: pick_spec(over.user_agent, base.user_agent, builtin_user_agent()),
        headers: base.headers.union_prefer_right(file_headers(over.headers)),
        insecure: over.insecure || base.insecure,
        timeout: pick_spec(over.timeout, base.timeout, 30u64),
        bind_address: pick_spec(over.bind_address, base.bind_address, Seq::empty()),
        threads: pick_spec(over.threads, base.threads, 64usize),
        chunk_size_mb: pick_spec(over.chunk_size_mb, base.chunk_size_mb, 10usize),
        max_retries: pick_spec(over.max_retries, base.max_retries, 3usize),
        retry_delay_ms: pick_spec(over.retry_delay_ms, base.retry_delay_ms, 1000u64),
        max_retry_delay_ms: pick_spec(over.max_retry_delay_ms, base.max_retry_delay_ms, 30000u64),
        limit_rate: pick_spec(over.limit_rate, base.limit_rate, 0u64),
        resume: pick_spec(over.resume, base.resume, true),
        output_dir: pick_spec(over.output_dir, base.output_dir, Seq::empty()),
        proxy_url: pick_spec(over.proxy_url, base.proxy_url, Seq::empty()),
    }
}

/// Whether `(name, value)` is a built-in header with its built-in value.
fn is_builtin_header(name: &str, value: &str) -> (r: bool)
    ensures
        r == (builtin_headers().dom().contains(name@) && builtin_headers()[name@] == value@),
{
    proof {
        reveal_strlit("Accept");
        reveal_strlit("Accept-Encoding");
        assert("Accept"@.len() == 6);
        assert("Accept-Encoding"@.len() == 15);
        assert("Accept"@ != "Accept-Encoding"@);
    }
    (str_eq(name, "Accept") && str_eq(value, "*/*")) || (str_eq(name, "Accept-Encoding") && str_eq(
        value,
        "gzip, deflate",
    ))
}

/// Lays the headers of a file on `headers` (see `file_headers`).
fn lay_headers(headers: &mut Headers, over: &Headers)
    ensures
        final(headers)@ == old(headers)@.union_prefer_right(file_headers(over@)),
{
    let ps = over.pairs();
    let mut i: usize = 0;
    while i < ps.len()
        invariant
            0 <= i <= ps.len(),
            pairs_map(ps@) == over@,
            distinct_names(ps@),
            headers@ == old(headers)@.union_prefer_right(
                file_headers(pairs_map(ps@.take(i as int))),
            ),
        decreases ps.len() - i,
    {
        let ghost prefix = pairs_map(ps@.take(i as int));
        proof {
            let t = ps@.take(i + 1);
            assert(t.drop_last() == ps@.take(i as int));
            lemma_pairs_map_dom(ps@.take(i as int), ps@[i as int].0@);
            if prefix.dom().contains(ps@[i as int].0@) {
                let j = choose|j: int|
                    0 <= j < ps@.take(i as int).len() && ps@.take(i as int)[j].0@ == ps@[i as int].0@;
                assert(ps@[j].0@ == ps@[i as int].0@);
            }
        }
        if !is_builtin_header(ps[i].0.as_str(), ps[i].1.as_str()) {
            headers.insert(ps[i].0.clone(), ps[i].1.clone());
            proof {
                let t = ps@.take(i + 1);
                assert(file_headers(pairs_map(t)) =~= file_headers(prefix).insert(
                    ps@[i as int].0@,
                    ps@[i as int].1@,
                ));
                assert(headers@ =~= old(headers)@.union_prefer_right(file_headers(pairs_map(t))));
            }
        } else {
            proof {
                let t = ps@.take(i + 1);
                assert(file_headers(pairs_map(t)) =~= file_headers(prefix));
            }
        }
        i = i + 1;
    }
    assert(ps@.take(ps.len() as int) =~= ps@);
}

/// A text setting of a file: `val` unless it equals `builtin`.
fn pick_string(val: String, default: String, builtin: &str) -> (r: String)
    ensures
        r@ == pick_spec(val@, default@, builtin@),
{
    if str_eq(val.as_str(), builtin) {
        default
    } else {
        val
    }
}

/// Lays the file `override_cfg` on top of `base` (see `merge_spec`).
pub fn merge_configs(base: AppConfig, override_cfg: AppConfig) -> (r: AppConfig)
    ensures
        r@ == merge_spec(base@, override_cfg@),
{
    let mut headers = base.http.headers;
    lay_headers(&mut headers, &override_cfg.http.headers);
    let builtin_ua = default_user_agent();
    proof {
        reveal_strlit("");
        assert(""@ =~= Seq::<char>::empty());
    }
    AppConfig {
        http: HttpConfig {
            user_agent: pick_string(
                override_cfg.http.user_agent,
                base.http.user_agent,
                builtin_ua.as_str(),
            ),
            headers,
            insecure: override_cfg.http.insecure || base.http.insecure,
            timeout: pick(override_cfg.http.timeout, base.http.timeout, default_timeout()),
            bind_address: pick_string(override_cfg.http.bind_address, base.http.bind_address, ""),
        },
        download: DownloadConfig {
            threads: pick(override_cfg.download.threads, base.download.threads, default_threads()),
            chunk_size_mb: pick(
                override_cfg.download.chunk_size_mb,
                base.download.chunk_size_mb,
                default_chunk_size(),
            ),
            max_retries: pick(
                override_cfg.download.max_retries,
                base.download.max_retries,
                default_max_retries(),
            ),
            retry_delay_ms: pick(
                override_cfg.download.retry_delay_ms,
                base.download.retry_delay_ms,
                default_retry_delay(),
            ),
            max_retry_delay_ms: pick(
                override_cfg.download.max_retry_delay_ms,
                base.download.max_retry_delay_ms,
                default_max_retry_delay(),
            ),
            limit_rate: pick(override_cfg.download.limit_rate, base.download.limit_rate, 0u64),
            resume: pick(override_cfg.download.resume, base.download.resume, default_resume()),
            output_dir: pick_string(override_cfg.download.output_dir, base.download.output_dir, ""),
        },
        proxy: ProxyConfig { url: pick_string(override_cfg.proxy.url, base.proxy.url, "") },
    }
}

/// The configuration obtained from `files`, given highest priority first: each
/// file is laid on top of the built-in configuration and of every file of lower
/// priority, so that a higher-priority file wins.
pub open spec fn merge_by_priority(base: ConfigModel, files: Seq<AppConfig>) -> ConfigModel
    decreases files.len(),
{
    if files.len() == 0 {
        base
    } else {
        merge_spec(merge_by_priority(base, files.drop_first()), files[0]@)
    }
}

/// The configuration in force given the configuration files that were found and
/// read, highest priority first (the `--config` file, else the home file before
/// `./tlcli.yaml`).
pub fn load_config(files: Vec<AppConfig>) -> (r: AppConfig)
    ensures
        r@ == merge_by_priority(default_model(), files@),
{
    let ghost all = files@;
    let mut rest = files;
    let mut cfg = AppConfig::default();
    assert(all.skip(all.len() as int) =~= Seq::<AppConfig>::empty());
    while rest.len() > 0
        invariant
            rest.len() <= all.len(),
            rest@ == all.take(rest.len() as int),
            cfg@ == merge_by_priority(default_model(), all.skip(rest.len() as int)),
        decreases rest.len(),
    {
        let ghost n = rest.len() as int;
        match rest.pop() {
            Some(f) => {
                proof {
                    let s = all.skip(n - 1);
                    assert(s.drop_first() =~= all.skip(n));
                    assert(s[0] == f);
                    assert(rest@ =~= all.take(n - 1));
                }
                cfg = merge_configs(cfg, f);
            },
            None => {},
        }
    }
    assert(all.skip(0) =~= all);
    cfg
}

// ---------------------------------------------------------------------------
// Command-line overrides

/// The headers after the `--header K:V` flags `hs`, in order: each flag that
/// holds a `:` sets the trimmed text before it to the trimmed text after it;
/// a flag without `:` is ignored.
pub open spec fn header_flags(m: Map<Seq<char>, Seq<char>>, hs: Seq<String>) -> Map<
    Seq<char>,
    Seq<char>,
>
    decreases hs.len(),
{
    if hs.len() == 0 {
        m
    } else {
        let before = header_flags(m, hs.drop_last());
        match split_once_spec(hs.last()@, ':') {
            Some((k, v)) => before.insert(trim_spec(k), trim_spec(v)),
            None => before,
        }
    }
}

/// `flag` if it was given, else `current`.
pub open spec fn given_or(flag: Option<String>, current: Seq<char>) -> Seq<char> {
    match flag {
        Some(s) => s@,
        None => current,
    }
}

/// `flag` if it was given, else `current`.
pub open spec fn flag_or<T>(flag: Option<T>, current: T) -> T {
    match flag {
        Some(v) => v,
        None => current,
    }
}

/// The final settings: the command-line flags of `a` laid on `c`. Every flag
/// given wins; `--insecure` sets, `--no-resume` clears, and each `--header`
/// sets its header.
pub open spec fn cli_spec(c: ConfigModel, a: Args) -> MergedModel {
    MergedModel {
        user_agent: given_or(a.user_agent, c.user_agent),
        headers: header_flags(c.headers, a.headers@),
        insecure: c.insecure || a.insecure,
        timeout: flag_or(a.timeout, c.timeout),
        bind_address: given_or(a.bind_address, c.bind_address),
        threads: flag_or(a.threads, c.threads),
        chunk_size_mb: flag_or(a.chunk_size, c.chunk_size_mb),
        max_retries: flag_or(a.retries, c.max_retries),
        retry_delay_ms: flag_or(a.retry_delay, c.retry_delay_ms),
        max_retry_delay_ms: flag_or(a.max_retry_delay, c.max_retry_delay_ms),
        limit_rate: flag_or(a.limit_rate, c.limit_rate),
        resume: c.resume && !a.no_resume,
        output_dir: given_or(a.directory_prefix, c.output_dir),
        proxy_url: given_or(a.proxy, c.proxy_url),
    }
}

/// Applies the `--header K:V` flags `flags` to `headers` (see `header_flags`).
fn apply_header_flags(headers: &mut Headers, flags: &Vec<String>)
    ensures
        final(headers)@ == header_flags(old(headers)@, flags@),
{
    let mut i: usize = 0;
    while i < flags.len()
        invariant
            0 <= i <= flags.len(),
            headers@ == header_flags(old(headers)@, flags@.take(i as int)),
        decreases flags.len() - i,
    {
        let h = &flags[i];
        proof {
            let t = flags@.take(i + 1);
            assert(t.drop_last() == flags@.take(i as int));
            assert(t.last() == *h);
        }
        if let Some((k, v)) = split_once(h.as_str(), ':') {
            headers.insert(trim(k.as_str()), trim(v.as_str()));
        }
        i = i + 1;
    }
    assert(flags@.take(flags.len() as int) == flags@);
}

/// Merges command-line flags on top of configuration values (see `cli_spec`).
pub fn apply_cli_overrides(cfg: AppConfig, args: &Args) -> (r: MergedConfig)
    ensures
        r@ == cli_spec(cfg@, *args),
{
    let mut cfg = cfg;
    if let Some(ua) = &args.user_agent {
        cfg.http.user_agent = ua.clone();
    }
    apply_header_flags(&mut cfg.http.headers, &args.headers);
    if args.insecure {
        cfg.http.insecure = true;
    }
    if let Some(t) = args.timeout {
        cfg.http.timeout = t;
    }
    if let Some(addr) = &args.bind_address {
        cfg.http.bind_address = addr.clone();
    }
    if let Some(t) = args.threads {
        cfg.download.threads = t;
    }
    if let Some(c) = args.chunk_size {
        cfg.download.chunk_size_mb = c;
    }
    if let Some(r) = args.retries {
        cfg.download.max_retries = r;
    }
    if let Some(d) = args.retry_delay {
        cfg.download.retry_delay_ms = d;
    }
    if let Some(d) = args.max_retry_delay {
        cfg.download.max_retry_delay_ms = d;
    }
    if let Some(l) = args.limit_rate {
        cfg.download.limit_rate = l;
    }
    if args.no_resume {
        cfg.download.resume = false;
    }
    if let Some(dir) = &args.directory_prefix {
        cfg.download.output_dir = dir.clone();
    }
    if let Some(proxy) = &args.proxy {
        cfg.proxy.url = proxy.clone();
    }
    MergedConfig {
        user_agent: cfg.http.user_agent,
        headers: cfg.http.headers,
        insecure: cfg.http.insecure,
        timeout: cfg.http.timeout,
        bind_address: cfg.http.bind_address,
        threads: cfg.download.threads,
        chunk_size_mb: cfg.download.chunk_size_mb,
        max_retries: cfg.download.max_retries,
        retry_delay_ms: cfg.download.retry_delay_ms,
        max_retry_delay_ms: cfg.download.max_retry_delay_ms,
        limit_rate: cfg.download.limit_rate,
        resume: cfg.download.resume,
        output_dir: cfg.download.output_dir,
        proxy_url: cfg.proxy.url,
    }
}

// ---------------------------------------------------------------------------
// Laws

/// Laying a configuration on top of itself changes nothing.
pub proof fn lemma_merge_idempotent(c: ConfigModel)
    ensures
        merge_spec(c, c) == c,
{
    assert(c.headers.union_prefer_right(file_headers(c.headers)) =~= c.headers);
}

/// A configuration file that holds only built-in values (or nothing, since
/// missing values take the built-in ones) leaves the configuration below it as
/// it is.
pub proof fn lemma_default_file_keeps_base(base: ConfigModel)
    ensures
        merge_spec(base, default_model()) == base,
{
    reveal_strlit("Accept");
    reveal_strlit("Accept-Encoding");
    assert("Accept"@.len() == 6);
    assert("Accept-Encoding"@.len() == 15);
    assert("Accept"@ != "Accept-Encoding"@);
    assert(file_headers(builtin_headers()) =~= Map::<Seq<char>, Seq<char>>::empty());
    assert(base.headers.union_prefer_right(Map::<Seq<char>, Seq<char>>::empty()) =~= base.headers);
}

/// Every setting that the configuration file of highest priority sets is the
/// setting in force, whatever the files of lower priority set.
pub proof fn lemma_higher_priority_wins(base: ConfigModel, files: Seq<AppConfig>)
    requires
        files.len() > 0,
    ensures
        ({
            let top = files[0]@;
            let r = merge_by_priority(base, files);
            &&& top.user_agent != builtin_user_agent() ==> r.user_agent == top.user_agent
            &&& forall|k: Seq<char>| #[trigger]
                file_headers(top.headers).dom().contains(k) ==> r.headers.dom().contains(k)
                    && r.headers[k] == top.headers[k]
            &&& top.insecure ==> r.insecure
            &&& top.timeout != 30 ==> r.timeout == top.timeout
            &&& top.bind_address.len() > 0 ==> r.bind_address == top.bind_address
            &&& top.threads != 64 ==> r.threads == top.threads
            &&& top.chunk_size_mb != 10 ==> r.chunk_size_mb == top.chunk_size_mb
            &&& top.max_retries != 3 ==> r.max_retries == top.max_retries
            &&& top.retry_delay_ms != 1000 ==> r.retry_delay_ms == top.retry_delay_ms
            &&& top.max_retry_delay_ms != 30000 ==> r.max_retry_delay_ms
                == top.max_retry_delay_ms
            &&& top.limit_rate != 0 ==> r.limit_rate == top.limit_rate
            &&& !top.resume ==> !r.resume
            &&& top.output_dir.len() > 0 ==> r.output_dir == top.output_dir
            &&& top.proxy_url.len() > 0 ==> r.proxy_url == top.proxy_url
        }),
{
}

/// Every option given on the command line wins over the configuration, even
/// when it holds the built-in default; every option not given leaves the
/// configuration's value.
pub proof fn lemma_given_flags_win(c: ConfigModel, a: Args)
    ensures
        ({
            let r = cli_spec(c, a);
            &&& a.user_agent matches Some(v) ==> r.user_agent == v@
            &&& a.insecure ==> r.insecure
            &&& a.timeout matches Some(v) ==> r.timeout == v
            &&& a.bind_address matches Some(v) ==> r.bind_address == v@
            &&& a.threads matches Some(v) ==> r.threads == v
            &&& a.chunk_size matches Some(v) ==> r.chunk_size_mb == v
            &&& a.retries matches Some(v) ==> r.max_retries == v
            &&& a.retry_delay matches Some(v) ==> r.retry_delay_ms == v
            &&& a.max_retry_delay matches Some(v) ==> r.max_retry_delay_ms == v
            &&& a.limit_rate matches Some(v) ==> r.limit_rate == v
            &&& a.no_resume ==> !r.resume
            &&& a.directory_prefix matches Some(v) ==> r.output_dir == v@
            &&& a.proxy matches Some(v) ==> r.proxy_url == v@
            &&& a.user_agent is None ==> r.user_agent == c.user_agent
            &&& !a.insecure ==> r.insecure == c.insecure
            &&& a.timeout is None ==> r.timeout == c.timeout
            &&& a.bind_address is None ==> r.bind_address == c.bind_address
            &&& a.threads is None ==> r.threads == c.threads
            &&& a.chunk_size is None ==> r.chunk_size_mb == c.chunk_size_mb
            &&& a.retries is None ==> r.max_retries == c.max_retries
            &&& a.retry_delay is None ==> r.retry_delay_ms == c.retry_delay_ms
            &&& a.max_retry_delay is None ==> r.max_retry_delay_ms == c.max_retry_delay_ms
            &&& a.limit_rate is None ==> r.limit_rate == c.limit_rate
            &&& !a.no_resume ==> r.resume == c.resume
            &&& a.directory_prefix is None ==> r.output_dir == c.output_dir
            &&& a.proxy is None ==> r.proxy_url == c.proxy_url
        }),
{
}

/// Laying a file over a configuration, setting by setting: a value of the
/// file that differs from the built-in default wins; one equal to it keeps the
/// configuration's value; `insecure` is set when either sets it.
pub proof fn lemma_merge_fields(base: ConfigModel, over: ConfigModel)
    ensures
        ({
            let m = merge_spec(base, over);
            &&& m.user_agent == if over.user_agent == builtin_user_agent() { base.user_agent } else { over.user_agent }
            &&& m.insecure == (over.insecure || base.insecure)
            &&& m.timeout == if over.timeout == 30 { base.timeout } else { over.timeout }
            &&& m.bind_address == if over.bind_address.len() == 0 { base.bind_address } else { over.bind_address }
            &&& m.threads == if over.threads == 64 { base.threads } else { over.threads }
            &&& m.chunk_size_mb == if over.chunk_size_mb == 10 { base.chunk_size_mb } else { over.chunk_size_mb }
            &&& m.max_retries == if over.max_retries == 3 { base.max_retries } else { over.max_retries }
            &&& m.retry_delay_ms == if over.retry_delay_ms == 1000 { base.retry_delay_ms } else { over.retry_delay_ms }
            &&& m.max_retry_delay_ms == if over.max_retry_delay_ms == 30000 {
                base.max_retry_delay_ms
            } else {
                over.max_retry_delay_ms
            }
            &&& m.limit_rate == if over.limit_rate == 0 { base.limit_rate } else { over.limit_rate }
            &&& m.resume == if over.resume { base.resume } else { false }
            &&& m.output_dir == if over.output_dir.len() == 0 { base.output_dir } else { over.output_dir }
            &&& m.proxy_url == if over.proxy_url.len() == 0 { base.proxy_url } else { over.proxy_url }
        }),
{
    if over.bind_address.len() == 0 {
        assert(over.bind_address =~= Seq::<char>::empty());
    }
    if over.output_dir.len() == 0 {
        assert(over.output_dir =~= Seq::<char>::empty());
    }
    if over.proxy_url.len() == 0 {
        assert(over.proxy_url =~= Seq::<char>::empty());
    }
}

/// Laying a file over a configuration keeps every header of the configuration
/// that the file does not set; a header the file sets takes the file's value,
/// unless it is a built-in header with its built-in value, which leaves the
/// configuration's header as it was; and no other header appears.
pub proof fn lemma_merge_headers(base: ConfigModel, over: ConfigModel, k: Seq<char>)
    ensures
        ({
            let m = merge_spec(base, over).headers;
            let builtin_pair = builtin_headers().dom().contains(k) && over.headers.dom().contains(k)
                && builtin_headers()[k] == over.headers[k];
            &&& !over.headers.dom().contains(k) ==> (m.dom().contains(k) <==> base.headers.dom().contains(k))
            &&& !over.headers.dom().contains(k) && base.headers.dom().contains(k) ==> m[k]
                == base.headers[k]
            &&& over.headers.dom().contains(k) && !builtin_pair ==> m.dom().contains(k) && m[k]
                == over.headers[k]
            &&& builtin_pair ==> (m.dom().contains(k) <==> base.headers.dom().contains(k))
            &&& builtin_pair && base.headers.dom().contains(k) ==> m[k] == base.headers[k]
            &&& m.dom().contains(k) ==> base.headers.dom().contains(k) || over.headers.dom().contains(k)
        }),
{
}

/// What the `--header` flags `hs` do to the headers `m`, flag by flag: a flag
/// `K:V` at position `i`, not followed by a flag for the same trimmed name,
/// leaves the header `trim(K)` set to `trim(V)`.
proof fn lemma_header_flags_last(m: Map<Seq<char>, Seq<char>>, hs: Seq<String>, i: int, k: Seq<char>, v: Seq<char>)
    requires
        0 <= i < hs.len(),
        split_once_spec(hs[i]@, ':') == Some((k, v)),
        forall|j: int|
            i < j < hs.len() ==> (#[trigger] split_once_spec(hs[j]@, ':') matches Some((k2, v2))
                ==> trim_spec(k2) != trim_spec(k)),
    ensures
        header_flags(m, hs).dom().contains(trim_spec(k)),
        header_flags(m, hs)[trim_spec(k)] == trim_spec(v),
    decreases hs.len(),
{
    if i < hs.len() - 1 {
        let front = hs.drop_last();
        assert forall|j: int|
            i < j < front.len() implies (#[trigger] split_once_spec(front[j]@, ':') matches Some((k2, v2))
                ==> trim_spec(k2) != trim_spec(k)) by {
            assert(front[j] == hs[j]);
            assert(split_once_spec(hs[j]@, ':') matches Some((k2, v2)) ==> trim_spec(k2) != trim_spec(k));
        }
        assert(front[i] == hs[i]);
        lemma_header_flags_last(m, front, i, k, v);
        let last = hs.len() - 1;
        assert(split_once_spec(hs[last]@, ':') matches Some((k2, v2)) ==> trim_spec(k2) != trim_spec(k));
    }
}

/// A header no `--header` flag names keeps its value (or its absence).
proof fn lemma_header_flags_keep(m: Map<Seq<char>, Seq<char>>, hs: Seq<String>, name: Seq<char>)
    requires
        forall|j: int|
            0 <= j < hs.len() ==> (#[trigger] split_once_spec(hs[j]@, ':') matches Some((k2, v2))
                ==> trim_spec(k2) != name),
    ensures
        header_flags(m, hs).dom().contains(name) <==> m.dom().contains(name),
        m.dom().contains(name) ==> header_flags(m, hs)[name] == m[name],
    decreases hs.len(),
{
    if hs.len() > 0 {
        let front = hs.drop_last();
        assert forall|j: int|
            0 <= j < front.len() implies (#[trigger] split_once_spec(front[j]@, ':') matches Some((k2, v2))
                ==> trim_spec(k2) != name) by {
            assert(front[j] == hs[j]);
            assert(split_once_spec(hs[j]@, ':') matches Some((k2, v2)) ==> trim_spec(k2) != name);
        }
        lemma_header_flags_keep(m, front, name);
        let last = hs.len() - 1;
        assert(split_once_spec(hs[last]@, ':') matches Some((k2, v2)) ==> trim_spec(k2) != name);
    }
}

/// A `--header K:V` flag (one holding `:`, the last for its trimmed name) sets
/// the header `trim(K)` to `trim(V)` in the final settings, whatever the
/// configuration held for that name; a header that no flag names keeps the
/// configuration's value.
pub proof fn lemma_header_flag_wins(c: ConfigModel, a: Args, i: int, k: Seq<char>, v: Seq<char>, other: Seq<char>)
    requires
        0 <= i < a.headers@.len(),
        split_once_spec(a.headers@[i]@, ':') == Some((k, v)),
        forall|j: int|
            i < j < a.headers@.len() ==> (#[trigger] split_once_spec(a.headers@[j]@, ':') matches Some((
                k2,
                v2,
            )) ==> trim_spec(k2) != trim_spec(k)),
    ensures
        cli_spec(c, a).headers.dom().contains(trim_spec(k)),
        cli_spec(c, a).headers[trim_spec(k)] == trim_spec(v),
        (forall|j: int|
            0 <= j < a.headers@.len() ==> (#[trigger] split_once_spec(a.headers@[j]@, ':') matches Some((
                k2,
                v2,
            )) ==> trim_spec(k2) != other)) ==> (cli_spec(c, a).headers.dom().contains(other)
            <==> c.headers.dom().contains(other)) && (c.headers.dom().contains(other)
            ==> cli_spec(c, a).headers[other] == c.headers[other]),
{
    lemma_header_flags_last(c.headers, a.headers@, i, k, v);
    if forall|j: int|
        0 <= j < a.headers@.len() ==> (#[trigger] split_once_spec(a.headers@[j]@, ':') matches Some((
            k2,
            v2,
        )) ==> trim_spec(k2) != other) {
        lemma_header_flags_keep(c.headers, a.headers@, other);
    }
}

/// With no command-line option given, the final settings are those of the
/// configuration.
pub proof fn lemma_no_flags_keep_config(c: ConfigModel, a: Args)
    requires
        crate::cli::options_are_defaults(a),
    ensures
        cli_spec(c, a) == (MergedModel {
            user_agent: c.user_agent,
            headers: c.headers,
            insecure: c.insecure,
            timeout: c.timeout,
            bind_address: c.bind_address,
            threads: c.threads,
            chunk_size_mb: c.chunk_size_mb,
            max_retries: c.max_retries,
            retry_delay_ms: c.retry_delay_ms,
            max_retry_delay_ms: c.max_retry_delay_ms,
            limit_rate: c.limit_rate,
            resume: c.resume,
            output_dir: c.output_dir,
            proxy_url: c.proxy_url,
        }),
{
    assert(header_flags(c.headers, a.headers@) == c.headers);
}

} // verus!
