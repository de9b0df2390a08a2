//! Planning a download run: file names from URLs, save paths and display
//! names, the settings handed to the engine, renaming of partial files, and the
//! bookkeeping of the progress display.
use vstd::prelude::*;

use crate::config::MergedConfig;
use crate::headers::Headers;
use crate::text::{
    after_last, after_last_spec, chars_of, contains_char, format_hex_padded, format_u64, last_at, numeral,
    push_char, push_str, str_eq, string_from_range, string_of, zero_pad,
};

verus! {

// ---------------------------------------------------------------------------
// File names from URLs

/// The path component of the URL parsed from `s` by `url::Url::parse`, or
/// `None` where that parse fails.
pub uninterp spec fn url_path_of(s: Seq<char>) -> Option<Seq<char>>;

/// Parses `s` with `url::Url::parse` and gives the parsed URL's `path()`.
/// Trusted: the result is `url_path_of(s)`, a function of `s` alone; what the
/// path is for a given input (percent-encoding, normalisation) is not stated.
#[verifier::external_body]
fn parsed_url_path(s: &str) -> (r: Option<String>)
    ensures
        match r {
            Some(p) => url_path_of(s@) == Some(p@),
            None => url_path_of(s@) is None,
        },
{
    match url::Url::parse(s) {
        Ok(u) => Some(u.path().to_string()),
        Err(_) => None,
    }
}

/// The last `/`-separated path segment, when the path starts with `/` (the URL
/// can be a base) and that segment is not empty.
pub open spec fn last_path_segment(path: Option<Seq<char>>) -> Option<Seq<char>> {
    match path {
        Some(p) => if p.len() > 0 && p[0] == '/' {
            let seg = after_last_spec(p.skip(1), '/');
            if seg.len() > 0 {
                Some(seg)
            } else {
                None
            }
        } else {
            None
        },
        None => None,
    }
}

/// The file name for `url`, given the path of the parsed URL: its last path
/// segment if not empty; else the text after the last `/` of `url` if it is not
/// empty and holds no `?` or `#`; else `index.html`.
pub open spec fn filename_spec(url: Seq<char>, path: Option<Seq<char>>) -> Seq<char> {
    match last_path_segment(path) {
        Some(seg) => seg,
        None => {
            let seg = after_last_spec(url, '/');
            if seg.len() > 0 && !seg.contains('?') && !seg.contains('#') {
                seg
            } else {
                "index.html"@
            }
        },
    }
}

/// The file name for `url_str` given `path`, the path of the parsed URL.
pub fn filename_from(url_str: &str, path: Option<String>) -> (r: String)
    ensures
        r@ == filename_spec(url_str@, match path {
            Some(p) => Some(p@),
            None => None,
        }),
{
    if let Some(p) = path {
        let v = chars_of(p.as_str());
        if v.len() > 0 && v[0] == '/' {
            let rest = string_from_range(&v, 1, v.len());
            assert(rest@ == p@.skip(1));
            let seg = after_last(rest.as_str(), '/');
            if !seg.as_str().is_empty() {
                return seg;
            }
        }
    }
    let seg = after_last(url_str, '/');
    if !seg.as_str().is_empty() && !contains_char(seg.as_str(), '?') && !contains_char(
        seg.as_str(),
        '#',
    ) {
        return seg;
    }
    string_of("index.html")
}

/// When the parsed URL's path starts with `/` and the text after its last `/`
/// (at position `i`) is not empty, that text is the file name, whatever
/// characters it holds.
pub proof fn lemma_file_name_is_last_segment(url: Seq<char>, path: Seq<char>, i: int)
    requires
        path.len() > 0,
        path[0] == '/',
        0 <= i < path.len() - 1,
        path[i] == '/',
        forall|j: int| i < j < path.len() ==> path[j] != '/',
    ensures
        filename_spec(url, Some(path)) == path.skip(i + 1),
{
    let q = path.skip(1);
    if i == 0 {
        assert forall|k: int| !last_at(q, '/', k) by {
            if 0 <= k < q.len() {
                assert(q[k] == path[k + 1]);
            }
        }
        assert(after_last_spec(q, '/') == q);
    } else {
        assert(last_at(q, '/', i - 1)) by {
            assert forall|j: int| i - 1 < j < q.len() implies q[j] != '/' by {
                assert(q[j] == path[j + 1]);
            }
        }
        let k = choose|k: int| last_at(q, '/', k);
        crate::text::lemma_last_at_unique(q, '/', i - 1, k);
        assert(q.skip(i) =~= path.skip(i + 1));
    }
    assert(path.skip(i + 1).len() > 0);
}

/// Without a usable path segment (the URL did not parse, its path does not
/// start with `/`, or ends with `/`), the file name is the text of the URL after
/// its last `/` (at position `i`) when that text is not empty and holds no `?`
/// or `#`, and `index.html` otherwise.
pub proof fn lemma_file_name_fallback(url: Seq<char>, path: Option<Seq<char>>, i: int)
    requires
        match path {
            Some(p) => p.len() == 0 || p[0] != '/' || p.last() == '/',
            None => true,
        },
        0 <= i < url.len(),
        url[i] == '/',
        forall|j: int| i < j < url.len() ==> url[j] != '/',
    ensures
        ({
            let tail = url.skip(i + 1);
            &&& tail.len() > 0 && !tail.contains('?') && !tail.contains('#') ==> filename_spec(
                url,
                path,
            ) == tail
            &&& !(tail.len() > 0 && !tail.contains('?') && !tail.contains('#')) ==> filename_spec(
                url,
                path,
            ) == "index.html"@
        }),
{
    assert(last_at(url, '/', i));
    let k = choose|k: int| last_at(url, '/', k);
    crate::text::lemma_last_at_unique(url, '/', i, k);
    if let Some(p) = path {
        if p.len() > 0 && p[0] == '/' {
            let q = p.skip(1);
            if q.len() > 0 {
                assert(q.last() == '/');
                assert(last_at(q, '/', q.len() - 1));
                let m = choose|m: int| last_at(q, '/', m);
                crate::text::lemma_last_at_unique(q, '/', q.len() - 1, m);
                assert(q.skip(q.len() as int).len() == 0);
            } else {
                assert(after_last_spec(q, '/').len() == 0) by {
                    assert forall|m: int| !last_at(q, '/', m) by {}
                }
            }
        }
    }
}

/// The file name a URL is saved under.
pub fn infer_filename(url_str: &str) -> (r: String)
    ensures
        r@ == filename_spec(url_str@, url_path_of(url_str@)),
{
    let path = parsed_url_path(url_str);
    filename_from(url_str, path)
}

// ---------------------------------------------------------------------------
// Paths

/// `dir` joined with the relative name `name`, separated by one `/`.
pub open spec fn join_spec(dir: Seq<char>, name: Seq<char>) -> Seq<char> {
    if dir.len() > 0 && dir.last() == '/' {
        dir + name
    } else {
        dir + seq!['/'] + name
    }
}

/// Joins a directory and a relative file name with `/`.
pub fn join_path(dir: &str, name: &str) -> (r: String)
    ensures
        r@ == join_spec(dir@, name@),
{
    let d = chars_of(dir);
    let mut r = string_of(dir);
    if !(d.len() > 0 && d[d.len() - 1] == '/') {
        push_char(&mut r, '/');
    }
    push_str(&mut r, name);
    r
}

/// `p` with `.part` appended.
pub open spec fn part_spec(p: Seq<char>) -> Seq<char> {
    p + ".part"@
}

fn part_of(p: &str) -> (r: String)
    ensures
        r@ == part_spec(p@),
{
    let mut r = string_of(p);
    push_str(&mut r, ".part");
    r
}

// ---------------------------------------------------------------------------
// Download tasks

/// Where one URL is saved and the name it is shown under.
#[derive(Debug)]
pub struct TaskPlan {
    pub url: String,
    /// The path the engine writes to; `None` for standard output.
    pub save_path: Option<String>,
    /// The name shown to the user (the final path).
    pub show_name: String,
    /// A partial file left by an earlier run, removed before downloading anew.
    pub stale_part: Option<String>,
}

/// The mathematical content of a `TaskPlan`.
pub struct TaskModel {
    pub url: Seq<char>,
    pub save_path: Option<Seq<char>>,
    pub show_name: Seq<char>,
    pub stale_part: Option<Seq<char>>,
}

impl View for TaskPlan {
    type V = TaskModel;

    open spec fn view(&self) -> TaskModel {
        TaskModel {
            url: self.url@,
            save_path: match self.save_path {
                Some(p) => Some(p@),
                None => None,
            },
            show_name: self.show_name@,
            stale_part: match self.stale_part {
                Some(p) => Some(p@),
                None => None,
            },
        }
    }
}

/// The output path `-O` stands for standard output.
pub open spec fn is_stdout_spec(output: Option<Seq<char>>) -> bool {
    output == Some("-"@)
}

/// The file name of `url`.
pub open spec fn file_name_of(url: Seq<char>) -> Seq<char> {
    filename_spec(url, url_path_of(url))
}

/// The final path of `url` saved in `dir` (the file name alone if `dir` is empty).
pub open spec fn base_path_spec(dir: Seq<char>, url: Seq<char>) -> Seq<char> {
    if dir.len() == 0 {
        file_name_of(url)
    } else {
        join_spec(dir, file_name_of(url))
    }
}

/// The plan for one URL. `custom` is the `-O` path, used only when it was given
/// for a single URL: `-` streams the content to standard output, with no file
/// and no partial file, shown under the URL's file name; another path is the
/// final name, written to `path.part` when resuming. Otherwise the
/// file is named after the URL inside `dir`, written to `.part` when resuming;
/// without resume it is written directly and an old `.part` is removed.
pub open spec fn task_spec(url: Seq<char>, custom: Option<Seq<char>>, dir: Seq<char>, resume: bool) -> TaskModel {
    let name = file_name_of(url);
    if custom == Some("-"@) {
        TaskModel { url, save_path: None, show_name: name, stale_part: None }
    } else if custom is Some {
        let out = custom->0;
        TaskModel {
            url,
            save_path: Some(
                if resume {
                    part_spec(out)
                } else {
                    out
                },
            ),
            show_name: out,
            stale_part: None,
        }
    } else {
        let base = base_path_spec(dir, url);
        if resume {
            TaskModel { url, save_path: Some(part_spec(base)), show_name: base, stale_part: None }
        } else {
            TaskModel {
                url,
                save_path: Some(base),
                show_name: base,
                stale_part: Some(part_spec(base)),
            }
        }
    }
}

/// Without `-O`, a task is shown under the URL's file name inside the output
/// directory (joined with one `/`), or the file name alone when there is no
/// directory, whether resuming or not. When resuming it is written to that
/// name plus `.part`; otherwise it is written to that name directly and an old
/// `.part` of that name is removed.
pub proof fn lemma_task_paths(url: Seq<char>, dir: Seq<char>, resume: bool)
    ensures
        ({
            let t = task_spec(url, None, dir, resume);
            let name = filename_spec(url, url_path_of(url));
            &&& t.url == url
            &&& dir.len() == 0 ==> t.show_name == name
            &&& dir.len() > 0 && dir.last() == '/' ==> t.show_name == dir + name
            &&& dir.len() > 0 && dir.last() != '/' ==> t.show_name == dir + seq!['/'] + name
            &&& resume ==> t.save_path == Some(t.show_name + ".part"@) && t.stale_part is None
            &&& !resume ==> t.save_path == Some(t.show_name) && t.stale_part == Some(
                t.show_name + ".part"@,
            )
        }),
{
}

/// With `-O`: `-` streams to standard output (no save file, no partial file,
/// shown under the URL's file name); any other path is the shown name,
/// written to that path plus `.part` when resuming and to the path itself
/// otherwise, with no partial file to remove. The directory plays no part.
pub proof fn lemma_task_paths_with_output(url: Seq<char>, out: Seq<char>, dir: Seq<char>, resume: bool)
    ensures
        ({
            let t = task_spec(url, Some(out), dir, resume);
            &&& t.url == url
            &&& out == "-"@ ==> t.save_path is None && t.stale_part is None && t.show_name
                == filename_spec(url, url_path_of(url))
            &&& out != "-"@ ==> t.show_name == out && t.stale_part is None
            &&& out != "-"@ && resume ==> t.save_path == Some(out + ".part"@)
            &&& out != "-"@ && !resume ==> t.save_path == Some(out)
        }),
{
}

/// `-O` is used for a single URL and ignored for several.
pub proof fn lemma_output_single_url(n: nat, output: Option<Seq<char>>)
    ensures
        n == 1 ==> custom_output(n, output) == output,
        n != 1 ==> custom_output(n, output) is None,
{
}

/// `-O` applies only to a single URL.
pub open spec fn custom_output(n: nat, output: Option<Seq<char>>) -> Option<Seq<char>> {
    if n == 1 {
        output
    } else {
        None
    }
}

fn opt_view(o: Option<&str>) -> (r: Option<String>)
    ensures
        match o {
            Some(s) => r matches Some(t) && t@ == s@,
            None => r is None,
        },
{
    match o {
        Some(s) => Some(string_of(s)),
        None => None,
    }
}

/// The view of an optional string.
pub open spec fn opt_seq(o: Option<&str>) -> Option<Seq<char>> {
    match o {
        Some(s) => Some(s@),
        None => None,
    }
}

/// The plan of one task (see `task_spec`).
fn plan_task(url: &String, custom: Option<&str>, output_dir: &str, resume: bool) -> (t: TaskPlan)
    ensures
        t@ == task_spec(url@, opt_seq(custom), output_dir@, resume),
{
    let filename = infer_filename(url.as_str());
    match custom {
        Some(out) if str_eq(out, "-") => TaskPlan {
            url: url.clone(),
            save_path: None,
            show_name: filename,
            stale_part: None,
        },
        Some(out) => TaskPlan {
            url: url.clone(),
            save_path: Some(
                if resume {
                    part_of(out)
                } else {
                    string_of(out)
                },
            ),
            show_name: string_of(out),
            stale_part: None,
        },
        None => {
            let base = if output_dir.is_empty() {
                filename
            } else {
                join_path(output_dir, filename.as_str())
            };
            let part_path = part_of(base.as_str());
            if resume {
                TaskPlan {
                    url: url.clone(),
                    save_path: Some(part_path),
                    show_name: base,
                    stale_part: None,
                }
            } else {
                TaskPlan {
                    url: url.clone(),
                    save_path: Some(base.clone()),
                    show_name: base,
                    stale_part: Some(part_path),
                }
            }
        },
    }
}

/// One task per URL, in order (see `task_spec`).
pub fn build_tasks(urls: &Vec<String>, output: Option<&str>, output_dir: &str, resume: bool) -> (r:
    Vec<TaskPlan>)
    ensures
        r.len() == urls.len(),
        forall|i: int|
            0 <= i < urls.len() ==> (#[trigger] r@[i])@ == task_spec(
                urls@[i]@,
                custom_output(urls.len() as nat, opt_seq(output)),
                output_dir@,
                resume,
            ),
{
    let custom = if urls.len() == 1 {
        output
    } else {
        None
    };
    let mut tasks: Vec<TaskPlan> = Vec::new();
    let mut i: usize = 0;
    while i < urls.len()
        invariant
            0 <= i <= urls.len(),
            tasks.len() == i,
            opt_seq(custom) == custom_output(urls.len() as nat, opt_seq(output)),
            forall|j: int|
                0 <= j < i ==> (#[trigger] tasks@[j])@ == task_spec(
                    urls@[j]@,
                    opt_seq(custom),
                    output_dir@,
                    resume,
                ),
        decreases urls.len() - i,
    {
        let t = plan_task(&urls[i], custom, output_dir, resume);
        tasks.push(t);
        i = i + 1;
    }
    tasks
}

// ---------------------------------------------------------------------------
// Renaming partial files after success

/// The (partial, final) path pair renamed for a task after a successful run:
/// its save path and shown name when it was written to the partial file of
/// that name; `None` for a task written directly or to standard output.
pub open spec fn rename_spec(t: TaskModel) -> Option<(Seq<char>, Seq<char>)> {
    match t.save_path {
        Some(p) => if p == part_spec(t.show_name) {
            Some((p, t.show_name))
        } else {
            None
        },
        None => None,
    }
}

/// For each task, the partial file to rename and its final path (see
/// `rename_spec`). The caller renames those partial files that exist.
pub fn rename_plan(tasks: &Vec<TaskPlan>) -> (r: Vec<Option<(String, String)>>)
    ensures
        r.len() == tasks.len(),
        forall|i: int|
            0 <= i < tasks.len() ==> match #[trigger] r@[i] {
                Some((p, f)) => rename_spec(tasks@[i]@) == Some((p@, f@)),
                None => rename_spec(tasks@[i]@) is None,
            },
{
    let mut r: Vec<Option<(String, String)>> = Vec::new();
    let mut i: usize = 0;
    while i < tasks.len()
        invariant
            0 <= i <= tasks.len(),
            r.len() == i,
            forall|j: int|
                0 <= j < i ==> match #[trigger] r@[j] {
                    Some((p, f)) => rename_spec(tasks@[j]@) == Some((p@, f@)),
                    None => rename_spec(tasks@[j]@) is None,
                },
        decreases tasks.len() - i,
    {
        let t = &tasks[i];
        let item = match &t.save_path {
            Some(p) => {
                let part = part_of(t.show_name.as_str());
                if str_eq(p.as_str(), part.as_str()) {
                    Some((p.clone(), t.show_name.clone()))
                } else {
                    None
                }
            },
            None => None,
        };
        r.push(item);
        i = i + 1;
    }
    r
}

/// When resuming, every task that is not written to standard output is
/// written to a partial file that is renamed after success to the name the
/// task is shown under; a task written to standard output is never renamed.
pub proof fn lemma_rename_matches_task(
    url: Seq<char>,
    custom: Option<Seq<char>>,
    dir: Seq<char>,
)
    ensures
        custom != Some("-"@) ==> rename_spec(task_spec(url, custom, dir, true)) == Some(
            (
                task_spec(url, custom, dir, true).save_path->0,
                task_spec(url, custom, dir, true).show_name,
            ),
        ),
        custom == Some("-"@) ==> rename_spec(task_spec(url, custom, dir, true)) is None,
{
}

// ---------------------------------------------------------------------------
// Engine settings

/// The User-Agent the engine uses when none is configured.
pub open spec fn engine_user_agent() -> Seq<char> {
    "Mozilla/5.0 (Windows NT 10.0; Win64; x64) AppleWebKit/537.36 (KHTML, like Gecko) Chrome/131.0.0.0 Safari/537.36"@
}

/// The engine's fallback User-Agent.
pub fn engine_default_user_agent() -> (s: String)
    ensures
        s@ == engine_user_agent(),
{
    string_of(
        "Mozilla/5.0 (Windows NT 10.0; Win64; x64) AppleWebKit/537.36 (KHTML, like Gecko) Chrome/131.0.0.0 Safari/537.36",
    )
}

/// The settings handed to the download engine.
#[derive(Debug)]
pub struct EngineSettings {
    pub thread_count: usize,
    pub chunk_size_mb: usize,
    pub user_agent: String,
    pub max_retries: usize,
    pub retry_delay_ms: u64,
    pub max_retry_delay_ms: u64,
    pub speed_limit_bps: u64,
    pub proxy_url: Option<String>,
    pub headers: Headers,
}

/// `e` holds the engine settings for `cfg`: an empty User-Agent falls back to
/// the engine's, zero retries means unlimited (`usize::MAX`), an empty proxy
/// means none; the rest is copied.
pub open spec fn settings_for(e: EngineSettings, cfg: MergedConfig) -> bool {
    &&& e.thread_count == cfg.threads
    &&& e.chunk_size_mb == cfg.chunk_size_mb
    &&& e.user_agent@ == if cfg.user_agent@.len() == 0 {
        engine_user_agent()
    } else {
        cfg.user_agent@
    }
    &&& e.max_retries == if cfg.max_retries == 0 {
        usize::MAX
    } else {
        cfg.max_retries
    }
    &&& e.retry_delay_ms == cfg.retry_delay_ms
    &&& e.max_retry_delay_ms == cfg.max_retry_delay_ms
    &&& e.speed_limit_bps == cfg.limit_rate
    &&& match e.proxy_url {
        Some(p) => cfg.proxy_url@.len() > 0 && p@ == cfg.proxy_url@,
        None => cfg.proxy_url@.len() == 0,
    }
    &&& e.headers@ == cfg.headers@
}

/// The engine settings for `cfg` (see `settings_for`).
pub fn engine_settings(cfg: &MergedConfig) -> (e: EngineSettings)
    ensures
        settings_for(e, *cfg),
{
    EngineSettings {
        thread_count: cfg.threads,
        chunk_size_mb: cfg.chunk_size_mb,
        user_agent: if cfg.user_agent.as_str().is_empty() {
            engine_default_user_agent()
        } else {
            cfg.user_agent.clone()
        },
        max_retries: if cfg.max_retries == 0 {
            usize::MAX
        } else {
            cfg.max_retries
        },
        retry_delay_ms: cfg.retry_delay_ms,
        max_retry_delay_ms: cfg.max_retry_delay_ms,
        speed_limit_bps: cfg.limit_rate,
        proxy_url: if cfg.proxy_url.as_str().is_empty() {
            None
        } else {
            Some(cfg.proxy_url.clone())
        },
        headers: cfg.headers.clone(),
    }
}

/// Everything a run needs before the engine starts.
#[derive(Debug)]
pub struct RunPlan {
    pub tasks: Vec<TaskPlan>,
    pub settings: EngineSettings,
    /// `-O -`: the content goes to standard output.
    pub is_stdout: bool,
    /// Whether the progress display is drawn (on standard error) — unless quiet.
    pub show_progress: bool,
}

/// Plans a run: the tasks of `urls` (see `build_tasks`), the engine settings of
/// `cfg`; an error when there is no URL.
pub fn plan_run(urls: &Vec<String>, cfg: &MergedConfig, output: Option<&str>, quiet: bool) -> (r:
    Result<RunPlan, String>)
    ensures
        urls.len() == 0 <==> r is Err,
        r matches Err(e) ==> e@ == "no URLs to download"@,
        r matches Ok(p) ==> {
            &&& p.is_stdout == is_stdout_spec(opt_seq(output))
            &&& p.show_progress == !quiet
            &&& p.tasks.len() == urls.len()
            &&& forall|i: int|
                0 <= i < urls.len() ==> (#[trigger] p.tasks@[i])@ == task_spec(
                    urls@[i]@,
                    custom_output(urls.len() as nat, opt_seq(output)),
                    cfg.output_dir@,
                    cfg.resume,
                )
            &&& settings_for(p.settings, *cfg)
        },
{
    let is_stdout = match output {
        Some(o) => str_eq(o, "-"),
        None => false,
    };
    let tasks = build_tasks(urls, output, cfg.output_dir.as_str(), cfg.resume);
    if tasks.len() == 0 {
        return Err(string_of("no URLs to download"));
    }
    let settings = engine_settings(cfg);
    Ok(RunPlan { tasks, settings, is_stdout, show_progress: !quiet })
}

/// What a run reports once the engine has returned: success, or the engine's
/// error behind `download failed: `.
pub open spec fn outcome_spec(engine: Result<(), Seq<char>>) -> Result<(), Seq<char>> {
    match engine {
        Ok(()) => Ok(()),
        Err(e) => Err("download failed: "@ + e),
    }
}

/// The result of a run from the engine's result (see `outcome_spec`). Partial
/// files are renamed only when this is `Ok`.
pub fn download_outcome(engine: Result<(), String>) -> (r: Result<(), String>)
    ensures
        r is Ok <==> engine is Ok,
        r matches Err(m) ==> engine matches Err(e) && outcome_spec(Err(e@)) == Err::<(), Seq<char>>(m@),
{
    match engine {
        Ok(()) => Ok(()),
        Err(e) => {
            let mut m = string_of("download failed: ");
            push_str(&mut m, e.as_str());
            Err(m)
        },
    }
}

// ---------------------------------------------------------------------------
// Progress display bookkeeping

/// The names in `s` joined by `sep`.
pub open spec fn joined_spec(s: Seq<Seq<char>>, sep: Seq<char>) -> Seq<char>
    decreases s.len(),
{
    if s.len() == 0 {
        Seq::empty()
    } else if s.len() == 1 {
        s[0]
    } else {
        joined_spec(s.drop_last(), sep) + sep + s.last()
    }
}

/// `s` without any occurrence of `x`.
pub open spec fn without(s: Seq<Seq<char>>, x: Seq<char>) -> Seq<Seq<char>>
    decreases s.len(),
{
    if s.len() == 0 {
        s
    } else if s.last() == x {
        without(s.drop_last(), x)
    } else {
        without(s.drop_last(), x).push(s.last())
    }
}

/// `"[n] a, b, ..."` for the active names `s`.
pub open spec fn list_message(s: Seq<Seq<char>>) -> Seq<char> {
    seq!['['] + numeral(s.len(), 10) + "] "@ + joined_spec(s, ", "@)
}

/// The message after `name` started: the list if several files are active,
/// else the name.
pub open spec fn start_message(s: Seq<Seq<char>>, name: Seq<char>) -> Seq<char> {
    if s.len() > 1 {
        list_message(s)
    } else {
        name
    }
}

/// The message after a file ended: `finishing...` when none is active, else
/// the list.
pub open spec fn end_message(s: Seq<Seq<char>>) -> Seq<char> {
    if s.len() == 0 {
        "finishing..."@
    } else {
        list_message(s)
    }
}

/// The names of the files being downloaded, in the order they started.
pub struct ActiveFiles {
    files: Vec<String>,
}

/// The view of a vector of strings.
pub open spec fn names_of(v: Seq<String>) -> Seq<Seq<char>> {
    v.map_values(|s: String| s@)
}

impl View for ActiveFiles {
    type V = Seq<Seq<char>>;

    closed spec fn view(&self) -> Seq<Seq<char>> {
        names_of(self.files@)
    }
}

impl ActiveFiles {
    #[verifier::type_invariant]
    spec fn inv(self) -> bool {
        names_of(self.files@).no_duplicates()
    }

    /// No file is active.
    pub fn new() -> (a: ActiveFiles)
        ensures
            a@ == Seq::<Seq<char>>::empty(),
    {
        let a = ActiveFiles { files: Vec::new() };
        assert(a@ =~= Seq::<Seq<char>>::empty());
        a
    }

    /// The number of active files.
    pub fn len(&self) -> (n: usize)
        ensures
            n == self@.len(),
    {
        self.files.len()
    }

    fn contains(&self, name: &str) -> (r: bool)
        ensures
            r == self@.contains(name@),
    {
        let mut i: usize = 0;
        while i < self.files.len()
            invariant
                0 <= i <= self.files.len(),
                forall|j: int| 0 <= j < i ==> self.files@[j]@ != name@,
            decreases self.files.len() - i,
        {
            if str_eq(self.files[i].as_str(), name) {
                assert(self@[i as int] == name@);
                return true;
            }
            i = i + 1;
        }
        assert(!self@.contains(name@)) by {
            if self@.contains(name@) {
                let k = choose|k: int| 0 <= k < self@.len() && self@[k] == name@;
                assert(self.files@[k]@ == name@);
            }
        }
        false
    }

    /// The list message (`[n] a, b`).
    fn list_message(&self) -> (m: String)
        ensures
            m@ == list_message(self@),
    {
        let mut m = String::new();
        push_char(&mut m, '[');
        let n = self.files.len();
        let count = format_u64(n as u64);
        push_str(&mut m, count.as_str());
        push_str(&mut m, "] ");
        let mut joined = String::new();
        let mut i: usize = 0;
        while i < n
            invariant
                0 <= i <= n,
                n == self.files.len(),
                joined@ == joined_spec(self@.take(i as int), ", "@),
            decreases n - i,
        {
            let ghost t = self@.take(i + 1);
            assert(t.drop_last() == self@.take(i as int));
            if i > 0 {
                push_str(&mut joined, ", ");
            } else {
                assert(self@.take(0) =~= Seq::<Seq<char>>::empty());
            }
            push_str(&mut joined, self.files[i].as_str());
            assert(t.last() == self.files@[i as int]@);
            assert(joined@ == joined_spec(t, ", "@));
            i = i + 1;
        }
        assert(self@.take(n as int) =~= self@);
        push_str(&mut m, joined.as_str());
        proof {
            assert(self@.len() == n);
            assert(m@ =~= list_message(self@));
        }
        m
    }

    /// A file started: `name` becomes active (if it was not), and the message
    /// to show is returned.
    pub fn start_one(&mut self, name: String) -> (m: String)
        ensures
            final(self)@ == if old(self)@.contains(name@) {
                old(self)@
            } else {
                old(self)@.push(name@)
            },
            m@ == start_message(final(self)@, name@),
            final(self)@.no_duplicates(),
    {
        proof {
            use_type_invariant(&*self);
        }
        if !self.contains(name.as_str()) {
            let ghost before = self@;
            let mut files = Vec::new();
            std::mem::swap(&mut files, &mut self.files);
            files.push(name.clone());
            proof {
                assert(names_of(files@) =~= before.push(name@));
                assert forall|i: int, j: int|
                    0 <= i < names_of(files@).len() && 0 <= j < names_of(files@).len() && i
                        != j implies names_of(files@)[i] != names_of(files@)[j] by {
                    if i == before.len() as int {
                        assert(before[j] != name@);
                    } else if j == before.len() as int {
                        assert(before[i] != name@);
                    }
                }
            }
            self.files = files;
        }
        if self.files.len() > 1 {
            self.list_message()
        } else {
            name
        }
    }

    /// A file ended: `name` is no longer active, and the message to show is
    /// returned.
    pub fn end_one(&mut self, name: &str) -> (m: String)
        ensures
            final(self)@ == without(old(self)@, name@),
            m@ == end_message(final(self)@),
            final(self)@.no_duplicates(),
    {
        proof {
            use_type_invariant(&*self);
        }
        let ghost before = self@;
        let mut files = Vec::new();
        std::mem::swap(&mut files, &mut self.files);
        let mut kept: Vec<String> = Vec::new();
        let mut i: usize = 0;
        while i < files.len()
            invariant
                0 <= i <= files.len(),
                names_of(files@) == before,
                before.no_duplicates(),
                names_of(kept@) == without(before.take(i as int), name@),
            decreases files.len() - i,
        {
            let ghost t = before.take(i + 1);
            assert(t.drop_last() == before.take(i as int));
            assert(t.last() == files@[i as int]@);
            if !str_eq(files[i].as_str(), name) {
                kept.push(files[i].clone());
                assert(names_of(kept@) =~= without(t, name@));
            }
            i = i + 1;
        }
        assert(before.take(files.len() as int) =~= before);
        proof {
            lemma_without_sub(before, name@);
        }
        self.files = kept;
        if self.files.len() == 0 {
            string_of("finishing...")
        } else {
            self.list_message()
        }
    }
}

/// Removing a name keeps a list without duplicates free of duplicates, and
/// every remaining name was in the list.
pub proof fn lemma_without_sub(s: Seq<Seq<char>>, x: Seq<char>)
    requires
        s.no_duplicates(),
    ensures
        without(s, x).no_duplicates(),
        !without(s, x).contains(x),
        forall|y: Seq<char>| #[trigger] without(s, x).contains(y) ==> s.contains(y) && y != x,
    decreases s.len(),
{
    if s.len() > 0 {
        let d = s.drop_last();
        assert(d.no_duplicates());
        lemma_without_sub(d, x);
        if s.last() != x {
            let w = without(d, x);
            assert(!d.contains(s.last()));
            assert forall|y: Seq<char>| #[trigger] w.push(s.last()).contains(y) implies s.contains(y)
                && y != x by {
                if y != s.last() {
                    let k = choose|k: int| 0 <= k < w.push(s.last()).len() && w.push(s.last())[k]
                        == y;
                    assert(w.contains(y));
                    let k2 = choose|k2: int| 0 <= k2 < d.len() && d[k2] == y;
                    assert(s[k2] == y);
                } else {
                    assert(s[s.len() - 1] == y);
                }
            }
            assert(!w.contains(s.last()));
            assert forall|i: int, j: int|
                0 <= i < w.push(s.last()).len() && 0 <= j < w.push(s.last()).len() && i
                    != j implies w.push(s.last())[i] != w.push(s.last())[j] by {
                if i == w.len() as int {
                    assert(w.contains(w.push(s.last())[j]));
                } else if j == w.len() as int {
                    assert(w.contains(w.push(s.last())[i]));
                }
            }
            assert(!w.push(s.last()).contains(x)) by {
                if w.push(s.last()).contains(x) {
                    let k = choose|k: int| 0 <= k < w.push(s.last()).len() && w.push(s.last())[k]
                        == x;
                    if k < w.len() {
                        assert(w.contains(x));
                    }
                }
            }
        }
    }
}

/// Removing a name that is not in the list leaves the list as it is.
pub proof fn lemma_without_absent(s: Seq<Seq<char>>, x: Seq<char>)
    requires
        !s.contains(x),
    ensures
        without(s, x) == s,
    decreases s.len(),
{
    if s.len() > 0 {
        let d = s.drop_last();
        assert(!d.contains(x)) by {
            if d.contains(x) {
                let k = choose|k: int| 0 <= k < d.len() && d[k] == x;
                assert(s[k] == x);
            }
        }
        lemma_without_absent(d, x);
        assert(s.last() != x);
        assert(d.push(s.last()) =~= s);
    }
}

/// A file that starts and then ends leaves the active list as it was before it
/// started, when it was not already active.
pub proof fn lemma_start_then_end(s: Seq<Seq<char>>, name: Seq<char>)
    requires
        !s.contains(name),
    ensures
        without(s.push(name), name) == s,
{
    let t = s.push(name);
    assert(t.drop_last() == s);
    lemma_without_absent(s, name);
}

// ---------------------------------------------------------------------------
// Task identifiers

/// A pseudo-random number from the sub-second part of the clock.
pub fn rand_u16(subsec_nanos: u32) -> (r: u16)
    ensures
        r == subsec_nanos % 65535,
{
    (subsec_nanos % 65535) as u16
}

/// The task identifier `{nanos:016x}-{rand:04x}`: the clock in nanoseconds and a
/// pseudo-random number, in lower-case hexadecimal.
pub fn uuid_v4(nanos: u128, rand: u16) -> (r: String)
    ensures
        r@ == zero_pad(numeral(nanos as nat, 16), 16) + seq!['-'] + zero_pad(
            numeral(rand as nat, 16),
            4,
        ),
{
    let mut r = format_hex_padded(nanos, 16);
    push_char(&mut r, '-');
    let tail = format_hex_padded(rand as u128, 4);
    push_str(&mut r, tail.as_str());
    r
}

} // verus!
