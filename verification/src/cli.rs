//! The command-line options of `tl`, as plain values.
use vstd::prelude::*;

verus! {

/// tl — a wget-like CLI download tool.
///
/// Each option the user did not give is `None` (or `false`, or empty), so that
/// every option given wins over the configuration.
#[derive(Debug)]
pub struct Args {
    /// URLs to download
    pub urls: Vec<String>,
    /// Output file path ("-" for stdout)
    pub output: Option<String>,
    /// Save directory prefix (filename inferred from URL)
    pub directory_prefix: Option<String>,
    /// Number of retries (0 = unlimited); the configuration (default 3) when not given
    pub retries: Option<usize>,
    /// Initial retry delay in milliseconds; the configuration (default 1000) when not given
    pub retry_delay: Option<u64>,
    /// Max retry delay in milliseconds; the configuration (default 30000) when not given
    pub max_retry_delay: Option<u64>,
    /// Number of download threads; the configuration (default 64) when not given
    pub threads: Option<usize>,
    /// Chunk size in megabytes; the configuration (default 10) when not given
    pub chunk_size: Option<usize>,
    /// Speed limit in bytes per second (0 = unlimited); the configuration (default 0) when not given
    pub limit_rate: Option<u64>,
    /// Proxy URL (http://, socks5://, etc.)
    pub proxy: Option<String>,
    /// Custom HTTP headers, each "K:V"
    pub headers: Vec<String>,
    /// Skip TLS certificate verification
    pub insecure: bool,
    /// Connection timeout in seconds; the configuration (default 30) when not given
    pub timeout: Option<u64>,
    /// Bind to a specific local address
    pub bind_address: Option<String>,
    /// Do not resume partial downloads
    pub no_resume: bool,
    /// Quiet mode (suppress progress, only fatal errors)
    pub quiet: bool,
    /// Verbose output
    pub verbose: bool,
    /// User-Agent header (overrides config file)
    pub user_agent: Option<String>,
    /// Path to config file
    pub config: Option<String>,
    /// Write default config to stdout and exit
    pub init_config: bool,
}

/// `a` holds what the command line gives when no option is passed (URLs aside).
pub open spec fn options_are_defaults(a: Args) -> bool {
    &&& a.output is None
    &&& a.directory_prefix is None
    &&& a.retries is None
    &&& a.retry_delay is None
    &&& a.max_retry_delay is None
    &&& a.threads is None
    &&& a.chunk_size is None
    &&& a.limit_rate is None
    &&& a.proxy is None
    &&& a.headers@.len() == 0
    &&& !a.insecure
    &&& a.timeout is None
    &&& a.bind_address is None
    &&& !a.no_resume
    &&& !a.quiet
    &&& !a.verbose
    &&& a.user_agent is None
    &&& a.config is None
    &&& !a.init_config
}

impl Default for Args {
    /// The options of a command line that passes none, with no URL.
    fn default() -> (a: Args)
        ensures
            options_are_defaults(a),
            a.urls@.len() == 0,
    {
        Args {
            urls: Vec::new(),
            output: None,
            directory_prefix: None,
            retries: None,
            retry_delay: None,
            max_retry_delay: None,
            threads: None,
            chunk_size: None,
            limit_rate: None,
            proxy: None,
            headers: Vec::new(),
            insecure: false,
            timeout: None,
            bind_address: None,
            no_resume: false,
            quiet: false,
            verbose: false,
            user_agent: None,
            config: None,
            init_config: false,
        }
    }
}

} // verus!
