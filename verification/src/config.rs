//! Command-line options, their limits and defaults, the ports tried for the
//! listener, and the small policy decisions that depend on whether uploads are
//! on.
use vstd::prelude::*;
use crate::text::{chars_of, string_of, starts_with, slice_of, chars_eq_str};
use crate::decimal::{parse_unsigned, parse_unsigned_exec, decimal, push_decimal};

verus! {

broadcast use vstd::string::group_string_axioms;

/// The most worker threads.
pub const MAX_WORKERS: usize = 256;

/// The longest request queue.
pub const MAX_QUEUE_SIZE: usize = 4096;

/// The port used when none is given.
pub const DEFAULT_PORT: u16 = 8787;

/// The kinds of I/O error that a request can end with.
#[derive(Clone, Copy, Debug, PartialEq, Eq, Structural)]
pub enum IoErrorKind {
    ConnectionReset,
    ConnectionAborted,
    BrokenPipe,
    TimedOut,
    WouldBlock,
    Other,
}

/// Whether an error that ended a request is the client's doing and not worth
/// reporting: a reset, aborted or broken connection, a timeout, or a
/// would-block.
pub fn is_benign_error(kind: IoErrorKind) -> (r: bool)
    ensures
        r == !(kind is Other),
{
    match kind {
        IoErrorKind::Other => false,
        _ => true,
    }
}

/// The `Allow` header of a `405` answer: `POST` is listed only while uploads are on.
pub fn allow_methods_header(uploads_enabled: bool) -> (r: (&'static str, &'static str))
    ensures
        r.0@ == "Allow"@,
        r.1@ == (if uploads_enabled {
            "GET, HEAD, OPTIONS, POST"@
        } else {
            "GET, HEAD, OPTIONS"@
        }),
{
    if uploads_enabled {
        ("Allow", "GET, HEAD, OPTIONS, POST")
    } else {
        ("Allow", "GET, HEAD, OPTIONS")
    }
}

/// The methods that CORS answers allow: `POST` only while uploads are on.
pub fn cors_methods(uploads_enabled: bool) -> (r: &'static str)
    ensures
        r@ == (if uploads_enabled {
            "GET, HEAD, OPTIONS, POST"@
        } else {
            "GET, HEAD, OPTIONS"@
        }),
{
    if uploads_enabled {
        "GET, HEAD, OPTIONS, POST"
    } else {
        "GET, HEAD, OPTIONS"
    }
}

/// A command-line option that takes a value.
#[derive(Clone, Copy, Debug, PartialEq, Eq, Structural)]
pub enum ArgFlag {
    Port,
    Root,
    Bind,
    Workers,
    Queue,
}

/// Why the command line was refused.
#[derive(Debug)]
pub enum ArgsError {
    /// The option was last, without its value.
    MissingValue(ArgFlag),
    /// Not a port number.
    InvalidPort(String),
    /// Not a number, for the named option.
    InvalidNumber(String, String),
    /// Zero, for the named option.
    Zero(String),
    /// Above the limit, for the named option.
    TooLarge(String, usize),
    /// Not an IP address.
    InvalidBind(String),
}

/// The name of an option in messages.
pub open spec fn flag_text(f: ArgFlag) -> Seq<char> {
    match f {
        ArgFlag::Port => "--port"@,
        ArgFlag::Root => "--root"@,
        ArgFlag::Bind => "--bind"@,
        ArgFlag::Workers => "--workers"@,
        ArgFlag::Queue => "--queue"@,
    }
}

fn flag_name(f: ArgFlag) -> (r: &'static str)
    ensures
        r@ == flag_text(f),
{
    match f {
        ArgFlag::Port => "--port",
        ArgFlag::Root => "--root",
        ArgFlag::Bind => "--bind",
        ArgFlag::Workers => "--workers",
        ArgFlag::Queue => "--queue",
    }
}

/// The text of an `ArgsError`.
pub open spec fn args_error_text(e: ArgsError) -> Seq<char> {
    match e {
        ArgsError::MissingValue(f) => "missing value for "@ + flag_text(f),
        ArgsError::InvalidPort(v) => "invalid port: "@ + v@,
        ArgsError::InvalidNumber(n, v) => "invalid "@ + n@ + ": "@ + v@,
        ArgsError::Zero(n) => n@ + " must be greater than zero"@,
        ArgsError::TooLarge(n, m) => n@ + " must be less than or equal to "@ + decimal(m as nat),
        ArgsError::InvalidBind(v) => "invalid bind address: "@ + v@,
    }
}

impl ArgsError {
    /// The error's text.
    pub fn message(&self) -> (r: String)
        ensures
            r@ == args_error_text(*self),
    {
        let mut v: Vec<char> = Vec::new();
        match self {
            ArgsError::MissingValue(f) => {
                crate::text::push_str(&mut v, "missing value for ");
                crate::text::push_str(&mut v, flag_name(*f));
            },
            ArgsError::InvalidPort(s) => {
                crate::text::push_str(&mut v, "invalid port: ");
                crate::text::push_str(&mut v, s.as_str());
            },
            ArgsError::InvalidNumber(n, s) => {
                crate::text::push_str(&mut v, "invalid ");
                crate::text::push_str(&mut v, n.as_str());
                crate::text::push_str(&mut v, ": ");
                crate::text::push_str(&mut v, s.as_str());
            },
            ArgsError::Zero(n) => {
                crate::text::push_str(&mut v, n.as_str());
                crate::text::push_str(&mut v, " must be greater than zero");
            },
            ArgsError::TooLarge(n, m) => {
                crate::text::push_str(&mut v, n.as_str());
                crate::text::push_str(&mut v, " must be less than or equal to ");
                push_decimal(&mut v, *m as u64);
            },
            ArgsError::InvalidBind(s) => {
                crate::text::push_str(&mut v, "invalid bind address: ");
                crate::text::push_str(&mut v, s.as_str());
            },
        }
        string_of(&v)
    }
}

/// A port number, as std's `u16::from_str` reads it.
pub fn parse_port(value: &str) -> (r: Result<u16, ArgsError>)
    ensures
        parse_unsigned(value@, u16::MAX as nat) matches Some(v) ==> r == Ok::<u16, ArgsError>(
            v as u16,
        ),
        parse_unsigned(value@, u16::MAX as nat) is None ==> (r matches Err(
            ArgsError::InvalidPort(s),
        ) && s@ == value@),
{
    let v = chars_of(value);
    match parse_unsigned_exec(&v, u16::MAX as u64) {
        Some(n) => Ok(n as u16),
        None => Err(ArgsError::InvalidPort(value.to_owned())),
    }
}

/// A count for option `name`: a number (std's `usize::from_str`) from 1 to `max`.
pub fn parse_limited_usize(value: &str, name: &str, max: usize) -> (r: Result<usize, ArgsError>)
    ensures
        parse_unsigned(value@, usize::MAX as nat) matches Some(v) ==> {
            if v == 0 {
                (r matches Err(ArgsError::Zero(n)) && n@ == name@)
            } else if v > max {
                (r matches Err(ArgsError::TooLarge(n, m)) && n@ == name@ && m == max)
            } else {
                r == Ok::<usize, ArgsError>(v as usize)
            }
        },
        parse_unsigned(value@, usize::MAX as nat) is None ==> (r matches Err(
            ArgsError::InvalidNumber(n, s),
        ) && n@ == name@ && s@ == value@),
{
    let v = chars_of(value);
    let parsed = match parse_unsigned_exec(&v, usize::MAX as u64) {
        Some(n) => n as usize,
        None => {
            return Err(ArgsError::InvalidNumber(name.to_owned(), value.to_owned()));
        },
    };
    if parsed == 0 {
        return Err(ArgsError::Zero(name.to_owned()));
    }
    if parsed > max {
        return Err(ArgsError::TooLarge(name.to_owned(), max));
    }
    Ok(parsed)
}

/// Sixteen workers per processor, at least 64 and at most 128.
pub open spec fn default_workers_spec(cpus: nat) -> nat {
    if cpus * 16 < 64 {
        64
    } else if cpus * 16 > 128 {
        128
    } else {
        cpus * 16
    }
}

/// Sixteen queue places per worker, at least 256 and at most `MAX_QUEUE_SIZE`.
pub open spec fn default_queue_spec(workers: nat) -> nat {
    if workers * 16 > MAX_QUEUE_SIZE {
        MAX_QUEUE_SIZE as nat
    } else if workers * 16 < 256 {
        256
    } else {
        workers * 16
    }
}

/// The default number of worker threads for a machine with `cpus` processors:
/// sixteen per processor, at least 64 and at most 128.
pub fn worker_count_for(cpus: usize) -> (r: usize)
    requires
        cpus <= usize::MAX / 16,
    ensures
        r == default_workers_spec(cpus as nat),
{
    let n = cpus * 16;
    if n < 64 {
        64
    } else if n > 128 {
        128
    } else {
        n
    }
}

/// The default queue length for `workers` threads: sixteen per worker
/// (saturating), at least 256, at most `MAX_QUEUE_SIZE`.
pub fn default_queue_size(workers: usize) -> (r: usize)
    ensures
        r == default_queue_spec(workers as nat),
{
    let q = if workers > usize::MAX / 16 {
        usize::MAX
    } else {
        workers * 16
    };
    let q = if q < 256 { 256 } else { q };
    if q > MAX_QUEUE_SIZE { MAX_QUEUE_SIZE } else { q }
}

/// The ports the listener tries, in order: the preferred one, then the fallbacks.
pub open spec fn port_candidates(preferred: u16) -> Seq<u16> {
    seq![preferred, 8787u16, 8000u16, 8080u16, 8010u16, 8020u16, 3000u16, 5173u16, 9000u16]
}

/// `s` with every value after its first occurrence dropped.
pub open spec fn dedup(s: Seq<u16>) -> Seq<u16>
    decreases s.len(),
{
    if s.len() == 0 {
        s
    } else {
        let d = dedup(s.drop_last());
        if d.contains(s.last()) {
            d
        } else {
            d.push(s.last())
        }
    }
}

/// The ports the listener tries, each once, in order: the preferred port, then
/// 8787, 8000, 8080, 8010, 8020, 3000, 5173 and 9000.
pub fn listen_port_candidates(preferred: u16) -> (r: Vec<u16>)
    ensures
        r@ == dedup(port_candidates(preferred)),
{
    let mut all: Vec<u16> = Vec::new();
    all.push(preferred);
    all.push(8787);
    all.push(8000);
    all.push(8080);
    all.push(8010);
    all.push(8020);
    all.push(3000);
    all.push(5173);
    all.push(9000);
    assert(all@ =~= port_candidates(preferred));
    let mut r: Vec<u16> = Vec::new();
    let mut i: usize = 0;
    assert(all@.take(0) =~= Seq::<u16>::empty());
    while i < all.len()
        invariant
            i <= all.len(),
            r@ == dedup(all@.take(i as int)),
        decreases all.len() - i,
    {
        assert(all@.take(i + 1).drop_last() =~= all@.take(i as int));
        let p = all[i];
        let mut seen = false;
        let mut j: usize = 0;
        while j < r.len()
            invariant
                j <= r.len(),
                seen == (exists|k: int| 0 <= k < j && r@[k] == p),
            decreases r.len() - j,
        {
            if r[j] == p {
                seen = true;
            }
            j += 1;
        }
        if !seen {
            r.push(p);
        }
        i += 1;
    }
    assert(all@.take(all.len() as int) =~= all@);
    r
}

/// What one command-line argument does.
#[derive(Debug)]
pub enum ArgStep {
    /// Go on with the next argument.
    Continue,
    /// A bind address was given: it must be checked to be an IP address.
    CheckBind(String),
    /// Help was asked for: print it and stop.
    Help,
    /// The command line is refused.
    Failed(ArgsError),
}

/// The server's settings, read from the command line.
#[derive(Debug)]
pub struct Config {
    /// The resource root; `None` when none was given (the program's folder is used).
    pub root: Option<String>,
    /// The preferred port.
    pub port: u16,
    /// The address to bind, as given (`0.0.0.0` by default).
    pub bind: String,
    /// Whether the upload API is on.
    pub uploads_enabled: bool,
    /// The number of worker threads.
    pub workers: usize,
    /// The length of the request queue.
    pub queue_size: usize,
}

/// The command line read so far.
#[derive(Debug)]
pub struct ArgsParser {
    /// The resource root given so far.
    pub root: Option<String>,
    /// The port given so far.
    pub port: u16,
    /// The bind address given so far.
    pub bind: String,
    /// Whether uploads are on.
    pub uploads_enabled: bool,
    /// The worker count given so far.
    pub workers: usize,
    /// The queue length given so far.
    pub queue_size: Option<usize>,
    /// An option that waits for its value in the next argument.
    pub pending: Option<ArgFlag>,
}

/// The character sequence of an optional string.
pub open spec fn opt_str(o: Option<String>) -> Option<Seq<char>> {
    match o {
        Some(s) => Some(s@),
        None => None,
    }
}

/// The option that an argument names, when it takes its value from the next argument.
pub open spec fn option_flag(arg: Seq<char>) -> Option<ArgFlag> {
    if arg == "-p"@ || arg == "--port"@ {
        Some(ArgFlag::Port)
    } else if arg == "--root"@ {
        Some(ArgFlag::Root)
    } else if arg == "--bind"@ {
        Some(ArgFlag::Bind)
    } else if arg == "--workers"@ {
        Some(ArgFlag::Workers)
    } else if arg == "--queue"@ {
        Some(ArgFlag::Queue)
    } else {
        None
    }
}

/// The option and value of an argument of the form `--name=value`.
pub open spec fn inline_option(arg: Seq<char>) -> Option<(ArgFlag, Seq<char>)> {
    if starts_with(arg, "--port="@) {
        Some((ArgFlag::Port, arg.skip("--port="@.len() as int)))
    } else if starts_with(arg, "--root="@) {
        Some((ArgFlag::Root, arg.skip("--root="@.len() as int)))
    } else if starts_with(arg, "--bind="@) {
        Some((ArgFlag::Bind, arg.skip("--bind="@.len() as int)))
    } else if starts_with(arg, "--workers="@) {
        Some((ArgFlag::Workers, arg.skip("--workers="@.len() as int)))
    } else if starts_with(arg, "--queue="@) {
        Some((ArgFlag::Queue, arg.skip("--queue="@.len() as int)))
    } else {
        None
    }
}

/// A count in `1..=max`, as `parse_limited_usize` reads it.
pub open spec fn limited_count(value: Seq<char>, max: usize) -> Option<usize> {
    match parse_unsigned(value, usize::MAX as nat) {
        Some(v) => if 1 <= v <= max {
            Some(v as usize)
        } else {
            None
        },
        None => None,
    }
}

/// `a` and `b` agree on every setting but those the flags mark as free.
pub open spec fn agree(
    a: ArgsParser,
    b: ArgsParser,
    root: bool,
    port: bool,
    bind: bool,
    uploads: bool,
    workers: bool,
    queue: bool,
) -> bool {
    &&& (root || opt_str(a.root) == opt_str(b.root))
    &&& (port || a.port == b.port)
    &&& (bind || a.bind@ == b.bind@)
    &&& (uploads || a.uploads_enabled == b.uploads_enabled)
    &&& (workers || a.workers == b.workers)
    &&& (queue || a.queue_size == b.queue_size)
}

/// The effect of giving `value` to option `flag`.
pub open spec fn value_applied(
    old: ArgsParser,
    new: ArgsParser,
    flag: ArgFlag,
    value: Seq<char>,
    r: ArgStep,
) -> bool {
    &&& new.pending is None
    &&& match flag {
        ArgFlag::Port => agree(old, new, false, true, false, false, false, false) && match parse_unsigned(
            value,
            u16::MAX as nat,
        ) {
            Some(v) => new.port == v && r is Continue,
            None => r matches ArgStep::Failed(ArgsError::InvalidPort(s)) && s@ == value,
        },
        ArgFlag::Root => agree(old, new, true, false, false, false, false, false) && opt_str(new.root)
            == Some(value) && r is Continue,
        ArgFlag::Bind => agree(old, new, false, false, true, false, false, false) && new.bind@ == value
            && (r matches ArgStep::CheckBind(s) && s@ == value),
        ArgFlag::Workers => agree(old, new, false, false, false, false, true, false) && match limited_count(
            value,
            MAX_WORKERS,
        ) {
            Some(v) => new.workers == v && r is Continue,
            None => r is Failed,
        },
        ArgFlag::Queue => agree(old, new, false, false, false, false, false, true) && match limited_count(
            value,
            MAX_QUEUE_SIZE,
        ) {
            Some(v) => new.queue_size == Some(v) && r is Continue,
            None => r is Failed,
        },
    }
}

/// The effect of one argument on the command line read so far.
pub open spec fn arg_fed(old: ArgsParser, new: ArgsParser, arg: Seq<char>, r: ArgStep) -> bool {
    match old.pending {
        Some(f) => value_applied(old, new, f, arg, r),
        None => match option_flag(arg) {
            Some(f) => agree(old, new, false, false, false, false, false, false) && new.pending
                == Some(f) && r is Continue,
            None => if arg == "--no-upload"@ || arg == "--no-uploads"@ {
                agree(old, new, false, false, false, true, false, false) && !new.uploads_enabled
                    && new.pending is None && r is Continue
            } else if arg == "--uploads"@ {
                agree(old, new, false, false, false, true, false, false) && new.uploads_enabled
                    && new.pending is None && r is Continue
            } else if arg == "--help"@ || arg == "-h"@ {
                agree(old, new, false, false, false, false, false, false) && new.pending is None
                    && r is Help
            } else {
                match inline_option(arg) {
                    Some((f, v)) => value_applied(old, new, f, v, r),
                    None => agree(old, new, true, false, false, false, false, false) && opt_str(
                        new.root,
                    ) == Some(arg) && new.pending is None && r is Continue,
                }
            },
        },
    }
}

fn strip_prefix_str(a: &Vec<char>, p: &str) -> (r: Option<Vec<char>>)
    ensures
        r matches Some(v) ==> starts_with(a@, p@) && v@ == a@.skip(p@.len() as int),
        r is None ==> !starts_with(a@, p@),
{
    let pv = chars_of(p);
    if crate::text::starts_with_exec(a, &pv) {
        let n = a.len();
        Some(slice_of(a, pv.len(), n))
    } else {
        None
    }
}

fn own(s: &str) -> (r: String)
    ensures
        r@ == s@,
{
    s.to_owned()
}

impl ArgsParser {
    /// The settings before any argument: port 8787, every address, uploads on,
    /// the given default worker count, the default queue.
    pub fn new(default_workers: usize) -> (p: ArgsParser)
        ensures
            p.root is None,
            p.port == DEFAULT_PORT,
            p.bind@ == "0.0.0.0"@,
            p.uploads_enabled,
            p.workers == default_workers,
            p.queue_size is None,
            p.pending is None,
    {
        ArgsParser {
            root: None,
            port: DEFAULT_PORT,
            bind: own("0.0.0.0"),
            uploads_enabled: true,
            workers: default_workers,
            queue_size: None,
            pending: None,
        }
    }

    fn apply_value(&mut self, flag: ArgFlag, value: &str) -> (r: ArgStep)
        ensures
            value_applied(*old(self), *final(self), flag, value@, r),
    {
        self.pending = None;
        match flag {
            ArgFlag::Port => match parse_port(value) {
                Ok(p) => {
                    self.port = p;
                    ArgStep::Continue
                },
                Err(e) => ArgStep::Failed(e),
            },
            ArgFlag::Root => {
                self.root = Some(own(value));
                ArgStep::Continue
            },
            ArgFlag::Bind => {
                self.bind = own(value);
                ArgStep::CheckBind(own(value))
            },
            ArgFlag::Workers => match parse_limited_usize(value, "workers", MAX_WORKERS) {
                Ok(w) => {
                    self.workers = w;
                    ArgStep::Continue
                },
                Err(e) => ArgStep::Failed(e),
            },
            ArgFlag::Queue => match parse_limited_usize(value, "queue", MAX_QUEUE_SIZE) {
                Ok(q) => {
                    self.queue_size = Some(q);
                    ArgStep::Continue
                },
                Err(e) => ArgStep::Failed(e),
            },
        }
    }

    /// Reads one argument: the value of a pending option; an option that takes
    /// the next argument (`-p`/`--port`, `--root`, `--bind`, `--workers`,
    /// `--queue`); `--no-upload`/`--no-uploads` and `--uploads`; `--help`/`-h`;
    /// an option with its value after `=`; anything else is the root.
    pub fn feed(&mut self, arg: &str) -> (r: ArgStep)
        ensures
            arg_fed(*old(self), *final(self), arg@, r),
    {
        if let Some(flag) = self.pending {
            return self.apply_value(flag, arg);
        }
        let a = chars_of(arg);
        if chars_eq_str(&a, "-p") || chars_eq_str(&a, "--port") {
            self.pending = Some(ArgFlag::Port);
            return ArgStep::Continue;
        }
        if chars_eq_str(&a, "--root") {
            self.pending = Some(ArgFlag::Root);
            return ArgStep::Continue;
        }
        if chars_eq_str(&a, "--bind") {
            self.pending = Some(ArgFlag::Bind);
            return ArgStep::Continue;
        }
        if chars_eq_str(&a, "--workers") {
            self.pending = Some(ArgFlag::Workers);
            return ArgStep::Continue;
        }
        if chars_eq_str(&a, "--queue") {
            self.pending = Some(ArgFlag::Queue);
            return ArgStep::Continue;
        }
        if chars_eq_str(&a, "--no-upload") || chars_eq_str(&a, "--no-uploads") {
            self.uploads_enabled = false;
            return ArgStep::Continue;
        }
        if chars_eq_str(&a, "--uploads") {
            self.uploads_enabled = true;
            return ArgStep::Continue;
        }
        if chars_eq_str(&a, "--help") || chars_eq_str(&a, "-h") {
            return ArgStep::Help;
        }
        if let Some(v) = strip_prefix_str(&a, "--port=") {
            let v = string_of(&v);
            return self.apply_value(ArgFlag::Port, v.as_str());
        }
        if let Some(v) = strip_prefix_str(&a, "--root=") {
            let v = string_of(&v);
            return self.apply_value(ArgFlag::Root, v.as_str());
        }
        if let Some(v) = strip_prefix_str(&a, "--bind=") {
            let v = string_of(&v);
            return self.apply_value(ArgFlag::Bind, v.as_str());
        }
        if let Some(v) = strip_prefix_str(&a, "--workers=") {
            let v = string_of(&v);
            return self.apply_value(ArgFlag::Workers, v.as_str());
        }
        if let Some(v) = strip_prefix_str(&a, "--queue=") {
            let v = string_of(&v);
            return self.apply_value(ArgFlag::Queue, v.as_str());
        }
        self.root = Some(own(arg));
        ArgStep::Continue
    }

    /// The settings once every argument is read; refused when an option still
    /// waits for its value. The worker count is at most `MAX_WORKERS`; the queue
    /// is the one given, else sixteen per worker (at least 256), at most
    /// `MAX_QUEUE_SIZE`.
    pub fn finish(self) -> (r: Result<Config, ArgsError>)
        ensures
            self.pending matches Some(f) ==> (r matches Err(ArgsError::MissingValue(g)) && g == f),
            self.pending is None ==> (r matches Ok(c) && {
                &&& opt_str(c.root) == opt_str(self.root)
                &&& c.port == self.port
                &&& c.bind@ == self.bind@
                &&& c.uploads_enabled == self.uploads_enabled
                &&& c.workers == (if self.workers > MAX_WORKERS {
                    MAX_WORKERS
                } else {
                    self.workers
                })
                &&& c.queue_size == (match self.queue_size {
                    Some(q) => if q > MAX_QUEUE_SIZE {
                        MAX_QUEUE_SIZE
                    } else {
                        q
                    },
                    None => if self.workers * 16 > MAX_QUEUE_SIZE {
                        MAX_QUEUE_SIZE
                    } else if self.workers * 16 < 256 {
                        256
                    } else {
                        (self.workers * 16) as usize
                    },
                })
            }),
    {
        if let Some(f) = self.pending {
            return Err(ArgsError::MissingValue(f));
        }
        let queue_size = match self.queue_size {
            Some(q) => if q > MAX_QUEUE_SIZE {
                MAX_QUEUE_SIZE
            } else {
                q
            },
            None => default_queue_size(self.workers),
        };
        let workers = if self.workers > MAX_WORKERS {
            MAX_WORKERS
        } else {
            self.workers
        };
        Ok(
            Config {
                root: self.root,
                port: self.port,
                bind: self.bind,
                uploads_enabled: self.uploads_enabled,
                workers,
                queue_size,
            },
        )
    }
}

/// Without options, the server runs 64 to 128 workers, and its queue holds at
/// least 256 and at most `MAX_QUEUE_SIZE` requests; from eight processors on,
/// that is 128 workers and a queue of 2048.
pub proof fn law_default_sizes(cpus: nat, workers: nat)
    ensures
        64 <= default_workers_spec(cpus) <= 128,
        256 <= default_queue_spec(workers) <= MAX_QUEUE_SIZE,
        cpus >= 8 ==> default_workers_spec(cpus) == 128 && default_queue_spec(
            default_workers_spec(cpus),
        ) == 2048,
{
}

proof fn lemma_dedup(s: Seq<u16>)
    ensures
        forall|i: int, j: int| 0 <= i < j < dedup(s).len() ==> dedup(s)[i] != dedup(s)[j],
        forall|x: u16| dedup(s).contains(x) <==> s.contains(x),
        s.len() > 0 ==> dedup(s).len() > 0 && dedup(s)[0] == s[0],
    decreases s.len(),
{
    if s.len() > 0 {
        let init = s.drop_last();
        lemma_dedup(init);
        let d = dedup(init);
        assert forall|x: u16| s.contains(x) <==> (init.contains(x) || x == s.last()) by {
            if s.contains(x) {
                let k = choose|k: int| 0 <= k < s.len() && s[k] == x;
                if k < s.len() - 1 {
                    assert(init[k] == x);
                }
            }
            if init.contains(x) {
                let k = choose|k: int| 0 <= k < init.len() && init[k] == x;
                assert(s[k] == x);
            }
            if x == s.last() {
                assert(s[s.len() - 1] == x);
            }
        }
        if !d.contains(s.last()) {
            let e = d.push(s.last());
            assert forall|x: u16| e.contains(x) <==> (d.contains(x) || x == s.last()) by {
                if e.contains(x) {
                    let k = choose|k: int| 0 <= k < e.len() && e[k] == x;
                    if k < d.len() {
                        assert(d[k] == x);
                    }
                }
                if d.contains(x) {
                    let k = choose|k: int| 0 <= k < d.len() && d[k] == x;
                    assert(e[k] == x);
                }
                if x == s.last() {
                    assert(e[d.len() as int] == x);
                }
            }
        }
        if init.len() == 0 {
            assert(d =~= Seq::<u16>::empty());
        }
    }
}

/// The listener tries the preferred port first, and then each fallback port
/// at most once.
pub proof fn law_port_candidates(preferred: u16)
    ensures
        dedup(port_candidates(preferred))[0] == preferred,
        forall|i: int, j: int|
            0 <= i < j < dedup(port_candidates(preferred)).len() ==> dedup(
                port_candidates(preferred),
            )[i] != dedup(port_candidates(preferred))[j],
        forall|p: u16|
            dedup(port_candidates(preferred)).contains(p) <==> port_candidates(preferred).contains(p),
{
    lemma_dedup(port_candidates(preferred));
}

/// The settings that the command line read so far holds: root, port, bind
/// address, uploads, worker count, queue length.
pub open spec fn parser_settings(p: ArgsParser) -> (Option<Seq<char>>, u16, Seq<char>, bool, usize, Option<usize>) {
    (opt_str(p.root), p.port, p.bind@, p.uploads_enabled, p.workers, p.queue_size)
}

/// An option followed by its value sets that one setting and leaves every
/// other as it was: `-p`/`--port` the port (a number up to 65535), `--root`
/// the root, `--bind` the bind address (to be checked), `--workers` the worker
/// count and `--queue` the queue length (each a number from 1 to its limit; any
/// other value refuses the command line).
pub proof fn law_option_then_value(
    p0: ArgsParser,
    p1: ArgsParser,
    p2: ArgsParser,
    r1: ArgStep,
    r2: ArgStep,
    name: Seq<char>,
    value: Seq<char>,
)
    requires
        p0.pending is None,
        arg_fed(p0, p1, name, r1),
        arg_fed(p1, p2, value, r2),
    ensures
        ({
            let (root, port, bind, uploads, workers, queue) = parser_settings(p0);
            &&& (name == "-p"@ || name == "--port"@) ==> r1 is Continue && (parse_unsigned(value, 65535) matches Some(v)
                ==> parser_settings(p2) == (root, v as u16, bind, uploads, workers, queue) && r2 is Continue)
            &&& name == "--root"@ ==> r1 is Continue && parser_settings(p2) == (Some(value), port, bind, uploads, workers, queue)
                && r2 is Continue
            &&& name == "--bind"@ ==> r1 is Continue && parser_settings(p2) == (root, port, value, uploads, workers, queue)
                && (r2 matches ArgStep::CheckBind(b) && b@ == value)
            &&& name == "--workers"@ ==> r1 is Continue && (match parse_unsigned(value, usize::MAX as nat) {
                Some(v) if 1 <= v <= MAX_WORKERS => parser_settings(p2) == (root, port, bind, uploads, v as usize, queue)
                    && r2 is Continue,
                _ => r2 is Failed,
            })
            &&& name == "--queue"@ ==> r1 is Continue && (match parse_unsigned(value, usize::MAX as nat) {
                Some(v) if 1 <= v <= MAX_QUEUE_SIZE => parser_settings(p2) == (root, port, bind, uploads, workers, Some(
                    v as usize,
                )) && r2 is Continue,
                _ => r2 is Failed,
            })
            &&& (name == "-p"@ || name == "--port"@ || name == "--root"@ || name == "--bind"@ || name == "--workers"@
                || name == "--queue"@) ==> p2.pending is None
        }),
{
    reveal_strlit("-p");
    reveal_strlit("--port");
    reveal_strlit("--root");
    reveal_strlit("--bind");
    reveal_strlit("--workers");
    reveal_strlit("--queue");
    reveal_strlit("--no-upload");
    reveal_strlit("--no-uploads");
    reveal_strlit("--uploads");
    reveal_strlit("--help");
    reveal_strlit("-h");
    reveal_strlit("--port=");
    reveal_strlit("--root=");
    reveal_strlit("--bind=");
    reveal_strlit("--workers=");
    reveal_strlit("--queue=");
    assert("-p"@.len() == 2 && "-p"@[0] == '-' && "-p"@[1] == 'p');
    assert("--port"@.len() == 6 && "--port"@[0] == '-' && "--port"@[1] == '-' && "--port"@[2] == 'p' && "--port"@[3] == 'o' && "--port"@[4] == 'r' && "--port"@[5] == 't');
    assert("--root"@.len() == 6 && "--root"@[0] == '-' && "--root"@[1] == '-' && "--root"@[2] == 'r' && "--root"@[3] == 'o' && "--root"@[4] == 'o' && "--root"@[5] == 't');
    assert("--bind"@.len() == 6 && "--bind"@[0] == '-' && "--bind"@[1] == '-' && "--bind"@[2] == 'b' && "--bind"@[3] == 'i' && "--bind"@[4] == 'n' && "--bind"@[5] == 'd');
    assert("--workers"@.len() == 9 && "--workers"@[0] == '-' && "--workers"@[1] == '-' && "--workers"@[2] == 'w' && "--workers"@[3] == 'o' && "--workers"@[4] == 'r' && "--workers"@[5] == 'k' && "--workers"@[6] == 'e' && "--workers"@[7] == 'r' && "--workers"@[8] == 's');
    assert("--queue"@.len() == 7 && "--queue"@[0] == '-' && "--queue"@[1] == '-' && "--queue"@[2] == 'q' && "--queue"@[3] == 'u' && "--queue"@[4] == 'e' && "--queue"@[5] == 'u' && "--queue"@[6] == 'e');
    assert("--no-upload"@.len() == 11 && "--no-upload"@[0] == '-' && "--no-upload"@[1] == '-' && "--no-upload"@[2] == 'n' && "--no-upload"@[3] == 'o' && "--no-upload"@[4] == '-' && "--no-upload"@[5] == 'u' && "--no-upload"@[6] == 'p' && "--no-upload"@[7] == 'l' && "--no-upload"@[8] == 'o' && "--no-upload"@[9] == 'a' && "--no-upload"@[10] == 'd');
    assert("--no-uploads"@.len() == 12 && "--no-uploads"@[0] == '-' && "--no-uploads"@[1] == '-' && "--no-uploads"@[2] == 'n' && "--no-uploads"@[3] == 'o' && "--no-uploads"@[4] == '-' && "--no-uploads"@[5] == 'u' && "--no-uploads"@[6] == 'p' && "--no-uploads"@[7] == 'l' && "--no-uploads"@[8] == 'o' && "--no-uploads"@[9] == 'a' && "--no-uploads"@[10] == 'd' && "--no-uploads"@[11] == 's');
    assert("--uploads"@.len() == 9 && "--uploads"@[0] == '-' && "--uploads"@[1] == '-' && "--uploads"@[2] == 'u' && "--uploads"@[3] == 'p' && "--uploads"@[4] == 'l' && "--uploads"@[5] == 'o' && "--uploads"@[6] == 'a' && "--uploads"@[7] == 'd' && "--uploads"@[8] == 's');
    assert("--help"@.len() == 6 && "--help"@[0] == '-' && "--help"@[1] == '-' && "--help"@[2] == 'h' && "--help"@[3] == 'e' && "--help"@[4] == 'l' && "--help"@[5] == 'p');
    assert("-h"@.len() == 2 && "-h"@[0] == '-' && "-h"@[1] == 'h');
    assert("--port="@.len() == 7 && "--port="@[0] == '-' && "--port="@[1] == '-' && "--port="@[2] == 'p' && "--port="@[3] == 'o' && "--port="@[4] == 'r' && "--port="@[5] == 't' && "--port="@[6] == '=');
    assert("--root="@.len() == 7 && "--root="@[0] == '-' && "--root="@[1] == '-' && "--root="@[2] == 'r' && "--root="@[3] == 'o' && "--root="@[4] == 'o' && "--root="@[5] == 't' && "--root="@[6] == '=');
    assert("--bind="@.len() == 7 && "--bind="@[0] == '-' && "--bind="@[1] == '-' && "--bind="@[2] == 'b' && "--bind="@[3] == 'i' && "--bind="@[4] == 'n' && "--bind="@[5] == 'd' && "--bind="@[6] == '=');
    assert("--workers="@.len() == 10 && "--workers="@[0] == '-' && "--workers="@[1] == '-' && "--workers="@[2] == 'w' && "--workers="@[3] == 'o' && "--workers="@[4] == 'r' && "--workers="@[5] == 'k' && "--workers="@[6] == 'e' && "--workers="@[7] == 'r' && "--workers="@[8] == 's' && "--workers="@[9] == '=');
    assert("--queue="@.len() == 8 && "--queue="@[0] == '-' && "--queue="@[1] == '-' && "--queue="@[2] == 'q' && "--queue="@[3] == 'u' && "--queue="@[4] == 'e' && "--queue="@[5] == 'u' && "--queue="@[6] == 'e' && "--queue="@[7] == '=');
}

/// An option written `--name=value` sets that one setting and leaves every
/// other as it was, as the option followed by its value does.
pub proof fn law_inline_option(p0: ArgsParser, p1: ArgsParser, r: ArgStep, name: Seq<char>, value: Seq<char>)
    requires
        p0.pending is None,
        arg_fed(p0, p1, name + seq!['='] + value, r),
    ensures
        ({
            let (root, port, bind, uploads, workers, queue) = parser_settings(p0);
            &&& name == "--port"@ ==> (parse_unsigned(value, 65535) matches Some(v) ==> parser_settings(p1) == (
                root,
                v as u16,
                bind,
                uploads,
                workers,
                queue,
            ) && r is Continue)
            &&& name == "--root"@ ==> parser_settings(p1) == (Some(value), port, bind, uploads, workers, queue)
                && r is Continue
            &&& name == "--bind"@ ==> parser_settings(p1) == (root, port, value, uploads, workers, queue) && (r matches ArgStep::CheckBind(
                b,
            ) && b@ == value)
            &&& name == "--workers"@ ==> (match parse_unsigned(value, usize::MAX as nat) {
                Some(v) if 1 <= v <= MAX_WORKERS => parser_settings(p1) == (root, port, bind, uploads, v as usize, queue)
                    && r is Continue,
                _ => r is Failed,
            })
            &&& name == "--queue"@ ==> (match parse_unsigned(value, usize::MAX as nat) {
                Some(v) if 1 <= v <= MAX_QUEUE_SIZE => parser_settings(p1) == (root, port, bind, uploads, workers, Some(
                    v as usize,
                )) && r is Continue,
                _ => r is Failed,
            })
        }),
{
    reveal_strlit("-p");
    reveal_strlit("--port");
    reveal_strlit("--root");
    reveal_strlit("--bind");
    reveal_strlit("--workers");
    reveal_strlit("--queue");
    reveal_strlit("--no-upload");
    reveal_strlit("--no-uploads");
    reveal_strlit("--uploads");
    reveal_strlit("--help");
    reveal_strlit("-h");
    reveal_strlit("--port=");
    reveal_strlit("--root=");
    reveal_strlit("--bind=");
    reveal_strlit("--workers=");
    reveal_strlit("--queue=");
    assert("-p"@.len() == 2 && "-p"@[0] == '-' && "-p"@[1] == 'p');
    assert("--port"@.len() == 6 && "--port"@[0] == '-' && "--port"@[1] == '-' && "--port"@[2] == 'p' && "--port"@[3] == 'o' && "--port"@[4] == 'r' && "--port"@[5] == 't');
    assert("--root"@.len() == 6 && "--root"@[0] == '-' && "--root"@[1] == '-' && "--root"@[2] == 'r' && "--root"@[3] == 'o' && "--root"@[4] == 'o' && "--root"@[5] == 't');
    assert("--bind"@.len() == 6 && "--bind"@[0] == '-' && "--bind"@[1] == '-' && "--bind"@[2] == 'b' && "--bind"@[3] == 'i' && "--bind"@[4] == 'n' && "--bind"@[5] == 'd');
    assert("--workers"@.len() == 9 && "--workers"@[0] == '-' && "--workers"@[1] == '-' && "--workers"@[2] == 'w' && "--workers"@[3] == 'o' && "--workers"@[4] == 'r' && "--workers"@[5] == 'k' && "--workers"@[6] == 'e' && "--workers"@[7] == 'r' && "--workers"@[8] == 's');
    assert("--queue"@.len() == 7 && "--queue"@[0] == '-' && "--queue"@[1] == '-' && "--queue"@[2] == 'q' && "--queue"@[3] == 'u' && "--queue"@[4] == 'e' && "--queue"@[5] == 'u' && "--queue"@[6] == 'e');
    assert("--no-upload"@.len() == 11 && "--no-upload"@[0] == '-' && "--no-upload"@[1] == '-' && "--no-upload"@[2] == 'n' && "--no-upload"@[3] == 'o' && "--no-upload"@[4] == '-' && "--no-upload"@[5] == 'u' && "--no-upload"@[6] == 'p' && "--no-upload"@[7] == 'l' && "--no-upload"@[8] == 'o' && "--no-upload"@[9] == 'a' && "--no-upload"@[10] == 'd');
    assert("--no-uploads"@.len() == 12 && "--no-uploads"@[0] == '-' && "--no-uploads"@[1] == '-' && "--no-uploads"@[2] == 'n' && "--no-uploads"@[3] == 'o' && "--no-uploads"@[4] == '-' && "--no-uploads"@[5] == 'u' && "--no-uploads"@[6] == 'p' && "--no-uploads"@[7] == 'l' && "--no-uploads"@[8] == 'o' && "--no-uploads"@[9] == 'a' && "--no-uploads"@[10] == 'd' && "--no-uploads"@[11] == 's');
    assert("--uploads"@.len() == 9 && "--uploads"@[0] == '-' && "--uploads"@[1] == '-' && "--uploads"@[2] == 'u' && "--uploads"@[3] == 'p' && "--uploads"@[4] == 'l' && "--uploads"@[5] == 'o' && "--uploads"@[6] == 'a' && "--uploads"@[7] == 'd' && "--uploads"@[8] == 's');
    assert("--help"@.len() == 6 && "--help"@[0] == '-' && "--help"@[1] == '-' && "--help"@[2] == 'h' && "--help"@[3] == 'e' && "--help"@[4] == 'l' && "--help"@[5] == 'p');
    assert("-h"@.len() == 2 && "-h"@[0] == '-' && "-h"@[1] == 'h');
    assert("--port="@.len() == 7 && "--port="@[0] == '-' && "--port="@[1] == '-' && "--port="@[2] == 'p' && "--port="@[3] == 'o' && "--port="@[4] == 'r' && "--port="@[5] == 't' && "--port="@[6] == '=');
    assert("--root="@.len() == 7 && "--root="@[0] == '-' && "--root="@[1] == '-' && "--root="@[2] == 'r' && "--root="@[3] == 'o' && "--root="@[4] == 'o' && "--root="@[5] == 't' && "--root="@[6] == '=');
    assert("--bind="@.len() == 7 && "--bind="@[0] == '-' && "--bind="@[1] == '-' && "--bind="@[2] == 'b' && "--bind="@[3] == 'i' && "--bind="@[4] == 'n' && "--bind="@[5] == 'd' && "--bind="@[6] == '=');
    assert("--workers="@.len() == 10 && "--workers="@[0] == '-' && "--workers="@[1] == '-' && "--workers="@[2] == 'w' && "--workers="@[3] == 'o' && "--workers="@[4] == 'r' && "--workers="@[5] == 'k' && "--workers="@[6] == 'e' && "--workers="@[7] == 'r' && "--workers="@[8] == 's' && "--workers="@[9] == '=');
    assert("--queue="@.len() == 8 && "--queue="@[0] == '-' && "--queue="@[1] == '-' && "--queue="@[2] == 'q' && "--queue="@[3] == 'u' && "--queue="@[4] == 'e' && "--queue="@[5] == 'u' && "--queue="@[6] == 'e' && "--queue="@[7] == '=');
    let arg = name + seq!['='] + value;
    if name == "--port"@ || name == "--root"@ || name == "--bind"@ || name == "--workers"@ || name == "--queue"@ {
        let k = name.len() as int;
        assert(arg.len() > k);
        assert(arg[k] == '=');
        assert(arg[0] == name[0] && arg[1] == name[1] && arg[2] == name[2]);
        assert(arg.subrange(0, k + 1) =~= name + seq!['=']);
        assert(arg.skip(k + 1) =~= value);
        assert(arg.len() > 3 ==> arg[3] == arg[3]);
        assert(arg.len() > 4 ==> arg[4] == arg[4]);
        assert(arg.len() > 5 ==> arg[5] == arg[5]);
        assert(arg.len() > 6 ==> arg[6] == arg[6]);
        assert(arg.len() > 7 ==> arg[7] == arg[7]);
        assert(arg.len() > 8 ==> arg[8] == arg[8]);
        assert(arg.len() > 9 ==> arg[9] == arg[9]);
        assert(arg.len() > 10 ==> arg[10] == arg[10]);
        assert(arg.len() > 11 ==> arg[11] == arg[11]);
        assert(option_flag(arg) is None);
        assert(arg != "--no-upload"@ && arg != "--no-uploads"@ && arg != "--uploads"@);
        assert(arg != "--help"@ && arg != "-h"@);
        assert("--port"@ + seq!['='] =~= "--port="@);
        assert("--root"@ + seq!['='] =~= "--root="@);
        assert("--bind"@ + seq!['='] =~= "--bind="@);
        assert("--workers"@ + seq!['='] =~= "--workers="@);
        assert("--queue"@ + seq!['='] =~= "--queue="@);
        assert(arg.len() >= 7 ==> arg.subrange(0, 7)[2] == arg[2]);
        assert(arg.len() >= 10 ==> arg.subrange(0, 10)[2] == arg[2]);
        assert(arg.len() >= 8 ==> arg.subrange(0, 8)[2] == arg[2]);
        if name == "--port"@ {
            assert(inline_option(arg) == Some((ArgFlag::Port, value)));
        } else if name == "--root"@ {
            assert(inline_option(arg) == Some((ArgFlag::Root, value)));
        } else if name == "--bind"@ {
            assert(inline_option(arg) == Some((ArgFlag::Bind, value)));
        } else if name == "--workers"@ {
            assert(inline_option(arg) == Some((ArgFlag::Workers, value)));
        } else {
            assert(inline_option(arg) == Some((ArgFlag::Queue, value)));
        }
    }
}

/// `--no-upload` (or `--no-uploads`) turns uploads off and `--uploads` on;
/// `--help` (or `-h`) asks for help; an argument that does not start with `-`
/// is the root. None of them touches another setting.
pub proof fn law_switches(p0: ArgsParser, p1: ArgsParser, r: ArgStep, arg: Seq<char>)
    requires
        p0.pending is None,
        arg_fed(p0, p1, arg, r),
    ensures
        ({
            let (root, port, bind, uploads, workers, queue) = parser_settings(p0);
            &&& (arg == "--no-upload"@ || arg == "--no-uploads"@) ==> parser_settings(p1) == (root, port, bind, false, workers, queue)
                && r is Continue && p1.pending is None
            &&& arg == "--uploads"@ ==> parser_settings(p1) == (root, port, bind, true, workers, queue) && r is Continue
                && p1.pending is None
            &&& (arg == "--help"@ || arg == "-h"@) ==> parser_settings(p1) == parser_settings(p0) && r is Help
            &&& (arg.len() > 0 && arg[0] != '-') ==> parser_settings(p1) == (Some(arg), port, bind, uploads, workers, queue)
                && r is Continue && p1.pending is None
        }),
{
    reveal_strlit("-p");
    reveal_strlit("--port");
    reveal_strlit("--root");
    reveal_strlit("--bind");
    reveal_strlit("--workers");
    reveal_strlit("--queue");
    reveal_strlit("--no-upload");
    reveal_strlit("--no-uploads");
    reveal_strlit("--uploads");
    reveal_strlit("--help");
    reveal_strlit("-h");
    reveal_strlit("--port=");
    reveal_strlit("--root=");
    reveal_strlit("--bind=");
    reveal_strlit("--workers=");
    reveal_strlit("--queue=");
    assert("-p"@.len() == 2 && "-p"@[0] == '-' && "-p"@[1] == 'p');
    assert("--port"@.len() == 6 && "--port"@[0] == '-' && "--port"@[1] == '-' && "--port"@[2] == 'p' && "--port"@[3] == 'o' && "--port"@[4] == 'r' && "--port"@[5] == 't');
    assert("--root"@.len() == 6 && "--root"@[0] == '-' && "--root"@[1] == '-' && "--root"@[2] == 'r' && "--root"@[3] == 'o' && "--root"@[4] == 'o' && "--root"@[5] == 't');
    assert("--bind"@.len() == 6 && "--bind"@[0] == '-' && "--bind"@[1] == '-' && "--bind"@[2] == 'b' && "--bind"@[3] == 'i' && "--bind"@[4] == 'n' && "--bind"@[5] == 'd');
    assert("--workers"@.len() == 9 && "--workers"@[0] == '-' && "--workers"@[1] == '-' && "--workers"@[2] == 'w' && "--workers"@[3] == 'o' && "--workers"@[4] == 'r' && "--workers"@[5] == 'k' && "--workers"@[6] == 'e' && "--workers"@[7] == 'r' && "--workers"@[8] == 's');
    assert("--queue"@.len() == 7 && "--queue"@[0] == '-' && "--queue"@[1] == '-' && "--queue"@[2] == 'q' && "--queue"@[3] == 'u' && "--queue"@[4] == 'e' && "--queue"@[5] == 'u' && "--queue"@[6] == 'e');
    assert("--no-upload"@.len() == 11 && "--no-upload"@[0] == '-' && "--no-upload"@[1] == '-' && "--no-upload"@[2] == 'n' && "--no-upload"@[3] == 'o' && "--no-upload"@[4] == '-' && "--no-upload"@[5] == 'u' && "--no-upload"@[6] == 'p' && "--no-upload"@[7] == 'l' && "--no-upload"@[8] == 'o' && "--no-upload"@[9] == 'a' && "--no-upload"@[10] == 'd');
    assert("--no-uploads"@.len() == 12 && "--no-uploads"@[0] == '-' && "--no-uploads"@[1] == '-' && "--no-uploads"@[2] == 'n' && "--no-uploads"@[3] == 'o' && "--no-uploads"@[4] == '-' && "--no-uploads"@[5] == 'u' && "--no-uploads"@[6] == 'p' && "--no-uploads"@[7] == 'l' && "--no-uploads"@[8] == 'o' && "--no-uploads"@[9] == 'a' && "--no-uploads"@[10] == 'd' && "--no-uploads"@[11] == 's');
    assert("--uploads"@.len() == 9 && "--uploads"@[0] == '-' && "--uploads"@[1] == '-' && "--uploads"@[2] == 'u' && "--uploads"@[3] == 'p' && "--uploads"@[4] == 'l' && "--uploads"@[5] == 'o' && "--uploads"@[6] == 'a' && "--uploads"@[7] == 'd' && "--uploads"@[8] == 's');
    assert("--help"@.len() == 6 && "--help"@[0] == '-' && "--help"@[1] == '-' && "--help"@[2] == 'h' && "--help"@[3] == 'e' && "--help"@[4] == 'l' && "--help"@[5] == 'p');
    assert("-h"@.len() == 2 && "-h"@[0] == '-' && "-h"@[1] == 'h');
    assert("--port="@.len() == 7 && "--port="@[0] == '-' && "--port="@[1] == '-' && "--port="@[2] == 'p' && "--port="@[3] == 'o' && "--port="@[4] == 'r' && "--port="@[5] == 't' && "--port="@[6] == '=');
    assert("--root="@.len() == 7 && "--root="@[0] == '-' && "--root="@[1] == '-' && "--root="@[2] == 'r' && "--root="@[3] == 'o' && "--root="@[4] == 'o' && "--root="@[5] == 't' && "--root="@[6] == '=');
    assert("--bind="@.len() == 7 && "--bind="@[0] == '-' && "--bind="@[1] == '-' && "--bind="@[2] == 'b' && "--bind="@[3] == 'i' && "--bind="@[4] == 'n' && "--bind="@[5] == 'd' && "--bind="@[6] == '=');
    assert("--workers="@.len() == 10 && "--workers="@[0] == '-' && "--workers="@[1] == '-' && "--workers="@[2] == 'w' && "--workers="@[3] == 'o' && "--workers="@[4] == 'r' && "--workers="@[5] == 'k' && "--workers="@[6] == 'e' && "--workers="@[7] == 'r' && "--workers="@[8] == 's' && "--workers="@[9] == '=');
    assert("--queue="@.len() == 8 && "--queue="@[0] == '-' && "--queue="@[1] == '-' && "--queue="@[2] == 'q' && "--queue="@[3] == 'u' && "--queue="@[4] == 'e' && "--queue="@[5] == 'u' && "--queue="@[6] == 'e' && "--queue="@[7] == '=');
    if arg.len() > 0 && arg[0] != '-' {
        assert(arg.len() >= 7 ==> arg.subrange(0, 7)[0] == arg[0]);
        assert(arg.len() >= 8 ==> arg.subrange(0, 8)[0] == arg[0]);
        assert(arg.len() >= 10 ==> arg.subrange(0, 10)[0] == arg[0]);
        assert(option_flag(arg) is None);
        assert(inline_option(arg) is None);
    }
}

} // verus!
