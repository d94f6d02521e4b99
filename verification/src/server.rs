//! Service-level pieces of the HTTP server that are pure logic: the metrics
//! exposition text, the backup schedule, duration parsing for configuration,
//! and the off-site upload command line.

use vstd::prelude::*;

use crate::query::{parse_u64, parse_u64_chars};
use crate::index::{index_kind_of, IndexKind};
use crate::text::{
    chars_eq, lower, lower_chars, push_char, split_ws, str_chars, str_eq, str_views, trim, trim_chars, ws_words,
};
use crate::util::{dec_digits, push_digits};

verus! {

/// Backup schedule (runtime-adjustable via the API).
#[derive(Debug, Clone, Copy, PartialEq, Eq, Structural)]
pub struct ScheduleConfig {
    /// Whether scheduled backups run.
    pub enabled: bool,
    /// Base cadence in seconds between scheduled backups.
    pub interval_secs: u64,
    /// Every Nth scheduled backup is a full; the rest are differentials.
    pub full_every: u32,
    /// How many full backups (and their differentials) to retain.
    pub keep_fulls: usize,
}

/// A snapshot of the in-process counters exposed at `/metrics`.
#[derive(Debug, Clone, Copy, PartialEq, Eq, Structural)]
pub struct Metrics {
    pub search_total: u64,
    pub search_latency_ms_total: u64,
    pub search_rejected_total: u64,
    pub ingest_total: u64,
    pub ingest_duplicate_total: u64,
}

/// The Prometheus text exposition of the counters.
pub open spec fn render_spec(m: Metrics) -> Seq<char> {
    "# HELP nucleus_search_total Total search requests served.\n"@
        + "# TYPE nucleus_search_total counter\n"@
        + "nucleus_search_total "@ + dec_digits(m.search_total as nat) + "\n"@
        + "# HELP nucleus_search_latency_ms_total Cumulative search latency in ms.\n"@
        + "# TYPE nucleus_search_latency_ms_total counter\n"@
        + "nucleus_search_latency_ms_total "@ + dec_digits(m.search_latency_ms_total as nat) + "\n"@
        + "# HELP nucleus_search_rejected_total Searches shed because the server was at capacity.\n"@
        + "# TYPE nucleus_search_rejected_total counter\n"@
        + "nucleus_search_rejected_total "@ + dec_digits(m.search_rejected_total as nat) + "\n"@
        + "# HELP nucleus_ingest_total Documents accepted for ingestion.\n"@
        + "# TYPE nucleus_ingest_total counter\n"@
        + "nucleus_ingest_total "@ + dec_digits(m.ingest_total as nat) + "\n"@
        + "# HELP nucleus_ingest_duplicate_total Ingestions skipped as duplicates.\n"@
        + "# TYPE nucleus_ingest_duplicate_total counter\n"@
        + "nucleus_ingest_duplicate_total "@ + dec_digits(m.ingest_duplicate_total as nat) + "\n"@
}

impl Metrics {
    /// All counters at zero.
    pub fn new() -> (r: Self)
        ensures
            r.search_total == 0,
            r.search_latency_ms_total == 0,
            r.search_rejected_total == 0,
            r.ingest_total == 0,
            r.ingest_duplicate_total == 0,
    {
        Metrics {
            search_total: 0,
            search_latency_ms_total: 0,
            search_rejected_total: 0,
            ingest_total: 0,
            ingest_duplicate_total: 0,
        }
    }

    /// Render the counters in the Prometheus text format.
    pub fn render(&self) -> (r: String)
        ensures r@ == render_spec(*self),
    {
        let mut s = String::new();
        s.append("# HELP nucleus_search_total Total search requests served.\n");
        s.append("# TYPE nucleus_search_total counter\n");
        s.append("nucleus_search_total ");
        push_digits(&mut s, self.search_total);
        s.append("\n");
        s.append("# HELP nucleus_search_latency_ms_total Cumulative search latency in ms.\n");
        s.append("# TYPE nucleus_search_latency_ms_total counter\n");
        s.append("nucleus_search_latency_ms_total ");
        push_digits(&mut s, self.search_latency_ms_total);
        s.append("\n");
        s.append("# HELP nucleus_search_rejected_total Searches shed because the server was at capacity.\n");
        s.append("# TYPE nucleus_search_rejected_total counter\n");
        s.append("nucleus_search_rejected_total ");
        push_digits(&mut s, self.search_rejected_total);
        s.append("\n");
        s.append("# HELP nucleus_ingest_total Documents accepted for ingestion.\n");
        s.append("# TYPE nucleus_ingest_total counter\n");
        s.append("nucleus_ingest_total ");
        push_digits(&mut s, self.ingest_total);
        s.append("\n");
        s.append("# HELP nucleus_ingest_duplicate_total Ingestions skipped as duplicates.\n");
        s.append("# TYPE nucleus_ingest_duplicate_total counter\n");
        s.append("nucleus_ingest_duplicate_total ");
        push_digits(&mut s, self.ingest_duplicate_total);
        s.append("\n");
        s
    }
}

/// The seconds a configured duration denotes: a number followed by `s`, `m`,
/// `h`, `d` or `w` (or a bare number of seconds), surrounding whitespace
/// ignored; `None` for anything else.
pub open spec fn duration_spec(s: Seq<char>) -> Option<int> {
    let t = trim(s);
    if t.len() == 0 {
        None
    } else {
        let c = t.last();
        let mult: int = if c == 's' {
            1
        } else if c == 'm' {
            60
        } else if c == 'h' {
            3600
        } else if c == 'd' {
            86_400
        } else if c == 'w' {
            604_800
        } else if '0' <= c && c <= '9' {
            1
        } else {
            0
        };
        let num = if '0' <= c && c <= '9' { t } else { t.drop_last() };
        if mult == 0 {
            None
        } else {
            match parse_u64(trim(num)) {
                Some(n) => Some(n * mult),
                None => None,
            }
        }
    }
}

/// The count and the unit (in seconds) a duration text is made of, when it
/// is one (see `duration_spec`).
fn duration_parts(s: &str) -> (r: Option<(u64, u64)>)
    ensures
        match duration_spec(s@) {
            Some(v) => r matches Some(p) && v == p.0 * p.1,
            None => r is None,
        },
{
    let cs = str_chars(s);
    let t = trim_chars(cs.as_slice());
    if t.len() == 0 {
        return None;
    }
    let c = t[t.len() - 1];
    let mult: u64 = if c == 's' {
        1
    } else if c == 'm' {
        60
    } else if c == 'h' {
        3600
    } else if c == 'd' {
        86_400
    } else if c == 'w' {
        604_800
    } else if '0' <= c && c <= '9' {
        1
    } else {
        return None;
    };
    let end = if '0' <= c && c <= '9' { t.len() } else { t.len() - 1 };
    let mut num: Vec<char> = Vec::new();
    let mut i: usize = 0;
    while i < end
        invariant
            i <= end <= t@.len(),
            num@ == t@.take(i as int),
        decreases end - i,
    {
        num.push(t[i]);
        i = i + 1;
        assert(num@ =~= t@.take(i as int));
    }
    assert(num@ =~= if '0' <= c && c <= '9' { t@ } else { t@.drop_last() });
    let digits = trim_chars(num.as_slice());
    match parse_u64_chars(&digits) {
        Some(n) => Some((n, mult)),
        None => None,
    }
}

/// Parse a duration like `30s`, `15m`, `6h`, `1d`, `2w` (or a bare number of
/// seconds) into seconds. A count whose seconds exceed `u64` is outside the
/// inputs accepted (see `duration_fits`).
pub fn parse_duration_secs(s: &str) -> (r: Option<u64>)
    requires duration_spec(s@) matches Some(v) ==> v <= u64::MAX,
    ensures
        match duration_spec(s@) {
            Some(v) => r == Some(v as u64),
            None => r is None,
        },
{
    match duration_parts(s) {
        Some((n, mult)) => Some(n * mult),
        None => None,
    }
}

/// Whether `parse_duration_secs` accepts `s`: it is no duration, or one whose
/// seconds fit in `u64`.
pub fn duration_fits(s: &str) -> (r: bool)
    ensures r == (duration_spec(s@) matches Some(v) ==> v <= u64::MAX),
{
    match duration_parts(s) {
        Some((n, mult)) => n.checked_mul(mult).is_some(),
        None => true,
    }
}


/// The client a forwarded request names: the first `X-Forwarded-For` hop,
/// trimmed, when it is not empty.
pub open spec fn forwarded_spec(header: Seq<char>) -> Option<Seq<char>> {
    let first = match first_comma(header, 0) {
        Some(k) => header.take(k),
        None => header,
    };
    if trim(first).len() > 0 { Some(trim(first)) } else { None }
}

/// The first comma of `s` at or after `i`.
pub open spec fn first_comma(s: Seq<char>, i: int) -> Option<int>
    decreases s.len() - i,
{
    if i < 0 || i >= s.len() {
        None
    } else if s[i] == ',' {
        Some(i)
    } else {
        first_comma(s, i + 1)
    }
}

/// The client key from an `X-Forwarded-For` header value: its first hop,
/// trimmed, unless that is empty.
pub fn forwarded_client(header: &str) -> (r: Option<String>)
    ensures
        match forwarded_spec(header@) {
            None => r is None,
            Some(k) => r matches Some(s) && s@ == k,
        },
{
    let cs = str_chars(header);
    let mut i: usize = 0;
    while i < cs.len() && cs[i] != ','
        invariant
            i <= cs@.len(),
            cs@ == header@,
            first_comma(cs@, 0) == first_comma(cs@, i as int),
        decreases cs.len() - i,
    {
        i = i + 1;
    }
    let mut first: Vec<char> = Vec::new();
    let mut k: usize = 0;
    while k < i
        invariant
            k <= i <= cs@.len(),
            first@ == cs@.take(k as int),
        decreases i - k,
    {
        first.push(cs[k]);
        k = k + 1;
        assert(first@ =~= cs@.take(k as int));
    }
    assert(first@ =~= match first_comma(cs@, 0) {
        Some(k) => cs@.take(k),
        None => cs@,
    });
    let t = trim_chars(first.as_slice());
    if t.len() > 0 {
        Some(crate::text::string_from_chars(t.as_slice()))
    } else {
        None
    }
}

/// Raw configuration values as read from the environment (`None` = unset).
pub struct ConfigVars {
    /// `NUCLEUS_DB`
    pub db: Option<String>,
    /// `NUCLEUS_INDEX_DIR`
    pub index_dir: Option<String>,
    /// `NUCLEUS_ADMIN_TOKEN_FILE`
    pub admin_token_file: Option<String>,
    /// `NUCLEUS_BACKUP_DIR`
    pub backup_dir: Option<String>,
    /// `NUCLEUS_ADDR`
    pub addr: Option<String>,
    /// `NUCLEUS_WORKERS`
    pub workers: Option<String>,
    /// `NUCLEUS_MODEL_CACHE`
    pub model_cache: Option<String>,
    /// `NUCLEUS_INDEX`
    pub index: Option<String>,
    /// `NUCLEUS_GPU`
    pub gpu: Option<String>,
    /// `NUCLEUS_CORS_ANY`
    pub cors_any: Option<String>,
    /// `NUCLEUS_RERANK_MODEL`
    pub rerank_model: Option<String>,
    /// `NUCLEUS_RERANK_CANDIDATES`
    pub rerank_candidates: Option<String>,
    /// `NUCLEUS_MAX_CONCURRENT_SEARCHES`
    pub max_concurrent_searches: Option<String>,
    /// `NUCLEUS_SEARCH_WAIT_MS`
    pub search_wait_ms: Option<String>,
    /// `NUCLEUS_EMBED_BATCH_MAX`
    pub embed_batch_max: Option<String>,
    /// `NUCLEUS_EMBED_BATCH_WINDOW_MS`
    pub embed_batch_window_ms: Option<String>,
    /// `NUCLEUS_BACKUP_INTERVAL`
    pub backup_interval: Option<String>,
    /// `NUCLEUS_BACKUP_FULL_EVERY`
    pub backup_full_every: Option<String>,
    /// `NUCLEUS_BACKUP_KEEP`
    pub backup_keep: Option<String>,
}

/// Server configuration, with its defaults applied.
pub struct Config {
    pub db_path: String,
    pub addr: String,
    pub workers: usize,
    pub model_cache: Option<String>,
    pub index_kind: IndexKind,
    pub gpu: bool,
    pub index_dir: String,
    /// Where the bootstrap admin token is written (kept out of logs).
    pub admin_token_file: String,
    /// Allow any CORS origin (for browser clients). Off by default.
    pub cors_any: bool,
    /// Cross-encoder reranker model id; `None` disables reranking.
    pub rerank_model: Option<String>,
    /// How many top candidates the reranker re-scores per query (when enabled).
    pub rerank_candidates: Option<usize>,
    /// Max concurrent searches before shedding.
    pub max_concurrent_searches: usize,
    /// How long a search waits for a concurrency permit before a 503.
    pub search_wait_ms: u64,
    /// Max query embeddings coalesced into one inference (`1` disables batching).
    pub embed_batch_max: usize,
    /// How long the batcher waits to fill a batch (ms).
    pub embed_batch_window_ms: u64,
    /// Directory where backups are stored.
    pub backup_dir: String,
    /// Scheduled-backup cadence in seconds; `0` disables scheduling.
    pub backup_interval_secs: u64,
    /// Every Nth scheduled backup is a full.
    pub backup_full_every: u32,
    /// How many full backups (and their differentials) to retain.
    pub backup_keep_fulls: usize,
}

/// A configuration number: the value parsed as an unsigned integer no larger
/// than `max`; `None` when unset or unparsable.
pub open spec fn num_var(v: Option<String>, max: int) -> Option<int> {
    match v {
        Some(s) => match parse_u64(s@) {
            Some(n) => if n <= max { Some(n as int) } else { None },
            None => None,
        },
        None => None,
    }
}

/// A configuration switch: set to `1`, `true`, `yes` or `on` (ASCII case ignored).
pub open spec fn flag_var(v: Option<String>) -> bool {
    match v {
        Some(s) => {
            let l = lower(s@);
            l == seq!['1'] || l == seq!['t', 'r', 'u', 'e'] || l == seq!['y', 'e', 's'] || l == seq!['o', 'n']
        },
        None => false,
    }
}

fn num_of(v: &Option<String>, max: u64) -> (r: Option<u64>)
    ensures
        match num_var(*v, max as int) {
            Some(n) => r == Some(n as u64),
            None => r is None,
        },
{
    match v {
        Some(s) => {
            let cs = str_chars(s.as_str());
            match parse_u64_chars(&cs) {
                Some(n) => if n <= max { Some(n) } else { None },
                None => None,
            }
        },
        None => None,
    }
}

fn flag_of(v: &Option<String>) -> (r: bool)
    ensures r == flag_var(*v),
{
    match v {
        Some(s) => {
            let l = lower_chars(s.as_str());
            let one = ['1'];
            assert(one@ == seq!['1']);
            chars_eq(l.as_slice(), &one) || chars_eq(l.as_slice(), &['t', 'r', 'u', 'e'])
                || chars_eq(l.as_slice(), &['y', 'e', 's']) || chars_eq(l.as_slice(), &['o', 'n'])
        },
        None => false,
    }
}

/// A positive configuration number, or the default.
pub open spec fn positive_or(n: Option<int>, default: int) -> int {
    match n {
        Some(x) => if x > 0 { x } else { default },
        None => default,
    }
}

/// Whether `c` separates path components: `/`, and on Windows also `\`.
pub open spec fn is_path_sep(c: char, windows: bool) -> bool {
    c == '/' || (windows && c == '\\')
}

/// Whether `dir` is a bare Windows drive such as `C:`.
pub open spec fn is_bare_drive(dir: Seq<char>) -> bool {
    dir.len() == 2 && dir[1] == ':'
        && (('a' as u32 <= dir[0] as u32 <= 'z' as u32) || ('A' as u32 <= dir[0] as u32 <= 'Z' as u32))
}

/// `dir` joined with the relative file name `name` as `PathBuf::join` does it:
/// a separator goes between them unless `dir` is empty, already ends in one,
/// or (on Windows) is a bare drive.
pub open spec fn join_path_spec(dir: Seq<char>, name: Seq<char>, windows: bool) -> Seq<char> {
    if dir.len() == 0 || is_path_sep(dir.last(), windows) || (windows && is_bare_drive(dir)) {
        dir + name
    } else {
        dir + seq![if windows { '\\' } else { '/' }] + name
    }
}

/// The data directory used when `NUCLEUS_DB` is unset: the platform's own
/// (`%ProgramData%\Nucleus` on Windows, handed in as `windows_dir`), else
/// `/var/lib/nucleus`.
pub open spec fn data_dir_spec(windows_dir: Option<String>) -> Seq<char> {
    match windows_dir {
        Some(d) => d@,
        None => "/var/lib/nucleus"@,
    }
}

/// The database path: `NUCLEUS_DB`, else `nucleus.redb` in the data directory.
pub open spec fn db_path_spec(db: Option<String>, windows_dir: Option<String>) -> Seq<char> {
    match db {
        Some(p) => p@,
        None => join_path_spec(data_dir_spec(windows_dir), "nucleus.redb"@, windows_dir is Some),
    }
}

/// A file that lives beside the database unless its variable names it: in the
/// database's directory (the data directory for the default database,
/// `db_parent` for a given one), or under the bare name where that directory
/// is unknown or empty.
pub open spec fn beside_spec(
    var: Option<String>,
    db: Option<String>,
    windows_dir: Option<String>,
    db_parent: Option<String>,
    name: Seq<char>,
) -> Seq<char> {
    match var {
        Some(p) => p@,
        None => {
            let dir = match db {
                None => Some(data_dir_spec(windows_dir)),
                Some(_) => match db_parent { Some(d) => Some(d@), None => None },
            };
            match dir {
                Some(d) => if d.len() > 0 { join_path_spec(d, name, windows_dir is Some) } else { name },
                None => name,
            }
        },
    }
}

fn join_path(dir: &str, name: &str, windows: bool) -> (r: String)
    ensures r@ == join_path_spec(dir@, name@, windows),
{
    let cs = str_chars(dir);
    let n = cs.len();
    let mut out = String::from_str(dir);
    let mut needs_sep = n > 0 && !(cs[n - 1] == '/' || (windows && cs[n - 1] == '\\'));
    if windows && n == 2 && cs[1] == ':' {
        let c = cs[0] as u32;
        if (97 <= c && c <= 122) || (65 <= c && c <= 90) {
            needs_sep = false;
        }
    }
    if needs_sep {
        push_char(&mut out, if windows { '\\' } else { '/' });
    }
    out.append(name);
    out
}

fn beside(
    var: &Option<String>,
    db: &Option<String>,
    windows_dir: &Option<String>,
    db_parent: &Option<String>,
    name: &str,
) -> (r: String)
    ensures r@ == beside_spec(*var, *db, *windows_dir, *db_parent, name@),
{
    match var {
        Some(p) => p.clone(),
        None => {
            let windows = windows_dir.is_some();
            let dir: Option<String> = match db {
                None => match windows_dir {
                    Some(d) => Some(d.clone()),
                    None => Some(String::from_str("/var/lib/nucleus")),
                },
                Some(_) => match db_parent {
                    Some(d) => Some(d.clone()),
                    None => None,
                },
            };
            match dir {
                Some(d) => {
                    if str_chars(d.as_str()).len() > 0 {
                        join_path(d.as_str(), name, windows)
                    } else {
                        String::from_str(name)
                    }
                },
                None => String::from_str(name),
            }
        },
    }
}

impl Config {
    /// The configuration the variables `vars` select. `windows_dir` is the
    /// platform's data directory on Windows (`%ProgramData%\Nucleus`; `None`
    /// elsewhere, where it is `/var/lib/nucleus`), `db_parent` the directory part
    /// of a given `NUCLEUS_DB` as the platform's path rules read it, and
    /// `default_concurrency` the fallback search concurrency. A backup interval
    /// whose seconds exceed `u64` is outside the inputs accepted.
    pub fn from_vars(
        vars: ConfigVars,
        windows_dir: Option<String>,
        db_parent: Option<String>,
        default_concurrency: usize,
    ) -> (r: Self)
        requires
            vars.backup_interval matches Some(v) ==> (duration_spec(v@) matches Some(d) ==> d <= u64::MAX),
        ensures
            r.db_path@ == db_path_spec(vars.db, windows_dir),
            r.index_dir@ == beside_spec(vars.index_dir, vars.db, windows_dir, db_parent, "nucleus_indexes"@),
            r.admin_token_file@
                == beside_spec(vars.admin_token_file, vars.db, windows_dir, db_parent, "nucleus_admin_token.txt"@),
            r.backup_dir@ == beside_spec(vars.backup_dir, vars.db, windows_dir, db_parent, "nucleus_backups"@),
            r.addr@ == match vars.addr { Some(a) => a@, None => "127.0.0.1:8080"@ },
            r.workers as int == match num_var(vars.workers, usize::MAX as int) { Some(n) => n, None => 2 },
            r.model_cache == vars.model_cache,
            r.index_kind == match vars.index {
                Some(v) => match index_kind_of(v@) { Some(k) => k, None => IndexKind::Flat },
                None => IndexKind::Flat,
            },
            r.gpu == flag_var(vars.gpu),
            r.cors_any == flag_var(vars.cors_any),
            r.rerank_model == match vars.rerank_model {
                Some(m) => if trim(m@).len() > 0 { Some(m) } else { None },
                None => None,
            },
            match num_var(vars.rerank_candidates, usize::MAX as int) {
                Some(n) => r.rerank_candidates == Some(n as usize),
                None => r.rerank_candidates is None,
            },
            r.max_concurrent_searches as int
                == positive_or(num_var(vars.max_concurrent_searches, usize::MAX as int), default_concurrency as int),
            r.search_wait_ms as int == match num_var(vars.search_wait_ms, u64::MAX as int) { Some(n) => n, None => 2000 },
            r.embed_batch_max as int == positive_or(num_var(vars.embed_batch_max, usize::MAX as int), 1),
            r.embed_batch_window_ms as int == match num_var(vars.embed_batch_window_ms, u64::MAX as int) {
                Some(n) => n,
                None => 5,
            },
            r.backup_interval_secs as int == match vars.backup_interval {
                Some(v) => match duration_spec(v@) { Some(d) => d, None => 0 },
                None => 0,
            },
            r.backup_full_every as int == positive_or(num_var(vars.backup_full_every, u32::MAX as int), 7),
            r.backup_keep_fulls as int == positive_or(num_var(vars.backup_keep, usize::MAX as int), 7),
    {
        let db_path = match &vars.db {
            Some(p) => p.clone(),
            None => match &windows_dir {
                Some(d) => join_path(d.as_str(), "nucleus.redb", true),
                None => join_path("/var/lib/nucleus", "nucleus.redb", false),
            },
        };
        let index_dir = beside(&vars.index_dir, &vars.db, &windows_dir, &db_parent, "nucleus_indexes");
        let admin_token_file =
            beside(&vars.admin_token_file, &vars.db, &windows_dir, &db_parent, "nucleus_admin_token.txt");
        let backup_dir = beside(&vars.backup_dir, &vars.db, &windows_dir, &db_parent, "nucleus_backups");
        let addr = match &vars.addr {
            Some(a) => a.clone(),
            None => "127.0.0.1:8080".to_owned(),
        };
        let workers = match num_of(&vars.workers, usize::MAX as u64) {
            Some(n) => n as usize,
            None => 2,
        };
        let index_kind = match &vars.index {
            Some(v) => match IndexKind::parse(v.as_str()) {
                Some(k) => k,
                None => IndexKind::Flat,
            },
            None => IndexKind::Flat,
        };
        let gpu = flag_of(&vars.gpu);
        let cors_any = flag_of(&vars.cors_any);
        let rerank_candidates = match num_of(&vars.rerank_candidates, usize::MAX as u64) {
            Some(n) => Some(n as usize),
            None => None,
        };
        let max_concurrent_searches = match num_of(&vars.max_concurrent_searches, usize::MAX as u64) {
            Some(n) => if n > 0 { n as usize } else { default_concurrency },
            None => default_concurrency,
        };
        let search_wait_ms = match num_of(&vars.search_wait_ms, u64::MAX) {
            Some(n) => n,
            None => 2000,
        };
        let embed_batch_max = match num_of(&vars.embed_batch_max, usize::MAX as u64) {
            Some(n) => if n > 0 { n as usize } else { 1 },
            None => 1,
        };
        let embed_batch_window_ms = match num_of(&vars.embed_batch_window_ms, u64::MAX) {
            Some(n) => n,
            None => 5,
        };
        let backup_interval_secs = match &vars.backup_interval {
            Some(v) => match parse_duration_secs(v.as_str()) {
                Some(d) => d,
                None => 0,
            },
            None => 0,
        };
        let backup_full_every = match num_of(&vars.backup_full_every, u32::MAX as u64) {
            Some(n) => if n > 0 { n as u32 } else { 7 },
            None => 7,
        };
        let backup_keep_fulls = match num_of(&vars.backup_keep, usize::MAX as u64) {
            Some(n) => if n > 0 { n as usize } else { 7 },
            None => 7,
        };
        let rerank_model = match vars.rerank_model {
            Some(m) => {
                let cs = str_chars(m.as_str());
                let t = trim_chars(cs.as_slice());
                if t.len() > 0 { Some(m) } else { None }
            },
            None => None,
        };
        Config {
            db_path,
            addr,
            workers,
            model_cache: vars.model_cache,
            index_kind,
            gpu,
            index_dir,
            admin_token_file,
            cors_any,
            rerank_model,
            rerank_candidates,
            max_concurrent_searches,
            search_wait_ms,
            embed_batch_max,
            embed_batch_window_ms,
            backup_dir,
            backup_interval_secs,
            backup_full_every,
            backup_keep_fulls,
        }
    }
}

/// The command line that uploads a backup file: the template's first word is
/// the program; each argument that is exactly `{}` becomes the file's path,
/// and when none is, the path is appended. `None` for an empty template.
pub open spec fn command_spec(template: Seq<char>, path: Seq<char>) -> Option<(Seq<char>, Seq<Seq<char>>)> {
    let w = ws_words(template);
    if w.len() == 0 {
        None
    } else {
        let args = w.drop_first();
        let ph = seq!['{', '}'];
        if args.contains(ph) {
            Some((w[0], args.map_values(|a: Seq<char>| if a == ph { path } else { a })))
        } else {
            Some((w[0], args.push(path)))
        }
    }
}

/// Split a command template into `(program, args)`, substituting `{}` with the
/// backup file path (or appending it if no placeholder is present).
pub fn build_command(template: &str, file: &str) -> (r: Option<(String, Vec<String>)>)
    ensures
        match command_spec(template@, file@) {
            None => r is None,
            Some((p, a)) => r matches Some((prog, args)) && prog@ == p && str_views(args@) == a,
        },
{
    let words = split_ws(template);
    if words.len() == 0 {
        return None;
    }
    let ghost w = str_views(words@);
    let ghost ph = seq!['{', '}'];
    proof { reveal_strlit("{}"); }
    let program = words[0].clone();
    let mut args: Vec<String> = Vec::new();
    let mut substituted = false;
    let mut i: usize = 1;
    while i < words.len()
        invariant
            1 <= i <= words@.len(),
            w == str_views(words@),
            w == ws_words(template@),
            ph == "{}"@,
            str_views(args@) == w.subrange(1, i as int).map_values(|a: Seq<char>| if a == ph { file@ } else { a }),
            substituted == w.subrange(1, i as int).contains(ph),
        decreases words.len() - i,
    {
        let ghost before = str_views(args@);
        let ghost wi = w[i as int];
        assert(w.subrange(1, i + 1) =~= w.subrange(1, i as int).push(wi));
        if str_eq(words[i].as_str(), "{}") {
            args.push(file.to_owned());
            substituted = true;
        } else {
            args.push(words[i].clone());
        }
        assert(str_views(args@) =~= before.push(if wi == ph { file@ } else { wi }));
        assert(w.subrange(1, i + 1).map_values(|a: Seq<char>| if a == ph { file@ } else { a })
            =~= w.subrange(1, i as int).map_values(|a: Seq<char>| if a == ph { file@ } else { a }).push(
            if wi == ph { file@ } else { wi }));
        assert(w.subrange(1, i + 1).contains(ph) == (w.subrange(1, i as int).contains(ph) || wi == ph)) by {
            if w.subrange(1, i + 1).contains(ph) {
                let k = choose|k: int| 0 <= k < i && #[trigger] w.subrange(1, i + 1)[k] == ph;
                if k < i - 1 {
                    assert(w.subrange(1, i as int)[k] == ph);
                }
            }
            if w.subrange(1, i as int).contains(ph) {
                let k = choose|k: int| 0 <= k < i - 1 && #[trigger] w.subrange(1, i as int)[k] == ph;
                assert(w.subrange(1, i + 1)[k] == ph);
            }
            if wi == ph {
                assert(w.subrange(1, i + 1)[i - 1] == ph);
            }
        }
        i = i + 1;
    }
    assert(w.subrange(1, w.len() as int) =~= w.drop_first());
    if !substituted {
        let ghost before = str_views(args@);
        args.push(file.to_owned());
        assert(str_views(args@) =~= before.push(file@));
        proof {
            assert forall|k: int| 0 <= k < w.drop_first().len() implies #[trigger] w.drop_first()[k] != ph by {
                if w.drop_first()[k] == ph {
                    assert(w.drop_first().contains(ph));
                }
            }
            assert(w.drop_first().map_values(|a: Seq<char>| if a == ph { file@ } else { a }) =~= w.drop_first());
        }
    }
    Some((program, args))
}

} // verus!
