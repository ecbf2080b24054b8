//! Running the runtime: the request, the classified outcome, and the only
//! parsers of the runtime's stderr (`RINE-CRASH schema=1` and the
//! `RINE-DEMAND` import list).
use vstd::prelude::*;
use vstd::utf8::{decode_utf8, encode_utf8};
use vstd::string::StringSliceAdditionalSpecFns;
use crate::text::{
    chars_of, concat, decimal, is_prefix, lines, lines_of, parse_u64_chars, parse_u64_spec,
    seq_eq, slice_copy, split_once, split_once_chars, starts_with, string_of, trim, trim_chars,
    u64_decimal, views,
};

verus! {

/// Execution request (from the Run page).
#[derive(Debug, Clone)]
pub struct RunRequest {
    /// Validated `rine` binary.
    pub rine_bin: String,
    /// Windows `.exe`.
    pub exe: String,
    /// `capsule.toml` (`None`: runtime default).
    pub capsule: Option<String>,
    /// Guest arguments (Win32 command line; never a shell).
    pub args: Vec<String>,
    /// Child working directory (default: the exe's directory).
    pub workdir: Option<String>,
    /// Extra `KEY=value` variables on top of the inherited environment.
    pub env_extra: Vec<(String, String)>,
    /// Timeout in ms (0 = unlimited; expiry kills the child).
    pub timeout_ms: u64,
}

/// Final state of a run.
#[derive(Debug, Clone, Copy, PartialEq, Eq, Structural)]
pub enum RunStatus {
    /// Load failed with a demand list (missing imports).
    Blocked,
    /// `RINE-CRASH` on stderr (or timeout kill).
    Crashed,
    /// The process exited (code in `exit_code`).
    Exited,
}

/// Parsed `RINE-CRASH schema=1`.
#[derive(Debug, Clone, PartialEq, Eq)]
pub struct CrashInfo {
    pub version: String,
    pub executable: String,
    /// `load` | `enter`.
    pub phase: String,
    pub reason: String,
    /// `file:line` (or `-`).
    pub location: String,
    /// Unix seconds.
    pub timestamp: u64,
}

/// Abstract content of a crash record.
pub struct CrashFields {
    pub version: Seq<char>,
    pub executable: Seq<char>,
    pub phase: Seq<char>,
    pub reason: Seq<char>,
    pub location: Seq<char>,
    pub timestamp: u64,
}

impl CrashInfo {
    pub open spec fn fields(&self) -> CrashFields {
        CrashFields {
            version: self.version@,
            executable: self.executable@,
            phase: self.phase@,
            reason: self.reason@,
            location: self.location@,
            timestamp: self.timestamp,
        }
    }
}

/// Report of one execution.
#[derive(Debug, Clone)]
pub struct RunReport {
    pub status: RunStatus,
    /// Exit code (`None`: killed by a signal or timeout).
    pub exit_code: Option<i32>,
    /// Guest stdout (capped).
    pub stdout: String,
    /// Runtime stderr (capped).
    pub stderr: String,
    pub crash: Option<CrashInfo>,
    /// `RINE-DEMAND` list when `Blocked`.
    pub missing: Vec<(String, String)>,
    pub duration_ms: u64,
    pub rine_version: String,
}

/// First line of a crash record.
pub open spec fn crash_marker() -> Seq<char> {
    "RINE-CRASH schema=1"@
}

/// Value of the first `key: value` line of `ls` (both sides trimmed).
pub open spec fn field(ls: Seq<Seq<char>>, key: Seq<char>) -> Option<Seq<char>>
    decreases ls.len(),
{
    if ls.len() == 0 {
        None
    } else {
        match split_once(ls[0], ':') {
            Some((k, v)) => if trim(k) == key { Some(trim(v)) } else { field(ls.drop_first(), key) },
            None => field(ls.drop_first(), key),
        }
    }
}

/// Index of the first line that is the crash marker (after trimming).
pub open spec fn marker_index(ls: Seq<Seq<char>>) -> Option<int>
    decreases ls.len(),
{
    if ls.len() == 0 {
        None
    } else if trim(ls[0]) == crash_marker() {
        Some(0)
    } else {
        match marker_index(ls.drop_first()) {
            Some(i) => Some(i + 1),
            None => None,
        }
    }
}

/// Crash record whose marker is `ls[0]`: version, executable, phase and
/// reason are required; location defaults to `-`, timestamp to 0.
pub open spec fn crash_at(ls: Seq<Seq<char>>) -> Option<CrashFields> {
    let body = ls.drop_first();
    match (field(body, "version"@), field(body, "executable"@), field(body, "phase"@), field(body, "reason"@)) {
        (Some(v), Some(e), Some(p), Some(r)) => Some(CrashFields {
            version: v,
            executable: e,
            phase: p,
            reason: r,
            location: match field(body, "location"@) { Some(l) => l, None => "-"@ },
            timestamp: match field(body, "timestamp"@) {
                Some(t) => match parse_u64_spec(t) { Some(n) => n, None => 0 },
                None => 0,
            },
        }),
        _ => None,
    }
}

/// The crash record of `stderr`: it may follow other log lines.
pub open spec fn parse_crash_spec(stderr: Seq<char>) -> Option<CrashFields> {
    let ls = lines(stderr);
    match marker_index(ls) {
        Some(i) => crash_at(ls.subrange(i, ls.len() as int)),
        None => None,
    }
}

/// `field` over `ls[from..]`.
fn field_from(ls: &Vec<Vec<char>>, from: usize, key: &str) -> (r: Option<Vec<char>>)
    requires
        from <= ls@.len(),
    ensures
        match (r, field(views(ls@).subrange(from as int, ls@.len() as int), key@)) {
            (Some(a), Some(b)) => a@ == b,
            (None, None) => true,
            _ => false,
        },
{
    let kc = chars_of(key);
    let mut i = from;
    while i < ls.len()
        invariant
            from <= i <= ls@.len(),
            kc@ == key@,
            field(views(ls@).subrange(from as int, ls@.len() as int), key@)
                == field(views(ls@).subrange(i as int, ls@.len() as int), key@),
        decreases ls@.len() - i,
    {
        let ghost t = views(ls@).subrange(i as int, ls@.len() as int);
        assert(t.drop_first() =~= views(ls@).subrange(i + 1, ls@.len() as int));
        assert(t[0] == ls@[i as int]@);
        match split_once_chars(ls[i].as_slice(), ':') {
            Some((k, v)) => {
                let tk = trim_chars(k.as_slice());
                if seq_eq(tk.as_slice(), kc.as_slice()) {
                    return Some(trim_chars(v.as_slice()));
                }
            },
            None => {},
        }
        i += 1;
    }
    None
}

fn string_or_dash(v: Option<Vec<char>>) -> (r: String)
    ensures
        r@ == match v { Some(x) => x@, None => "-"@ },
{
    match v {
        Some(x) => string_of(x.as_slice()),
        None => "-".to_owned(),
    }
}

/// Extracts `RINE-CRASH schema=1` from stderr (the only text parser of the
/// manager); the record may follow `tracing` log lines.
pub fn parse_crash(stderr: &str) -> (r: Option<CrashInfo>)
    ensures
        match (r, parse_crash_spec(stderr@)) {
            (Some(a), Some(b)) => a.fields() == b,
            (None, None) => true,
            _ => false,
        },
{
    let cs = chars_of(stderr);
    let ls = lines_of(cs.as_slice());
    let marker = chars_of("RINE-CRASH schema=1");
    let mut i: usize = 0;
    let mut found = false;
    assert(views(ls@).subrange(0, ls@.len() as int) =~= views(ls@));
    while i < ls.len() && !found
        invariant
            i <= ls@.len(),
            views(ls@) == lines(stderr@),
            marker@ == crash_marker(),
            found ==> i < ls@.len() && trim(views(ls@)[i as int]) == crash_marker(),
            marker_index(views(ls@)) == match marker_index(views(ls@).subrange(i as int, ls@.len() as int)) {
                Some(k) => Some(k + i),
                None => None,
            },
        decreases ls@.len() - i + (if found { 0int } else { 1int }),
    {
        let ghost t = views(ls@).subrange(i as int, ls@.len() as int);
        assert(t.drop_first() =~= views(ls@).subrange(i + 1, ls@.len() as int));
        assert(t[0] == ls@[i as int]@);
        let tl = trim_chars(ls[i].as_slice());
        if seq_eq(tl.as_slice(), marker.as_slice()) {
            found = true;
        } else {
            i += 1;
        }
    }
    if !found {
        assert(views(ls@).subrange(i as int, ls@.len() as int) =~= Seq::<Seq<char>>::empty());
        return None;
    }
    let ghost sub = views(ls@).subrange(i as int, ls@.len() as int);
    let ghost body = sub.drop_first();
    assert(body =~= views(ls@).subrange(i + 1, ls@.len() as int));
    assert(sub[0] == ls@[i as int]@);
    assert(marker_index(sub) == Some(0int));
    assert(marker_index(lines(stderr@)) == Some(i as int));
    assert(parse_crash_spec(stderr@) == crash_at(sub));
    let version = match field_from(&ls, i + 1, "version") { Some(x) => x, None => return None };
    let executable = match field_from(&ls, i + 1, "executable") { Some(x) => x, None => return None };
    let phase = match field_from(&ls, i + 1, "phase") { Some(x) => x, None => return None };
    let reason = match field_from(&ls, i + 1, "reason") { Some(x) => x, None => return None };
    let location = string_or_dash(field_from(&ls, i + 1, "location"));
    let timestamp = match field_from(&ls, i + 1, "timestamp") {
        Some(t) => match parse_u64_chars(t.as_slice()) {
            Some(n) => n,
            None => 0,
        },
        None => 0,
    };
    Some(CrashInfo {
        version: string_of(version.as_slice()),
        executable: string_of(executable.as_slice()),
        phase: string_of(phase.as_slice()),
        reason: string_of(reason.as_slice()),
        location,
        timestamp,
    })
}

/// `DLL!name` entry of a demand line (`"  DLL!name"`), both parts non-empty.
pub open spec fn demand_entry(l: Seq<char>) -> Option<(Seq<char>, Seq<char>)> {
    if is_prefix("  "@, l) {
        match split_once(l.subrange("  "@.len() as int, l.len() as int), '!') {
            Some((d, n)) => if d.len() > 0 && n.len() > 0 { Some((d, n)) } else { None },
            None => None,
        }
    } else {
        None
    }
}

/// All demand entries of `ls`, in order.
pub open spec fn demand_list(ls: Seq<Seq<char>>) -> Seq<(Seq<char>, Seq<char>)>
    decreases ls.len(),
{
    if ls.len() == 0 {
        seq![]
    } else {
        match demand_entry(ls[0]) {
            Some(e) => seq![e] + demand_list(ls.drop_first()),
            None => demand_list(ls.drop_first()),
        }
    }
}

pub open spec fn pair_views(v: Seq<(String, String)>) -> Seq<(Seq<char>, Seq<char>)> {
    v.map_values(|p: (String, String)| (p.0@, p.1@))
}

/// Extracts the `RINE-DEMAND` list (`  DLL!name` per line) from stderr.
pub fn parse_demand(stderr: &str) -> (r: Vec<(String, String)>)
    ensures
        pair_views(r@) == demand_list(lines(stderr@)),
{
    let cs = chars_of(stderr);
    let ls = lines_of(cs.as_slice());
    let pre = chars_of("  ");
    let mut out: Vec<(String, String)> = Vec::new();
    let mut i: usize = 0;
    assert(views(ls@).subrange(0, ls@.len() as int) =~= views(ls@));
    while i < ls.len()
        invariant
            i <= ls@.len(),
            views(ls@) == lines(stderr@),
            pre@ == "  "@,
            demand_list(views(ls@)) == pair_views(out@) + demand_list(views(ls@).subrange(i as int, ls@.len() as int)),
        decreases ls@.len() - i,
    {
        let ghost t = views(ls@).subrange(i as int, ls@.len() as int);
        assert(t.drop_first() =~= views(ls@).subrange(i + 1, ls@.len() as int));
        assert(t[0] == ls@[i as int]@);
        let line = &ls[i];
        let mut entry: Option<(String, String)> = None;
        if starts_with(line.as_slice(), pre.as_slice()) {
            let rest = slice_copy(line.as_slice(), pre.len(), line.len());
            match split_once_chars(rest.as_slice(), '!') {
                Some((d, n)) => {
                    if d.len() > 0 && n.len() > 0 {
                        entry = Some((string_of(d.as_slice()), string_of(n.as_slice())));
                    }
                },
                None => {},
            }
        }
        let ghost before = pair_views(out@);
        match entry {
            Some(e) => {
                out.push(e);
                assert(pair_views(out@) =~= before + seq![(e.0@, e.1@)]);
            },
            None => {},
        }
        i += 1;
    }
    assert(views(ls@).subrange(i as int, ls@.len() as int) =~= Seq::<Seq<char>>::empty());
    assert(pair_views(out@) + Seq::<(Seq<char>, Seq<char>)>::empty() =~= pair_views(out@));
    out
}

/// Log cap for the UI (bytes).
pub const LOG_CAP: usize = 65536;

/// Capped text: up to `LOG_CAP` bytes, else the first `LOG_CAP` bytes and
/// a note with the total size.
pub open spec fn trunc_spec(s: Seq<char>) -> Seq<char> {
    let b = encode_utf8(s);
    if b.len() <= LOG_CAP {
        s
    } else {
        decode_utf8(b.subrange(0, LOG_CAP as int)) + "…[truncado: "@ + decimal(b.len()) + " bytes no total]"@
    }
}

/// Honest truncation; the cut must fall on a character boundary.
pub fn trunc(s: &str) -> (r: String)
    requires
        encode_utf8(s@).len() > LOG_CAP ==> vstd::utf8::is_char_boundary(encode_utf8(s@), LOG_CAP as int),
    ensures
        r@ == trunc_spec(s@),
{
    broadcast use vstd::utf8::encode_utf8_decode_utf8;
    let n = s.as_bytes().len();
    if n <= LOG_CAP {
        return s.to_owned();
    }
    let (head, _tail) = s.split_at(LOG_CAP);
    assert(head@ == decode_utf8(encode_utf8(s@).subrange(0, LOG_CAP as int))) by {
        assert(encode_utf8(head@) =~= encode_utf8(s@).subrange(0, LOG_CAP as int));
    }
    let a = concat(head, "…[truncado: ");
    let d = string_of(u64_decimal(n as u64).as_slice());
    let b = concat(a.as_str(), d.as_str());
    concat(b.as_str(), " bytes no total]")
}

/// Arguments given to the runtime: `--capsule <file>` when a capsule is
/// set, then the exe, then the guest arguments (argv, never a shell line).
pub open spec fn run_argv_spec(req: RunRequest) -> Seq<Seq<char>> {
    (match req.capsule {
        Some(c) => seq!["--capsule"@, c@],
        None => seq![],
    }) + seq![req.exe@] + req.args@.map_values(|a: String| a@)
}

pub fn run_argv(req: &RunRequest) -> (r: Vec<String>)
    ensures
        r@.map_values(|a: String| a@) == run_argv_spec(*req),
{
    let mut v: Vec<String> = Vec::new();
    match &req.capsule {
        Some(c) => {
            v.push(crate::text::owned("--capsule"));
            v.push(crate::text::owned(c.as_str()));
        },
        None => {},
    }
    v.push(crate::text::owned(req.exe.as_str()));
    let ghost head = v@.map_values(|a: String| a@);
    assert(head =~= (match req.capsule {
        Some(c) => seq!["--capsule"@, c@],
        None => Seq::<Seq<char>>::empty(),
    }) + seq![req.exe@]);
    let mut i: usize = 0;
    while i < req.args.len()
        invariant
            i <= req.args@.len(),
            v@.map_values(|a: String| a@) == head + req.args@.map_values(|a: String| a@).take(i as int),
        decreases req.args@.len() - i,
    {
        let ghost v0 = v@;
        let x = crate::text::owned(req.args[i].as_str());
        v.push(x);
        assert(v@.map_values(|a: String| a@) =~= v0.map_values(|a: String| a@).push(req.args@[i as int]@));
        assert(req.args@.map_values(|a: String| a@).take(i + 1) =~= req.args@.map_values(|a: String| a@).take(i as int).push(req.args@[i as int]@));
        assert(v@.map_values(|a: String| a@) =~= head + req.args@.map_values(|a: String| a@).take(i + 1));
        i += 1;
    }
    assert(req.args@.map_values(|a: String| a@).take(req.args@.len() as int) =~= req.args@.map_values(|a: String| a@));
    v
}

/// Working directory of the child: the request's, else the exe's parent
/// directory (`exe_parent`), else `.`.
pub fn run_workdir(req: &RunRequest, exe_parent: Option<&str>) -> (r: String)
    ensures
        r@ == match req.workdir {
            Some(d) => d@,
            None => match exe_parent {
                Some(p) => p@,
                None => "."@,
            },
        },
{
    match &req.workdir {
        Some(d) => crate::text::owned(d.as_str()),
        None => match exe_parent {
            Some(p) => crate::text::owned(p),
            None => crate::text::owned("."),
        },
    }
}

/// Classification of a finished run: a crash record wins; else a demand
/// list with a failed exit is `Blocked`; else `Exited`.
pub open spec fn status_spec(stderr: Seq<char>, success: bool) -> RunStatus {
    if parse_crash_spec(stderr) is Some {
        RunStatus::Crashed
    } else if demand_list(lines(stderr)).len() > 0 && !success {
        RunStatus::Blocked
    } else {
        RunStatus::Exited
    }
}

/// Report of a run that finished with `exit_code` (`success`: exit status
/// 0) after `duration_ms`, its output capped at `LOG_CAP` bytes.
pub fn finished_report(stdout: &str, stderr: &str, exit_code: Option<i32>, success: bool, duration_ms: u64, rine_version: &str) -> (r: RunReport)
    requires
        encode_utf8(stdout@).len() > LOG_CAP ==> vstd::utf8::is_char_boundary(encode_utf8(stdout@), LOG_CAP as int),
        encode_utf8(stderr@).len() > LOG_CAP ==> vstd::utf8::is_char_boundary(encode_utf8(stderr@), LOG_CAP as int),
    ensures
        r.status == status_spec(stderr@, success),
        r.exit_code == exit_code,
        r.stdout@ == trunc_spec(stdout@),
        r.stderr@ == trunc_spec(stderr@),
        match (r.crash, parse_crash_spec(stderr@)) {
            (Some(a), Some(b)) => a.fields() == b,
            (None, None) => true,
            _ => false,
        },
        pair_views(r.missing@) == demand_list(lines(stderr@)),
        r.duration_ms == duration_ms,
        r.rine_version@ == rine_version@,
{
    let crash = parse_crash(stderr);
    let missing = parse_demand(stderr);
    let status = if crash.is_some() {
        RunStatus::Crashed
    } else if missing.len() > 0 && !success {
        RunStatus::Blocked
    } else {
        RunStatus::Exited
    };
    RunReport {
        status,
        exit_code,
        stdout: trunc(stdout),
        stderr: trunc(stderr),
        crash,
        missing,
        duration_ms,
        rine_version: crate::text::owned(rine_version),
    }
}

/// Report of a run killed at its timeout: `Crashed` in phase `enter`
/// with reason `timeout (<ms> ms)`, no output.
pub fn timeout_report(exe: &str, timeout_ms: u64, duration_ms: u64, rine_version: &str) -> (r: RunReport)
    ensures
        r.status == RunStatus::Crashed,
        r.exit_code is None,
        r.stdout@.len() == 0 && r.stderr@.len() == 0,
        r.missing@.len() == 0,
        r.duration_ms == duration_ms,
        r.rine_version@ == rine_version@,
        r.crash matches Some(c) && c.fields() == (CrashFields {
            version: rine_version@,
            executable: exe@,
            phase: "enter"@,
            reason: "timeout ("@ + decimal(timeout_ms as nat) + " ms)"@,
            location: "-"@,
            timestamp: 0,
        }),
{
    let d = string_of(u64_decimal(timeout_ms).as_slice());
    let a = concat("timeout (", d.as_str());
    let reason = concat(a.as_str(), " ms)");
    RunReport {
        status: RunStatus::Crashed,
        exit_code: None,
        stdout: String::new(),
        stderr: String::new(),
        crash: Some(CrashInfo {
            version: crate::text::owned(rine_version),
            executable: crate::text::owned(exe),
            phase: crate::text::owned("enter"),
            reason,
            location: crate::text::owned("-"),
            timestamp: 0,
        }),
        missing: Vec::new(),
        duration_ms,
        rine_version: crate::text::owned(rine_version),
    }
}

} // verus!
