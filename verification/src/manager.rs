//! Manager core: capsules, settings, runtime detection decisions, PE
//! inspection and the import pre-flight (which never claims
//! "compatible"), plus the payloads of the desktop frontend.
use vstd::prelude::*;
use crate::api_record::{opt_str, RawImport};
use crate::manager_error::ManagerError;
use crate::nt_file::{join1, lower_to_upper};
use crate::registry::join_path;
use crate::text::{
    chars_less, chars_lt, chars_of, concat, decimal, extend_chars, lemma_chars_lt_order, lower, owned, seq_eq, str_eq,
    string_of, trim, trim_chars, u64_decimal,
};

verus! {

// ---------------------------------------------------------------------------
// Capsules.
// ---------------------------------------------------------------------------

/// Summary of a capsule for the library page.
#[derive(Debug)]
pub struct CapsuleSummary {
    pub path: String,
    pub name: String,
    pub windows_version: (u32, u32),
    pub drives: Vec<char>,
    pub valid: bool,
    pub error: Option<String>,
}

/// A drive target the wizard must warn about: `/`, the home directory, or
/// the literal `$HOME` (after trimming whitespace).
pub open spec fn risky_spec(host_path: Seq<char>, home: Option<Seq<char>>) -> bool {
    let p = trim(host_path);
    p == "/"@ || (home is Some && (p == home->0 || p == "$HOME"@))
}

pub fn is_risky_drive_target(host_path: &str, home: Option<&str>) -> (r: bool)
    ensures
        r == risky_spec(host_path@, match home {
            Some(h) => Some(h@),
            None => None,
        }),
{
    let c = chars_of(host_path);
    let p = trim_chars(c.as_slice());
    let root = chars_of("/");
    if seq_eq(p.as_slice(), root.as_slice()) {
        return true;
    }
    match home {
        Some(h) => {
            let hc = chars_of(h);
            let lit = chars_of("$HOME");
            seq_eq(p.as_slice(), hc.as_slice()) || seq_eq(p.as_slice(), lit.as_slice())
        },
        None => false,
    }
}

pub open spec fn chars_sorted(s: Seq<char>) -> bool {
    forall|i: int, j: int| 0 <= i < j < s.len() ==> s[i] <= s[j]
}

/// `v` sorted ascending (insertion sort).
pub fn sort_chars(v: &Vec<char>) -> (r: Vec<char>)
    ensures
        chars_sorted(r@),
        r@.to_multiset() == v@.to_multiset(),
{
    let mut out: Vec<char> = Vec::new();
    let mut i: usize = 0;
    assert(v@.take(0) =~= Seq::<char>::empty());
    while i < v.len()
        invariant
            i <= v@.len(),
            chars_sorted(out@),
            out@.to_multiset() == v@.take(i as int).to_multiset(),
        decreases v@.len() - i,
    {
        let x = v[i];
        let mut p: usize = 0;
        let mut stop = false;
        while p < out.len() && !stop
            invariant
                p <= out@.len(),
                forall|j: int| 0 <= j < p ==> out@[j] <= x,
                stop ==> p < out@.len() && out@[p as int] > x,
            decreases out@.len() - p + (if stop { 0int } else { 1int }),
        {
            if out[p] <= x {
                p += 1;
            } else {
                stop = true;
            }
        }
        let ghost o0 = out@;
        out.insert(p, x);
        proof {
            assert(out@ =~= o0.insert(p as int, x));
            vstd::seq_lib::to_multiset_insert(o0, p as int, x);
            assert(v@.take(i + 1) =~= v@.take(i as int).push(x));
            vstd::seq_lib::to_multiset_build(v@.take(i as int), x);
            assert forall|a: int, b: int| 0 <= a < b < out@.len() implies out@[a] <= out@[b] by {
                if b < p {
                } else if b == p {
                } else if a == p {
                    assert(out@[b] == o0[b - 1]);
                    if b - 1 > p {
                        assert(o0[p as int] <= o0[b - 1]);
                    }
                } else if a < p {
                    assert(out@[b] == o0[b - 1]);
                    if b - 1 > p {
                        assert(o0[p as int] <= o0[b - 1]);
                    }
                } else {
                    assert(out@[a] == o0[a - 1] && out@[b] == o0[b - 1]);
                }
            }
        }
        i += 1;
    }
    assert(v@.take(v@.len() as int) =~= v@);
    out
}

/// What parsing a capsule file gave: its app name, Windows version and
/// drive letters, or the parser's error text.
#[derive(Debug)]
pub struct CapsuleParse {
    pub app_name: String,
    pub windows_version: (u32, u32),
    pub drives: Vec<char>,
}

/// A list of drive letters is fixed by its letters once sorted: two sorted
/// lists with the same letters are the same list (so a summary's drives are
/// exactly the capsule's letters in ascending order).
pub proof fn law_sorted_letters_unique(a: Seq<char>, b: Seq<char>)
    requires
        chars_sorted(a),
        chars_sorted(b),
        a.to_multiset() == b.to_multiset(),
    ensures
        a == b,
{
    let leq = |x: char, y: char| x <= y;
    assert(vstd::relations::total_ordering(leq));
    assert(vstd::relations::sorted_by(a, leq));
    assert(vstd::relations::sorted_by(b, leq));
    vstd::seq_lib::lemma_sorted_unique(a, b, leq);
}

/// Summary of the capsule at `path` from its parse result. A valid
/// capsule lists its drive letters sorted; an invalid one is named after
/// its directory (`parent_name`, else `"?"`), with Windows 10.0 and the
/// error text.
pub fn load_summary(path: &str, parsed: Result<CapsuleParse, String>, parent_name: Option<String>) -> (s: CapsuleSummary)
    ensures
        s.path@ == path@,
        match parsed {
            Ok(c) => s.valid && s.error is None && s.name@ == c.app_name@ && s.windows_version == c.windows_version
                && chars_sorted(s.drives@) && s.drives@.to_multiset() == c.drives@.to_multiset(),
            Err(e) => {
                &&& !s.valid
                &&& s.error matches Some(m) && m@ == e@
                &&& s.windows_version == (10u32, 0u32)
                &&& s.drives@.len() == 0
                &&& s.name@ == (match parent_name {
                    Some(n) => n@,
                    None => "?"@,
                })
            },
        },
{
    match parsed {
        Ok(cap) => {
            let drives = sort_chars(&cap.drives);
            CapsuleSummary {
                path: owned(path),
                name: cap.app_name,
                windows_version: cap.windows_version,
                drives,
                valid: true,
                error: None,
            }
        },
        Err(e) => CapsuleSummary {
            path: owned(path),
            name: match parent_name {
                Some(n) => n,
                None => owned("?"),
            },
            windows_version: (10, 0),
            drives: Vec::new(),
            valid: false,
            error: Some(e),
        },
    }
}

/// Capsule creation request.
#[derive(Debug, Clone)]
pub struct CreateCapsule {
    pub name: String,
    pub parent_dir: String,
    pub drives: Vec<(char, String)>,
    pub current_dir: Option<String>,
}

/// Directory of the new capsule: `parent_dir/name`.
pub fn capsule_dir(req: &CreateCapsule) -> (r: String)
    ensures
        r@ == join1(req.parent_dir@, req.name@),
{
    join_path(req.parent_dir.as_str(), req.name.as_str())
}

/// An empty (after trimming) name is refused, with the parent directory
/// as the path.
pub fn check_capsule_name(req: &CreateCapsule) -> (r: Result<(), ManagerError>)
    ensures
        trim(req.name@).len() == 0 <==> r is Err,
        r matches Err(ManagerError::InvalidCapsule { path, reason }) ==> path@ == req.parent_dir@ && reason@ == "nome vazio"@,
{
    let n = chars_of(req.name.as_str());
    let t = trim_chars(n.as_slice());
    if t.len() == 0 {
        return Err(ManagerError::InvalidCapsule { path: owned(req.parent_dir.as_str()), reason: owned("nome vazio") });
    }
    Ok(())
}

pub open spec fn is_upper_ascii(c: char) -> bool {
    'A' <= c && c <= 'Z'
}

/// `[drives]` lines: `L = "host"` per drive, the letter uppercased.
pub open spec fn drive_lines(ds: Seq<(char, Seq<char>)>) -> Seq<char>
    decreases ds.len(),
{
    if ds.len() == 0 {
        seq![]
    } else {
        drive_lines(ds.drop_last()) + seq![lower_to_upper(ds.last().0)] + " = \""@ + ds.last().1 + "\"\n"@
    }
}

pub open spec fn capsule_toml_spec(name: Seq<char>, ds: Seq<(char, Seq<char>)>, current: Option<Seq<char>>) -> Seq<char> {
    "[app]\nname = \""@ + name + "\"\nwindows_version = [10, 0]\narch = \"x86_64\"\n"@ + (match current {
        Some(c) => "current_dir = \""@ + c + "\"\n"@,
        None => seq![],
    }) + "[drives]\n"@ + drive_lines(ds)
}

pub open spec fn drive_pairs(v: Seq<(char, String)>) -> Seq<(char, Seq<char>)> {
    v.map_values(|p: (char, String)| (p.0, p.1@))
}

/// `capsule.toml` text of a request; a drive letter that is not an ASCII
/// letter is refused (`dir` is the capsule directory for the error).
pub fn capsule_toml(req: &CreateCapsule, dir: &str) -> (r: Result<String, ManagerError>)
    ensures
        (exists|i: int| 0 <= i < req.drives@.len() && !is_upper_ascii(lower_to_upper(#[trigger] req.drives@[i].0)))
            <==> r is Err,
        match r {
            Ok(t) => t@ == capsule_toml_spec(req.name@, drive_pairs(req.drives@), match req.current_dir {
                Some(c) => Some(c@),
                None => None,
            }),
            Err(ManagerError::InvalidCapsule { path, reason }) => path@ == dir@ && exists|i: int|
                0 <= i < req.drives@.len() && !is_upper_ascii(lower_to_upper(#[trigger] req.drives@[i].0))
                && reason@ == "letra de drive inválida: "@ + seq![lower_to_upper(req.drives@[i].0)],
            Err(_) => false,
        },
{
    let ghost ds = drive_pairs(req.drives@);
    let mut lines: Vec<char> = Vec::new();
    let mut i: usize = 0;
    assert(ds.take(0) =~= Seq::<(char, Seq<char>)>::empty());
    while i < req.drives.len()
        invariant
            i <= req.drives@.len(),
            ds == drive_pairs(req.drives@),
            lines@ == drive_lines(ds.take(i as int)),
            forall|j: int| 0 <= j < i ==> is_upper_ascii(lower_to_upper(#[trigger] req.drives@[j].0)),
        decreases req.drives@.len() - i,
    {
        let letter = crate::nt_file::ascii_upper_char(req.drives[i].0);
        if !('A' <= letter && letter <= 'Z') {
            let mut m = chars_of("letra de drive inválida: ");
            m.push(letter);
            return Err(ManagerError::InvalidCapsule { path: owned(dir), reason: string_of(m.as_slice()) });
        }
        assert(ds.take(i + 1).drop_last() =~= ds.take(i as int));
        assert(ds.take(i + 1).last() == (req.drives@[i as int].0, req.drives@[i as int].1@));
        lines.push(letter);
        let eq = chars_of(" = \"");
        extend_chars(&mut lines, eq.as_slice());
        let host = chars_of(req.drives[i].1.as_str());
        extend_chars(&mut lines, host.as_slice());
        let end = chars_of("\"\n");
        extend_chars(&mut lines, end.as_slice());
        i += 1;
    }
    assert(ds.take(req.drives@.len() as int) =~= ds);
    let mut out = chars_of("[app]\nname = \"");
    let nm = chars_of(req.name.as_str());
    extend_chars(&mut out, nm.as_slice());
    let mid = chars_of("\"\nwindows_version = [10, 0]\narch = \"x86_64\"\n");
    extend_chars(&mut out, mid.as_slice());
    match &req.current_dir {
        Some(c) => {
            let a = chars_of("current_dir = \"");
            extend_chars(&mut out, a.as_slice());
            let cc = chars_of(c.as_str());
            extend_chars(&mut out, cc.as_slice());
            let b = chars_of("\"\n");
            extend_chars(&mut out, b.as_slice());
        },
        None => {},
    }
    let d = chars_of("[drives]\n");
    extend_chars(&mut out, d.as_slice());
    extend_chars(&mut out, lines.as_slice());
    Ok(string_of(out.as_slice()))
}

// ---------------------------------------------------------------------------
// Settings.
// ---------------------------------------------------------------------------

pub const SETTINGS_SCHEMA: u32 = 1;

#[derive(Debug, Clone, Copy, PartialEq, Eq, Structural)]
pub enum Appearance {
    System,
    Dark,
    Light,
}

#[derive(Debug, Clone, Copy, PartialEq, Eq, Structural)]
pub enum LogLevel {
    Error,
    Warn,
    Info,
    Debug,
    Trace,
}

#[derive(Debug, Clone)]
pub struct Settings {
    pub schema: u32,
    pub appearance: Appearance,
    pub default_capsule_dir: String,
    pub confirm_destructive: bool,
    pub log_level: LogLevel,
    pub retain_runs: usize,
    pub developer_mode: bool,
}

impl Settings {
    /// Defaults for a user whose home is `home` (`/tmp` when unknown):
    /// dark, capsules under `~/Rine/capsules`, confirmations on, `info`
    /// logs, 50 retained runs, developer mode off.
    pub fn defaults(home: Option<&str>) -> (s: Settings)
        ensures
            s.schema == SETTINGS_SCHEMA,
            s.appearance == Appearance::Dark,
            s.default_capsule_dir@ == join1(match home {
                Some(h) => h@,
                None => "/tmp"@,
            }, "Rine/capsules"@),
            s.confirm_destructive,
            s.log_level == LogLevel::Info,
            s.retain_runs == 50,
            !s.developer_mode,
    {
        let h = match home {
            Some(h) => h,
            None => "/tmp",
        };
        Settings {
            schema: SETTINGS_SCHEMA,
            appearance: Appearance::Dark,
            default_capsule_dir: join_path(h, "Rine/capsules"),
            confirm_destructive: true,
            log_level: LogLevel::Info,
            retain_runs: 50,
            developer_mode: false,
        }
    }

    /// Default settings file inside the Manager data directory.
    pub fn default_path(data_dir: &str) -> (r: String)
        ensures
            r@ == join1(data_dir@, "settings.json"@),
    {
        join_path(data_dir, "settings.json")
    }

    /// Settings read from disk: a schema other than `SETTINGS_SCHEMA` is an
    /// explicit error.
    pub fn check_loaded(self) -> (r: Result<Settings, ManagerError>)
        ensures
            self.schema == SETTINGS_SCHEMA <==> r is Ok,
            r matches Err(ManagerError::InvalidRegistry(m)) ==> m@ == "settings schema "@ + decimal(self.schema as nat)
                + " (esperado 1)"@,
    {
        if self.schema != SETTINGS_SCHEMA {
            let d = string_of(u64_decimal(self.schema as u64).as_slice());
            let a = concat("settings schema ", d.as_str());
            return Err(ManagerError::InvalidRegistry(concat(a.as_str(), " (esperado 1)")));
        }
        Ok(self)
    }
}

// ---------------------------------------------------------------------------
// Runtime detection.
// ---------------------------------------------------------------------------

/// A located, validated runtime.
#[derive(Debug, Clone, PartialEq, Eq)]
pub struct RuntimeInfo {
    pub binary: String,
    /// Version reported by `--version` (without the `rine ` prefix).
    pub version: String,
}

/// Candidate binaries, in order: `$RINE_BIN` (when set and non-empty), the
/// sidecar next to the current executable (unless already listed), then
/// with a base directory `base/rine`, `parent(base)/target/debug/rine`
/// (when it has a parent) and `base/target/debug/rine`, and finally
/// `rine` from `PATH`.
pub open spec fn candidates_spec(env: Option<Seq<char>>, sibling: Option<Seq<char>>, base: Option<Seq<char>>, base_parent: Option<Seq<char>>) -> Seq<Seq<char>> {
    let a: Seq<Seq<char>> = match env {
        Some(e) => if e.len() > 0 { seq![e] } else { seq![] },
        None => seq![],
    };
    let b = match sibling {
        Some(s) => if a.contains(s) { a } else { a.push(s) },
        None => a,
    };
    let c = match base {
        Some(d) => {
            let c1 = b.push(join1(d, "rine"@));
            let c2 = match base_parent {
                Some(p) => c1.push(join1(p, "target/debug/rine"@)),
                None => c1,
            };
            c2.push(join1(d, "target/debug/rine"@))
        },
        None => b,
    };
    c.push("rine"@)
}

pub fn runtime_candidates(env: Option<&str>, sibling: Option<&str>, base: Option<&str>, base_parent: Option<&str>) -> (r: Vec<String>)
    ensures
        r@.map_values(|s: String| s@) == candidates_spec(
            match env {
                Some(e) => Some(e@),
                None => None,
            },
            match sibling {
                Some(e) => Some(e@),
                None => None,
            },
            match base {
                Some(e) => Some(e@),
                None => None,
            },
            match base_parent {
                Some(e) => Some(e@),
                None => None,
            },
        ),
{
    let mut v: Vec<String> = Vec::new();
    let ghost view = |s: String| s@;
    match env {
        Some(e) => {
            if chars_of(e).len() > 0 {
                v.push(owned(e));
                assert(v@.map_values(view) =~= seq![e@]);
            } else {
                assert(v@.map_values(view) =~= Seq::<Seq<char>>::empty());
            }
        },
        None => {
            assert(v@.map_values(view) =~= Seq::<Seq<char>>::empty());
        },
    }
    match sibling {
        Some(s) => {
            let mut k: usize = 0;
            let mut found = false;
            while k < v.len() && !found
                invariant
                    k <= v@.len(),
                    forall|j: int| 0 <= j < k ==> v@[j]@ != s@,
                    found ==> k < v@.len() && v@[k as int]@ == s@,
                decreases v@.len() - k + (if found { 0int } else { 1int }),
            {
                if str_eq(v[k].as_str(), s) {
                    found = true;
                } else {
                    k += 1;
                }
            }
            proof {
                if found {
                    assert(v@.map_values(view)[k as int] == s@);
                } else {
                    assert forall|j: int| 0 <= j < v@.map_values(view).len() implies v@.map_values(view)[j] != s@ by {
                        assert(v@[j]@ != s@);
                    }
                }
            }
            if !found {
                let ghost v0 = v@;
                v.push(owned(s));
                assert(v@.map_values(view) =~= v0.map_values(view).push(s@));
            }
        },
        None => {},
    }
    match base {
        Some(d) => {
            let ghost v0 = v@;
            v.push(join_path(d, "rine"));
            assert(v@.map_values(view) =~= v0.map_values(view).push(join1(d@, "rine"@)));
            match base_parent {
                Some(p) => {
                    let ghost v1 = v@;
                    v.push(join_path(p, "target/debug/rine"));
                    assert(v@.map_values(view) =~= v1.map_values(view).push(join1(p@, "target/debug/rine"@)));
                },
                None => {},
            }
            let ghost v2 = v@;
            v.push(join_path(d, "target/debug/rine"));
            assert(v@.map_values(view) =~= v2.map_values(view).push(join1(d@, "target/debug/rine"@)));
        },
        None => {},
    }
    let ghost v3 = v@;
    v.push(owned("rine"));
    assert(v@.map_values(view) =~= v3.map_values(view).push("rine"@));
    v
}

/// Version in `--version` output: the first line, trimmed, after the
/// `rine ` prefix; `None` when absent or empty.
pub open spec fn version_spec(stdout: Seq<char>) -> Option<Seq<char>> {
    let lines = crate::text::lines(stdout);
    let line = if lines.len() > 0 { trim(lines[0]) } else { seq![] };
    if crate::text::is_prefix("rine "@, line) && line.len() > 5 {
        Some(line.subrange(5, line.len() as int))
    } else {
        None
    }
}

pub fn parse_version_output(stdout: &str) -> (r: Option<String>)
    ensures
        match r {
            Some(v) => version_spec(stdout@) == Some(v@),
            None => version_spec(stdout@) is None,
        },
{
    let c = chars_of(stdout);
    let ls = crate::text::lines_of(c.as_slice());
    let line = if ls.len() > 0 { trim_chars(ls[0].as_slice()) } else { Vec::new() };
    proof {
        if ls@.len() > 0 {
            assert(crate::text::views(ls@)[0] == ls@[0]@);
        }
    }
    let pre = chars_of("rine ");
    if crate::text::starts_with(line.as_slice(), pre.as_slice()) && line.len() > 5 {
        let v = crate::text::slice_copy(line.as_slice(), 5, line.len());
        return Some(string_of(v.as_slice()));
    }
    None
}

/// The candidate answered with `version`: accepted only when it is the
/// version this Manager operates (never silently).
pub fn accept_runtime(binary: &str, version: &str, expected: &str) -> (r: Result<RuntimeInfo, ManagerError>)
    ensures
        version@ == expected@ <==> r is Ok,
        match r {
            Ok(info) => info.binary@ == binary@ && info.version@ == version@,
            Err(e) => e matches ManagerError::ProtocolMismatch { manager, runtime } && manager@ == expected@ && runtime@
                == version@,
        },
{
    if str_eq(version, expected) {
        Ok(RuntimeInfo { binary: owned(binary), version: owned(version) })
    } else {
        Err(ManagerError::ProtocolMismatch { manager: owned(expected), runtime: owned(version) })
    }
}

// ---------------------------------------------------------------------------
// PE inspection and pre-flight.
// ---------------------------------------------------------------------------

/// A static import (`dll!name` or `dll!#ordinal`).
#[derive(Debug, Clone, PartialEq, Eq)]
pub struct ImportRef {
    /// DLL as spelled in the PE (e.g. `KERNEL32.dll`).
    pub dll: String,
    pub name: Option<String>,
    pub ordinal: Option<u16>,
}

/// Inspection report (never runs a byte of the guest).
#[derive(Debug, Clone)]
pub struct PeReport {
    pub filename: String,
    pub size_bytes: u64,
    pub machine: u16,
    pub subsystem: u16,
    pub entry_point_rva: u32,
    pub image_base: u64,
    /// Static imports, in PE order, duplicates removed.
    pub imports: Vec<ImportRef>,
    /// Referenced DLLs (unique, in order of appearance).
    pub dll_dependencies: Vec<String>,
}

pub open spec fn machine_text(machine: u16) -> Seq<char> {
    if machine == 0x8664 {
        "x86_64"@
    } else if machine == 0x14c {
        "i386 (não suportado)"@
    } else if machine == 0xaa64 {
        "ARM64 (não suportado)"@
    } else {
        "desconhecida"@
    }
}

pub fn machine_name(machine: u16) -> (r: &'static str)
    ensures
        r@ == machine_text(machine),
{
    if machine == 0x8664 {
        "x86_64"
    } else if machine == 0x14c {
        "i386 (não suportado)"
    } else if machine == 0xaa64 {
        "ARM64 (não suportado)"
    } else {
        "desconhecida"
    }
}

pub open spec fn subsystem_text(subsystem: u16) -> Seq<char> {
    if subsystem == 2 {
        "Windows GUI"@
    } else if subsystem == 3 {
        "Windows CUI"@
    } else if subsystem == 1 {
        "Native"@
    } else {
        "desconhecido"@
    }
}

pub fn subsystem_name(subsystem: u16) -> (r: &'static str)
    ensures
        r@ == subsystem_text(subsystem),
{
    if subsystem == 2 {
        "Windows GUI"
    } else if subsystem == 3 {
        "Windows CUI"
    } else if subsystem == 1 {
        "Native"
    } else {
        "desconhecido"
    }
}

pub type ImportKey = (Seq<char>, Option<Seq<char>>, Option<u16>);

pub open spec fn raw_key(s: RawImport) -> ImportKey {
    (s.dll@, opt_str(s.name), s.ordinal)
}

pub open spec fn ref_key(r: ImportRef) -> ImportKey {
    (r.dll@, opt_str(r.name), r.ordinal)
}

/// `s` without repeats, keeping first occurrences in order.
pub open spec fn dedup<A>(s: Seq<A>) -> Seq<A>
    decreases s.len(),
{
    if s.len() == 0 {
        seq![]
    } else {
        let d = dedup(s.drop_last());
        if d.contains(s.last()) { d } else { d.push(s.last()) }
    }
}

/// Image fields the inspector reads (the parser's output).
#[derive(Debug, Clone)]
pub struct ParsedImage {
    pub machine: u16,
    pub subsystem: u16,
    pub entry_point_rva: u32,
    pub image_base: u64,
    pub imports: Vec<RawImport>,
}

/// Inspection report of a parsed image: only x86_64 is supported; imports
/// keep PE order without repeats, and each DLL is listed once.
pub fn inspect_parsed(img: &ParsedImage, filename: String, size_bytes: u64) -> (r: Result<PeReport, ManagerError>)
    ensures
        img.machine == 0x8664 <==> r is Ok,
        match r {
            Ok(rep) => {
                &&& rep.filename@ == filename@
                &&& rep.size_bytes == size_bytes
                &&& rep.machine == img.machine
                &&& rep.subsystem == img.subsystem
                &&& rep.entry_point_rva == img.entry_point_rva
                &&& rep.image_base == img.image_base
                &&& rep.imports@.map_values(|r: ImportRef| ref_key(r)) == dedup(img.imports@.map_values(|s: RawImport| raw_key(s)))
                &&& rep.dll_dependencies@.map_values(|s: String| s@) == dedup(img.imports@.map_values(|s: RawImport| s.dll@))
            },
            Err(e) => e matches ManagerError::UnsupportedPe(m) && m@ == "machine "@ + decimal(img.machine as nat) + " ("@
                + machine_text(img.machine) + ") — só x86_64"@,
        },
{
    if img.machine != 0x8664 {
        let d = string_of(u64_decimal(img.machine as u64).as_slice());
        let a = concat("machine ", d.as_str());
        let b = concat(a.as_str(), " (");
        let c = concat(b.as_str(), machine_name(img.machine));
        return Err(ManagerError::UnsupportedPe(concat(c.as_str(), ") — só x86_64")));
    }
    let ghost keys = img.imports@.map_values(|s: RawImport| raw_key(s));
    let ghost dlls = img.imports@.map_values(|s: RawImport| s.dll@);
    let mut imports: Vec<ImportRef> = Vec::new();
    let mut deps: Vec<String> = Vec::new();
    let mut i: usize = 0;
    while i < img.imports.len()
        invariant
            i <= img.imports@.len(),
            keys == img.imports@.map_values(|s: RawImport| raw_key(s)),
            dlls == img.imports@.map_values(|s: RawImport| s.dll@),
            imports@.map_values(|r: ImportRef| ref_key(r)) == dedup(keys.take(i as int)),
            deps@.map_values(|s: String| s@) == dedup(dlls.take(i as int)),
        decreases img.imports@.len() - i,
    {
        let s = &img.imports[i];
        assert(keys.take(i + 1).drop_last() =~= keys.take(i as int));
        assert(keys.take(i + 1).last() == raw_key(*s));
        assert(dlls.take(i + 1).drop_last() =~= dlls.take(i as int));
        assert(dlls.take(i + 1).last() == s.dll@);
        let entry = ImportRef {
            dll: owned(s.dll.as_str()),
            name: crate::api_record::opt_string_copy(&s.name),
            ordinal: s.ordinal,
        };
        let ghost iv = imports@.map_values(|r: ImportRef| ref_key(r));
        let mut k: usize = 0;
        let mut found = false;
        while k < imports.len() && !found
            invariant
                k <= imports@.len(),
                iv == imports@.map_values(|r: ImportRef| ref_key(r)),
                forall|j: int| 0 <= j < k ==> iv[j] != ref_key(entry),
                found ==> k < imports@.len() && iv[k as int] == ref_key(entry),
            decreases imports@.len() - k + (if found { 0int } else { 1int }),
        {
            let e = &imports[k];
            let same_name = match (&e.name, &entry.name) {
                (Some(a), Some(b)) => str_eq(a.as_str(), b.as_str()),
                (None, None) => true,
                _ => false,
            };
            let same_ord = match (e.ordinal, entry.ordinal) {
                (Some(a), Some(b)) => a == b,
                (None, None) => true,
                _ => false,
            };
            if str_eq(e.dll.as_str(), entry.dll.as_str()) && same_name && same_ord {
                found = true;
            } else {
                k += 1;
            }
        }
        proof {
            if !found {
                assert(!iv.contains(ref_key(entry)));
            }
        }
        if !found {
            imports.push(entry);
            assert(imports@.map_values(|r: ImportRef| ref_key(r)) =~= iv.push(raw_key(*s)));
        }
        let ghost dv = deps@.map_values(|s: String| s@);
        let mut m: usize = 0;
        let mut seen = false;
        while m < deps.len() && !seen
            invariant
                m <= deps@.len(),
                dv == deps@.map_values(|s: String| s@),
                forall|j: int| 0 <= j < m ==> dv[j] != s.dll@,
                seen ==> m < deps@.len() && dv[m as int] == s.dll@,
            decreases deps@.len() - m + (if seen { 0int } else { 1int }),
        {
            if str_eq(deps[m].as_str(), s.dll.as_str()) {
                seen = true;
            } else {
                m += 1;
            }
        }
        proof {
            if !seen {
                assert(!dv.contains(s.dll@));
            }
        }
        if !seen {
            deps.push(owned(s.dll.as_str()));
            assert(deps@.map_values(|s: String| s@) =~= dv.push(s.dll@));
        }
        i += 1;
    }
    assert(keys.take(img.imports@.len() as int) =~= keys);
    assert(dlls.take(img.imports@.len() as int) =~= dlls);
    Ok(PeReport {
        filename,
        size_bytes,
        machine: img.machine,
        subsystem: img.subsystem,
        entry_point_rva: img.entry_point_rva,
        image_base: img.image_base,
        imports,
        dll_dependencies: deps,
    })
}

/// Honest pre-check verdict (never "compatible": that needs a run).
#[derive(Debug, Clone, Copy, PartialEq, Eq, Structural)]
pub enum PreflightVerdict {
    /// Every known static import resolves.
    ImportSurfaceSatisfied,
    /// Imports without implementation: the run is almost surely blocked.
    LikelyBlocked,
}

/// Pre-flight report for the Run page.
#[derive(Debug, Clone)]
pub struct PreflightReport {
    /// Imported symbols (unique).
    pub total_imports: usize,
    /// Resolved by the current runtime.
    pub supported: usize,
    /// Without implementation: KERNEL32 first, then by DLL and name.
    pub missing: Vec<(String, String)>,
    pub verdict: PreflightVerdict,
}

/// Import identity for counting: `(dll, name or #ordinal)`.
pub open spec fn symbol_key(s: RawImport) -> (Seq<char>, Seq<char>) {
    (s.dll@, match s.name {
        Some(n) => n@,
        None => "#"@ + decimal(match s.ordinal {
            Some(o) => o as nat,
            None => 0,
        }),
    })
}

pub open spec fn is_kernel32(dll: Seq<char>) -> bool {
    lower(dll) == "kernel32.dll"@
}

/// Order of missing imports: KERNEL32 first, then by DLL, then by name.
pub open spec fn missing_le(a: (Seq<char>, Seq<char>), b: (Seq<char>, Seq<char>)) -> bool {
    if is_kernel32(a.0) != is_kernel32(b.0) {
        is_kernel32(a.0)
    } else {
        chars_lt(a.0, b.0) || (a.0 == b.0 && !chars_lt(b.1, a.1))
    }
}

pub open spec fn pairs_view(v: Seq<(String, String)>) -> Seq<(Seq<char>, Seq<char>)> {
    v.map_values(|p: (String, String)| (p.0@, p.1@))
}

pub open spec fn missing_sorted(s: Seq<(Seq<char>, Seq<char>)>) -> bool {
    forall|i: int, j: int| 0 <= i < j < s.len() ==> missing_le(#[trigger] s[i], #[trigger] s[j])
}

proof fn lemma_missing_order(a: (Seq<char>, Seq<char>), b: (Seq<char>, Seq<char>), c: (Seq<char>, Seq<char>))
    ensures
        missing_le(a, b) || missing_le(b, a),
        missing_le(a, b) && missing_le(b, c) ==> missing_le(a, c),
{
    lemma_chars_lt_order(a.0, b.0, c.0);
    lemma_chars_lt_order(a.1, b.1, c.1);
    lemma_chars_lt_order(c.1, b.1, a.1);
    lemma_chars_lt_order(b.0, a.0, c.0);
    lemma_chars_lt_order(b.1, a.1, c.1);
    lemma_chars_lt_order(a.0, c.0, b.0);
    lemma_chars_lt_order(b.1, c.1, a.1);
    lemma_chars_lt_order(c.1, a.1, b.1);
}

fn kernel32_like(dll: &str) -> (r: bool)
    ensures
        r == is_kernel32(dll@),
{
    let c = chars_of(dll);
    let l = crate::text::ascii_lower(c.as_slice());
    let k = chars_of("kernel32.dll");
    seq_eq(l.as_slice(), k.as_slice())
}

fn missing_less_eq(a: &(String, String), b: &(String, String)) -> (r: bool)
    ensures
        r == missing_le((a.0@, a.1@), (b.0@, b.1@)),
{
    let ka = kernel32_like(a.0.as_str());
    let kb = kernel32_like(b.0.as_str());
    if ka != kb {
        return ka;
    }
    let ad = chars_of(a.0.as_str());
    let bd = chars_of(b.0.as_str());
    if chars_less(ad.as_slice(), bd.as_slice()) {
        return true;
    }
    if !seq_eq(ad.as_slice(), bd.as_slice()) {
        return false;
    }
    let an = chars_of(a.1.as_str());
    let bn = chars_of(b.1.as_str());
    !chars_less(bn.as_slice(), an.as_slice())
}

/// `v` in missing-import order (stable insertion sort).
pub fn sort_missing(v: Vec<(String, String)>) -> (r: Vec<(String, String)>)
    ensures
        missing_sorted(pairs_view(r@)),
        pairs_view(r@).to_multiset() == pairs_view(v@).to_multiset(),
{
    let ghost sv = pairs_view(v@);
    let mut out: Vec<(String, String)> = Vec::new();
    let mut i: usize = 0;
    assert(sv.take(0) =~= Seq::<(Seq<char>, Seq<char>)>::empty());
    assert(pairs_view(out@) =~= Seq::<(Seq<char>, Seq<char>)>::empty());
    while i < v.len()
        invariant
            i <= v@.len(),
            sv == pairs_view(v@),
            missing_sorted(pairs_view(out@)),
            pairs_view(out@).to_multiset() == sv.take(i as int).to_multiset(),
        decreases v@.len() - i,
    {
        let x = (owned(v[i].0.as_str()), owned(v[i].1.as_str()));
        let ghost xv = (x.0@, x.1@);
        let ghost s = pairs_view(out@);
        let mut p: usize = 0;
        let mut stop = false;
        while p < out.len() && !stop
            invariant
                p <= out@.len(),
                s == pairs_view(out@),
                xv == (x.0@, x.1@),
                forall|j: int| 0 <= j < p ==> missing_le(s[j], xv),
                stop ==> p < s.len() && !missing_le(s[p as int], xv),
            decreases out@.len() - p + (if stop { 0int } else { 1int }),
        {
            if missing_less_eq(&out[p], &x) {
                p += 1;
            } else {
                stop = true;
            }
        }
        out.insert(p, x);
        proof {
            let t = pairs_view(out@);
            assert(t =~= s.insert(p as int, xv));
            if p < s.len() {
                lemma_missing_order(s[p as int], xv, xv);
            }
            assert forall|a: int, b: int| 0 <= a < b < t.len() implies missing_le(#[trigger] t[a], #[trigger] t[b]) by {
                if b < p {
                    assert(t[a] == s[a] && t[b] == s[b]);
                } else if b == p {
                    assert(t[a] == s[a]);
                } else if a == p {
                    assert(t[b] == s[b - 1]);
                    if b - 1 > p {
                        lemma_missing_order(xv, s[p as int], s[b - 1]);
                    }
                } else if a < p {
                    assert(t[a] == s[a] && t[b] == s[b - 1]);
                    if b - 1 > p {
                        lemma_missing_order(xv, s[p as int], s[b - 1]);
                    }
                    lemma_missing_order(s[a], xv, s[b - 1]);
                } else {
                    assert(t[a] == s[a - 1] && t[b] == s[b - 1]);
                }
            }
            vstd::seq_lib::to_multiset_insert(s, p as int, xv);
            assert(sv.take(i + 1) =~= sv.take(i as int).push(xv));
            vstd::seq_lib::to_multiset_build(sv.take(i as int), xv);
        }
        i += 1;
    }
    assert(sv.take(v@.len() as int) =~= sv);
    out
}

/// Pre-flight report from the image's import symbols and the runtime's
/// list of imports it cannot resolve.
pub fn preflight_from(symbols: &[RawImport], missing: Vec<(String, String)>) -> (r: PreflightReport)
    ensures
        r.total_imports == dedup(symbols@.map_values(|s: RawImport| symbol_key(s))).len(),
        missing_sorted(pairs_view(r.missing@)),
        pairs_view(r.missing@).to_multiset() == pairs_view(missing@).to_multiset(),
        r.supported == if r.total_imports >= missing@.len() { r.total_imports - missing@.len() } else { 0 },
        r.verdict == (if missing@.len() == 0 {
            PreflightVerdict::ImportSurfaceSatisfied
        } else {
            PreflightVerdict::LikelyBlocked
        }),
{
    let ghost keys = symbols@.map_values(|s: RawImport| symbol_key(s));
    let mut seen: Vec<(String, String)> = Vec::new();
    let mut i: usize = 0;
    assert(keys.take(0) =~= Seq::<(Seq<char>, Seq<char>)>::empty());
    assert(pairs_view(seen@) =~= Seq::<(Seq<char>, Seq<char>)>::empty());
    while i < symbols.len()
        invariant
            i <= symbols@.len(),
            keys == symbols@.map_values(|s: RawImport| symbol_key(s)),
            pairs_view(seen@) == dedup(keys.take(i as int)),
        decreases symbols@.len() - i,
    {
        let s = &symbols[i];
        let name = match &s.name {
            Some(n) => owned(n.as_str()),
            None => {
                let o: u16 = match s.ordinal {
                    Some(o) => o,
                    None => 0,
                };
                let mut cs = chars_of("#");
                let d = u64_decimal(o as u64);
                extend_chars(&mut cs, d.as_slice());
                string_of(cs.as_slice())
            },
        };
        let key = (owned(s.dll.as_str()), name);
        assert((key.0@, key.1@) == symbol_key(*s));
        assert(keys.take(i + 1).drop_last() =~= keys.take(i as int));
        assert(keys.take(i + 1).last() == symbol_key(*s));
        let ghost sv = pairs_view(seen@);
        let mut k: usize = 0;
        let mut found = false;
        while k < seen.len() && !found
            invariant
                k <= seen@.len(),
                sv == pairs_view(seen@),
                forall|j: int| 0 <= j < k ==> sv[j] != (key.0@, key.1@),
                found ==> k < seen@.len() && sv[k as int] == (key.0@, key.1@),
            decreases seen@.len() - k + (if found { 0int } else { 1int }),
        {
            if str_eq(seen[k].0.as_str(), key.0.as_str()) && str_eq(seen[k].1.as_str(), key.1.as_str()) {
                found = true;
            } else {
                k += 1;
            }
        }
        proof {
            if !found {
                assert(!sv.contains((key.0@, key.1@)));
            }
        }
        if !found {
            let ghost kv = (key.0@, key.1@);
            seen.push(key);
            assert(pairs_view(seen@) =~= sv.push(kv));
        }
        i += 1;
    }
    assert(keys.take(symbols@.len() as int) =~= keys);
    let total_imports = seen.len();
    assert(total_imports == pairs_view(seen@).len());
    let n_missing = missing.len();
    let sorted = sort_missing(missing);
    let supported: usize = if total_imports >= n_missing { total_imports - n_missing } else { 0 };
    let verdict = if n_missing == 0 { PreflightVerdict::ImportSurfaceSatisfied } else { PreflightVerdict::LikelyBlocked };
    PreflightReport { total_imports, supported, missing: sorted, verdict }
}

// ---------------------------------------------------------------------------
// Frontend payloads.
// ---------------------------------------------------------------------------

/// Runtime shown on the home page.
#[derive(Debug, Clone)]
pub struct RuntimeDto {
    pub version: String,
    pub binary: String,
    /// Matches the workspace version (always true here: a mismatch is an
    /// error).
    pub compatible: bool,
}

/// Ad-hoc run request of the Run page.
#[derive(Debug, Clone)]
pub struct RunPayload {
    pub exe: String,
    pub capsule: Option<String>,
    pub args: Vec<String>,
    pub workdir: Option<String>,
    pub env_extra: Vec<(String, String)>,
    pub timeout_ms: u64,
}

/// Capsule creation request of the wizard.
#[derive(Debug, Clone)]
pub struct CreateCapsulePayload {
    pub name: String,
    pub parent_dir: String,
    pub drives: Vec<(char, String)>,
    pub current_dir: Option<String>,
}

/// Command error for the frontend: stable code plus human message.
#[derive(Debug, Clone)]
pub struct CmdError {
    pub code: String,
    pub message: String,
}

impl CmdError {
    pub fn from_error(e: ManagerError) -> (r: CmdError)
        ensures
            r.code@ == crate::manager_error::code_spec(e),
            r.message@ == crate::manager_error::message_spec(e),
    {
        CmdError { code: owned(e.code()), message: e.message() }
    }
}

/// Run request for `rine_bin` from a frontend payload.
pub fn to_request(rine_bin: String, p: RunPayload) -> (r: crate::run::RunRequest)
    ensures
        r.rine_bin@ == rine_bin@,
        r.exe@ == p.exe@,
        crate::registry::opt_view(r.capsule) == crate::registry::opt_view(p.capsule),
        r.args@ == p.args@,
        crate::registry::opt_view(r.workdir) == crate::registry::opt_view(p.workdir),
        r.env_extra@ == p.env_extra@,
        r.timeout_ms == p.timeout_ms,
{
    crate::run::RunRequest {
        rine_bin,
        exe: p.exe,
        capsule: p.capsule,
        args: p.args,
        workdir: p.workdir,
        env_extra: p.env_extra,
        timeout_ms: p.timeout_ms,
    }
}

} // verus!
