//! Expected-state model for the file-operation campaign: Create / Write /
//! Read / Close over a virtual file system keyed by translated host paths.
//!
//! The guest driver keeps ONE handle: a failed `Create` overwrites it with
//! `INVALID_HANDLE_VALUE`, so the model drops the open file on any failed
//! create (it mirrors the harness protocol, not multi-handle Windows).
use vstd::prelude::*;
use crate::nt_file::{is_sep, opt_view, DriveMap};
use crate::text::{chars_less, chars_lt, chars_of, lemma_chars_lt_order, owned, str_eq};

pub use crate::nt_file::{GENERIC_READ, GENERIC_WRITE};

verus! {

/// One file operation of a campaign step.
#[derive(Debug, Clone)]
pub enum RawOp {
    Create { path: String, access: u32, disp: u32 },
    Write { len: u32 },
    Read { len: u32 },
    Close,
}

/// A `RawOp` with its path taken by view.
pub enum OpView {
    Create { path: Seq<char>, access: u32, disp: u32 },
    Write { len: u32 },
    Read { len: u32 },
    Close,
}

pub open spec fn op_view(op: RawOp) -> OpView {
    match op {
        RawOp::Create { path, access, disp } => OpView::Create { path: path@, access, disp },
        RawOp::Write { len } => OpView::Write { len },
        RawOp::Read { len } => OpView::Read { len },
        RawOp::Close => OpView::Close,
    }
}

/// Expected outcome of one step: `Create` → `valid`; `Write` → `ok` and
/// `count`; `Read` → `ok`, `count` and `verify` (bytes read == `MSG`);
/// `Close` → `ok`.
#[derive(Debug, Clone, Copy, PartialEq, Eq, Structural)]
pub struct FileExpect {
    pub valid: bool,
    pub ok: bool,
    pub count: u32,
    pub verify: bool,
}

pub open spec fn expect_create(valid: bool) -> FileExpect {
    FileExpect { valid, ok: true, count: 0, verify: false }
}

pub open spec fn expect_count(ok: bool, count: u32, verify: bool) -> FileExpect {
    FileExpect { valid: true, ok, count, verify }
}

pub open spec fn expect_close(ok: bool) -> FileExpect {
    FileExpect { valid: true, ok, count: 0, verify: false }
}

impl FileExpect {
    /// Expectation of a `Create` step.
    pub fn create(valid: bool) -> (r: FileExpect)
        ensures
            r == expect_create(valid),
    {
        FileExpect { valid, ok: true, count: 0, verify: false }
    }

    /// Expectation of a `Write` or `Read` step.
    pub fn count_ok(ok: bool, count: u32, verify: bool) -> (r: FileExpect)
        ensures
            r == expect_count(ok, count, verify),
    {
        FileExpect { valid: true, ok, count, verify }
    }

    /// Expectation of a `Close` step.
    pub fn close(ok: bool) -> (r: FileExpect)
        ensures
            r == expect_close(ok),
    {
        FileExpect { valid: true, ok, count: 0, verify: false }
    }
}

/// The bytes every guest `WriteFile` sends: `"Hello File\n"`.
pub open spec fn msg_spec() -> Seq<u8> {
    seq![72u8, 101u8, 108u8, 108u8, 111u8, 32u8, 70u8, 105u8, 108u8, 101u8, 10u8]
}

pub fn msg() -> (r: Vec<u8>)
    ensures
        r@ == msg_spec(),
{
    let r: Vec<u8> = vec![72u8, 101u8, 108u8, 108u8, 111u8, 32u8, 70u8, 105u8, 108u8, 101u8, 10u8];
    assert(r@ =~= msg_spec());
    r
}

/// What `std::path::Path::parent` gives for a host path: the path without
/// its final component, `None` for a root or an empty path.
pub uninterp spec fn path_parent(p: Seq<char>) -> Option<Seq<char>>;

/// `std::path::Path::parent`, taken back to a `String`. Stated: the result
/// is `path_parent` of the input, and a parent is strictly shorter than
/// its path (the final component, never empty, is removed).
#[verifier::external_body]
fn parent_dir(p: &str) -> (r: Option<String>)
    ensures
        opt_view(r) == path_parent(p@),
        match r {
            Some(q) => q@.len() < p@.len(),
            None => true,
        },
{
    match std::path::Path::new(p).parent() {
        Some(q) => Some(q.to_string_lossy().into_owned()),
        None => None,
    }
}

// ---------------------------------------------------------------------------
// Abstract state and the rules of each step.
// ---------------------------------------------------------------------------

pub struct OpenState {
    pub path: Seq<char>,
    pub readable: bool,
    pub writable: bool,
    pub pos: nat,
}

/// Model state: file contents by host path, existing directories (drive
/// roots and ancestors of setup files), and the one open file.
pub struct FileState {
    pub files: Map<Seq<char>, Seq<u8>>,
    pub dirs: Set<Seq<char>>,
    pub open: Option<OpenState>,
}

/// Parent directory that must exist for `key` (empty: none needed).
pub open spec fn immediate_parent(key: Seq<char>) -> Seq<char> {
    match path_parent(key) {
        Some(p) => p,
        None => seq![],
    }
}

pub open spec fn with_open(s: FileState, open: Option<OpenState>) -> FileState {
    FileState { files: s.files, dirs: s.dirs, open }
}

/// `Create`: disposition 1..=5 (CREATE_NEW, CREATE_ALWAYS, OPEN_EXISTING,
/// OPEN_ALWAYS, TRUNCATE_EXISTING); truncation needs GENERIC_WRITE; a
/// trailing separator names a directory; the path must translate and its
/// parent directory must exist.
pub open spec fn try_create_spec(s: FileState, fsys: DriveMap, path: Seq<char>, access: u32, disp: u32) -> (
    FileState,
    bool,
) {
    if !(1 <= disp <= 5) {
        (s, false)
    } else if disp == 5 && access & GENERIC_WRITE == 0 {
        (s, false)
    } else if path.len() > 0 && is_sep(path.last()) {
        (s, false)
    } else {
        match fsys.translate_spec(path) {
            Err(_) => (s, false),
            Ok(key) => {
                let imm = immediate_parent(key);
                let exists = s.files.contains_key(key);
                if imm.len() > 0 && !s.dirs.contains(imm) {
                    (s, false)
                } else if (disp == 1 && exists) || ((disp == 3 || disp == 5) && !exists) {
                    (s, false)
                } else {
                    let files = if disp == 1 || disp == 2 || disp == 5 || (disp == 4 && !exists) {
                        s.files.insert(key, seq![])
                    } else {
                        s.files
                    };
                    (
                        FileState {
                            files,
                            dirs: s.dirs,
                            open: Some(
                                OpenState {
                                    path: key,
                                    readable: access & GENERIC_READ != 0 || access == 0,
                                    writable: access & GENERIC_WRITE != 0,
                                    pos: 0,
                                },
                            ),
                        },
                        true,
                    )
                }
            },
        }
    }
}

/// The rules of `Create` stated directly. It succeeds exactly when the
/// disposition is one of the five, truncation has write access, the path
/// does not end in a separator, it translates, the file's parent directory
/// exists, and the file's existence suits the disposition. A success opens
/// the file at offset 0 (readable unless only write access was asked),
/// leaves an existing file's bytes when it opens one (dispositions 3 and
/// 4) and empties it otherwise, and touches no other file or directory; a
/// failure changes nothing.
pub proof fn law_try_create(s: FileState, fsys: DriveMap, path: Seq<char>, access: u32, disp: u32)
    ensures
        ({
            let (t, ok) = try_create_spec(s, fsys, path, access, disp);
            &&& ok == (1 <= disp <= 5 && !(disp == 5 && access & GENERIC_WRITE == 0) && !(path.len() > 0 && is_sep(
                path.last(),
            )) && match fsys.translate_spec(path) {
                Ok(key) => {
                    let exists = s.files.contains_key(key);
                    &&& (immediate_parent(key).len() == 0 || s.dirs.contains(immediate_parent(key)))
                    &&& !(disp == 1 && exists)
                    &&& !((disp == 3 || disp == 5) && !exists)
                },
                Err(_) => false,
            })
            &&& !ok ==> t == s
            &&& ok ==> match fsys.translate_spec(path) {
                Ok(key) => {
                    &&& t.open == Some(
                        OpenState {
                            path: key,
                            readable: access & GENERIC_READ != 0 || access == 0,
                            writable: access & GENERIC_WRITE != 0,
                            pos: 0,
                        },
                    )
                    &&& t.dirs == s.dirs
                    &&& t.files.contains_key(key)
                    &&& t.files[key] == (if (disp == 3 || disp == 4) && s.files.contains_key(key) {
                        s.files[key]
                    } else {
                        seq![]
                    })
                    &&& forall|k: Seq<char>| k != key ==> #[trigger] t.files.contains_key(k) == s.files.contains_key(k)
                        && (s.files.contains_key(k) ==> t.files[k] == s.files[k])
                },
                Err(_) => false,
            }
        }),
{
}

/// A failed create drops the open file (the driver's one handle slot).
pub open spec fn create_spec(s: FileState, fsys: DriveMap, path: Seq<char>, access: u32, disp: u32) -> (FileState, bool) {
    let (t, ok) = try_create_spec(s, fsys, path, access, disp);
    if ok { (t, true) } else { (with_open(t, None), false) }
}

pub open spec fn min_nat(a: nat, b: nat) -> nat {
    if a < b { a } else { b }
}

/// `d` with `m` written at offset `p` (zero-filled if `p` is past the end).
pub open spec fn overwrite(d: Seq<u8>, p: nat, m: Seq<u8>) -> Seq<u8> {
    let n = if d.len() > p + m.len() { d.len() } else { p + m.len() };
    Seq::new(n, |i: int| if p <= i < p + m.len() { m[i - p] } else if i < d.len() { d[i] } else { 0u8 })
}

/// Bytes a `Write` of `len` sends: at most `MSG.len()`.
pub open spec fn write_take(len: nat) -> nat {
    min_nat(len, 11)
}

/// `Write`: needs a writable open file; writes `MSG[..min(len, 11)]` at the
/// position and advances it. Without one: `(false, 0)`.
pub open spec fn write_spec(s: FileState, len: nat) -> (FileState, (bool, u32)) {
    match s.open {
        Some(o) => if o.writable {
            let take = write_take(len);
            let nd = overwrite(s.files[o.path], o.pos, msg_spec().take(take as int));
            (
                FileState {
                    files: s.files.insert(o.path, nd),
                    dirs: s.dirs,
                    open: Some(OpenState { path: o.path, readable: o.readable, writable: o.writable, pos: o.pos + take }),
                },
                (true, take as u32),
            )
        } else {
            (s, (false, 0u32))
        },
        None => (s, (false, 0u32)),
    }
}

/// Bytes a `Read` of `len` returns at position `pos` of `data`.
pub open spec fn read_take(data: Seq<u8>, pos: nat, len: nat) -> nat {
    let avail: nat = if data.len() >= pos { (data.len() - pos) as nat } else { 0 };
    min_nat(min_nat(len, 32), avail)
}

/// `Read`: needs a readable open file; returns up to `min(len, 32)` bytes
/// and verifies them against `MSG`. Without one: `(false, 0, false)`.
pub open spec fn read_spec(s: FileState, len: nat) -> (FileState, (bool, u32, bool)) {
    match s.open {
        Some(o) => if o.readable {
            let data = s.files[o.path];
            let take = read_take(data, o.pos, len);
            let v = take > 0 && data.subrange(o.pos as int, (o.pos + take) as int) == msg_spec().take(take as int);
            (
                with_open(s, Some(OpenState { path: o.path, readable: o.readable, writable: o.writable, pos: o.pos + take })),
                (true, take as u32, v),
            )
        } else {
            (s, (false, 0u32, false))
        },
        None => (s, (false, 0u32, false)),
    }
}

pub open spec fn close_spec(s: FileState) -> (FileState, bool) {
    match s.open {
        Some(_) => (with_open(s, None), true),
        None => (s, false),
    }
}

pub open spec fn step_spec(s: FileState, fsys: DriveMap, op: RawOp) -> (FileState, FileExpect) {
    match op {
        RawOp::Create { path, access, disp } => {
            let (t, ok) = create_spec(s, fsys, path@, access, disp);
            (t, expect_create(ok))
        },
        RawOp::Write { len } => {
            let (t, r) = write_spec(s, len as nat);
            (t, expect_count(r.0, r.1, false))
        },
        RawOp::Read { len } => {
            let (t, r) = read_spec(s, len as nat);
            (t, expect_count(r.0, r.1, r.2))
        },
        RawOp::Close => {
            let (t, ok) = close_spec(s);
            (t, expect_close(ok))
        },
    }
}

/// State and expectations after running `ops` in order.
pub open spec fn run_spec(s: FileState, fsys: DriveMap, ops: Seq<RawOp>) -> (FileState, Seq<FileExpect>)
    decreases ops.len(),
{
    if ops.len() == 0 {
        (s, seq![])
    } else {
        let (t, es) = run_spec(s, fsys, ops.drop_last());
        let (u, e) = step_spec(t, fsys, ops.last());
        (u, es.push(e))
    }
}

/// The shape of the expectation of one step, whatever the state: a create
/// always answers (count 0, nothing to verify); a write is valid and sends
/// `min(len, 11)` bytes when it succeeds, none otherwise; a read is valid,
/// returns at most `min(len, 32)` bytes, none when it fails, and verifies
/// only bytes it read; a close is valid with count 0.
pub open spec fn step_shaped(op: RawOp, e: FileExpect) -> bool {
    match op {
        RawOp::Create { .. } => e.ok && e.count == 0 && !e.verify,
        RawOp::Write { len } => e.valid && !e.verify && e.count == (if e.ok { min_nat(len as nat, 11) } else { 0 }),
        RawOp::Read { len } => e.valid && e.count <= min_nat(len as nat, 32) && (!e.ok ==> e.count == 0 && !e.verify) && (
        e.verify ==> e.count > 0),
        RawOp::Close => e.valid && e.count == 0 && !e.verify,
    }
}

/// Every step of a run has the shape of its operation, and there is one
/// expectation per operation.
pub proof fn law_run_shape(s: FileState, fsys: DriveMap, ops: Seq<RawOp>)
    ensures
        run_spec(s, fsys, ops).1.len() == ops.len(),
        forall|i: int| 0 <= i < ops.len() ==> step_shaped(#[trigger] ops[i], run_spec(s, fsys, ops).1[i]),
    decreases ops.len(),
{
    if ops.len() > 0 {
        let init = ops.drop_last();
        law_run_shape(s, fsys, init);
        let (t, es) = run_spec(s, fsys, init);
        let (u, e) = step_spec(t, fsys, ops.last());
        assert(step_shaped(ops.last(), e)) by {
            match ops.last() {
                RawOp::Read { len } => {
                    let o = t.open;
                    match o {
                        Some(o) => if o.readable {
                            let take = read_take(t.files[o.path], o.pos, len as nat);
                            assert(take <= min_nat(len as nat, 32));
                        },
                        None => {},
                    }
                },
                _ => {},
            }
        }
        assert forall|i: int| 0 <= i < ops.len() implies step_shaped(#[trigger] ops[i], run_spec(s, fsys, ops).1[i]) by {
            if i < ops.len() - 1 {
                assert(ops[i] == init[i]);
            }
        }
    }
}

/// Reading and writing move the open file's position: a read or write on
/// an open file that allows it succeeds, and leaves the same file open
/// (same path and rights) with its position advanced by exactly the number
/// of bytes the step reports. So a second read starts where the first one
/// stopped, and a read after a read that reached the end gets nothing.
pub proof fn law_read_write_advance(s: FileState, fsys: DriveMap, ops: Seq<RawOp>, len: u32)
    ensures
        ({
            let (t, _) = run_spec(s, fsys, ops);
            let (u, es) = run_spec(s, fsys, ops.push(RawOp::Read { len }));
            t.open matches Some(o) ==> o.readable ==> es.last().ok && u.open == Some(
                OpenState { path: o.path, readable: o.readable, writable: o.writable, pos: o.pos + es.last().count as nat },
            ) && u.files == t.files
        }),
        ({
            let (t, _) = run_spec(s, fsys, ops);
            let (u, es) = run_spec(s, fsys, ops.push(RawOp::Write { len }));
            t.open matches Some(o) ==> o.writable ==> es.last().ok && u.open == Some(
                OpenState { path: o.path, readable: o.readable, writable: o.writable, pos: o.pos + es.last().count as nat },
            )
        }),
        ({
            let (t, _) = run_spec(s, fsys, ops);
            let (u, es) = run_spec(s, fsys, ops.push(RawOp::Read { len }));
            t.open matches Some(o) ==> o.readable && o.pos >= t.files[o.path].len() ==> es.last().count == 0
                && u.open == t.open
        }),
{
    let rd = ops.push(RawOp::Read { len });
    let wr = ops.push(RawOp::Write { len });
    assert(rd.drop_last() =~= ops);
    assert(wr.drop_last() =~= ops);
    assert(rd.last() == RawOp::Read { len });
    assert(wr.last() == RawOp::Write { len });
}

/// What a write leaves in the file: on a writable open file, the file
/// holds the first `count` bytes of `"Hello File\n"` (72 101 108 108 111 32
/// 70 105 108 101 10) at the old position, `count` is `min(len, 11)`, bytes
/// before the position are kept, bytes past the written ones keep their
/// old value, the file grows to at least the new position, and no other
/// file changes. A read then returns those bytes.
pub proof fn law_write_contents(s: FileState, len: u32)
    ensures
        s.open matches Some(o) ==> o.writable ==> ({
            let (t, (ok, count)) = write_spec(s, len as nat);
            let old_d = s.files[o.path];
            let d = t.files[o.path];
            &&& ok && count == (if len < 11 { len } else { 11 })
            &&& d.len() == (if old_d.len() > o.pos + count { old_d.len() as int } else { o.pos + count })
            &&& forall|k: int| 0 <= k < count ==> #[trigger] d[o.pos + k] == seq![72u8, 101u8, 108u8, 108u8, 111u8, 32u8,
                70u8, 105u8, 108u8, 101u8, 10u8][k]
            &&& forall|k: int| 0 <= k < o.pos && k < old_d.len() ==> #[trigger] d[k] == old_d[k]
            &&& forall|k: int| o.pos + count <= k < old_d.len() ==> #[trigger] d[k] == old_d[k]
            &&& forall|f: Seq<char>| f != o.path ==> #[trigger] t.files.contains_key(f) == s.files.contains_key(f) && (
            s.files.contains_key(f) ==> t.files[f] == s.files[f])
        }),
        s.open is None ==> write_spec(s, len as nat) == (s, (false, 0u32)),
{
    if let Some(o) = s.open {
        if o.writable {
            let take = write_take(len as nat);
            let m = msg_spec().take(take as int);
            let d = overwrite(s.files[o.path], o.pos, m);
            assert forall|k: int| 0 <= k < take implies #[trigger] d[o.pos + k] == seq![72u8, 101u8, 108u8, 108u8, 111u8,
                32u8, 70u8, 105u8, 108u8, 101u8, 10u8][k] by {
                assert(m[k] == msg_spec()[k]);
            }
        }
    }
}

/// A step the model can take without running out of range: a write must
/// not move the position past `usize::MAX`, and a read compares at most
/// `MSG.len()` bytes against `MSG`.
pub open spec fn op_safe(s: FileState, op: RawOp) -> bool {
    match op {
        RawOp::Write { len } => match s.open {
            Some(o) => o.writable ==> o.pos + write_take(len as nat) <= usize::MAX,
            None => true,
        },
        RawOp::Read { len } => match s.open {
            Some(o) => o.readable ==> read_take(s.files[o.path], o.pos, len as nat) <= 11,
            None => true,
        },
        _ => true,
    }
}

pub open spec fn run_safe(s: FileState, fsys: DriveMap, ops: Seq<RawOp>) -> bool
    decreases ops.len(),
{
    if ops.len() == 0 {
        true
    } else {
        run_safe(s, fsys, ops.drop_last()) && op_safe(run_spec(s, fsys, ops.drop_last()).0, ops.last())
    }
}

/// Directories created for `cur`'s missing ancestors, walking up until an
/// existing or empty parent.
pub open spec fn add_ancestors(dirs: Set<Seq<char>>, cur: Seq<char>) -> Set<Seq<char>>
    decreases cur.len(),
{
    match path_parent(cur) {
        None => dirs,
        Some(p) => if p.len() >= cur.len() || p.len() == 0 || dirs.contains(p) {
            dirs
        } else {
            add_ancestors(dirs.insert(p), p)
        },
    }
}

/// Setup files applied in order: a file whose name translates is stored
/// under its host path, and its missing ancestors become directories.
pub open spec fn setup_spec(s: FileState, fsys: DriveMap, setup: Seq<(Seq<char>, Seq<u8>)>) -> FileState
    decreases setup.len(),
{
    if setup.len() == 0 {
        s
    } else {
        let t = setup_spec(s, fsys, setup.drop_last());
        match fsys.translate_spec(setup.last().0) {
            Err(_) => t,
            Ok(key) => FileState {
                files: t.files.insert(key, setup.last().1),
                dirs: add_ancestors(t.dirs, key),
                open: t.open,
            },
        }
    }
}

/// Drive directories and the current directory of `fsys`.
pub open spec fn roots_set(fsys: DriveMap) -> Set<Seq<char>> {
    Set::new(
        |k: Seq<char>|
            (exists|i: int| 0 <= i < fsys.drive_list().len() && fsys.drive_list()[i].1 == k) || fsys.current()
                == Some(k),
    )
}

pub open spec fn initial_state(fsys: DriveMap) -> FileState {
    FileState { files: Map::empty(), dirs: roots_set(fsys), open: None }
}

// ---------------------------------------------------------------------------
// Sorted key/value sequences as maps.
// ---------------------------------------------------------------------------

pub open spec fn keys_sorted<V>(s: Seq<(Seq<char>, V)>) -> bool {
    forall|i: int, j: int| 0 <= i < j < s.len() ==> chars_lt(#[trigger] s[i].0, #[trigger] s[j].0)
}

pub open spec fn has_key<V>(s: Seq<(Seq<char>, V)>, k: Seq<char>) -> bool {
    exists|i: int| 0 <= i < s.len() && s[i].0 == k
}

pub open spec fn key_index<V>(s: Seq<(Seq<char>, V)>, k: Seq<char>) -> int {
    choose|i: int| 0 <= i < s.len() && s[i].0 == k
}

pub open spec fn to_map<V>(s: Seq<(Seq<char>, V)>) -> Map<Seq<char>, V> {
    Map::new(|k: Seq<char>| has_key(s, k), |k: Seq<char>| s[key_index(s, k)].1)
}

pub proof fn lemma_to_map_index<V>(s: Seq<(Seq<char>, V)>, i: int)
    requires
        keys_sorted(s),
        0 <= i < s.len(),
    ensures
        to_map(s).contains_key(s[i].0),
        to_map(s)[s[i].0] == s[i].1,
{
    let k = s[i].0;
    assert(has_key(s, k));
    let j = key_index(s, k);
    if j != i {
        lemma_chars_lt_order(k, k, k);
        if j < i {
            assert(chars_lt(s[j].0, s[i].0));
        } else {
            assert(chars_lt(s[i].0, s[j].0));
        }
    }
}

/// Bytes of a setup list, by view.
pub open spec fn pairs_view(s: Seq<(String, Vec<u8>)>) -> Seq<(Seq<char>, Seq<u8>)> {
    s.map_values(|p: (String, Vec<u8>)| (p.0@, p.1@))
}

fn bytes_copy(s: &[u8]) -> (r: Vec<u8>)
    ensures
        r@ == s@,
{
    let mut r: Vec<u8> = Vec::new();
    let mut i: usize = 0;
    while i < s.len()
        invariant
            i <= s@.len(),
            r@ == s@.subrange(0, i as int),
        decreases s@.len() - i,
    {
        r.push(s[i]);
        i += 1;
    }
    assert(r@ =~= s@);
    r
}

// ---------------------------------------------------------------------------
// The model.
// ---------------------------------------------------------------------------

struct OpenFile {
    path: String,
    readable: bool,
    writable: bool,
    pos: usize,
}

/// File-operation model: files in host-path order, known directories, and
/// the one open file.
pub struct FileModel {
    files: Vec<(String, Vec<u8>)>,
    dirs: Vec<String>,
    open: Option<OpenFile>,
}

impl FileModel {
    pub closed spec fn file_seq(&self) -> Seq<(Seq<char>, Seq<u8>)> {
        pairs_view(self.files@)
    }

    pub closed spec fn dir_set(&self) -> Set<Seq<char>> {
        Set::new(|k: Seq<char>| exists|i: int| 0 <= i < self.dirs@.len() && self.dirs@[i]@ == k)
    }

    pub closed spec fn open_state(&self) -> Option<OpenState> {
        match self.open {
            Some(o) => Some(OpenState { path: o.path@, readable: o.readable, writable: o.writable, pos: o.pos as nat }),
            None => None,
        }
    }

    pub closed spec fn state(&self) -> FileState {
        FileState { files: to_map(self.file_seq()), dirs: self.dir_set(), open: self.open_state() }
    }

    /// Files sorted by path; the open file exists and its position is
    /// within it.
    pub closed spec fn wf(&self) -> bool {
        &&& keys_sorted(self.file_seq())
        &&& match self.open_state() {
            Some(o) => self.state().files.contains_key(o.path) && o.pos <= self.state().files[o.path].len(),
            None => true,
        }
    }

    fn empty_model() -> (m: FileModel)
        ensures
            m.wf(),
            m.state().files == Map::<Seq<char>, Seq<u8>>::empty(),
            m.state().dirs == Set::<Seq<char>>::empty(),
            m.state().open is None,
    {
        let m = FileModel { files: Vec::new(), dirs: Vec::new(), open: None };
        assert(m.state().files =~= Map::<Seq<char>, Seq<u8>>::empty());
        assert(m.state().dirs =~= Set::<Seq<char>>::empty());
        m
    }

    /// Index of the file stored under `key`.
    fn find_file(&self, key: &str) -> (r: Option<usize>)
        requires
            self.wf(),
        ensures
            match r {
                Some(i) => i < self.file_seq().len() && self.file_seq()[i as int].0 == key@,
                None => !self.state().files.contains_key(key@),
            },
    {
        let mut i: usize = 0;
        while i < self.files.len()
            invariant
                i <= self.files@.len(),
                forall|j: int| 0 <= j < i ==> self.file_seq()[j].0 != key@,
            decreases self.files@.len() - i,
        {
            assert(self.file_seq()[i as int].0 == self.files@[i as int].0@);
            if str_eq(self.files[i].0.as_str(), key) {
                return Some(i);
            }
            i += 1;
        }
        None
    }

    /// Stores `data` under `key` (replacing any previous content), keeping
    /// the files sorted.
    fn put_file(&mut self, key: String, data: Vec<u8>)
        requires
            keys_sorted(old(self).file_seq()),
        ensures
            keys_sorted(final(self).file_seq()),
            final(self).state().files == old(self).state().files.insert(key@, data@),
            final(self).state().dirs == old(self).state().dirs,
            final(self).open_state() == old(self).open_state(),
    {
        let ghost s = self.file_seq();
        let ghost k = key@;
        let kc = chars_of(key.as_str());
        let mut p: usize = 0;
        let mut stop = false;
        while p < self.files.len() && !stop
            invariant
                p <= self.files@.len(),
                s == self.file_seq(),
                kc@ == k,
                forall|j: int| 0 <= j < p ==> chars_lt(s[j].0, k),
                stop ==> p < s.len() && !chars_lt(s[p as int].0, k),
            decreases self.files@.len() - p + (if stop { 0int } else { 1int }),
        {
            let cur = chars_of(self.files[p].0.as_str());
            assert(s[p as int].0 == cur@);
            if !chars_less(cur.as_slice(), kc.as_slice()) {
                stop = true;
            } else {
                p += 1;
            }
        }
        let same = p < self.files.len() && str_eq(self.files[p].0.as_str(), key.as_str());
        if same {
            self.files.set(p, (key, data));
            proof {
                let t = self.file_seq();
                assert(t =~= s.update(p as int, (k, data@)));
                assert forall|i: int, j: int| 0 <= i < j < t.len() implies chars_lt(#[trigger] t[i].0, #[trigger] t[j].0) by {
                    assert(t[i].0 == s[i].0 && t[j].0 == s[j].0);
                }
                assert forall|x: Seq<char>| #[trigger] to_map(t).contains_key(x) == to_map(s).insert(k, data@).contains_key(x) by {
                    if has_key(s, x) {
                        let i = choose|i: int| 0 <= i < s.len() && s[i].0 == x;
                        assert(t[i].0 == x);
                    }
                    if has_key(t, x) {
                        let i = choose|i: int| 0 <= i < t.len() && t[i].0 == x;
                        assert(s[i].0 == x);
                    }
                    assert(t[p as int].0 == k);
                    assert(s[p as int].0 == k);
                }
                assert forall|x: Seq<char>| #[trigger] to_map(t).contains_key(x) implies to_map(t)[x] == to_map(s).insert(k, data@)[x] by {
                    let i = choose|i: int| 0 <= i < t.len() && t[i].0 == x;
                    lemma_to_map_index(t, i);
                    if i != p {
                        lemma_to_map_index(s, i);
                        lemma_chars_lt_order(k, k, k);
                        if i < p {
                            assert(chars_lt(t[i].0, t[p as int].0));
                        } else {
                            assert(chars_lt(t[p as int].0, t[i].0));
                        }
                    }
                }
                assert(to_map(t) =~= to_map(s).insert(k, data@));
            }
        } else {
            self.files.insert(p, (key, data));
            proof {
                let t = self.file_seq();
                assert(t =~= s.insert(p as int, (k, data@)));
                if p < s.len() {
                    lemma_chars_lt_order(s[p as int].0, k, k);
                    assert(chars_lt(k, s[p as int].0));
                }
                assert forall|i: int, j: int| 0 <= i < j < t.len() implies chars_lt(#[trigger] t[i].0, #[trigger] t[j].0) by {
                    if j < p {
                    } else if i < p && j == p {
                    } else if i < p {
                        assert(t[j] == s[j - 1]);
                        assert(chars_lt(s[i].0, k));
                        assert(chars_lt(k, s[j - 1].0)) by {
                            if j - 1 > p {
                                lemma_chars_lt_order(k, s[p as int].0, s[j - 1].0);
                            }
                        }
                        lemma_chars_lt_order(s[i].0, k, s[j - 1].0);
                    } else if i == p {
                        assert(t[j] == s[j - 1]);
                        if j - 1 > p {
                            lemma_chars_lt_order(k, s[p as int].0, s[j - 1].0);
                        }
                    } else {
                        assert(t[i] == s[i - 1] && t[j] == s[j - 1]);
                    }
                }
                assert forall|x: Seq<char>| #[trigger] to_map(t).contains_key(x) == to_map(s).insert(k, data@).contains_key(x) by {
                    if has_key(s, x) {
                        let i = choose|i: int| 0 <= i < s.len() && s[i].0 == x;
                        if i < p { assert(t[i].0 == x); } else { assert(t[i + 1].0 == x); }
                    }
                    if has_key(t, x) {
                        let i = choose|i: int| 0 <= i < t.len() && t[i].0 == x;
                        if i < p { assert(s[i].0 == x); } else if i > p { assert(s[i - 1].0 == x); }
                    }
                    assert(t[p as int].0 == k);
                }
                assert forall|x: Seq<char>| #[trigger] to_map(t).contains_key(x) implies to_map(t)[x] == to_map(s).insert(k, data@)[x] by {
                    let i = choose|i: int| 0 <= i < t.len() && t[i].0 == x;
                    lemma_to_map_index(t, i);
                    if i < p {
                        lemma_to_map_index(s, i);
                        assert(chars_lt(s[i].0, k));
                        lemma_chars_lt_order(k, k, k);
                    } else if i > p {
                        lemma_to_map_index(s, i - 1);
                        lemma_chars_lt_order(k, k, k);
                    }
                }
                assert(to_map(t) =~= to_map(s).insert(k, data@));
            }
        }
    }

    /// Adds a directory; `true` if it was not known yet.
    fn insert_dir(&mut self, d: String) -> (r: bool)
        ensures
            r == !old(self).state().dirs.contains(d@),
            final(self).state().dirs == old(self).state().dirs.insert(d@),
            final(self).file_seq() == old(self).file_seq(),
            final(self).open_state() == old(self).open_state(),
    {
        let mut i: usize = 0;
        while i < self.dirs.len()
            invariant
                i <= self.dirs@.len(),
                forall|j: int| 0 <= j < i ==> self.dirs@[j]@ != d@,
            decreases self.dirs@.len() - i,
        {
            if str_eq(self.dirs[i].as_str(), d.as_str()) {
                assert(self.state().dirs.contains(d@));
                assert(self.state().dirs.insert(d@) =~= self.state().dirs);
                return false;
            }
            i += 1;
        }
        let ghost old_dirs = self.state().dirs;
        self.dirs.push(d);
        proof {
            assert(!old_dirs.contains(d@));
            assert forall|x: Seq<char>| #[trigger] self.state().dirs.contains(x) == old_dirs.insert(d@).contains(x) by {
                if old_dirs.contains(x) {
                    let j = choose|j: int| 0 <= j < old(self).dirs@.len() && old(self).dirs@[j]@ == x;
                    assert(self.dirs@[j] == old(self).dirs@[j]);
                }
                if self.state().dirs.contains(x) {
                    let j = choose|j: int| 0 <= j < self.dirs@.len() && self.dirs@[j]@ == x;
                    if j < old(self).dirs@.len() {
                        assert(self.dirs@[j] == old(self).dirs@[j]);
                    }
                }
                assert(self.dirs@[old(self).dirs@.len() as int]@ == d@);
            }
            assert(self.state().dirs =~= old_dirs.insert(d@));
        }
        true
    }
}

proof fn lemma_run_safe_prefix(s: FileState, fsys: DriveMap, ops: Seq<RawOp>, k: int)
    requires
        run_safe(s, fsys, ops),
        0 <= k <= ops.len(),
    ensures
        run_safe(s, fsys, ops.take(k)),
    decreases ops.len(),
{
    if k < ops.len() {
        assert(ops.drop_last().take(k) =~= ops.take(k));
        lemma_run_safe_prefix(s, fsys, ops.drop_last(), k);
    } else {
        assert(ops.take(k) =~= ops);
    }
}

/// `d` with `MSG[..take]` written at `pos`.
fn overwrite_bytes(d: &[u8], pos: usize, take: usize) -> (r: Vec<u8>)
    requires
        pos <= d@.len(),
        take <= 11,
        pos + take <= usize::MAX,
    ensures
        r@ == overwrite(d@, pos as nat, msg_spec().take(take as int)),
{
    let m = msg();
    let end: usize = pos + take;
    let n: usize = if d.len() > end { d.len() } else { end };
    let mut r: Vec<u8> = Vec::new();
    let mut i: usize = 0;
    while i < n
        invariant
            i <= n,
            m@ == msg_spec(),
            end == pos + take,
            n == (if d@.len() > end { d@.len() } else { end as nat }),
            take <= 11,
            pos <= d@.len(),
            r@.len() == i,
            forall|j: int| 0 <= j < i ==> r@[j] == overwrite(d@, pos as nat, msg_spec().take(take as int))[j],
        decreases n - i,
    {
        if pos <= i && i < end {
            r.push(m[i - pos]);
        } else {
            r.push(d[i]);
        }
        i += 1;
    }
    assert(r@ =~= overwrite(d@, pos as nat, msg_spec().take(take as int)));
    r
}

/// `d[pos..pos + take] == MSG[..take]`.
fn matches_msg(d: &[u8], pos: usize, take: usize) -> (r: bool)
    requires
        pos + take <= d@.len(),
        take <= 11,
    ensures
        r == (d@.subrange(pos as int, pos + take) == msg_spec().take(take as int)),
{
    let m = msg();
    let n: usize = d.len();
    let mut i: usize = 0;
    while i < take
        invariant
            n == d@.len(),
            i <= take,
            take <= 11,
            pos + take <= d@.len(),
            m@ == msg_spec(),
            forall|j: int| 0 <= j < i ==> d@[pos + j] == msg_spec()[j],
        decreases take - i,
    {
        if d[pos + i] != m[i] {
            assert(d@.subrange(pos as int, pos + take)[i as int] != msg_spec().take(take as int)[i as int]);
            return false;
        }
        i += 1;
    }
    assert(d@.subrange(pos as int, pos + take) =~= msg_spec().take(take as int));
    true
}

impl FileModel {
    fn has_dir(&self, d: &str) -> (r: bool)
        ensures
            r == self.state().dirs.contains(d@),
    {
        let mut i: usize = 0;
        while i < self.dirs.len()
            invariant
                i <= self.dirs@.len(),
                forall|j: int| 0 <= j < i ==> self.dirs@[j]@ != d@,
            decreases self.dirs@.len() - i,
        {
            if str_eq(self.dirs[i].as_str(), d) {
                return true;
            }
            i += 1;
        }
        false
    }

    fn try_create(&mut self, fsys: &DriveMap, path: &str, access: u32, disp: u32) -> (ok: bool)
        requires
            old(self).wf(),
        ensures
            final(self).wf(),
            (final(self).state(), ok) == try_create_spec(old(self).state(), *fsys, path@, access, disp),
    {
        if !(1 <= disp && disp <= 5) {
            return false;
        }
        if disp == 5 && (access & GENERIC_WRITE) == 0 {
            return false;
        }
        let pc = chars_of(path);
        if pc.len() > 0 && (pc[pc.len() - 1] == '\\' || pc[pc.len() - 1] == '/') {
            return false;
        }
        let key = match fsys.translate(path) {
            Ok(k) => k,
            Err(_) => return false,
        };
        let immediate = match parent_dir(key.as_str()) {
            Some(p) => p,
            None => String::new(),
        };
        assert(immediate@ == immediate_parent(key@));
        let imm_len = chars_of(immediate.as_str()).len();
        if imm_len > 0 && !self.has_dir(immediate.as_str()) {
            return false;
        }
        let found = self.find_file(key.as_str());
        let exists = found.is_some();
        proof {
            if let Some(i) = found {
                lemma_to_map_index(self.file_seq(), i as int);
            }
        }
        assert(exists == self.state().files.contains_key(key@));
        if (disp == 1 && exists) || ((disp == 3 || disp == 5) && !exists) {
            return false;
        }
        if disp == 1 || disp == 2 || disp == 5 || (disp == 4 && !exists) {
            self.put_file(owned(key.as_str()), Vec::new());
        }
        let ghost files_now = self.state().files;
        assert(files_now.contains_key(key@));
        let readable = (access & GENERIC_READ) != 0 || access == 0;
        let writable = (access & GENERIC_WRITE) != 0;
        self.open = Some(OpenFile { path: key, readable, writable, pos: 0 });
        assert(self.state().files == files_now);
        true
    }

    fn do_create(&mut self, fsys: &DriveMap, path: &str, access: u32, disp: u32) -> (ok: bool)
        requires
            old(self).wf(),
        ensures
            final(self).wf(),
            (final(self).state(), ok) == create_spec(old(self).state(), *fsys, path@, access, disp),
    {
        let ok = self.try_create(fsys, path, access, disp);
        if !ok {
            self.open = None;
        }
        ok
    }

    fn do_write(&mut self, len: usize) -> (r: (bool, u32))
        requires
            old(self).wf(),
            match old(self).state().open {
                Some(o) => o.writable ==> o.pos + write_take(len as nat) <= usize::MAX,
                None => true,
            },
        ensures
            final(self).wf(),
            (final(self).state(), r) == write_spec(old(self).state(), len as nat),
            old(self).state().open matches Some(o) ==> o.writable ==> r.0 && final(self).state().open == Some(
                OpenState { path: o.path, readable: o.readable, writable: o.writable, pos: o.pos + r.1 as nat },
            ),
    {
        let (path, pos, readable) = match &self.open {
            Some(o) => {
                if !o.writable {
                    return (false, 0);
                }
                (owned(o.path.as_str()), o.pos, o.readable)
            },
            None => return (false, 0),
        };
        let take: usize = if len < 11 { len } else { 11 };
        let idx = match self.find_file(path.as_str()) {
            Some(i) => i,
            None => return (false, 0),
        };
        proof {
            lemma_to_map_index(self.file_seq(), idx as int);
        }
        let nd = overwrite_bytes(self.files[idx].1.as_slice(), pos, take);
        self.put_file(owned(path.as_str()), nd);
        let ghost files_now = self.state().files;
        self.open = Some(OpenFile { path, readable, writable: true, pos: pos + take });
        assert(self.state().files == files_now);
        (true, take as u32)
    }

    fn do_read(&mut self, len: usize) -> (r: (bool, u32, bool))
        requires
            old(self).wf(),
            match old(self).state().open {
                Some(o) => o.readable ==> read_take(old(self).state().files[o.path], o.pos, len as nat) <= 11,
                None => true,
            },
        ensures
            final(self).wf(),
            (final(self).state(), r) == read_spec(old(self).state(), len as nat),
            old(self).state().open matches Some(o) ==> o.readable ==> r.0 && final(self).state().open == Some(
                OpenState { path: o.path, readable: o.readable, writable: o.writable, pos: o.pos + r.1 as nat },
            ),
    {
        let (path, pos, writable) = match &self.open {
            Some(o) => {
                if !o.readable {
                    return (false, 0, false);
                }
                (owned(o.path.as_str()), o.pos, o.writable)
            },
            None => return (false, 0, false),
        };
        let idx = match self.find_file(path.as_str()) {
            Some(i) => i,
            None => return (false, 0, false),
        };
        proof {
            lemma_to_map_index(self.file_seq(), idx as int);
        }
        let data = &self.files[idx].1;
        let avail: usize = data.len() - pos;
        let a: usize = if len < 32 { len } else { 32 };
        let take: usize = if a < avail { a } else { avail };
        let v = take > 0 && matches_msg(data.as_slice(), pos, take);
        let ghost files_now = self.state().files;
        self.open = Some(OpenFile { path, readable: true, writable, pos: pos + take });
        assert(self.state().files == files_now);
        (true, take as u32, v)
    }

    fn do_close(&mut self) -> (ok: bool)
        requires
            old(self).wf(),
        ensures
            final(self).wf(),
            (final(self).state(), ok) == close_spec(old(self).state()),
    {
        if self.open.is_some() {
            self.open = None;
            true
        } else {
            false
        }
    }

    /// Whether the model can take `op` now (see `op_safe`).
    fn op_is_safe(&self, op: &RawOp) -> (r: bool)
        requires
            self.wf(),
        ensures
            r == op_safe(self.state(), *op),
    {
        match op {
            RawOp::Write { len } => match &self.open {
                Some(o) => {
                    let take: usize = if (*len as usize) < 11 { *len as usize } else { 11 };
                    !o.writable || o.pos <= usize::MAX - take
                },
                None => true,
            },
            RawOp::Read { len } => match &self.open {
                Some(o) => {
                    if !o.readable {
                        true
                    } else {
                        match self.find_file(o.path.as_str()) {
                            Some(idx) => {
                                proof {
                                    lemma_to_map_index(self.file_seq(), idx as int);
                                }
                                let avail: usize = self.files[idx].1.len() - o.pos;
                                let a: usize = if (*len as usize) < 32 { *len as usize } else { 32 };
                                let take: usize = if a < avail { a } else { avail };
                                take <= 11
                            },
                            None => true,
                        }
                    }
                },
                None => true,
            },
            _ => true,
        }
    }

    fn step(&mut self, fsys: &DriveMap, op: &RawOp) -> (e: FileExpect)
        requires
            old(self).wf(),
            op_safe(old(self).state(), *op),
        ensures
            final(self).wf(),
            (final(self).state(), e) == step_spec(old(self).state(), *fsys, *op),
    {
        match op {
            RawOp::Create { path, access, disp } => {
                let ok = self.do_create(fsys, path.as_str(), *access, *disp);
                FileExpect::create(ok)
            },
            RawOp::Write { len } => {
                let (ok, w) = self.do_write(*len as usize);
                FileExpect::count_ok(ok, w, false)
            },
            RawOp::Read { len } => {
                let (ok, c, v) = self.do_read(*len as usize);
                FileExpect::count_ok(ok, c, v)
            },
            RawOp::Close => {
                let ok = self.do_close();
                FileExpect::close(ok)
            },
        }
    }
}

impl FileModel {
    /// Model over `fsys` with pre-existing `setup` files (names relative to
    /// the drive map). Drive roots and the current directory exist; a setup
    /// name that does not translate is skipped; the ancestors of each setup
    /// file come to exist, as on disk.
    pub fn new(fsys: &DriveMap, setup: &[(String, Vec<u8>)]) -> (m: FileModel)
        ensures
            m.wf(),
            m.state() == setup_spec(initial_state(*fsys), *fsys, pairs_view(setup@)),
    {
        let mut m = Self::empty_model();
        let roots = fsys.roots();
        let ghost dl = fsys.drive_list();
        let mut i: usize = 0;
        while i < roots.len()
            invariant
                i <= roots@.len(),
                m.wf(),
                m.state().files == Map::<Seq<char>, Seq<u8>>::empty(),
                m.state().open is None,
                forall|x: Seq<char>| #[trigger] m.state().dirs.contains(x) <==> exists|j: int| 0 <= j < i && roots@[j]@ == x,
            decreases roots@.len() - i,
        {
            let ghost before = m.state().dirs;
            m.insert_dir(owned(roots[i].as_str()));
            proof {
                assert forall|x: Seq<char>| #[trigger] m.state().dirs.contains(x) <==> exists|j: int| 0 <= j < i + 1 && roots@[j]@ == x by {
                    if x == roots@[i as int]@ {
                    } else if m.state().dirs.contains(x) {
                        assert(before.contains(x));
                    } else {
                        assert(!before.contains(x));
                    }
                }
            }
            i += 1;
        }
        proof {
            assert forall|x: Seq<char>| #[trigger] m.state().dirs.contains(x) == roots_set(*fsys).contains(x) by {
                if m.state().dirs.contains(x) {
                    let j = choose|j: int| 0 <= j < roots@.len() && roots@[j]@ == x;
                    if j < dl.len() {
                        assert(roots@[j]@ == dl[j].1);
                    }
                }
                if exists|j: int| 0 <= j < dl.len() && dl[j].1 == x {
                    let j = choose|j: int| 0 <= j < dl.len() && dl[j].1 == x;
                    assert(roots@[j]@ == dl[j].1);
                }
            }
            assert(m.state().dirs =~= roots_set(*fsys));
            assert(m.state().files =~= initial_state(*fsys).files);
        }
        let ghost sv = pairs_view(setup@);
        let mut k: usize = 0;
        assert(sv.take(0) =~= Seq::<(Seq<char>, Seq<u8>)>::empty());
        while k < setup.len()
            invariant
                k <= setup@.len(),
                sv == pairs_view(setup@),
                m.wf(),
                m.open_state() is None,
                m.state() == setup_spec(initial_state(*fsys), *fsys, sv.take(k as int)),
            decreases setup@.len() - k,
        {
            let ghost before = m.state();
            assert(sv.take(k + 1).drop_last() =~= sv.take(k as int));
            assert(sv.take(k + 1).last() == (setup@[k as int].0@, setup@[k as int].1@));
            match fsys.translate(setup[k].0.as_str()) {
                Ok(key) => {
                    let ghost d0 = m.state().dirs;
                    let ghost seq0 = m.file_seq();
                    let mut cur = owned(key.as_str());
                    let mut done = false;
                    while !done
                        invariant
                            m.wf(),
                            m.file_seq() == seq0,
                            m.state().files == before.files,
                            m.state().open == before.open,
                            add_ancestors(d0, key@) == (if done { m.state().dirs } else { add_ancestors(m.state().dirs, cur@) }),
                        decreases (if done { 0 } else { cur@.len() + 1 }),
                    {
                        let ghost dn = m.state().dirs;
                        match parent_dir(cur.as_str()) {
                            None => {
                                done = true;
                            },
                            Some(p) => {
                                let plen = chars_of(p.as_str()).len();
                                if plen == 0 {
                                    done = true;
                                } else if !m.insert_dir(owned(p.as_str())) {
                                    assert(dn.insert(p@) =~= dn);
                                    done = true;
                                } else {
                                    cur = p;
                                }
                            },
                        }
                    }
                    let data = bytes_copy(setup[k].1.as_slice());
                    let ghost dirs_now = m.state().dirs;
                    m.put_file(key, data);
                    assert(m.state().dirs == dirs_now);
                },
                Err(_) => {},
            }
            k += 1;
        }
        assert(sv.take(setup@.len() as int) =~= sv);
        m
    }
}

impl FileModel {
    /// Final files `{host path: bytes}`, in path order.
    pub fn files_snapshot(&self) -> (r: Vec<(String, Vec<u8>)>)
        requires
            self.wf(),
        ensures
            keys_sorted(pairs_view(r@)),
            to_map(pairs_view(r@)) == self.state().files,
    {
        let mut r: Vec<(String, Vec<u8>)> = Vec::new();
        let mut i: usize = 0;
        while i < self.files.len()
            invariant
                i <= self.files@.len(),
                pairs_view(r@) == self.file_seq().take(i as int),
            decreases self.files@.len() - i,
        {
            let k = owned(self.files[i].0.as_str());
            let v = bytes_copy(self.files[i].1.as_slice());
            let ghost r0 = r@;
            assert(pairs_view(r0).len() == r0.len());
            assert(self.file_seq().len() == self.files@.len());
            assert(r0.len() == i);
            r.push((k, v));
            assert(r@ == r0.push((k, v)));
            assert(pairs_view(r@)[i as int] == (k@, v@));
            assert(pairs_view(r@)[i as int] == self.file_seq()[i as int]);
            assert(pairs_view(r@) =~= self.file_seq().take(i + 1));
            i += 1;
        }
        assert(self.file_seq().take(self.files@.len() as int) =~= self.file_seq());
        r
    }

    /// Runs `ops` against `fsys` and returns the expectation of each step.
    /// Files are keyed by the translated host path (what the disk sees).
    pub fn simulate(&mut self, fsys: &DriveMap, ops: &[RawOp]) -> (r: Vec<FileExpect>)
        requires
            old(self).wf(),
            run_safe(old(self).state(), *fsys, ops@),
        ensures
            final(self).wf(),
            (final(self).state(), r@) == run_spec(old(self).state(), *fsys, ops@),
    {
        let ghost s0 = self.state();
        let mut out: Vec<FileExpect> = Vec::new();
        let mut i: usize = 0;
        assert(ops@.take(0) =~= Seq::<RawOp>::empty());
        while i < ops.len()
            invariant
                i <= ops@.len(),
                self.wf(),
                run_safe(s0, *fsys, ops@),
                (self.state(), out@) == run_spec(s0, *fsys, ops@.take(i as int)),
            decreases ops@.len() - i,
        {
            proof {
                lemma_run_safe_prefix(s0, *fsys, ops@, i + 1);
                assert(ops@.take(i + 1).drop_last() =~= ops@.take(i as int));
                assert(ops@.take(i + 1).last() == ops@[i as int]);
            }
            let e = self.step(fsys, &ops[i]);
            out.push(e);
            i += 1;
        }
        assert(ops@.take(ops@.len() as int) =~= ops@);
        out
    }

    /// `simulate` that stops instead of going out of range: `None` exactly
    /// when some step is not `op_safe` (a write past `usize::MAX`, or a
    /// read of more than `MSG.len()` bytes compared against `MSG`); the
    /// model then holds the state before that step.
    pub fn simulate_checked(&mut self, fsys: &DriveMap, ops: &[RawOp]) -> (r: Option<Vec<FileExpect>>)
        requires
            old(self).wf(),
        ensures
            final(self).wf(),
            r is Some <==> run_safe(old(self).state(), *fsys, ops@),
            match r {
                Some(v) => (final(self).state(), v@) == run_spec(old(self).state(), *fsys, ops@),
                None => true,
            },
    {
        let ghost s0 = self.state();
        let mut out: Vec<FileExpect> = Vec::new();
        let mut i: usize = 0;
        assert(ops@.take(0) =~= Seq::<RawOp>::empty());
        while i < ops.len()
            invariant
                i <= ops@.len(),
                self.wf(),
                s0 == old(self).state(),
                run_safe(s0, *fsys, ops@.take(i as int)),
                (self.state(), out@) == run_spec(s0, *fsys, ops@.take(i as int)),
            decreases ops@.len() - i,
        {
            proof {
                assert(ops@.take(i + 1).drop_last() =~= ops@.take(i as int));
                assert(ops@.take(i + 1).last() == ops@[i as int]);
            }
            if !self.op_is_safe(&ops[i]) {
                proof {
                    if run_safe(s0, *fsys, ops@) {
                        lemma_run_safe_prefix(s0, *fsys, ops@, i + 1);
                        assert(run_safe(s0, *fsys, ops@.take(i + 1)));
                        assert(op_safe(run_spec(s0, *fsys, ops@.take(i as int)).0, ops@[i as int]));
                        assert(false);
                    }
                }
                return None;
            }
            let e = self.step(fsys, &ops[i]);
            out.push(e);
            i += 1;
        }
        assert(ops@.take(ops@.len() as int) =~= ops@);
        Some(out)
    }
}


/// One step of the guest driver: the operation and what the model expects
/// of it.
#[derive(Debug, Clone, PartialEq, Eq)]
pub enum DriverOp {
    Create { path: String, access: u32, disp: u32, expect_valid: bool },
    Write { len: u32, expect_ok: bool, expect_written: u32 },
    Read { len: u32, expect_ok: bool, expect_count: u32, verify: bool },
    Close { expect_ok: bool },
}

/// A driver step as plain values.
pub enum DriverView {
    Create { path: Seq<char>, access: u32, disp: u32, expect_valid: bool },
    Write { len: u32, expect_ok: bool, expect_written: u32 },
    Read { len: u32, expect_ok: bool, expect_count: u32, verify: bool },
    Close { expect_ok: bool },
}

pub open spec fn driver_view(d: DriverOp) -> DriverView {
    match d {
        DriverOp::Create { path, access, disp, expect_valid } => DriverView::Create { path: path@, access, disp, expect_valid },
        DriverOp::Write { len, expect_ok, expect_written } => DriverView::Write { len, expect_ok, expect_written },
        DriverOp::Read { len, expect_ok, expect_count, verify } => DriverView::Read { len, expect_ok, expect_count, verify },
        DriverOp::Close { expect_ok } => DriverView::Close { expect_ok },
    }
}

/// The driver step for `op` with the model's expectation `e`.
pub open spec fn driver_step(op: RawOp, e: FileExpect) -> DriverView {
    match op_view(op) {
        OpView::Create { path, access, disp } => DriverView::Create { path, access, disp, expect_valid: e.valid },
        OpView::Write { len } => DriverView::Write { len, expect_ok: e.ok, expect_written: e.count },
        OpView::Read { len } => DriverView::Read { len, expect_ok: e.ok, expect_count: e.count, verify: e.verify },
        OpView::Close => DriverView::Close { expect_ok: e.ok },
    }
}

/// Guest driver steps from operations and the model's expectations, pair
/// by pair (the shorter list decides the length).
pub fn expects_to_driver(ops: &[RawOp], expects: &[FileExpect]) -> (r: Vec<DriverOp>)
    ensures
        r@.len() == if ops@.len() <= expects@.len() { ops@.len() } else { expects@.len() },
        forall|i: int| 0 <= i < r@.len() ==> driver_view(#[trigger] r@[i]) == driver_step(ops@[i], expects@[i]),
{
    let n = if ops.len() <= expects.len() { ops.len() } else { expects.len() };
    let mut r: Vec<DriverOp> = Vec::new();
    let mut i: usize = 0;
    while i < n
        invariant
            n <= ops@.len(),
            n <= expects@.len(),
            i <= n,
            r@.len() == i,
            forall|k: int| 0 <= k < i ==> driver_view(#[trigger] r@[k]) == driver_step(ops@[k], expects@[k]),
        decreases n - i,
    {
        let e = expects[i];
        let d = match &ops[i] {
            RawOp::Create { path, access, disp } => DriverOp::Create {
                path: owned(path.as_str()),
                access: *access,
                disp: *disp,
                expect_valid: e.valid,
            },
            RawOp::Write { len } => DriverOp::Write { len: *len, expect_ok: e.ok, expect_written: e.count },
            RawOp::Read { len } => DriverOp::Read { len: *len, expect_ok: e.ok, expect_count: e.count, verify: e.verify },
            RawOp::Close => DriverOp::Close { expect_ok: e.ok },
        };
        r.push(d);
        i += 1;
    }
    r
}

} // verus!
