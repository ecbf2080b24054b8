//! `NtCreateFile`/Win32 file semantics over Linux: capsule drive map and
//! path translation (`C:\` → capsule directory, `\??\` stripped), open
//! options, and the handle checks in front of host reads and writes.
use vstd::prelude::*;
use vstd::utf8::encode_utf8;
use crate::abi::{
    NtStatus, WindowsHandle, STATUS_ACCESS_DENIED, STATUS_INVALID_HANDLE, STATUS_INVALID_PARAMETER,
    STATUS_NOT_IMPLEMENTED, STATUS_OBJECT_NAME_COLLISION, STATUS_OBJECT_NAME_NOT_FOUND, STATUS_OBJECT_PATH_INVALID,
    STATUS_UNSUCCESSFUL,
};
use crate::nt_object::{FileObject, HandleTable, KernelObject, ObjectPayload, ObjectType};
use crate::text::{chars_of, extend_chars, is_prefix, lower_char, slice_copy, starts_with, string_of};

verus! {

pub open spec fn is_sep(c: char) -> bool {
    c == '\\' || c == '/'
}

/// Non-empty pieces of `t` between `\` / `/` separators, `cur` being the
/// piece read so far.
pub open spec fn split_acc(t: Seq<char>, cur: Seq<char>) -> Seq<Seq<char>>
    decreases t.len(),
{
    if t.len() == 0 {
        if cur.len() == 0 { seq![] } else { seq![cur] }
    } else if is_sep(t[0]) {
        (if cur.len() == 0 { seq![] } else { seq![cur] }) + split_acc(t.drop_first(), seq![])
    } else {
        split_acc(t.drop_first(), cur.push(t[0]))
    }
}

pub open spec fn components(t: Seq<char>) -> Seq<Seq<char>> {
    split_acc(t, seq![])
}

/// Applies components under a drive root: `.` is ignored and `..` never
/// climbs above the root (Windows keeps `C:\..\x` inside the drive).
pub open spec fn clamp(stack: Seq<Seq<char>>, comps: Seq<Seq<char>>) -> Seq<Seq<char>>
    decreases comps.len(),
{
    if comps.len() == 0 {
        stack
    } else {
        let c = comps[0];
        let next = if c == seq!['.'] {
            stack
        } else if c == seq!['.', '.'] {
            if stack.len() > 0 { stack.drop_last() } else { stack }
        } else {
            stack.push(c)
        };
        clamp(next, comps.drop_first())
    }
}

/// `p` joined with one more component (host path push).
pub open spec fn join1(p: Seq<char>, c: Seq<char>) -> Seq<char> {
    if p.len() == 0 {
        c
    } else if p.last() == '/' {
        p + c
    } else {
        p + seq!['/'] + c
    }
}

/// `base` followed by the components `comps`.
pub open spec fn render(base: Seq<char>, comps: Seq<Seq<char>>) -> Seq<char>
    decreases comps.len(),
{
    if comps.len() == 0 { base } else { join1(render(base, comps.drop_last()), comps.last()) }
}

pub open spec fn is_ascii_char(c: char) -> bool {
    (c as u32) < 128
}

/// `p` without a leading `\\??\` or `\??\`.
pub open spec fn strip_nt_prefix(w: Seq<char>) -> Seq<char> {
    if is_prefix("\\\\??\\"@, w) {
        w.subrange("\\\\??\\"@.len() as int, w.len() as int)
    } else if is_prefix("\\??\\"@, w) {
        w.subrange("\\??\\"@.len() as int, w.len() as int)
    } else {
        w
    }
}

/// Directory of the first entry of `l` for `letter`.
pub open spec fn find_drive(l: Seq<(char, Seq<char>)>, letter: char) -> Option<Seq<char>>
    decreases l.len(),
{
    if l.len() == 0 {
        None
    } else if l[0].0 == letter {
        Some(l[0].1)
    } else {
        find_drive(l.drop_first(), letter)
    }
}

pub proof fn lemma_find_drive(l: Seq<(char, Seq<char>)>, letter: char)
    ensures
        (forall|i: int| 0 <= i < l.len() ==> l[i].0 != letter) ==> find_drive(l, letter) is None,
        forall|i: int| 0 <= i < l.len() && l[i].0 == letter && (forall|j: int| 0 <= j < i ==> l[j].0 != letter)
            ==> find_drive(l, letter) == Some(l[i].1),
    decreases l.len(),
{
    if l.len() > 0 {
        lemma_find_drive(l.drop_first(), letter);
        assert forall|i: int| 0 <= i < l.len() && l[i].0 == letter && (forall|j: int| 0 <= j < i ==> l[j].0 != letter)
            implies find_drive(l, letter) == Some(l[i].1) by {
            if i > 0 {
                assert(l.drop_first()[i - 1] == l[i]);
                assert forall|j: int| 0 <= j < i - 1 implies l.drop_first()[j].0 != letter by {
                    assert(l.drop_first()[j] == l[j + 1]);
                }
            }
        }
        assert((forall|i: int| 0 <= i < l.len() ==> l[i].0 != letter) ==> (forall|i: int| 0 <= i < l.drop_first().len() ==> l.drop_first()[i].0 != letter)) by {
            if forall|i: int| 0 <= i < l.len() ==> l[i].0 != letter {
                assert forall|i: int| 0 <= i < l.drop_first().len() implies l.drop_first()[i].0 != letter by {
                    assert(l.drop_first()[i] == l[i + 1]);
                }
            }
        }
    }
}

/// Capsule file-system view: drive letters → host directories, current
/// directory, and the host's own working directory for relative paths when
/// the capsule has none.
#[derive(Debug, Clone)]
pub struct DriveMap {
    drives: Vec<(char, String)>,
    current_dir: Option<String>,
    host_cwd: Option<String>,
}

pub open spec fn opt_view(o: Option<String>) -> Option<Seq<char>> {
    match o {
        Some(s) => Some(s@),
        None => None,
    }
}

impl DriveMap {
    /// Host directory of each drive letter (uppercase, at most one each).
    pub closed spec fn drive_list(&self) -> Seq<(char, Seq<char>)> {
        self.drives@.map_values(|p: (char, String)| (p.0, p.1@))
    }

    pub closed spec fn wf(&self) -> bool {
        forall|i: int, j: int| 0 <= i < j < self.drives@.len() ==> self.drives@[i].0 != self.drives@[j].0
    }

    /// Host directory of drive `letter`.
    pub closed spec fn drive(&self, letter: char) -> Option<Seq<char>> {
        find_drive(self.drive_list(), letter)
    }

    /// The drive list holds one entry per mapped letter: its letters are
    /// distinct, each entry is what its letter maps to, and every mapped
    /// letter has an entry (so `roots` lists each drive directory once per
    /// letter, in list order).
    pub proof fn law_drive_entries(&self)
        requires
            self.wf(),
        ensures
            forall|i: int, j: int| 0 <= i < j < self.drive_list().len() ==> self.drive_list()[i].0 != self.drive_list()[j].0,
            forall|i: int| 0 <= i < self.drive_list().len() ==> self.drive(#[trigger] self.drive_list()[i].0) == Some(
                self.drive_list()[i].1,
            ),
            forall|c: char| #[trigger] self.drive(c) is Some ==> exists|i: int| 0 <= i < self.drive_list().len() && self.drive_list()[i].0 == c,
    {
        let l = self.drive_list();
        assert forall|i: int, j: int| 0 <= i < j < l.len() implies l[i].0 != l[j].0 by {
            assert(l[i].0 == self.drives@[i].0 && l[j].0 == self.drives@[j].0);
        }
        assert forall|i: int| 0 <= i < l.len() implies self.drive(#[trigger] l[i].0) == Some(l[i].1) by {
            lemma_find_drive(l, l[i].0);
            assert forall|j: int| 0 <= j < i implies l[j].0 != l[i].0 by {
                assert(l[j].0 == self.drives@[j].0 && l[i].0 == self.drives@[i].0);
            }
        }
        assert forall|c: char| #[trigger] self.drive(c) is Some implies exists|i: int| 0 <= i < l.len() && l[i].0 == c by {
            lemma_find_drive(l, c);
        }
    }

    pub closed spec fn current(&self) -> Option<Seq<char>> {
        opt_view(self.current_dir)
    }

    pub closed spec fn host_dir(&self) -> Option<Seq<char>> {
        opt_view(self.host_cwd)
    }

    /// Directory that relative paths start from.
    pub open spec fn relative_base(&self) -> Option<Seq<char>> {
        match self.current() {
            Some(d) => Some(d),
            None => self.host_dir(),
        }
    }

    /// Win32/NT path → host path.
    pub open spec fn translate_spec(&self, win: Seq<char>) -> Result<Seq<char>, NtStatus> {
        let p = strip_nt_prefix(win);
        if is_prefix("\\\\.\\"@, p) || (is_prefix("\\\\"@, p) && !is_prefix("\\\\?\\"@, p)) {
            Err(NtStatus(STATUS_NOT_IMPLEMENTED))
        } else if p.len() > 0 && is_sep(p.last()) && encode_utf8(p).len() > 3 {
            Err(NtStatus(STATUS_OBJECT_PATH_INVALID))
        } else if p.len() >= 3 && is_ascii_char(p[0]) && p[1] == ':' && is_sep(p[2]) {
            match self.drive(lower_to_upper(p[0])) {
                None => Err(NtStatus(STATUS_OBJECT_PATH_INVALID)),
                Some(base) => Ok(render(base, clamp(seq![], components(p.subrange(3, p.len() as int))))),
            }
        } else if p.len() >= 2 && is_ascii_char(p[0]) && p[1] == ':' {
            Err(NtStatus(STATUS_NOT_IMPLEMENTED))
        } else {
            match self.relative_base() {
                None => Err(NtStatus(STATUS_OBJECT_PATH_INVALID)),
                Some(d) => Ok(render(d, components(p))),
            }
        }
    }
}

/// ASCII uppercase of one character.
pub open spec fn lower_to_upper(c: char) -> char {
    if 'a' <= c && c <= 'z' { ((c as u32) - 32) as char } else { c }
}


/// A host path component produced under a drive: non-empty, without
/// separators, and neither `.` nor `..`.
pub open spec fn clean_component(c: Seq<char>) -> bool {
    &&& c.len() > 0
    &&& forall|i: int| 0 <= i < c.len() ==> !is_sep(#[trigger] c[i])
    &&& c != seq!['.']
    &&& c != seq!['.', '.']
}

pub open spec fn sep_free(c: Seq<char>) -> bool {
    forall|i: int| 0 <= i < c.len() ==> !is_sep(#[trigger] c[i])
}

proof fn lemma_split_acc_parts(t: Seq<char>, cur: Seq<char>)
    requires
        sep_free(cur),
    ensures
        forall|k: int| 0 <= k < split_acc(t, cur).len() ==> (#[trigger] split_acc(t, cur)[k]).len() > 0 && sep_free(split_acc(t, cur)[k]),
    decreases t.len(),
{
    if t.len() == 0 {
        if cur.len() > 0 {
            assert(split_acc(t, cur) == seq![cur]);
            assert(seq![cur][0] == cur);
        }
    } else {
        if is_sep(t[0]) {
            lemma_split_acc_parts(t.drop_first(), seq![]);
            let head: Seq<Seq<char>> = if cur.len() == 0 { seq![] } else { seq![cur] };
            let rest = split_acc(t.drop_first(), seq![]);
            assert(split_acc(t, cur) == head + rest);
            assert forall|k: int| 0 <= k < (head + rest).len() implies (#[trigger] (head + rest)[k]).len() > 0 && sep_free((head + rest)[k]) by {
                if k < head.len() {
                    assert((head + rest)[k] == cur);
                } else {
                    assert((head + rest)[k] == rest[k - head.len()]);
                }
            }
        } else {
            assert(sep_free(cur.push(t[0]))) by {
                assert forall|i: int| 0 <= i < cur.push(t[0]).len() implies !is_sep(#[trigger] cur.push(t[0])[i]) by {
                    if i < cur.len() {
                        assert(cur.push(t[0])[i] == cur[i]);
                    }
                }
            }
            lemma_split_acc_parts(t.drop_first(), cur.push(t[0]));
            assert(split_acc(t, cur) == split_acc(t.drop_first(), cur.push(t[0])));
        }
    }
}

proof fn lemma_clamp_clean(stack: Seq<Seq<char>>, comps: Seq<Seq<char>>)
    requires
        forall|k: int| 0 <= k < stack.len() ==> clean_component(#[trigger] stack[k]),
        forall|k: int| 0 <= k < comps.len() ==> (#[trigger] comps[k]).len() > 0 && sep_free(comps[k]),
    ensures
        forall|k: int| 0 <= k < clamp(stack, comps).len() ==> clean_component(#[trigger] clamp(stack, comps)[k]),
    decreases comps.len(),
{
    if comps.len() > 0 {
        let c = comps[0];
        let next = if c == seq!['.'] {
            stack
        } else if c == seq!['.', '.'] {
            if stack.len() > 0 { stack.drop_last() } else { stack }
        } else {
            stack.push(c)
        };
        assert forall|k: int| 0 <= k < next.len() implies clean_component(#[trigger] next[k]) by {
            if c != seq!['.'] && c != seq!['.', '.'] && k == stack.len() {
                assert(next[k] == c);
            } else {
                assert(next[k] == stack[k]);
            }
        }
        assert forall|k: int| 0 <= k < comps.drop_first().len() implies (#[trigger] comps.drop_first()[k]).len() > 0 && sep_free(comps.drop_first()[k]) by {
            assert(comps.drop_first()[k] == comps[k + 1]);
        }
        lemma_clamp_clean(next, comps.drop_first());
        assert(clamp(stack, comps) == clamp(next, comps.drop_first()));
    }
}

proof fn lemma_render_prefix(base: Seq<char>, cs: Seq<Seq<char>>)
    ensures
        is_prefix(base, render(base, cs)),
    decreases cs.len(),
{
    if cs.len() == 0 {
        assert(base.subrange(0, base.len() as int) =~= base);
    } else {
        lemma_render_prefix(base, cs.drop_last());
        let p = render(base, cs.drop_last());
        let c = cs.last();
        let q = join1(p, c);
        if p.len() == 0 {
            assert(base.len() == 0);
            assert(q.subrange(0, 0) =~= base);
        } else if p.last() == '/' {
            assert(q.subrange(0, base.len() as int) =~= p.subrange(0, base.len() as int));
        } else {
            assert(q.subrange(0, base.len() as int) =~= p.subrange(0, base.len() as int));
        }
    }
}

proof fn lemma_render_boundary(base: Seq<char>, cs: Seq<Seq<char>>)
    requires
        base.len() > 0,
        cs.len() > 0,
        forall|k: int| 0 <= k < cs.len() ==> (#[trigger] cs[k]).len() > 0,
    ensures
        render(base, cs).len() > base.len(),
        base.last() == '/' || render(base, cs)[base.len() as int] == '/',
        render(base, cs).subrange(0, base.len() as int) == base,
    decreases cs.len(),
{
    let init = cs.drop_last();
    let c = cs.last();
    assert(c.len() > 0);
    if init.len() == 0 {
        assert(render(base, init) == base);
        let q = join1(base, c);
        assert(q.subrange(0, base.len() as int) =~= base);
    } else {
        assert forall|k: int| 0 <= k < init.len() implies (#[trigger] init[k]).len() > 0 by {
            assert(init[k] == cs[k]);
        }
        lemma_render_boundary(base, init);
        let p = render(base, init);
        let q = join1(p, c);
        assert(q.subrange(0, p.len() as int) =~= p);
        assert(q[base.len() as int] == p[base.len() as int]);
        assert(q.subrange(0, base.len() as int) =~= p.subrange(0, base.len() as int));
    }
}

/// A drive-absolute path never leaves its drive: it translates to the
/// drive's directory followed by components that are neither `.` nor `..`
/// nor contain a separator, however many `..` the path holds; the first
/// added component starts after a `/`, so the drive directory is a whole
/// leading part of the result.
pub proof fn law_translate_stays_in_drive(m: DriveMap, win: Seq<char>)
    ensures
        ({
            let p = strip_nt_prefix(win);
            p.len() >= 3 && is_ascii_char(p[0]) && p[1] == ':' && is_sep(p[2]) && m.translate_spec(win) is Ok ==> {
                let base = m.drive(lower_to_upper(p[0]))->0;
                let cs = clamp(seq![], components(p.subrange(3, p.len() as int)));
                &&& m.drive(lower_to_upper(p[0])) is Some
                &&& m.translate_spec(win) == Ok::<Seq<char>, NtStatus>(render(base, cs))
                &&& is_prefix(base, render(base, cs))
                &&& forall|k: int| 0 <= k < cs.len() ==> clean_component(#[trigger] cs[k])
                &&& base.len() > 0 && cs.len() > 0 ==> render(base, cs).len() > base.len() && (base.last() == '/'
                    || render(base, cs)[base.len() as int] == '/')
            }
        }),
{
    let p = strip_nt_prefix(win);
    if p.len() >= 3 {
        let rest = p.subrange(3, p.len() as int);
        lemma_split_acc_parts(rest, seq![]);
        lemma_clamp_clean(seq![], components(rest));
        if m.drive(lower_to_upper(p[0])) is Some {
            let base = m.drive(lower_to_upper(p[0]))->0;
            let cs = clamp(seq![], components(rest));
            lemma_render_prefix(base, cs);
            if base.len() > 0 && cs.len() > 0 {
                lemma_render_boundary(base, cs);
            }
        }
    }
}

} // verus!

verus! {

/// Host directory given to `letter` by an input list: the last entry whose
/// letter uppercases to it wins.
pub open spec fn last_drive(input: Seq<(char, Seq<char>)>, letter: char) -> Option<Seq<char>>
    decreases input.len(),
{
    if input.len() == 0 {
        None
    } else if lower_to_upper(input.last().0) == letter {
        Some(input.last().1)
    } else {
        last_drive(input.drop_last(), letter)
    }
}

pub fn ascii_upper_char(c: char) -> (r: char)
    ensures
        r == lower_to_upper(c),
{
    if 'a' <= c && c <= 'z' {
        crate::text::char_from_ascii(((c as u32) - 32) as u8)
    } else {
        c
    }
}

fn split_components(t: &[char]) -> (r: Vec<Vec<char>>)
    ensures
        crate::text::views(r@) == components(t@),
{
    let mut out: Vec<Vec<char>> = Vec::new();
    let mut cur: Vec<char> = Vec::new();
    let mut j: usize = 0;
    assert(t@.subrange(0, t@.len() as int) =~= t@);
    while j < t.len()
        invariant
            j <= t@.len(),
            components(t@) == crate::text::views(out@) + split_acc(t@.subrange(j as int, t@.len() as int), cur@),
        decreases t@.len() - j,
    {
        let ghost u = t@.subrange(j as int, t@.len() as int);
        assert(u.drop_first() =~= t@.subrange(j + 1, t@.len() as int));
        let ghost before = crate::text::views(out@);
        if t[j] == '\\' || t[j] == '/' {
            if cur.len() > 0 {
                out.push(cur);
                assert(crate::text::views(out@) =~= before + seq![cur@]);
                assert(before + (seq![cur@] + split_acc(u.drop_first(), seq![])) =~= crate::text::views(out@) + split_acc(u.drop_first(), seq![]));
            } else {
                assert(before + (Seq::<Seq<char>>::empty() + split_acc(u.drop_first(), seq![])) =~= before + split_acc(u.drop_first(), seq![]));
            }
            cur = Vec::new();
            assert(cur@ =~= Seq::<char>::empty());
        } else {
            cur.push(t[j]);
        }
        j += 1;
    }
    assert(t@.subrange(j as int, t@.len() as int) =~= Seq::<char>::empty());
    if cur.len() > 0 {
        let ghost before = crate::text::views(out@);
        out.push(cur);
        assert(crate::text::views(out@) =~= before + seq![cur@]);
    } else {
        assert(crate::text::views(out@) + Seq::<Seq<char>>::empty() =~= crate::text::views(out@));
    }
    out
}

fn is_dot(c: &Vec<char>) -> (r: bool)
    ensures
        r == (c@ == seq!['.']),
{
    if c.len() == 1 && c[0] == '.' {
        assert(c@ =~= seq!['.']);
        true
    } else {
        false
    }
}

fn is_dotdot(c: &Vec<char>) -> (r: bool)
    ensures
        r == (c@ == seq!['.', '.']),
{
    if c.len() == 2 && c[0] == '.' && c[1] == '.' {
        assert(c@ =~= seq!['.', '.']);
        true
    } else {
        false
    }
}

/// Applies one component under the drive root (`..` stays at the root).
fn join_sandbox(stack: &mut Vec<Vec<char>>, comp: Vec<char>)
    ensures
        crate::text::views(final(stack)@) == clamp(crate::text::views(old(stack)@), seq![comp@]),
{
    let ghost before = crate::text::views(stack@);
    assert(seq![comp@].drop_first() =~= Seq::<Seq<char>>::empty());
    proof { reveal_with_fuel(clamp, 2); }
    if is_dot(&comp) {
    } else if is_dotdot(&comp) {
        if stack.len() > 0 {
            stack.pop();
            assert(crate::text::views(stack@) =~= before.drop_last());
        }
    } else {
        stack.push(comp);
        assert(crate::text::views(stack@) =~= before.push(comp@));
    }
}

proof fn lemma_clamp_step(stack: Seq<Seq<char>>, comps: Seq<Seq<char>>, k: int)
    requires
        0 <= k < comps.len(),
    ensures
        clamp(clamp(stack, comps.subrange(0, k)), seq![comps[k]]) == clamp(stack, comps.subrange(0, k + 1)),
    decreases k,
{
    if k == 0 {
        assert(comps.subrange(0, 1) =~= seq![comps[0]]);
        assert(comps.subrange(0, 0) =~= Seq::<Seq<char>>::empty());
    } else {
        let c0 = comps[0];
        let next = if c0 == seq!['.'] {
            stack
        } else if c0 == seq!['.', '.'] {
            if stack.len() > 0 { stack.drop_last() } else { stack }
        } else {
            stack.push(c0)
        };
        assert(comps.subrange(0, k).drop_first() =~= comps.drop_first().subrange(0, k - 1));
        assert(comps.subrange(0, k + 1).drop_first() =~= comps.drop_first().subrange(0, k));
        lemma_clamp_step(next, comps.drop_first(), k - 1);
    }
}

fn render_exec(base: &[char], comps: &Vec<Vec<char>>) -> (r: Vec<char>)
    ensures
        r@ == render(base@, crate::text::views(comps@)),
{
    let mut out = slice_copy(base, 0, base.len());
    let mut k: usize = 0;
    assert(base@.subrange(0, base@.len() as int) =~= base@);
    assert(crate::text::views(comps@).subrange(0, 0) =~= Seq::<Seq<char>>::empty());
    while k < comps.len()
        invariant
            k <= comps@.len(),
            out@ == render(base@, crate::text::views(comps@).subrange(0, k as int)),
        decreases comps@.len() - k,
    {
        let c = &comps[k];
        if out.len() == 0 {
        } else if out[out.len() - 1] == '/' {
        } else {
            out.push('/');
        }
        extend_chars(&mut out, c.as_slice());
        proof {
            let vs = crate::text::views(comps@);
            assert(vs.subrange(0, k + 1).drop_last() =~= vs.subrange(0, k as int));
            assert(vs.subrange(0, k + 1).last() == c@);
        }
        k += 1;
    }
    assert(crate::text::views(comps@).subrange(0, comps@.len() as int) =~= crate::text::views(comps@));
    out
}

impl DriveMap {
    /// Drive map from `(letter, host dir)` pairs (letters are
    /// case-insensitive; a later pair for the same letter wins) and an
    /// optional current directory.
    pub fn new(drives: Vec<(char, String)>, current_dir: Option<String>) -> (m: DriveMap)
        ensures
            m.wf(),
            forall|c: char| m.drive(c) == last_drive(drives@.map_values(|p: (char, String)| (p.0, p.1@)), c),
            m.current() == opt_view(current_dir),
            m.host_dir() is None,
    {
        let ghost inp = drives@.map_values(|p: (char, String)| (p.0, p.1@));
        let mut out: Vec<(char, String)> = Vec::new();
        let mut i: usize = 0;
        while i < drives.len()
            invariant
                i <= drives@.len(),
                inp == drives@.map_values(|p: (char, String)| (p.0, p.1@)),
                forall|a: int, b: int| 0 <= a < b < out@.len() ==> out@[a].0 != out@[b].0,
                forall|c: char| (DriveMap { drives: out, current_dir: None, host_cwd: None }).drive(c)
                    == last_drive(inp.subrange(0, i as int), c),
            decreases drives@.len() - i,
        {
            let k = ascii_upper_char(drives[i].0);
            let v = drives[i].1.clone();
            let ghost old_out = out@;
            let ghost old_outv = out;
            let mut j: usize = 0;
            let mut found = false;
            while j < out.len() && !found
                invariant
                    j <= out@.len(),
                    out@ == old_out,
                    forall|a: int| 0 <= a < j ==> out@[a].0 != k,
                    found ==> j < out@.len() && out@[j as int].0 == k,
                decreases out@.len() - j + (if found { 0int } else { 1int }),
            {
                if out[j].0 == k {
                    found = true;
                } else {
                    j += 1;
                }
            }
            if found {
                out.set(j, (k, v));
            } else {
                out.push((k, v));
            }
            proof {
                assert(inp.subrange(0, i + 1).drop_last() =~= inp.subrange(0, i as int));
                assert(inp.subrange(0, i + 1).last() == inp[i as int]);
                let dl_old = old_out.map_values(|p: (char, String)| (p.0, p.1@));
                let dl = out@.map_values(|p: (char, String)| (p.0, p.1@));
                assert forall|c: char| (DriveMap { drives: out, current_dir: None, host_cwd: None }).drive(c)
                    == last_drive(inp.subrange(0, i + 1), c) by {
                    lemma_find_drive(dl_old, c);
                    lemma_find_drive(dl, c);
                    assert((DriveMap { drives: out, current_dir: None, host_cwd: None }).drive(c) == find_drive(dl, c));
                    assert((DriveMap { drives: old_outv, current_dir: None, host_cwd: None }).drive(c) == find_drive(dl_old, c));
                    let w = if found { j as int } else { out@.len() - 1 };
                    assert(dl[w].0 == k);
                    if c == k {
                        assert(forall|x: int| 0 <= x < w ==> dl[x].0 != c);
                    } else {
                        if exists|x: int| 0 <= x < dl_old.len() && dl_old[x].0 == c {
                            let x = choose|x: int| 0 <= x < dl_old.len() && dl_old[x].0 == c;
                            assert(forall|y: int| 0 <= y < x ==> dl_old[y].0 != c);
                            assert(dl[x] == dl_old[x]);
                            assert(forall|y: int| 0 <= y < x ==> dl[y].0 != c);
                        } else {
                            assert forall|y: int| 0 <= y < dl.len() implies dl[y].0 != c by {
                                if y < dl_old.len() && y != w { assert(dl[y] == dl_old[y]); }
                            }
                        }
                    }
                }
            }
            i += 1;
        }
        assert(inp.subrange(0, drives@.len() as int) =~= inp);
        DriveMap { drives: out, current_dir, host_cwd: None }
    }

    pub fn empty() -> (m: DriveMap)
        ensures
            m.wf(),
            forall|c: char| m.drive(c) is None,
            m.current() is None,
            m.host_dir() is None,
    {
        DriveMap { drives: Vec::new(), current_dir: None, host_cwd: None }
    }

    /// Same map, with the host working directory used for relative paths
    /// when the capsule has no current directory.
    pub fn with_host_cwd(self, host_cwd: Option<String>) -> (m: DriveMap)
        ensures
            m.wf() == self.wf(),
            forall|c: char| m.drive(c) == self.drive(c),
            m.current() == self.current(),
            m.host_dir() == opt_view(host_cwd),
    {
        let m = DriveMap { drives: self.drives, current_dir: self.current_dir, host_cwd };
        assert(m.drive_list() == self.drive_list());
        m
    }

    /// Known roots (drive directories, then the current directory when it
    /// is not already one of them): existence anchors for models.
    pub fn roots(&self) -> (r: Vec<String>)
        ensures
            r@.len() >= self.drive_list().len(),
            forall|i: int| 0 <= i < self.drive_list().len() ==> #[trigger] r@[i]@ == self.drive_list()[i].1,
            match self.current() {
                None => r@.len() == self.drive_list().len(),
                Some(d) => if exists|i: int| 0 <= i < self.drive_list().len() && self.drive_list()[i].1 == d {
                    r@.len() == self.drive_list().len()
                } else {
                    r@.len() == self.drive_list().len() + 1 && r@[self.drive_list().len() as int]@ == d
                },
            },
    {
        let mut v: Vec<String> = Vec::new();
        let mut i: usize = 0;
        assert(forall|a: int| 0 <= a < self.drives@.len() ==> #[trigger] self.drive_list()[a] == (self.drives@[a].0, self.drives@[a].1@));
        while i < self.drives.len()
            invariant
                i <= self.drives@.len(),
                v@.len() == i,
                forall|j: int| 0 <= j < i ==> #[trigger] v@[j]@ == self.drives@[j].1@,
            decreases self.drives@.len() - i,
        {
            let s = crate::text::owned(self.drives[i].1.as_str());
            v.push(s);
            i += 1;
        }
        match &self.current_dir {
            Some(d) => {
                let mut j: usize = 0;
                let mut present = false;
                while j < v.len() && !present
                    invariant
                        j <= v@.len(),
                        v@.len() == self.drives@.len(),
                        forall|a: int| 0 <= a < v@.len() ==> #[trigger] v@[a]@ == self.drives@[a].1@,
                        forall|a: int| 0 <= a < j ==> v@[a]@ != d@,
                        present ==> j < v@.len() && v@[j as int]@ == d@,
                    decreases v@.len() - j + (if present { 0int } else { 1int }),
                {
                    if crate::text::str_eq(v[j].as_str(), d.as_str()) {
                        present = true;
                    } else {
                        j += 1;
                    }
                }
                if !present {
                    assert forall|a: int| 0 <= a < self.drive_list().len() implies self.drive_list()[a].1 != d@ by {
                        assert(self.drive_list()[a] == (self.drives@[a].0, self.drives@[a].1@));
                        assert(v@[a]@ == self.drives@[a].1@);
                    }
                    v.push(crate::text::owned(d.as_str()));
                } else {
                    assert(self.drive_list()[j as int].1 == d@);
                }
            },
            None => {},
        }
        v
    }
}

} // verus!

verus! {

fn utf8_len(cs: &[char]) -> (n: usize)
    ensures
        n as nat == encode_utf8(cs@).len(),
{
    let s = string_of(cs);
    s.as_str().as_bytes().len()
}

impl DriveMap {
    fn drive_dir(&self, letter: char) -> (r: Option<String>)
        ensures
            opt_view(r) == self.drive(letter),
    {
        let mut i: usize = 0;
        proof {
            assert(self.drive_list().subrange(0, self.drive_list().len() as int) =~= self.drive_list());
        }
        while i < self.drives.len()
            invariant
                i <= self.drives@.len(),
                self.drive(letter) == find_drive(self.drive_list().subrange(i as int, self.drive_list().len() as int), letter),
            decreases self.drives@.len() - i,
        {
            let ghost t = self.drive_list().subrange(i as int, self.drive_list().len() as int);
            assert(t.drop_first() =~= self.drive_list().subrange(i + 1, self.drive_list().len() as int));
            assert(t[0] == (self.drives@[i as int].0, self.drives@[i as int].1@));
            if self.drives[i].0 == letter {
                return Some(crate::text::owned(self.drives[i].1.as_str()));
            }
            i += 1;
        }
        None
    }

    /// Translates a Win32/NT path into a host path. Rules: `\??\` prefix
    /// stripped; `X:\...` → the drive's directory (letter
    /// case-insensitive; unknown drive `OBJECT_PATH_INVALID`); `..` above
    /// a drive root stays at the root; a trailing separator beyond a bare
    /// root is a directory path (`OBJECT_PATH_INVALID`); `\\.\`, UNC and
    /// drive-relative `X:rel` are `NOT_IMPLEMENTED`; relative paths start
    /// at the current directory (else the host working directory).
    pub fn translate(&self, win: &str) -> (r: Result<String, NtStatus>)
        ensures
            match (r, self.translate_spec(win@)) {
                (Ok(a), Ok(b)) => a@ == b,
                (Err(a), Err(b)) => a == b,
                _ => false,
            },
    {
        let w = chars_of(win);
        let pre2 = chars_of("\\\\??\\");
        let pre1 = chars_of("\\??\\");
        let p = if starts_with(w.as_slice(), pre2.as_slice()) {
            slice_copy(w.as_slice(), pre2.len(), w.len())
        } else if starts_with(w.as_slice(), pre1.as_slice()) {
            slice_copy(w.as_slice(), pre1.len(), w.len())
        } else {
            w
        };
        assert(p@ == strip_nt_prefix(win@));
        let dev = chars_of("\\\\.\\");
        let unc = chars_of("\\\\");
        let lit = chars_of("\\\\?\\");
        if starts_with(p.as_slice(), dev.as_slice())
            || (starts_with(p.as_slice(), unc.as_slice()) && !starts_with(p.as_slice(), lit.as_slice())) {
            return Err(NtStatus(STATUS_NOT_IMPLEMENTED));
        }
        let n = p.len();
        if n > 0 && (p[n - 1] == '\\' || p[n - 1] == '/') && utf8_len(p.as_slice()) > 3 {
            return Err(NtStatus(STATUS_OBJECT_PATH_INVALID));
        }
        if n >= 3 && (p[0] as u32) < 128 && p[1] == ':' && (p[2] == '\\' || p[2] == '/') {
            let letter = ascii_upper_char(p[0]);
            let base = match self.drive_dir(letter) {
                Some(b) => b,
                None => return Err(NtStatus(STATUS_OBJECT_PATH_INVALID)),
            };
            let rest = slice_copy(p.as_slice(), 3, n);
            let comps = split_components(rest.as_slice());
            let mut stack: Vec<Vec<char>> = Vec::new();
            let mut k: usize = 0;
            let ghost cs = crate::text::views(comps@);
            assert(cs.subrange(0, 0) =~= Seq::<Seq<char>>::empty());
            assert(crate::text::views(stack@) =~= Seq::<Seq<char>>::empty());
            while k < comps.len()
                invariant
                    k <= comps@.len(),
                    cs == crate::text::views(comps@),
                    crate::text::views(stack@) == clamp(seq![], cs.subrange(0, k as int)),
                decreases comps@.len() - k,
            {
                let c = slice_copy(comps[k].as_slice(), 0, comps[k].len());
                assert(c@ == cs[k as int]);
                join_sandbox(&mut stack, c);
                proof { lemma_clamp_step(seq![], cs, k as int); }
                k += 1;
            }
            assert(cs.subrange(0, comps@.len() as int) =~= cs);
            let base_c = chars_of(base.as_str());
            let out = render_exec(base_c.as_slice(), &stack);
            return Ok(string_of(out.as_slice()));
        }
        if n >= 2 && (p[0] as u32) < 128 && p[1] == ':' {
            return Err(NtStatus(STATUS_NOT_IMPLEMENTED));
        }
        let base = match &self.current_dir {
            Some(d) => crate::text::owned(d.as_str()),
            None => match &self.host_cwd {
                Some(h) => crate::text::owned(h.as_str()),
                None => return Err(NtStatus(STATUS_OBJECT_PATH_INVALID)),
            },
        };
        let comps = split_components(p.as_slice());
        let base_c = chars_of(base.as_str());
        let out = render_exec(base_c.as_slice(), &comps);
        Ok(string_of(out.as_slice()))
    }
}

/// Open options (minimal mirror of `CreateFile`).
#[derive(Debug, Clone, Copy, PartialEq, Eq, Structural)]
pub struct CreateOptions {
    pub read: bool,
    pub write: bool,
    /// 1=CREATE_NEW 2=CREATE_ALWAYS 3=OPEN_EXISTING 4=OPEN_ALWAYS 5=TRUNCATE_EXISTING.
    pub disposition: u32,
}

pub const GENERIC_READ: u32 = 0x8000_0000;
pub const GENERIC_WRITE: u32 = 0x4000_0000;

impl CreateOptions {
    /// Maps `(GENERIC_READ/WRITE, disposition)`; access 0 (query only)
    /// opens read-only; a disposition outside 1..=5 is `INVALID_PARAMETER`.
    pub fn from_win32(access: u32, disposition: u32) -> (r: Result<CreateOptions, NtStatus>)
        ensures
            !(1 <= disposition <= 5) ==> r == Err::<CreateOptions, NtStatus>(NtStatus(STATUS_INVALID_PARAMETER)),
            1 <= disposition <= 5 ==> r == Ok::<CreateOptions, NtStatus>(CreateOptions {
                read: (access & GENERIC_READ) != 0 || (access & (GENERIC_READ | GENERIC_WRITE)) == 0,
                write: (access & GENERIC_WRITE) != 0,
                disposition,
            }),
    {
        if !(1 <= disposition && disposition <= 5) {
            return Err(NtStatus(STATUS_INVALID_PARAMETER));
        }
        let read = access & GENERIC_READ != 0;
        let write = access & GENERIC_WRITE != 0;
        assert((access & (GENERIC_READ | GENERIC_WRITE)) == 0 <==> (!read && !write)) by (bit_vector)
            requires
                read == (access & 0x8000_0000u32 != 0),
                write == (access & 0x4000_0000u32 != 0),
        ;
        Ok(CreateOptions { read: read || (!read && !write), write, disposition })
    }
}

/// Host open flags (what `std::fs::OpenOptions` is given).
#[derive(Debug, Clone, Copy, PartialEq, Eq, Structural)]
pub struct HostOpen {
    pub read: bool,
    pub write: bool,
    pub create: bool,
    pub create_new: bool,
    pub truncate: bool,
}

/// How `NtCreateFile` opens a host file: an optional first open for
/// writing that makes the file exist (a read-only open cannot create on
/// the host, though Windows creates files with no access), then the open
/// that gives the handle.
#[derive(Debug, Clone, Copy, PartialEq, Eq, Structural)]
pub struct OpenPlan {
    pub ensure: Option<HostOpen>,
    pub open: HostOpen,
}

/// The open plan of `opts`: create dispositions (1 new, 2 always, 4
/// open-always) without write access first create the file through a
/// write-only open; truncating (5) without write access is
/// `ACCESS_DENIED`; the final open reads and writes as asked, creating or
/// truncating only with write access.
pub fn open_plan(opts: &CreateOptions) -> (r: Result<OpenPlan, NtStatus>)
    ensures
        opts.disposition == 5 && !opts.write ==> r == Err::<OpenPlan, NtStatus>(NtStatus(STATUS_ACCESS_DENIED)),
        !(opts.disposition == 5 && !opts.write) ==> r == Ok::<OpenPlan, NtStatus>(OpenPlan {
            ensure: if !opts.write && (opts.disposition == 1 || opts.disposition == 2 || opts.disposition == 4) {
                Some(HostOpen {
                    read: false,
                    write: true,
                    create: opts.disposition == 2 || opts.disposition == 4,
                    create_new: opts.disposition == 1,
                    truncate: opts.disposition == 2,
                })
            } else {
                None
            },
            open: HostOpen {
                read: opts.read,
                write: opts.write,
                create: opts.write && (opts.disposition == 2 || opts.disposition == 4),
                create_new: opts.write && opts.disposition == 1,
                truncate: (opts.write && opts.disposition == 2) || opts.disposition == 5,
            },
        }),
{
    let d = opts.disposition;
    if d == 5 && !opts.write {
        return Err(NtStatus(STATUS_ACCESS_DENIED));
    }
    let ensure = if !opts.write && (d == 1 || d == 2 || d == 4) {
        Some(HostOpen { read: false, write: true, create: d == 2 || d == 4, create_new: d == 1, truncate: d == 2 })
    } else {
        None
    };
    Ok(OpenPlan {
        ensure,
        open: HostOpen {
            read: opts.read,
            write: opts.write,
            create: opts.write && (d == 2 || d == 4),
            create_new: opts.write && d == 1,
            truncate: (opts.write && d == 2) || d == 5,
        },
    })
}

/// Kind of a failed host open (the `std::io::ErrorKind`s told apart).
#[derive(Debug, Clone, Copy, PartialEq, Eq, Structural)]
pub enum IoKind {
    NotFound,
    AlreadyExists,
    PermissionDenied,
    InvalidInput,
    Other,
}

/// NT status of a failed host open under `disposition`: an unclassified
/// failure of `CREATE_NEW` is a name collision, otherwise `UNSUCCESSFUL`.
pub fn io_to_status(kind: IoKind, disposition: u32) -> (s: NtStatus)
    ensures
        s == match kind {
            IoKind::NotFound => NtStatus(STATUS_OBJECT_NAME_NOT_FOUND),
            IoKind::AlreadyExists => NtStatus(STATUS_OBJECT_NAME_COLLISION),
            IoKind::PermissionDenied => NtStatus(STATUS_ACCESS_DENIED),
            IoKind::InvalidInput => NtStatus(STATUS_INVALID_PARAMETER),
            IoKind::Other => if disposition == 1 {
                NtStatus(STATUS_OBJECT_NAME_COLLISION)
            } else {
                NtStatus(STATUS_UNSUCCESSFUL)
            },
        },
{
    match kind {
        IoKind::NotFound => NtStatus(STATUS_OBJECT_NAME_NOT_FOUND),
        IoKind::AlreadyExists => NtStatus(STATUS_OBJECT_NAME_COLLISION),
        IoKind::PermissionDenied => NtStatus(STATUS_ACCESS_DENIED),
        IoKind::InvalidInput => NtStatus(STATUS_INVALID_PARAMETER),
        IoKind::Other => if disposition == 1 {
            NtStatus(STATUS_OBJECT_NAME_COLLISION)
        } else {
            NtStatus(STATUS_UNSUCCESSFUL)
        },
    }
}


/// Access rights recorded on a file object.
pub const FILE_OBJECT_RIGHTS: u32 = 0x120089;

/// Registers the host file `NtCreateFile` opened (`fd`, at host `path`) as
/// a `File` object that owns its fd, readable and writable as `opts` asked.
pub fn register_file(table: &mut HandleTable, fd: i32, path: String, opts: &CreateOptions) -> (h: WindowsHandle)
    requires
        old(table).wf(),
        old(table).can_insert(),
    ensures
        final(table).wf(),
        old(table).lookup_spec(h.0) is None,
        final(table).lookup_spec(h.0) == Some(
            (KernelObject {
                typ: ObjectType::File,
                name: None,
                rights: FILE_OBJECT_RIGHTS,
                payload: ObjectPayload::File(
                    (FileObject { fd, path, writable: opts.write, readable: opts.read, owns_fd: true }),
                ),
            }),
        ),
        forall|h2: u64| h2 != h.0 ==> final(table).lookup_spec(h2) == old(table).lookup_spec(h2),
{
    let obj = KernelObject {
        typ: ObjectType::File,
        name: None,
        rights: FILE_OBJECT_RIGHTS,
        payload: ObjectPayload::File(FileObject { fd, path, writable: opts.write, readable: opts.read, owns_fd: true }),
    };
    table.insert(obj)
}

/// The `File` object behind `handle`, or `INVALID_HANDLE` (dead handle or
/// another object type).
pub fn file_object(table: &HandleTable, handle: WindowsHandle) -> (r: Result<&crate::nt_object::FileObject, NtStatus>)
    requires
        table.wf(),
    ensures
        match table.lookup_spec(handle.0) {
            Some(o) => if o.typ == ObjectType::File {
                match o.payload { ObjectPayload::File(f) => r == Ok::<&crate::nt_object::FileObject, NtStatus>(&f) }
            } else {
                r == Err::<&crate::nt_object::FileObject, NtStatus>(NtStatus(STATUS_INVALID_HANDLE))
            },
            None => r == Err::<&crate::nt_object::FileObject, NtStatus>(NtStatus(STATUS_INVALID_HANDLE)),
        },
{
    let obj: &KernelObject = table.lookup(handle)?;
    if obj.typ != ObjectType::File {
        return Err(NtStatus(STATUS_INVALID_HANDLE));
    }
    match &obj.payload {
        ObjectPayload::File(f) => Ok(f),
    }
}

/// fd to write to for `WriteFile`: a live `File` handle opened with write
/// access (`ACCESS_DENIED` otherwise).
pub fn write_target(table: &HandleTable, handle: WindowsHandle) -> (r: Result<i32, NtStatus>)
    requires
        table.wf(),
    ensures
        match table.lookup_spec(handle.0) {
            Some(o) => match o.payload {
                ObjectPayload::File(f) => if o.typ != ObjectType::File {
                    r == Err::<i32, NtStatus>(NtStatus(STATUS_INVALID_HANDLE))
                } else if !f.writable {
                    r == Err::<i32, NtStatus>(NtStatus(STATUS_ACCESS_DENIED))
                } else {
                    r == Ok::<i32, NtStatus>(f.fd)
                },
            },
            None => r == Err::<i32, NtStatus>(NtStatus(STATUS_INVALID_HANDLE)),
        },
{
    let f = file_object(table, handle)?;
    if !f.writable {
        return Err(NtStatus(STATUS_ACCESS_DENIED));
    }
    Ok(f.fd)
}

/// fd to read from for `ReadFile`: a live `File` handle opened with read
/// access (Windows refuses reads without GENERIC_READ: `ACCESS_DENIED`).
pub fn read_target(table: &HandleTable, handle: WindowsHandle) -> (r: Result<i32, NtStatus>)
    requires
        table.wf(),
    ensures
        match table.lookup_spec(handle.0) {
            Some(o) => match o.payload {
                ObjectPayload::File(f) => if o.typ != ObjectType::File {
                    r == Err::<i32, NtStatus>(NtStatus(STATUS_INVALID_HANDLE))
                } else if !f.readable {
                    r == Err::<i32, NtStatus>(NtStatus(STATUS_ACCESS_DENIED))
                } else {
                    r == Ok::<i32, NtStatus>(f.fd)
                },
            },
            None => r == Err::<i32, NtStatus>(NtStatus(STATUS_INVALID_HANDLE)),
        },
{
    let f = file_object(table, handle)?;
    if !f.readable {
        return Err(NtStatus(STATUS_ACCESS_DENIED));
    }
    Ok(f.fd)
}

/// Closes a handle; returns the fd the host must close (only for `File`
/// objects that own theirs — console fds are never closed).
pub fn close_handle(table: &mut HandleTable, handle: WindowsHandle) -> (r: Result<Option<i32>, NtStatus>)
    requires
        old(table).wf(),
    ensures
        final(table).wf(),
        match old(table).lookup_spec(handle.0) {
            Some(o) => {
                &&& final(table).lookup_spec(handle.0) is None
                &&& forall|h2: u64| h2 != handle.0 ==> final(table).lookup_spec(h2) == old(table).lookup_spec(h2)
                &&& match o.payload {
                    ObjectPayload::File(f) => r == Ok::<Option<i32>, NtStatus>(
                        if o.typ == ObjectType::File && f.owns_fd { Some(f.fd) } else { None }),
                }
            },
            None => r == Err::<Option<i32>, NtStatus>(NtStatus(STATUS_INVALID_HANDLE))
                && final(table).slots() == old(table).slots(),
        },
{
    let owned_fd = {
        let obj = table.lookup(handle)?;
        match &obj.payload {
            ObjectPayload::File(f) => if obj.typ == ObjectType::File && f.owns_fd { Some(f.fd) } else { None },
        }
    };
    table.close(handle)?;
    Ok(owned_fd)
}

} // verus!
