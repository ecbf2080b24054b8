//! Deterministic fuzzing inputs (PE image mutation, NT paths), executor
//! result types and per-case directories.
use vstd::prelude::*;
use crate::rng::{advance, below_state, below_value, mix, Rng};
use crate::compare::Verdict;
use crate::nt_file::DriveMap;
use crate::nt_file::join1;
use crate::text::{chars_of, concat, decimal, extend_chars, owned, string_of, u64_decimal};

verus! {

/// One destructive edit at byte `i` chosen by stream state `s` (after the
/// index draw): flip a bit, overwrite with a random byte, truncate there,
/// or append `FF 00 4D 5A`.
pub open spec fn mutate_edit(s: u64, b: Seq<u8>) -> (u64, Seq<u8>) {
    let i = below_value(s, b.len() as u64) as int;
    let s2 = advance(s);
    let op = below_value(s2, 4);
    let s3 = advance(s2);
    if op == 0 {
        let bit = below_value(s3, 8);
        (advance(s3), b.update(i, b[i] ^ ((1u8 << (bit as u8)) as u8)))
    } else if op == 1 {
        (advance(s3), b.update(i, (mix(advance(s3)) & 0xFF) as u8))
    } else if op == 2 {
        (s3, b.take(i))
    } else {
        (s3, b + seq![0xFFu8, 0x00u8, 0x4Du8, 0x5Au8])
    }
}

/// `k` edits; an empty input stops the edits.
pub open spec fn mutate_edits(s: u64, b: Seq<u8>, k: nat) -> (u64, Seq<u8>)
    decreases k,
{
    if k == 0 {
        (s, b)
    } else {
        let (s1, b1) = mutate_edits(s, b, (k - 1) as nat);
        if b1.len() == 0 { (s1, b1) } else { mutate_edit(s1, b1) }
    }
}

/// The mutation of `base` for `seed`: seeds divisible by 3 truncate at a
/// random cut; others apply 1 to 8 random edits.
pub open spec fn mutate_spec(seed: u64, base: Seq<u8>) -> Seq<u8> {
    let s0 = advance(seed | 1);
    let cut = below_value(s0, (base.len() + 1) as u64);
    let s1 = advance(s0);
    if seed % 3 == 0 {
        base.take(cut as int)
    } else {
        let n = 1 + below_value(s1, 8);
        mutate_edits(advance(s1), base, n as nat).1
    }
}

proof fn lemma_edits_len(s: u64, b: Seq<u8>, k: nat)
    ensures
        mutate_edits(s, b, k).1.len() <= b.len() + 4 * k,
    decreases k,
{
    if k > 0 {
        lemma_edits_len(s, b, (k - 1) as nat);
    }
}

proof fn lemma_edits_empty(s: u64, k: nat)
    ensures
        mutate_edits(s, Seq::<u8>::empty(), k).1.len() == 0,
    decreases k,
{
    if k > 0 {
        lemma_edits_empty(s, (k - 1) as nat);
    }
}

/// What a mutation can do to the length: a seed divisible by 3 gives a
/// prefix of `base`; any seed adds at most 32 bytes (8 edits, each
/// appending at most 4); an empty image stays empty.
pub proof fn law_mutate_shape(seed: u64, base: Seq<u8>)
    requires
        base.len() < u64::MAX,
    ensures
        seed % 3 == 0 ==> mutate_spec(seed, base) == base.take(mutate_spec(seed, base).len() as int)
            && mutate_spec(seed, base).len() <= base.len(),
        mutate_spec(seed, base).len() <= base.len() + 32,
        base.len() == 0 ==> mutate_spec(seed, base).len() == 0,
{
    let s0 = advance(seed | 1);
    let cut = below_value(s0, (base.len() + 1) as u64);
    assert(cut <= base.len()) by {
        assert((base.len() + 1) as u64 == base.len() + 1);
    }
    let s1 = advance(s0);
    let n = 1 + below_value(s1, 8);
    assert(n <= 8);
    if seed % 3 != 0 {
        lemma_edits_len(advance(s1), base, n as nat);
        if base.len() == 0 {
            assert(base =~= Seq::<u8>::empty());
            lemma_edits_empty(advance(s1), n as nat);
        }
    } else {
        assert(base.take(cut as int).take(cut as int) =~= base.take(cut as int));
    }
}

/// Deterministic destructive mutation of a PE image (truncated headers,
/// bit flips, random bytes, truncation, appended `MZ` junk).
pub fn mutate(seed: u64, base: &[u8]) -> (r: Vec<u8>)
    requires
        base@.len() + 32 <= usize::MAX,
        base@.len() < u64::MAX,
    ensures
        r@ == mutate_spec(seed, base@),
{
    let mut rng = Rng::new(seed | 1);
    let mut b: Vec<u8> = Vec::new();
    let mut k: usize = 0;
    while k < base.len()
        invariant
            k <= base@.len(),
            b@ == base@.take(k as int),
        decreases base@.len() - k,
    {
        b.push(base[k]);
        assert(b@ =~= base@.take(k + 1));
        k += 1;
    }
    assert(base@.take(base@.len() as int) =~= base@);
    let cut = rng.below(b.len() as u64 + 1) as usize;
    if seed % 3 == 0 {
        b.truncate(cut);
        assert(b@ =~= base@.take(cut as int));
        return b;
    }
    let n = 1 + rng.below(8) as usize;
    let ghost s1 = rng.state();
    let mut j: usize = 0;
    while j < n
        invariant
            j <= n,
            n <= 8,
            base@.len() + 32 <= usize::MAX,
            (rng.state(), b@) == mutate_edits(s1, base@, j as nat),
        decreases n - j,
    {
        proof {
            lemma_edits_len(s1, base@, j as nat);
        }
        if b.len() == 0 {
            j += 1;
            continue;
        }
        let ghost sb = rng.state();
        let ghost bb = b@;
        let i = rng.below(b.len() as u64) as usize;
        let op = rng.below(4);
        if op == 0 {
            let bit = rng.below(8) as u8;
            let x = b[i] ^ (1u8 << bit);
            b.set(i, x);
        } else if op == 1 {
            let v = (rng.next_u64() & 0xFF) as u8;
            b.set(i, v);
        } else if op == 2 {
            b.truncate(i);
        } else {
            b.push(0xFF);
            b.push(0x00);
            b.push(0x4D);
            b.push(0x5A);
        }
        proof {
            assert((rng.state(), b@) == mutate_edit(sb, bb)) by {
                if op == 2 {
                    assert(b@ =~= bb.take(i as int));
                }
                if op == 3 {
                    assert(b@ =~= bb + seq![0xFFu8, 0x00u8, 0x4Du8, 0x5Au8]);
                }
            }
        }
        j += 1;
    }
    b
}

/// Structured outcome of parsing one input.
#[derive(Debug, Clone, Copy, PartialEq, Eq, Structural)]
pub struct ParseOutcome {
    pub ok: bool,
    pub imports: usize,
    pub exports: usize,
    pub relocs: usize,
}

/// Failure to execute a guest case.
#[derive(Debug, Clone)]
pub enum ExecError {
    Driver(String),
    Io(String),
    Runner(String),
}

/// `driver build: ...`, `io: ...` or `runner: ...`.
pub open spec fn exec_error_text(e: ExecError) -> Seq<char> {
    match e {
        ExecError::Driver(m) => "driver build: "@ + m@,
        ExecError::Io(m) => "io: "@ + m@,
        ExecError::Runner(m) => "runner: "@ + m@,
    }
}

impl ExecError {
    /// `driver build: ...`, `io: ...` or `runner: ...`.
    pub fn message(&self) -> (r: String)
        ensures
            r@ == exec_error_text(*self),
    {
        match self {
            ExecError::Driver(m) => concat("driver build: ", m.as_str()),
            ExecError::Io(m) => concat("io: ", m.as_str()),
            ExecError::Runner(m) => concat("runner: ", m.as_str()),
        }
    }
}

/// Raw result of one in-process step.
#[derive(Debug, Clone, PartialEq, Eq)]
pub struct StepResult {
    pub ok: bool,
    pub detail: String,
}

/// `run_dir/worker_<w>/case_<i>` (path joining as `PathBuf::push`).
pub open spec fn case_dir_spec(run_dir: Seq<char>, worker: nat, index: nat) -> Seq<char> {
    join1(join1(run_dir, "worker_"@ + decimal(worker)), "case_"@ + decimal(index))
}

fn join_exec(p: &[char], c: &[char]) -> (r: Vec<char>)
    ensures
        r@ == join1(p@, c@),
{
    let mut out = crate::text::slice_copy(p, 0, p.len());
    assert(p@.subrange(0, p@.len() as int) =~= p@);
    if out.len() > 0 && out[out.len() - 1] != '/' {
        out.push('/');
    }
    extend_chars(&mut out, c);
    out
}

/// Isolated directory of one case.
pub fn case_dir(run_dir: &str, worker: usize, index: usize) -> (r: String)
    ensures
        r@ == case_dir_spec(run_dir@, worker as nat, index as nat),
{
    let mut w = chars_of("worker_");
    let wd = u64_decimal(worker as u64);
    extend_chars(&mut w, wd.as_slice());
    let mut c = chars_of("case_");
    let cd = u64_decimal(index as u64);
    extend_chars(&mut c, cd.as_slice());
    let base = chars_of(run_dir);
    let a = join_exec(base.as_slice(), w.as_slice());
    let b = join_exec(a.as_slice(), c.as_slice());
    string_of(b.as_slice())
}

/// The pieces a fuzzed NT path is made of.
pub open spec fn piece_text(i: int) -> Seq<char> {
    if i == 0 {
        "C:"@
    } else if i == 1 {
        "D:"@
    } else if i == 2 {
        "\\\\srv"@
    } else if i == 3 {
        "\\\\??\\"@
    } else if i == 4 {
        "\\\\.\\"@
    } else if i == 5 {
        "rel"@
    } else if i == 6 {
        ".."@
    } else if i == 7 {
        "é"@
    } else if i == 8 {
        "\u{0}"@
    } else if i == 9 {
        "con"@
    } else {
        " "@
    }
}

pub const PATH_PIECES: usize = 11;

fn path_piece(i: usize) -> (r: &'static str)
    requires
        i < PATH_PIECES,
    ensures
        r@ == piece_text(i as int),
{
    if i == 0 {
        "C:"
    } else if i == 1 {
        "D:"
    } else if i == 2 {
        "\\\\srv"
    } else if i == 3 {
        "\\\\??\\"
    } else if i == 4 {
        "\\\\.\\"
    } else if i == 5 {
        "rel"
    } else if i == 6 {
        ".."
    } else if i == 7 {
        "é"
    } else if i == 8 {
        "\u{0}"
    } else if i == 9 {
        "con"
    } else {
        " "
    }
}

/// `n` copies of `A`.
pub open spec fn a_run(n: nat) -> Seq<char> {
    Seq::new(n, |_j: int| 'A')
}

/// One segment of a fuzzed path drawn from state `s`: a separator with
/// probability 1/2 (not before the first segment), a piece, then with
/// probability 1/4 a run of fewer than 300 `A`s.
pub open spec fn path_step(s: u64, p: Seq<char>) -> (u64, Seq<char>) {
    let s1 = if p.len() > 0 { below_state(s, 2) } else { s };
    let p1 = if p.len() > 0 && below_value(s, 2) < 1 { p.push('\\') } else { p };
    let i = below_value(s1, PATH_PIECES as u64);
    let s2 = below_state(s1, PATH_PIECES as u64);
    let p2 = p1 + piece_text(i as int);
    let s3 = below_state(s2, 4);
    if below_value(s2, 4) < 1 {
        (below_state(s3, 300), p2 + a_run(below_value(s3, 300) as nat))
    } else {
        (s3, p2)
    }
}

pub open spec fn path_steps(s: u64, k: nat) -> (u64, Seq<char>)
    decreases k,
{
    if k == 0 {
        (s, Seq::empty())
    } else {
        let (s1, p1) = path_steps(s, (k - 1) as nat);
        path_step(s1, p1)
    }
}

/// A fuzzed NT path: 1 to 6 segments.
pub open spec fn fuzz_path_spec(s: u64) -> (u64, Seq<char>) {
    path_steps(below_state(s, 6), (1 + below_value(s, 6)) as nat)
}

/// A fuzzed NT path drawn from `rng` (the stream advances as the path is
/// drawn).
pub fn fuzz_path(rng: &mut Rng) -> (p: String)
    ensures
        (final(rng).state(), p@) == fuzz_path_spec(old(rng).state()),
{
    let n = 1 + rng.below_usize(6);
    let ghost s0 = rng.state();
    let mut out: Vec<char> = Vec::new();
    let mut k: usize = 0;
    while k < n
        invariant
            k <= n <= 6,
            (rng.state(), out@) == path_steps(s0, k as nat),
        decreases n - k,
    {
        let ghost sa = rng.state();
        let ghost pa = out@;
        if out.len() > 0 {
            let sep = rng.biased(1, 2);
            if sep {
                out.push('\\');
            }
        }
        let i = rng.below_usize(PATH_PIECES);
        let piece = chars_of(path_piece(i));
        extend_chars(&mut out, piece.as_slice());
        let pad = rng.biased(1, 4);
        if pad {
            let m = rng.below_usize(300);
            let ghost before = out@;
            let mut j: usize = 0;
            while j < m
                invariant
                    j <= m < 300,
                    out@ == before + a_run(j as nat),
                decreases m - j,
            {
                out.push('A');
                assert(before + a_run((j + 1) as nat) =~= (before + a_run(j as nat)).push('A'));
                j += 1;
            }
        }
        proof {
            assert((rng.state(), out@) == path_step(sa, pa));
        }
        k += 1;
    }
    string_of(out.as_slice())
}

/// One paths-fuzz case: the path drawn for `case_seed`, translated with an
/// empty drive map. Translation is total, so every case is a `Match`.
pub fn paths_case(case_seed: u64) -> (r: (String, Verdict))
    ensures
        r.0@ == fuzz_path_spec(advance(case_seed)).1,
        r.1 == Verdict::Match,
{
    let mut rng = Rng::new(case_seed);
    let path = fuzz_path(&mut rng);
    let map = DriveMap::empty();
    let _ = map.translate(path.as_str());
    (path, Verdict::Match)
}

} // verus!
