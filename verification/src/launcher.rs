//! The runtime launcher's `RINE-CRASH schema=1` report (what the manager's
//! `run::parse_crash` reads back).
use vstd::prelude::*;
use crate::text::{
    all_digits, chars_of, decimal, digit_char, digits_value, extend_chars, find_char, is_ws, lemma_find_char, lines,
    lines_acc,
    parse_u64_spec, split_once, string_of, strip_cr, trim, trim_end, trim_start, u64_decimal,
};
use crate::run::{crash_at, crash_marker, field, marker_index, parse_crash_spec, CrashFields};

verus! {

/// Text of a crash report.
pub open spec fn crash_report_spec(
    version: Seq<char>,
    executable: Seq<char>,
    phase: Seq<char>,
    reason: Seq<char>,
    location: Seq<char>,
    timestamp_secs: u64,
) -> Seq<char> {
    "RINE-CRASH schema=1\ntimestamp: "@ + decimal(timestamp_secs as nat) + "\nversion: "@ + version
        + "\nexecutable: "@ + executable + "\nphase: "@ + phase + "\nreason: "@ + reason
        + "\nlocation: "@ + location + "\n"@
}

fn push_str(out: &mut Vec<char>, s: &str)
    ensures
        final(out)@ == old(out)@ + s@,
{
    let c = chars_of(s);
    extend_chars(out, c.as_slice());
}

/// `RINE-CRASH` report; a missing location is written as `-`.
pub fn format_crash_report(
    version: &str,
    executable: &str,
    phase: &str,
    reason: &str,
    location: Option<String>,
    timestamp_secs: u64,
) -> (r: String)
    ensures
        r@ == crash_report_spec(
            version@,
            executable@,
            phase@,
            reason@,
            match location { Some(l) => l@, None => "-"@ },
            timestamp_secs,
        ),
{
    let mut out: Vec<char> = Vec::new();
    push_str(&mut out, "RINE-CRASH schema=1\ntimestamp: ");
    let d = u64_decimal(timestamp_secs);
    extend_chars(&mut out, d.as_slice());
    push_str(&mut out, "\nversion: ");
    push_str(&mut out, version);
    push_str(&mut out, "\nexecutable: ");
    push_str(&mut out, executable);
    push_str(&mut out, "\nphase: ");
    push_str(&mut out, phase);
    push_str(&mut out, "\nreason: ");
    push_str(&mut out, reason);
    push_str(&mut out, "\nlocation: ");
    match &location {
        Some(l) => push_str(&mut out, l.as_str()),
        None => push_str(&mut out, "-"),
    }
    push_str(&mut out, "\n");
    proof {
        let loc = match location { Some(l) => l@, None => "-"@ };
        assert(out@ =~= crash_report_spec(version@, executable@, phase@, reason@, loc, timestamp_secs));
    }
    string_of(out.as_slice())
}


proof fn lemma_lines_acc_append(x: Seq<char>, t: Seq<char>, cur: Seq<char>)
    requires
        !x.contains('\n'),
    ensures
        lines_acc(x + t, cur) == lines_acc(t, cur + x),
    decreases x.len(),
{
    if x.len() == 0 {
        assert(x + t =~= t);
        assert(cur + x =~= cur);
    } else {
        assert((x + t)[0] == x[0]);
        assert((x + t).drop_first() =~= x.drop_first() + t);
        assert(!x.drop_first().contains('\n')) by {
            if x.drop_first().contains('\n') {
                let j = choose|j: int| 0 <= j < x.drop_first().len() && x.drop_first()[j] == '\n';
                assert(x[j + 1] == '\n');
            }
        }
        assert(x[0] != '\n') by {
            if x[0] == '\n' {
                assert(x.contains('\n'));
            }
        }
        lemma_lines_acc_append(x.drop_first(), t, cur.push(x[0]));
        assert(cur.push(x[0]) + x.drop_first() =~= cur + x);
    }
}

/// `x` then a line break starts the line list with `x` (minus a final `\r`).
proof fn lemma_lines_line(x: Seq<char>, rest: Seq<char>)
    requires
        !x.contains('\n'),
    ensures
        lines(x + "\n"@ + rest) == seq![strip_cr(x)] + lines(rest),
{
    reveal_strlit("\n");
    assert(x + "\n"@ + rest =~= x + ("\n"@ + rest));
    lemma_lines_acc_append(x, "\n"@ + rest, seq![]);
    assert(Seq::<char>::empty() + x =~= x);
    assert(("\n"@ + rest).drop_first() =~= rest);
}

proof fn lemma_find_char_after(a: Seq<char>, b: Seq<char>, c: char)
    requires
        !a.contains(c),
    ensures
        find_char(a + b, c) == match find_char(b, c) {
            Some(i) => Some(i + a.len()),
            None => None::<int>,
        },
    decreases a.len(),
{
    if a.len() == 0 {
        assert(a + b =~= b);
    } else {
        assert((a + b)[0] == a[0]);
        assert(a[0] != c) by {
            if a[0] == c {
                assert(a.contains(c));
            }
        }
        assert((a + b).drop_first() =~= a.drop_first() + b);
        assert(!a.drop_first().contains(c)) by {
            if a.drop_first().contains(c) {
                let j = choose|j: int| 0 <= j < a.drop_first().len() && a.drop_first()[j] == c;
                assert(a[j + 1] == c);
            }
        }
        lemma_find_char_after(a.drop_first(), b, c);
    }
}

/// A `key: value` line splits at its first colon.
proof fn lemma_key_value_split(k: Seq<char>, v: Seq<char>)
    requires
        !k.contains(':'),
    ensures
        split_once(k + ": "@ + v, ':') == Some((k, " "@ + v)),
{
    reveal_strlit(": ");
    reveal_strlit(" ");
    let line = k + ": "@ + v;
    assert(line =~= k + (": "@ + v));
    lemma_find_char_after(k, ": "@ + v, ':');
    assert((": "@ + v)[0] == ':');
    assert(find_char(": "@ + v, ':') == Some(0int));
    assert(line.subrange(0, k.len() as int) =~= k);
    assert(line.subrange(k.len() + 1int, line.len() as int) =~= " "@ + v);
}

proof fn lemma_trim_space_prefix(v: Seq<char>)
    requires
        trim(v) == v,
    ensures
        trim(" "@ + v) == v,
{
    reveal_strlit(" ");
    let w = " "@ + v;
    assert(w[0] == ' ');
    assert(is_ws(w[0]));
    assert(w.drop_first() =~= v);
    assert(trim_start(w) == trim_start(v));
}

proof fn lemma_decimal_parses(n: nat)
    ensures
        decimal(n).len() > 0,
        all_digits(decimal(n)),
        digits_value(decimal(n)) == n,
        !is_ws(decimal(n)[0]),
        !is_ws(decimal(n).last()),
        decimal(n)[0] != '+',
        !decimal(n).contains('\n'),
    decreases n,
{
    let d = digit_char(n % 10);
    assert((d as u32) == ('0' as u32) + (n % 10) as u32);
    assert('0' <= d && d <= '9');
    assert(n == (n / 10) * 10 + n % 10) by (nonlinear_arith);
    if n >= 10 {
        lemma_decimal_parses(n / 10);
        let p = decimal(n / 10);
        assert(decimal(n) == p.push(d));
        assert(decimal(n).drop_last() =~= p);
        assert(decimal(n).last() == d);
        assert(digits_value(decimal(n)) == digits_value(p) * 10 + ((d as u32) - ('0' as u32)) as nat);
        assert(decimal(n)[0] == p[0]);
        assert forall|i: int| 0 <= i < decimal(n).len() implies '0' <= #[trigger] decimal(n)[i] && decimal(n)[i] <= '9' by {
            if i < p.len() {
                assert(decimal(n)[i] == p[i]);
            }
        }
        assert(!decimal(n).contains('\n'));
    } else {
        assert(decimal(n) =~= seq![d]);
        assert(decimal(n).drop_last() =~= Seq::<char>::empty());
        assert(digits_value(decimal(n)) == digits_value(Seq::<char>::empty()) * 10 + ((d as u32) - ('0' as u32)) as nat);
        assert(!decimal(n).contains('\n'));
    }
}


proof fn lemma_trim_lens(s: Seq<char>)
    ensures
        trim_start(s).len() <= s.len(),
        trim_start(s).len() == s.len() ==> trim_start(s) == s,
        trim_end(s).len() <= s.len(),
        s.len() > 0 && is_ws(s.last()) ==> trim_end(s).len() < s.len(),
    decreases s.len(),
{
    if s.len() > 0 {
        lemma_trim_lens(s.drop_first());
        lemma_trim_lens(s.drop_last());
    }
}

/// A field with no surrounding whitespace does not end in whitespace.
proof fn lemma_trimmed_last(v: Seq<char>)
    requires
        trim(v) == v,
        v.len() > 0,
    ensures
        !is_ws(v.last()),
{
    lemma_trim_lens(v);
    lemma_trim_lens(trim_start(v));
    assert(trim_start(v) == v);
    lemma_trim_lens(v);
}

/// A line `key: value`.
pub open spec fn key_line(k: Seq<char>, v: Seq<char>) -> Seq<char> {
    k + ": "@ + v
}

proof fn lemma_no_char_concat(a: Seq<char>, b: Seq<char>, c: char)
    requires
        !a.contains(c),
        !b.contains(c),
    ensures
        !(a + b).contains(c),
{
    if (a + b).contains(c) {
        let j = choose|j: int| 0 <= j < (a + b).len() && (a + b)[j] == c;
        if j < a.len() {
            assert(a[j] == c);
        } else {
            assert(b[j - a.len()] == c);
        }
    }
}

proof fn lemma_key_line_shape(k: Seq<char>, v: Seq<char>)
    requires
        !k.contains('\n'),
        !v.contains('\n'),
        v.len() == 0 || !is_ws(v.last()),
    ensures
        !key_line(k, v).contains('\n'),
        strip_cr(key_line(k, v)) == key_line(k, v),
{
    reveal_strlit(": ");
    assert(!": "@.contains('\n')) by {
        if ": "@.contains('\n') {
            let j = choose|j: int| 0 <= j < ": "@.len() && ": "@[j] == '\n';
        }
    }
    lemma_no_char_concat(k, ": "@, '\n');
    lemma_no_char_concat(k + ": "@, v, '\n');
    let l = key_line(k, v);
    if v.len() > 0 {
        assert(l.last() == v.last());
    } else {
        assert(l.last() == ' ');
    }
}

proof fn lemma_field_line(k: Seq<char>, v: Seq<char>, rest: Seq<Seq<char>>, q: Seq<char>)
    requires
        !k.contains(':'),
        trim(k) == k,
    ensures
        field(seq![key_line(k, v)] + rest, q) == if k == q {
            Some(trim(" "@ + v))
        } else {
            field(rest, q)
        },
{
    lemma_key_value_split(k, v);
    let ls = seq![key_line(k, v)] + rest;
    assert(ls[0] == key_line(k, v));
    assert(ls.drop_first() =~= rest);
}

/// A field the report writes on one line and reads back unchanged: no line
/// break, no surrounding whitespace.
pub open spec fn plain_field(f: Seq<char>) -> bool {
    !f.contains('\n') && trim(f) == f
}

proof fn lemma_plain_field(f: Seq<char>)
    requires
        plain_field(f),
    ensures
        f.len() == 0 || !is_ws(f.last()),
        trim(" "@ + f) == f,
{
    if f.len() > 0 {
        lemma_trimmed_last(f);
    }
    lemma_trim_space_prefix(f);
}

proof fn lemma_literal_keys()
    ensures
        !"timestamp"@.contains(':') && trim("timestamp"@) == "timestamp"@ && !"timestamp"@.contains('\n'),
        !"version"@.contains(':') && trim("version"@) == "version"@ && !"version"@.contains('\n'),
        !"executable"@.contains(':') && trim("executable"@) == "executable"@ && !"executable"@.contains('\n'),
        !"phase"@.contains(':') && trim("phase"@) == "phase"@ && !"phase"@.contains('\n'),
        !"reason"@.contains(':') && trim("reason"@) == "reason"@ && !"reason"@.contains('\n'),
        !"location"@.contains(':') && trim("location"@) == "location"@ && !"location"@.contains('\n'),
        "timestamp"@ != "version"@ && "timestamp"@ != "executable"@ && "timestamp"@ != "phase"@
            && "timestamp"@ != "reason"@ && "timestamp"@ != "location"@,
        "version"@ != "executable"@ && "version"@ != "phase"@ && "version"@ != "reason"@ && "version"@ != "location"@,
        "executable"@ != "phase"@ && "executable"@ != "reason"@ && "executable"@ != "location"@,
        "phase"@ != "reason"@ && "phase"@ != "location"@,
        "reason"@ != "location"@,
{
    reveal_strlit("timestamp");
    reveal_strlit("version");
    reveal_strlit("executable");
    reveal_strlit("phase");
    reveal_strlit("reason");
    reveal_strlit("location");
    lemma_literal_key("timestamp"@);
    lemma_literal_key("version"@);
    lemma_literal_key("executable"@);
    lemma_literal_key("phase"@);
    lemma_literal_key("reason"@);
    lemma_literal_key("location"@);
}

proof fn lemma_literal_key(k: Seq<char>)
    requires
        k.len() > 0,
        forall|i: int| 0 <= i < k.len() ==> 'a' <= #[trigger] k[i] && k[i] <= 'z',
    ensures
        !k.contains(':'),
        !k.contains('\n'),
        trim(k) == k,
{
    assert(!is_ws(k[0]));
    assert(trim_start(k) == k);
    assert(!is_ws(k.last()));
}


proof fn lemma_report_layout(
    version: Seq<char>,
    executable: Seq<char>,
    phase: Seq<char>,
    reason: Seq<char>,
    location: Seq<char>,
    timestamp_secs: u64,
)
    ensures
        crash_report_spec(version, executable, phase, reason, location, timestamp_secs) == crash_marker() + "\n"@ + (
        key_line("timestamp"@, decimal(timestamp_secs as nat)) + "\n"@ + (key_line("version"@, version) + "\n"@ + (
        key_line("executable"@, executable) + "\n"@ + (key_line("phase"@, phase) + "\n"@ + (key_line("reason"@, reason)
            + "\n"@ + (key_line("location"@, location) + "\n"@ + Seq::<char>::empty())))))),
{
    reveal_strlit("RINE-CRASH schema=1\ntimestamp: ");
    reveal_strlit("\nversion: ");
    reveal_strlit("\nexecutable: ");
    reveal_strlit("\nphase: ");
    reveal_strlit("\nreason: ");
    reveal_strlit("\nlocation: ");
    reveal_strlit("\n");
    reveal_strlit("RINE-CRASH schema=1");
    reveal_strlit("timestamp");
    reveal_strlit("version");
    reveal_strlit("executable");
    reveal_strlit("phase");
    reveal_strlit("reason");
    reveal_strlit("location");
    reveal_strlit(": ");
    assert(crash_report_spec(version, executable, phase, reason, location, timestamp_secs) =~= crash_marker() + "\n"@ + (
    key_line("timestamp"@, decimal(timestamp_secs as nat)) + "\n"@ + (key_line("version"@, version) + "\n"@ + (
    key_line("executable"@, executable) + "\n"@ + (key_line("phase"@, phase) + "\n"@ + (key_line("reason"@, reason)
        + "\n"@ + (key_line("location"@, location) + "\n"@ + Seq::<char>::empty())))))));
}

/// What the launcher writes on a crash is what the manager reads back:
/// parsing the text of a crash report gives its fields, for fields with no
/// line break and no surrounding whitespace.
pub proof fn law_crash_report_parses_back(
    version: Seq<char>,
    executable: Seq<char>,
    phase: Seq<char>,
    reason: Seq<char>,
    location: Seq<char>,
    timestamp_secs: u64,
)
    requires
        plain_field(version),
        plain_field(executable),
        plain_field(phase),
        plain_field(reason),
        plain_field(location),
    ensures
        parse_crash_spec(crash_report_spec(version, executable, phase, reason, location, timestamp_secs)) == Some(
            CrashFields { version, executable, phase, reason, location, timestamp: timestamp_secs },
        ),
{
    let dec = decimal(timestamp_secs as nat);
    lemma_decimal_parses(timestamp_secs as nat);
    lemma_literal_keys();
    lemma_plain_field(version);
    lemma_plain_field(executable);
    lemma_plain_field(phase);
    lemma_plain_field(reason);
    lemma_plain_field(location);
    let l1 = key_line("timestamp"@, dec);
    let l2 = key_line("version"@, version);
    let l3 = key_line("executable"@, executable);
    let l4 = key_line("phase"@, phase);
    let l5 = key_line("reason"@, reason);
    let l6 = key_line("location"@, location);
    lemma_key_line_shape("timestamp"@, dec);
    lemma_key_line_shape("version"@, version);
    lemma_key_line_shape("executable"@, executable);
    lemma_key_line_shape("phase"@, phase);
    lemma_key_line_shape("reason"@, reason);
    lemma_key_line_shape("location"@, location);
    let r6 = l6 + "\n"@ + Seq::<char>::empty();
    let r5 = l5 + "\n"@ + r6;
    let r4 = l4 + "\n"@ + r5;
    let r3 = l3 + "\n"@ + r4;
    let r2 = l2 + "\n"@ + r3;
    let r1 = l1 + "\n"@ + r2;
    let m = crash_marker();
    lemma_report_layout(version, executable, phase, reason, location, timestamp_secs);
    reveal_strlit("RINE-CRASH schema=1");
    assert(!m.contains('\n'));
    assert(strip_cr(m) == m);
    lemma_lines_line(m, r1);
    lemma_lines_line(l1, r2);
    lemma_lines_line(l2, r3);
    lemma_lines_line(l3, r4);
    lemma_lines_line(l4, r5);
    lemma_lines_line(l5, r6);
    lemma_lines_line(l6, Seq::<char>::empty());
    assert(lines(Seq::<char>::empty()) =~= Seq::<Seq<char>>::empty());
    let ls = lines(m + "\n"@ + r1);
    assert(ls =~= seq![m, l1, l2, l3, l4, l5, l6]);
    // The marker is the first line.
    assert(!is_ws(m[0]));
    assert(trim_start(m) == m);
    assert(!is_ws(m.last()));
    assert(trim(m) == m);
    assert(marker_index(ls) == Some(0int));
    assert(ls.subrange(0, ls.len() as int) =~= ls);
    let body = ls.drop_first();
    assert(body =~= seq![l1] + (seq![l2] + (seq![l3] + (seq![l4] + (seq![l5] + (seq![l6] + Seq::<Seq<char>>::empty()))))));
    let b6 = seq![l6] + Seq::<Seq<char>>::empty();
    let b5 = seq![l5] + b6;
    let b4 = seq![l4] + b5;
    let b3 = seq![l3] + b4;
    let b2 = seq![l2] + b3;
    let b1 = seq![l1] + b2;
    assert forall|q: Seq<char>| true implies field(b1, q) == if "timestamp"@ == q {
        Some(trim(" "@ + dec))
    } else {
        field(b2, q)
    } by {
        lemma_field_line("timestamp"@, dec, b2, q);
    }
    assert forall|q: Seq<char>| true implies field(b2, q) == if "version"@ == q {
        Some(version)
    } else {
        field(b3, q)
    } by {
        lemma_field_line("version"@, version, b3, q);
    }
    assert forall|q: Seq<char>| true implies field(b3, q) == if "executable"@ == q {
        Some(executable)
    } else {
        field(b4, q)
    } by {
        lemma_field_line("executable"@, executable, b4, q);
    }
    assert forall|q: Seq<char>| true implies field(b4, q) == if "phase"@ == q {
        Some(phase)
    } else {
        field(b5, q)
    } by {
        lemma_field_line("phase"@, phase, b5, q);
    }
    assert forall|q: Seq<char>| true implies field(b5, q) == if "reason"@ == q {
        Some(reason)
    } else {
        field(b6, q)
    } by {
        lemma_field_line("reason"@, reason, b6, q);
    }
    lemma_field_line("location"@, location, Seq::<Seq<char>>::empty(), "location"@);
    // The timestamp value is the decimal text.
    assert(!is_ws(dec[0]));
    let sd = " "@ + dec;
    reveal_strlit(" ");
    assert(sd.drop_first() =~= dec);
    assert(trim_start(dec) == dec);
    assert(trim_end(dec) == dec);
    assert(trim(" "@ + dec) == dec);
    assert(parse_u64_spec(dec) == Some(timestamp_secs));
    assert(field(body, "version"@) == Some(version));
    assert(field(body, "executable"@) == Some(executable));
    assert(field(body, "phase"@) == Some(phase));
    assert(field(body, "reason"@) == Some(reason));
    assert(field(body, "location"@) == Some(location));
    assert(field(body, "timestamp"@) == Some(dec));
}

/// Log text made of `pre`, each line ended by `\n`.
pub open spec fn log_text(pre: Seq<Seq<char>>) -> Seq<char>
    decreases pre.len(),
{
    if pre.len() == 0 { seq![] } else { pre[0] + "\n"@ + log_text(pre.drop_first()) }
}

/// A log line: no line break inside, and not the crash marker.
pub open spec fn log_line(x: Seq<char>) -> bool {
    !x.contains('\n') && trim(strip_cr(x)) != crash_marker()
}

proof fn lemma_marker_index_bound(ls: Seq<Seq<char>>)
    ensures
        marker_index(ls) matches Some(i) ==> 0 <= i < ls.len(),
    decreases ls.len(),
{
    if ls.len() > 0 {
        lemma_marker_index_bound(ls.drop_first());
    }
}

proof fn lemma_crash_after_line(x: Seq<char>, s: Seq<char>)
    requires
        log_line(x),
    ensures
        parse_crash_spec(x + "\n"@ + s) == parse_crash_spec(s),
{
    lemma_lines_line(x, s);
    let ls = lines(s);
    lemma_marker_index_bound(ls);
    let all = seq![strip_cr(x)] + ls;
    assert(all.drop_first() =~= ls);
    assert(trim(all[0]) != crash_marker());
    match marker_index(ls) {
        Some(i) => {
            assert(marker_index(all) == Some(i + 1));
            assert(all.subrange(i + 1, all.len() as int) =~= ls.subrange(i, ls.len() as int));
        },
        None => {
            assert(marker_index(all) is None);
        },
    }
}

/// Log lines before a crash record do not change what is read from it:
/// the record is found after any number of lines that are not its marker.
pub proof fn law_crash_after_log_lines(pre: Seq<Seq<char>>, s: Seq<char>)
    requires
        forall|k: int| 0 <= k < pre.len() ==> log_line(#[trigger] pre[k]),
    ensures
        parse_crash_spec(log_text(pre) + s) == parse_crash_spec(s),
    decreases pre.len(),
{
    if pre.len() == 0 {
        assert(log_text(pre) + s =~= s);
    } else {
        let rest = pre.drop_first();
        assert forall|k: int| 0 <= k < rest.len() implies log_line(#[trigger] rest[k]) by {
            assert(rest[k] == pre[k + 1]);
        }
        law_crash_after_log_lines(rest, s);
        assert(log_line(pre[0]));
        assert(log_text(pre) + s =~= pre[0] + "\n"@ + (log_text(rest) + s));
        lemma_crash_after_line(pre[0], log_text(rest) + s);
    }
}

/// The pieces of `p` between line breaks, the last one included (empty
/// when `p` ends with a break).
pub open spec fn segments(p: Seq<char>) -> Seq<Seq<char>>
    decreases p.len(),
{
    match find_char(p, '\n') {
        Some(f) => {
            proof {
                lemma_find_char(p, '\n');
            }
            seq![p.take(f)] + segments(p.skip(f + 1))
        },
        None => seq![p],
    }
}

proof fn lemma_segments(p: Seq<char>)
    ensures
        log_text(segments(p)) == p + "\n"@,
        forall|k: int| 0 <= k < segments(p).len() ==> !(#[trigger] segments(p)[k]).contains('\n'),
    decreases p.len(),
{
    reveal_strlit("\n");
    lemma_find_char(p, '\n');
    match find_char(p, '\n') {
        Some(f) => {
            let x = p.take(f);
            let rest = p.skip(f + 1);
            lemma_segments(rest);
            let segs = segments(p);
            assert(segs == seq![x] + segments(rest));
            assert(segs.drop_first() =~= segments(rest));
            assert(log_text(segs) == x + "\n"@ + log_text(segments(rest)));
            assert(x + "\n"@ + (rest + "\n"@) =~= p + "\n"@);
            assert(!x.contains('\n')) by {
                if x.contains('\n') {
                    let j = choose|j: int| 0 <= j < x.len() && x[j] == '\n';
                    assert(p[j] == '\n');
                }
            }
            assert forall|k: int| 0 <= k < segs.len() implies !(#[trigger] segs[k]).contains('\n') by {
                if k > 0 {
                    assert(segs[k] == segments(rest)[k - 1]);
                }
            }
        },
        None => {
            let segs = segments(p);
            assert(segs.drop_first() =~= Seq::<Seq<char>>::empty());
            assert(log_text(segs.drop_first()) == Seq::<char>::empty());
            assert(p + "\n"@ + Seq::<char>::empty() =~= p + "\n"@);
            assert(!p.contains('\n')) by {
                if p.contains('\n') {
                    let j = choose|j: int| 0 <= j < p.len() && p[j] == '\n';
                }
            }
        },
    }
}

/// The same for any text before the record: `p`, a line break, then the
/// record text parses as the record text alone, when no piece of `p`
/// between line breaks is (after trimming) the crash marker.
pub proof fn law_crash_after_text(p: Seq<char>, s: Seq<char>)
    requires
        forall|k: int| 0 <= k < segments(p).len() ==> trim(strip_cr(#[trigger] segments(p)[k])) != crash_marker(),
    ensures
        parse_crash_spec(p + "\n"@ + s) == parse_crash_spec(s),
{
    lemma_segments(p);
    let segs = segments(p);
    assert forall|k: int| 0 <= k < segs.len() implies log_line(#[trigger] segs[k]) by {}
    law_crash_after_log_lines(segs, s);
    assert(log_text(segs) + s =~= p + "\n"@ + s);
}

} // verus!
