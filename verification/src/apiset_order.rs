//! Order of the ApiSet routing table: its namespaces are lowercase, end
//! in a version digit and are strictly sorted, so no two rows share one.
use vstd::prelude::*;
use crate::apiset_table::{apiset_name, APISET_LEN};
use crate::text::{chars_lt, lemma_chars_lt_order, lower};

verus! {

/// `a` and `b` agree before position `k`, where `a` has the smaller
/// character.
pub open spec fn differ_at(a: Seq<char>, b: Seq<char>, k: int) -> bool {
    0 <= k < a.len() && k < b.len() && a.take(k) == b.take(k) && a[k] < b[k]
}

proof fn lemma_differ_at_lt(a: Seq<char>, b: Seq<char>, k: int)
    requires
        differ_at(a, b, k),
    ensures
        chars_lt(a, b),
    decreases k,
{
    if k > 0 {
        assert(a[0] == a.take(k)[0] && b[0] == b.take(k)[0]);
        assert(a.drop_first().take(k - 1) =~= a.take(k).drop_first());
        assert(b.drop_first().take(k - 1) =~= b.take(k).drop_first());
        lemma_differ_at_lt(a.drop_first(), b.drop_first(), k - 1);
    }
}

/// Namespace `i` is lowercase and ends in a digit.
pub open spec fn plain_name(i: int) -> bool {
    let n = apiset_name(i);
    &&& lower(n) == n
    &&& n.len() >= 4
    &&& '0' <= n.last() <= '9'
}

proof fn lemma_rows_0_25(i: int)
    requires
        0 <= i < 25,
    ensures
        plain_name(i),
        i + 1 < APISET_LEN ==> chars_lt(apiset_name(i), apiset_name(i + 1)),
{
    if i == 0 {
        reveal_strlit("api-ms-win-core-apiquery-l1-1-2");
        assert(lower(apiset_name(0)) =~= apiset_name(0));
        reveal_strlit("api-ms-win-core-apiquery-l2-1-1");
        assert(apiset_name(0).take(26) =~= apiset_name(1).take(26));
        lemma_differ_at_lt(apiset_name(0), apiset_name(1), 26);
    } else if i == 1 {
        reveal_strlit("api-ms-win-core-apiquery-l2-1-1");
        assert(lower(apiset_name(1)) =~= apiset_name(1));
        reveal_strlit("api-ms-win-core-appcompat-l1-1-1");
        assert(apiset_name(1).take(18) =~= apiset_name(2).take(18));
        lemma_differ_at_lt(apiset_name(1), apiset_name(2), 18);
    } else if i == 2 {
        reveal_strlit("api-ms-win-core-appcompat-l1-1-1");
        assert(lower(apiset_name(2)) =~= apiset_name(2));
        reveal_strlit("api-ms-win-core-appinit-l1-1-0");
        assert(apiset_name(2).take(19) =~= apiset_name(3).take(19));
        lemma_differ_at_lt(apiset_name(2), apiset_name(3), 19);
    } else if i == 3 {
        reveal_strlit("api-ms-win-core-appinit-l1-1-0");
        assert(lower(apiset_name(3)) =~= apiset_name(3));
        reveal_strlit("api-ms-win-core-atoms-l1-1-0");
        assert(apiset_name(3).take(17) =~= apiset_name(4).take(17));
        lemma_differ_at_lt(apiset_name(3), apiset_name(4), 17);
    } else if i == 4 {
        reveal_strlit("api-ms-win-core-atoms-l1-1-0");
        assert(lower(apiset_name(4)) =~= apiset_name(4));
        reveal_strlit("api-ms-win-core-backgroundtask-l1-1-0");
        assert(apiset_name(4).take(16) =~= apiset_name(5).take(16));
        lemma_differ_at_lt(apiset_name(4), apiset_name(5), 16);
    } else if i == 5 {
        reveal_strlit("api-ms-win-core-backgroundtask-l1-1-0");
        assert(lower(apiset_name(5)) =~= apiset_name(5));
        reveal_strlit("api-ms-win-core-calendar-l1-1-0");
        assert(apiset_name(5).take(16) =~= apiset_name(6).take(16));
        lemma_differ_at_lt(apiset_name(5), apiset_name(6), 16);
    } else if i == 6 {
        reveal_strlit("api-ms-win-core-calendar-l1-1-0");
        assert(lower(apiset_name(6)) =~= apiset_name(6));
        reveal_strlit("api-ms-win-core-comm-l1-1-2");
        assert(apiset_name(6).take(17) =~= apiset_name(7).take(17));
        lemma_differ_at_lt(apiset_name(6), apiset_name(7), 17);
    } else if i == 7 {
        reveal_strlit("api-ms-win-core-comm-l1-1-2");
        assert(lower(apiset_name(7)) =~= apiset_name(7));
        reveal_strlit("api-ms-win-core-commandlinetoargv-l1-1-0");
        assert(apiset_name(7).take(20) =~= apiset_name(8).take(20));
        lemma_differ_at_lt(apiset_name(7), apiset_name(8), 20);
    } else if i == 8 {
        reveal_strlit("api-ms-win-core-commandlinetoargv-l1-1-0");
        assert(lower(apiset_name(8)) =~= apiset_name(8));
        reveal_strlit("api-ms-win-core-console-ansi-l2-1-0");
        assert(apiset_name(8).take(18) =~= apiset_name(9).take(18));
        lemma_differ_at_lt(apiset_name(8), apiset_name(9), 18);
    } else if i == 9 {
        reveal_strlit("api-ms-win-core-console-ansi-l2-1-0");
        assert(lower(apiset_name(9)) =~= apiset_name(9));
        reveal_strlit("api-ms-win-core-console-internal-l1-1-0");
        assert(apiset_name(9).take(24) =~= apiset_name(10).take(24));
        lemma_differ_at_lt(apiset_name(9), apiset_name(10), 24);
    } else if i == 10 {
        reveal_strlit("api-ms-win-core-console-internal-l1-1-0");
        assert(lower(apiset_name(10)) =~= apiset_name(10));
        reveal_strlit("api-ms-win-core-console-l1-1-0");
        assert(apiset_name(10).take(24) =~= apiset_name(11).take(24));
        lemma_differ_at_lt(apiset_name(10), apiset_name(11), 24);
    } else if i == 11 {
        reveal_strlit("api-ms-win-core-console-l1-1-0");
        assert(lower(apiset_name(11)) =~= apiset_name(11));
        reveal_strlit("api-ms-win-core-console-l1-2-2");
        assert(apiset_name(11).take(27) =~= apiset_name(12).take(27));
        lemma_differ_at_lt(apiset_name(11), apiset_name(12), 27);
    } else if i == 12 {
        reveal_strlit("api-ms-win-core-console-l1-2-2");
        assert(lower(apiset_name(12)) =~= apiset_name(12));
        reveal_strlit("api-ms-win-core-console-l2-1-0");
        assert(apiset_name(12).take(25) =~= apiset_name(13).take(25));
        lemma_differ_at_lt(apiset_name(12), apiset_name(13), 25);
    } else if i == 13 {
        reveal_strlit("api-ms-win-core-console-l2-1-0");
        assert(lower(apiset_name(13)) =~= apiset_name(13));
        reveal_strlit("api-ms-win-core-console-l2-2-0");
        assert(apiset_name(13).take(27) =~= apiset_name(14).take(27));
        lemma_differ_at_lt(apiset_name(13), apiset_name(14), 27);
    } else if i == 14 {
        reveal_strlit("api-ms-win-core-console-l2-2-0");
        assert(lower(apiset_name(14)) =~= apiset_name(14));
        reveal_strlit("api-ms-win-core-console-l3-1-0");
        assert(apiset_name(14).take(25) =~= apiset_name(15).take(25));
        lemma_differ_at_lt(apiset_name(14), apiset_name(15), 25);
    } else if i == 15 {
        reveal_strlit("api-ms-win-core-console-l3-1-0");
        assert(lower(apiset_name(15)) =~= apiset_name(15));
        reveal_strlit("api-ms-win-core-console-l3-2-0");
        assert(apiset_name(15).take(27) =~= apiset_name(16).take(27));
        lemma_differ_at_lt(apiset_name(15), apiset_name(16), 27);
    } else if i == 16 {
        reveal_strlit("api-ms-win-core-console-l3-2-0");
        assert(lower(apiset_name(16)) =~= apiset_name(16));
        reveal_strlit("api-ms-win-core-crt-l1-1-0");
        assert(apiset_name(16).take(17) =~= apiset_name(17).take(17));
        lemma_differ_at_lt(apiset_name(16), apiset_name(17), 17);
    } else if i == 17 {
        reveal_strlit("api-ms-win-core-crt-l1-1-0");
        assert(lower(apiset_name(17)) =~= apiset_name(17));
        reveal_strlit("api-ms-win-core-crt-l2-1-0");
        assert(apiset_name(17).take(21) =~= apiset_name(18).take(21));
        lemma_differ_at_lt(apiset_name(17), apiset_name(18), 21);
    } else if i == 18 {
        reveal_strlit("api-ms-win-core-crt-l2-1-0");
        assert(lower(apiset_name(18)) =~= apiset_name(18));
        reveal_strlit("api-ms-win-core-datetime-l1-1-2");
        assert(apiset_name(18).take(16) =~= apiset_name(19).take(16));
        lemma_differ_at_lt(apiset_name(18), apiset_name(19), 16);
    } else if i == 19 {
        reveal_strlit("api-ms-win-core-datetime-l1-1-2");
        assert(lower(apiset_name(19)) =~= apiset_name(19));
        reveal_strlit("api-ms-win-core-debug-l1-1-2");
        assert(apiset_name(19).take(17) =~= apiset_name(20).take(17));
        lemma_differ_at_lt(apiset_name(19), apiset_name(20), 17);
    } else if i == 20 {
        reveal_strlit("api-ms-win-core-debug-l1-1-2");
        assert(lower(apiset_name(20)) =~= apiset_name(20));
        reveal_strlit("api-ms-win-core-delayload-l1-1-1");
        assert(apiset_name(20).take(18) =~= apiset_name(21).take(18));
        lemma_differ_at_lt(apiset_name(20), apiset_name(21), 18);
    } else if i == 21 {
        reveal_strlit("api-ms-win-core-delayload-l1-1-1");
        assert(lower(apiset_name(21)) =~= apiset_name(21));
        reveal_strlit("api-ms-win-core-enclave-l1-1-1");
        assert(apiset_name(21).take(16) =~= apiset_name(22).take(16));
        lemma_differ_at_lt(apiset_name(21), apiset_name(22), 16);
    } else if i == 22 {
        reveal_strlit("api-ms-win-core-enclave-l1-1-1");
        assert(lower(apiset_name(22)) =~= apiset_name(22));
        reveal_strlit("api-ms-win-core-errorhandling-l1-1-3");
        assert(apiset_name(22).take(17) =~= apiset_name(23).take(17));
        lemma_differ_at_lt(apiset_name(22), apiset_name(23), 17);
    } else if i == 23 {
        reveal_strlit("api-ms-win-core-errorhandling-l1-1-3");
        assert(lower(apiset_name(23)) =~= apiset_name(23));
        reveal_strlit("api-ms-win-core-featuretoggles-l1-1-0");
        assert(apiset_name(23).take(16) =~= apiset_name(24).take(16));
        lemma_differ_at_lt(apiset_name(23), apiset_name(24), 16);
    } else if i == 24 {
        reveal_strlit("api-ms-win-core-featuretoggles-l1-1-0");
        assert(lower(apiset_name(24)) =~= apiset_name(24));
        reveal_strlit("api-ms-win-core-fibers-l1-1-2");
        assert(apiset_name(24).take(17) =~= apiset_name(25).take(17));
        lemma_differ_at_lt(apiset_name(24), apiset_name(25), 17);
    }
}

proof fn lemma_rows_25_50(i: int)
    requires
        25 <= i < 50,
    ensures
        plain_name(i),
        i + 1 < APISET_LEN ==> chars_lt(apiset_name(i), apiset_name(i + 1)),
{
    if i == 25 {
        reveal_strlit("api-ms-win-core-fibers-l1-1-2");
        assert(lower(apiset_name(25)) =~= apiset_name(25));
        reveal_strlit("api-ms-win-core-fibers-l2-1-1");
        assert(apiset_name(25).take(24) =~= apiset_name(26).take(24));
        lemma_differ_at_lt(apiset_name(25), apiset_name(26), 24);
    } else if i == 26 {
        reveal_strlit("api-ms-win-core-fibers-l2-1-1");
        assert(lower(apiset_name(26)) =~= apiset_name(26));
        reveal_strlit("api-ms-win-core-file-ansi-l1-1-0");
        assert(apiset_name(26).take(18) =~= apiset_name(27).take(18));
        lemma_differ_at_lt(apiset_name(26), apiset_name(27), 18);
    } else if i == 27 {
        reveal_strlit("api-ms-win-core-file-ansi-l1-1-0");
        assert(lower(apiset_name(27)) =~= apiset_name(27));
        reveal_strlit("api-ms-win-core-file-ansi-l2-1-0");
        assert(apiset_name(27).take(27) =~= apiset_name(28).take(27));
        lemma_differ_at_lt(apiset_name(27), apiset_name(28), 27);
    } else if i == 28 {
        reveal_strlit("api-ms-win-core-file-ansi-l2-1-0");
        assert(lower(apiset_name(28)) =~= apiset_name(28));
        reveal_strlit("api-ms-win-core-file-fromapp-l1-1-0");
        assert(apiset_name(28).take(21) =~= apiset_name(29).take(21));
        lemma_differ_at_lt(apiset_name(28), apiset_name(29), 21);
    } else if i == 29 {
        reveal_strlit("api-ms-win-core-file-fromapp-l1-1-0");
        assert(lower(apiset_name(29)) =~= apiset_name(29));
        reveal_strlit("api-ms-win-core-file-l1-1-1");
        assert(apiset_name(29).take(21) =~= apiset_name(30).take(21));
        lemma_differ_at_lt(apiset_name(29), apiset_name(30), 21);
    } else if i == 30 {
        reveal_strlit("api-ms-win-core-file-l1-1-1");
        assert(lower(apiset_name(30)) =~= apiset_name(30));
        reveal_strlit("api-ms-win-core-file-l1-2-5");
        assert(apiset_name(30).take(24) =~= apiset_name(31).take(24));
        lemma_differ_at_lt(apiset_name(30), apiset_name(31), 24);
    } else if i == 31 {
        reveal_strlit("api-ms-win-core-file-l1-2-5");
        assert(lower(apiset_name(31)) =~= apiset_name(31));
        reveal_strlit("api-ms-win-core-file-l2-1-4");
        assert(apiset_name(31).take(22) =~= apiset_name(32).take(22));
        lemma_differ_at_lt(apiset_name(31), apiset_name(32), 22);
    } else if i == 32 {
        reveal_strlit("api-ms-win-core-file-l2-1-4");
        assert(lower(apiset_name(32)) =~= apiset_name(32));
        reveal_strlit("api-ms-win-core-firmware-l1-1-0");
        assert(apiset_name(32).take(18) =~= apiset_name(33).take(18));
        lemma_differ_at_lt(apiset_name(32), apiset_name(33), 18);
    } else if i == 33 {
        reveal_strlit("api-ms-win-core-firmware-l1-1-0");
        assert(lower(apiset_name(33)) =~= apiset_name(33));
        reveal_strlit("api-ms-win-core-guard-l1-1-0");
        assert(apiset_name(33).take(16) =~= apiset_name(34).take(16));
        lemma_differ_at_lt(apiset_name(33), apiset_name(34), 16);
    } else if i == 34 {
        reveal_strlit("api-ms-win-core-guard-l1-1-0");
        assert(lower(apiset_name(34)) =~= apiset_name(34));
        reveal_strlit("api-ms-win-core-handle-l1-1-0");
        assert(apiset_name(34).take(16) =~= apiset_name(35).take(16));
        lemma_differ_at_lt(apiset_name(34), apiset_name(35), 16);
    } else if i == 35 {
        reveal_strlit("api-ms-win-core-handle-l1-1-0");
        assert(lower(apiset_name(35)) =~= apiset_name(35));
        reveal_strlit("api-ms-win-core-heap-l1-1-0");
        assert(apiset_name(35).take(17) =~= apiset_name(36).take(17));
        lemma_differ_at_lt(apiset_name(35), apiset_name(36), 17);
    } else if i == 36 {
        reveal_strlit("api-ms-win-core-heap-l1-1-0");
        assert(lower(apiset_name(36)) =~= apiset_name(36));
        reveal_strlit("api-ms-win-core-heap-l1-2-0");
        assert(apiset_name(36).take(24) =~= apiset_name(37).take(24));
        lemma_differ_at_lt(apiset_name(36), apiset_name(37), 24);
    } else if i == 37 {
        reveal_strlit("api-ms-win-core-heap-l1-2-0");
        assert(lower(apiset_name(37)) =~= apiset_name(37));
        reveal_strlit("api-ms-win-core-heap-l2-1-0");
        assert(apiset_name(37).take(22) =~= apiset_name(38).take(22));
        lemma_differ_at_lt(apiset_name(37), apiset_name(38), 22);
    } else if i == 38 {
        reveal_strlit("api-ms-win-core-heap-l2-1-0");
        assert(lower(apiset_name(38)) =~= apiset_name(38));
        reveal_strlit("api-ms-win-core-heap-obsolete-l1-1-0");
        assert(apiset_name(38).take(21) =~= apiset_name(39).take(21));
        lemma_differ_at_lt(apiset_name(38), apiset_name(39), 21);
    } else if i == 39 {
        reveal_strlit("api-ms-win-core-heap-obsolete-l1-1-0");
        assert(lower(apiset_name(39)) =~= apiset_name(39));
        reveal_strlit("api-ms-win-core-interlocked-l1-1-1");
        assert(apiset_name(39).take(16) =~= apiset_name(40).take(16));
        lemma_differ_at_lt(apiset_name(39), apiset_name(40), 16);
    } else if i == 40 {
        reveal_strlit("api-ms-win-core-interlocked-l1-1-1");
        assert(lower(apiset_name(40)) =~= apiset_name(40));
        reveal_strlit("api-ms-win-core-interlocked-l1-2-0");
        assert(apiset_name(40).take(31) =~= apiset_name(41).take(31));
        lemma_differ_at_lt(apiset_name(40), apiset_name(41), 31);
    } else if i == 41 {
        reveal_strlit("api-ms-win-core-interlocked-l1-2-0");
        assert(lower(apiset_name(41)) =~= apiset_name(41));
        reveal_strlit("api-ms-win-core-io-l1-1-1");
        assert(apiset_name(41).take(17) =~= apiset_name(42).take(17));
        lemma_differ_at_lt(apiset_name(41), apiset_name(42), 17);
    } else if i == 42 {
        reveal_strlit("api-ms-win-core-io-l1-1-1");
        assert(lower(apiset_name(42)) =~= apiset_name(42));
        reveal_strlit("api-ms-win-core-ioring-l1-1-2");
        assert(apiset_name(42).take(18) =~= apiset_name(43).take(18));
        lemma_differ_at_lt(apiset_name(42), apiset_name(43), 18);
    } else if i == 43 {
        reveal_strlit("api-ms-win-core-ioring-l1-1-2");
        assert(lower(apiset_name(43)) =~= apiset_name(43));
        reveal_strlit("api-ms-win-core-job-l1-1-0");
        assert(apiset_name(43).take(16) =~= apiset_name(44).take(16));
        lemma_differ_at_lt(apiset_name(43), apiset_name(44), 16);
    } else if i == 44 {
        reveal_strlit("api-ms-win-core-job-l1-1-0");
        assert(lower(apiset_name(44)) =~= apiset_name(44));
        reveal_strlit("api-ms-win-core-job-l2-1-1");
        assert(apiset_name(44).take(21) =~= apiset_name(45).take(21));
        lemma_differ_at_lt(apiset_name(44), apiset_name(45), 21);
    } else if i == 45 {
        reveal_strlit("api-ms-win-core-job-l2-1-1");
        assert(lower(apiset_name(45)) =~= apiset_name(45));
        reveal_strlit("api-ms-win-core-kernel32-legacy-ansi-l1-1-0");
        assert(apiset_name(45).take(16) =~= apiset_name(46).take(16));
        lemma_differ_at_lt(apiset_name(45), apiset_name(46), 16);
    } else if i == 46 {
        reveal_strlit("api-ms-win-core-kernel32-legacy-ansi-l1-1-0");
        assert(lower(apiset_name(46)) =~= apiset_name(46));
        reveal_strlit("api-ms-win-core-kernel32-legacy-l1-1-6");
        assert(apiset_name(46).take(32) =~= apiset_name(47).take(32));
        lemma_differ_at_lt(apiset_name(46), apiset_name(47), 32);
    } else if i == 47 {
        reveal_strlit("api-ms-win-core-kernel32-legacy-l1-1-6");
        assert(lower(apiset_name(47)) =~= apiset_name(47));
        reveal_strlit("api-ms-win-core-kernel32-private-l1-1-2");
        assert(apiset_name(47).take(25) =~= apiset_name(48).take(25));
        lemma_differ_at_lt(apiset_name(47), apiset_name(48), 25);
    } else if i == 48 {
        reveal_strlit("api-ms-win-core-kernel32-private-l1-1-2");
        assert(lower(apiset_name(48)) =~= apiset_name(48));
        reveal_strlit("api-ms-win-core-kernel32-private-l1-2-0");
        assert(apiset_name(48).take(36) =~= apiset_name(49).take(36));
        lemma_differ_at_lt(apiset_name(48), apiset_name(49), 36);
    } else if i == 49 {
        reveal_strlit("api-ms-win-core-kernel32-private-l1-2-0");
        assert(lower(apiset_name(49)) =~= apiset_name(49));
        reveal_strlit("api-ms-win-core-largeinteger-l1-1-0");
        assert(apiset_name(49).take(16) =~= apiset_name(50).take(16));
        lemma_differ_at_lt(apiset_name(49), apiset_name(50), 16);
    }
}

proof fn lemma_rows_50_75(i: int)
    requires
        50 <= i < 75,
    ensures
        plain_name(i),
        i + 1 < APISET_LEN ==> chars_lt(apiset_name(i), apiset_name(i + 1)),
{
    if i == 50 {
        reveal_strlit("api-ms-win-core-largeinteger-l1-1-0");
        assert(lower(apiset_name(50)) =~= apiset_name(50));
        reveal_strlit("api-ms-win-core-libraryloader-l1-1-1");
        assert(apiset_name(50).take(17) =~= apiset_name(51).take(17));
        lemma_differ_at_lt(apiset_name(50), apiset_name(51), 17);
    } else if i == 51 {
        reveal_strlit("api-ms-win-core-libraryloader-l1-1-1");
        assert(lower(apiset_name(51)) =~= apiset_name(51));
        reveal_strlit("api-ms-win-core-libraryloader-l1-2-3");
        assert(apiset_name(51).take(33) =~= apiset_name(52).take(33));
        lemma_differ_at_lt(apiset_name(51), apiset_name(52), 33);
    } else if i == 52 {
        reveal_strlit("api-ms-win-core-libraryloader-l1-2-3");
        assert(lower(apiset_name(52)) =~= apiset_name(52));
        reveal_strlit("api-ms-win-core-libraryloader-l2-1-0");
        assert(apiset_name(52).take(31) =~= apiset_name(53).take(31));
        lemma_differ_at_lt(apiset_name(52), apiset_name(53), 31);
    } else if i == 53 {
        reveal_strlit("api-ms-win-core-libraryloader-l2-1-0");
        assert(lower(apiset_name(53)) =~= apiset_name(53));
        reveal_strlit("api-ms-win-core-libraryloader-private-l1-1-0");
        assert(apiset_name(53).take(30) =~= apiset_name(54).take(30));
        lemma_differ_at_lt(apiset_name(53), apiset_name(54), 30);
    } else if i == 54 {
        reveal_strlit("api-ms-win-core-libraryloader-private-l1-1-0");
        assert(lower(apiset_name(54)) =~= apiset_name(54));
        reveal_strlit("api-ms-win-core-localization-ansi-l1-1-0");
        assert(apiset_name(54).take(17) =~= apiset_name(55).take(17));
        lemma_differ_at_lt(apiset_name(54), apiset_name(55), 17);
    } else if i == 55 {
        reveal_strlit("api-ms-win-core-localization-ansi-l1-1-0");
        assert(lower(apiset_name(55)) =~= apiset_name(55));
        reveal_strlit("api-ms-win-core-localization-l1-1-0");
        assert(apiset_name(55).take(29) =~= apiset_name(56).take(29));
        lemma_differ_at_lt(apiset_name(55), apiset_name(56), 29);
    } else if i == 56 {
        reveal_strlit("api-ms-win-core-localization-l1-1-0");
        assert(lower(apiset_name(56)) =~= apiset_name(56));
        reveal_strlit("api-ms-win-core-localization-l1-2-4");
        assert(apiset_name(56).take(32) =~= apiset_name(57).take(32));
        lemma_differ_at_lt(apiset_name(56), apiset_name(57), 32);
    } else if i == 57 {
        reveal_strlit("api-ms-win-core-localization-l1-2-4");
        assert(lower(apiset_name(57)) =~= apiset_name(57));
        reveal_strlit("api-ms-win-core-localization-l2-1-0");
        assert(apiset_name(57).take(30) =~= apiset_name(58).take(30));
        lemma_differ_at_lt(apiset_name(57), apiset_name(58), 30);
    } else if i == 58 {
        reveal_strlit("api-ms-win-core-localization-l2-1-0");
        assert(lower(apiset_name(58)) =~= apiset_name(58));
        reveal_strlit("api-ms-win-core-localization-obsolete-l1-1-0");
        assert(apiset_name(58).take(29) =~= apiset_name(59).take(29));
        lemma_differ_at_lt(apiset_name(58), apiset_name(59), 29);
    } else if i == 59 {
        reveal_strlit("api-ms-win-core-localization-obsolete-l1-1-0");
        assert(lower(apiset_name(59)) =~= apiset_name(59));
        reveal_strlit("api-ms-win-core-localization-obsolete-l1-2-0");
        assert(apiset_name(59).take(41) =~= apiset_name(60).take(41));
        lemma_differ_at_lt(apiset_name(59), apiset_name(60), 41);
    } else if i == 60 {
        reveal_strlit("api-ms-win-core-localization-obsolete-l1-2-0");
        assert(lower(apiset_name(60)) =~= apiset_name(60));
        reveal_strlit("api-ms-win-core-localization-obsolete-l1-3-0");
        assert(apiset_name(60).take(41) =~= apiset_name(61).take(41));
        lemma_differ_at_lt(apiset_name(60), apiset_name(61), 41);
    } else if i == 61 {
        reveal_strlit("api-ms-win-core-localization-obsolete-l1-3-0");
        assert(lower(apiset_name(61)) =~= apiset_name(61));
        reveal_strlit("api-ms-win-core-localization-private-l1-1-0");
        assert(apiset_name(61).take(29) =~= apiset_name(62).take(29));
        lemma_differ_at_lt(apiset_name(61), apiset_name(62), 29);
    } else if i == 62 {
        reveal_strlit("api-ms-win-core-localization-private-l1-1-0");
        assert(lower(apiset_name(62)) =~= apiset_name(62));
        reveal_strlit("api-ms-win-core-localregistry-l1-1-0");
        assert(apiset_name(62).take(21) =~= apiset_name(63).take(21));
        lemma_differ_at_lt(apiset_name(62), apiset_name(63), 21);
    } else if i == 63 {
        reveal_strlit("api-ms-win-core-localregistry-l1-1-0");
        assert(lower(apiset_name(63)) =~= apiset_name(63));
        reveal_strlit("api-ms-win-core-memory-l1-1-9");
        assert(apiset_name(63).take(16) =~= apiset_name(64).take(16));
        lemma_differ_at_lt(apiset_name(63), apiset_name(64), 16);
    } else if i == 64 {
        reveal_strlit("api-ms-win-core-memory-l1-1-9");
        assert(lower(apiset_name(64)) =~= apiset_name(64));
        reveal_strlit("api-ms-win-core-misc-l1-1-0");
        assert(apiset_name(64).take(17) =~= apiset_name(65).take(17));
        lemma_differ_at_lt(apiset_name(64), apiset_name(65), 17);
    } else if i == 65 {
        reveal_strlit("api-ms-win-core-misc-l1-1-0");
        assert(lower(apiset_name(65)) =~= apiset_name(65));
        reveal_strlit("api-ms-win-core-namedpipe-ansi-l1-1-1");
        assert(apiset_name(65).take(16) =~= apiset_name(66).take(16));
        lemma_differ_at_lt(apiset_name(65), apiset_name(66), 16);
    } else if i == 66 {
        reveal_strlit("api-ms-win-core-namedpipe-ansi-l1-1-1");
        assert(lower(apiset_name(66)) =~= apiset_name(66));
        reveal_strlit("api-ms-win-core-namedpipe-l1-1-0");
        assert(apiset_name(66).take(26) =~= apiset_name(67).take(26));
        lemma_differ_at_lt(apiset_name(66), apiset_name(67), 26);
    } else if i == 67 {
        reveal_strlit("api-ms-win-core-namedpipe-l1-1-0");
        assert(lower(apiset_name(67)) =~= apiset_name(67));
        reveal_strlit("api-ms-win-core-namedpipe-l1-2-2");
        assert(apiset_name(67).take(29) =~= apiset_name(68).take(29));
        lemma_differ_at_lt(apiset_name(67), apiset_name(68), 29);
    } else if i == 68 {
        reveal_strlit("api-ms-win-core-namedpipe-l1-2-2");
        assert(lower(apiset_name(68)) =~= apiset_name(68));
        reveal_strlit("api-ms-win-core-namespace-ansi-l1-1-0");
        assert(apiset_name(68).take(20) =~= apiset_name(69).take(20));
        lemma_differ_at_lt(apiset_name(68), apiset_name(69), 20);
    } else if i == 69 {
        reveal_strlit("api-ms-win-core-namespace-ansi-l1-1-0");
        assert(lower(apiset_name(69)) =~= apiset_name(69));
        reveal_strlit("api-ms-win-core-namespace-l1-1-0");
        assert(apiset_name(69).take(26) =~= apiset_name(70).take(26));
        lemma_differ_at_lt(apiset_name(69), apiset_name(70), 26);
    } else if i == 70 {
        reveal_strlit("api-ms-win-core-namespace-l1-1-0");
        assert(lower(apiset_name(70)) =~= apiset_name(70));
        reveal_strlit("api-ms-win-core-normalization-l1-1-0");
        assert(apiset_name(70).take(17) =~= apiset_name(71).take(17));
        lemma_differ_at_lt(apiset_name(70), apiset_name(71), 17);
    } else if i == 71 {
        reveal_strlit("api-ms-win-core-normalization-l1-1-0");
        assert(lower(apiset_name(71)) =~= apiset_name(71));
        reveal_strlit("api-ms-win-core-path-l1-1-0");
        assert(apiset_name(71).take(16) =~= apiset_name(72).take(16));
        lemma_differ_at_lt(apiset_name(71), apiset_name(72), 16);
    } else if i == 72 {
        reveal_strlit("api-ms-win-core-path-l1-1-0");
        assert(lower(apiset_name(72)) =~= apiset_name(72));
        reveal_strlit("api-ms-win-core-pcw-l1-1-0");
        assert(apiset_name(72).take(17) =~= apiset_name(73).take(17));
        lemma_differ_at_lt(apiset_name(72), apiset_name(73), 17);
    } else if i == 73 {
        reveal_strlit("api-ms-win-core-pcw-l1-1-0");
        assert(lower(apiset_name(73)) =~= apiset_name(73));
        reveal_strlit("api-ms-win-core-perfcounters-l1-1-0");
        assert(apiset_name(73).take(17) =~= apiset_name(74).take(17));
        lemma_differ_at_lt(apiset_name(73), apiset_name(74), 17);
    } else if i == 74 {
        reveal_strlit("api-ms-win-core-perfcounters-l1-1-0");
        assert(lower(apiset_name(74)) =~= apiset_name(74));
        reveal_strlit("api-ms-win-core-perfcounters-l1-2-0");
        assert(apiset_name(74).take(32) =~= apiset_name(75).take(32));
        lemma_differ_at_lt(apiset_name(74), apiset_name(75), 32);
    }
}

proof fn lemma_rows_75_100(i: int)
    requires
        75 <= i < 100,
    ensures
        plain_name(i),
        i + 1 < APISET_LEN ==> chars_lt(apiset_name(i), apiset_name(i + 1)),
{
    if i == 75 {
        reveal_strlit("api-ms-win-core-perfcounters-l1-2-0");
        assert(lower(apiset_name(75)) =~= apiset_name(75));
        reveal_strlit("api-ms-win-core-privateprofile-l1-1-1");
        assert(apiset_name(75).take(17) =~= apiset_name(76).take(17));
        lemma_differ_at_lt(apiset_name(75), apiset_name(76), 17);
    } else if i == 76 {
        reveal_strlit("api-ms-win-core-privateprofile-l1-1-1");
        assert(lower(apiset_name(76)) =~= apiset_name(76));
        reveal_strlit("api-ms-win-core-processenvironment-ansi-l1-1-0");
        assert(apiset_name(76).take(18) =~= apiset_name(77).take(18));
        lemma_differ_at_lt(apiset_name(76), apiset_name(77), 18);
    } else if i == 77 {
        reveal_strlit("api-ms-win-core-processenvironment-ansi-l1-1-0");
        assert(lower(apiset_name(77)) =~= apiset_name(77));
        reveal_strlit("api-ms-win-core-processenvironment-l1-1-1");
        assert(apiset_name(77).take(35) =~= apiset_name(78).take(35));
        lemma_differ_at_lt(apiset_name(77), apiset_name(78), 35);
    } else if i == 78 {
        reveal_strlit("api-ms-win-core-processenvironment-l1-1-1");
        assert(lower(apiset_name(78)) =~= apiset_name(78));
        reveal_strlit("api-ms-win-core-processenvironment-l1-2-0");
        assert(apiset_name(78).take(38) =~= apiset_name(79).take(38));
        lemma_differ_at_lt(apiset_name(78), apiset_name(79), 38);
    } else if i == 79 {
        reveal_strlit("api-ms-win-core-processenvironment-l1-2-0");
        assert(lower(apiset_name(79)) =~= apiset_name(79));
        reveal_strlit("api-ms-win-core-processsecurity-l1-1-0");
        assert(apiset_name(79).take(23) =~= apiset_name(80).take(23));
        lemma_differ_at_lt(apiset_name(79), apiset_name(80), 23);
    } else if i == 80 {
        reveal_strlit("api-ms-win-core-processsecurity-l1-1-0");
        assert(lower(apiset_name(80)) =~= apiset_name(80));
        reveal_strlit("api-ms-win-core-processsnapshot-l1-1-0");
        assert(apiset_name(80).take(24) =~= apiset_name(81).take(24));
        lemma_differ_at_lt(apiset_name(80), apiset_name(81), 24);
    } else if i == 81 {
        reveal_strlit("api-ms-win-core-processsnapshot-l1-1-0");
        assert(lower(apiset_name(81)) =~= apiset_name(81));
        reveal_strlit("api-ms-win-core-processthreads-l1-1-8");
        assert(apiset_name(81).take(23) =~= apiset_name(82).take(23));
        lemma_differ_at_lt(apiset_name(81), apiset_name(82), 23);
    } else if i == 82 {
        reveal_strlit("api-ms-win-core-processthreads-l1-1-8");
        assert(lower(apiset_name(82)) =~= apiset_name(82));
        reveal_strlit("api-ms-win-core-processtopology-l1-1-0");
        assert(apiset_name(82).take(24) =~= apiset_name(83).take(24));
        lemma_differ_at_lt(apiset_name(82), apiset_name(83), 24);
    } else if i == 83 {
        reveal_strlit("api-ms-win-core-processtopology-l1-1-0");
        assert(lower(apiset_name(83)) =~= apiset_name(83));
        reveal_strlit("api-ms-win-core-processtopology-l1-2-0");
        assert(apiset_name(83).take(35) =~= apiset_name(84).take(35));
        lemma_differ_at_lt(apiset_name(83), apiset_name(84), 35);
    } else if i == 84 {
        reveal_strlit("api-ms-win-core-processtopology-l1-2-0");
        assert(lower(apiset_name(84)) =~= apiset_name(84));
        reveal_strlit("api-ms-win-core-processtopology-obsolete-l1-1-1");
        assert(apiset_name(84).take(32) =~= apiset_name(85).take(32));
        lemma_differ_at_lt(apiset_name(84), apiset_name(85), 32);
    } else if i == 85 {
        reveal_strlit("api-ms-win-core-processtopology-obsolete-l1-1-1");
        assert(lower(apiset_name(85)) =~= apiset_name(85));
        reveal_strlit("api-ms-win-core-processtopology-private-l1-1-0");
        assert(apiset_name(85).take(32) =~= apiset_name(86).take(32));
        lemma_differ_at_lt(apiset_name(85), apiset_name(86), 32);
    } else if i == 86 {
        reveal_strlit("api-ms-win-core-processtopology-private-l1-1-0");
        assert(lower(apiset_name(86)) =~= apiset_name(86));
        reveal_strlit("api-ms-win-core-profile-l1-1-0");
        assert(apiset_name(86).take(19) =~= apiset_name(87).take(19));
        lemma_differ_at_lt(apiset_name(86), apiset_name(87), 19);
    } else if i == 87 {
        reveal_strlit("api-ms-win-core-profile-l1-1-0");
        assert(lower(apiset_name(87)) =~= apiset_name(87));
        reveal_strlit("api-ms-win-core-psapi-ansi-l1-1-0");
        assert(apiset_name(87).take(17) =~= apiset_name(88).take(17));
        lemma_differ_at_lt(apiset_name(87), apiset_name(88), 17);
    } else if i == 88 {
        reveal_strlit("api-ms-win-core-psapi-ansi-l1-1-0");
        assert(lower(apiset_name(88)) =~= apiset_name(88));
        reveal_strlit("api-ms-win-core-psapi-l1-1-0");
        assert(apiset_name(88).take(22) =~= apiset_name(89).take(22));
        lemma_differ_at_lt(apiset_name(88), apiset_name(89), 22);
    } else if i == 89 {
        reveal_strlit("api-ms-win-core-psapi-l1-1-0");
        assert(lower(apiset_name(89)) =~= apiset_name(89));
        reveal_strlit("api-ms-win-core-psapi-obsolete-l1-1-0");
        assert(apiset_name(89).take(22) =~= apiset_name(90).take(22));
        lemma_differ_at_lt(apiset_name(89), apiset_name(90), 22);
    } else if i == 90 {
        reveal_strlit("api-ms-win-core-psapi-obsolete-l1-1-0");
        assert(lower(apiset_name(90)) =~= apiset_name(90));
        reveal_strlit("api-ms-win-core-psapiansi-l1-1-0");
        assert(apiset_name(90).take(21) =~= apiset_name(91).take(21));
        lemma_differ_at_lt(apiset_name(90), apiset_name(91), 21);
    } else if i == 91 {
        reveal_strlit("api-ms-win-core-psapiansi-l1-1-0");
        assert(lower(apiset_name(91)) =~= apiset_name(91));
        reveal_strlit("api-ms-win-core-psm-key-l1-1-3");
        assert(apiset_name(91).take(18) =~= apiset_name(92).take(18));
        lemma_differ_at_lt(apiset_name(91), apiset_name(92), 18);
    } else if i == 92 {
        reveal_strlit("api-ms-win-core-psm-key-l1-1-3");
        assert(lower(apiset_name(92)) =~= apiset_name(92));
        reveal_strlit("api-ms-win-core-quirks-l1-1-1");
        assert(apiset_name(92).take(16) =~= apiset_name(93).take(16));
        lemma_differ_at_lt(apiset_name(92), apiset_name(93), 16);
    } else if i == 93 {
        reveal_strlit("api-ms-win-core-quirks-l1-1-1");
        assert(lower(apiset_name(93)) =~= apiset_name(93));
        reveal_strlit("api-ms-win-core-realtime-l1-1-2");
        assert(apiset_name(93).take(16) =~= apiset_name(94).take(16));
        lemma_differ_at_lt(apiset_name(93), apiset_name(94), 16);
    } else if i == 94 {
        reveal_strlit("api-ms-win-core-realtime-l1-1-2");
        assert(lower(apiset_name(94)) =~= apiset_name(94));
        reveal_strlit("api-ms-win-core-registry-l1-1-2");
        assert(apiset_name(94).take(18) =~= apiset_name(95).take(18));
        lemma_differ_at_lt(apiset_name(94), apiset_name(95), 18);
    } else if i == 95 {
        reveal_strlit("api-ms-win-core-registry-l1-1-2");
        assert(lower(apiset_name(95)) =~= apiset_name(95));
        reveal_strlit("api-ms-win-core-registryuserspecific-l1-1-0");
        assert(apiset_name(95).take(24) =~= apiset_name(96).take(24));
        lemma_differ_at_lt(apiset_name(95), apiset_name(96), 24);
    } else if i == 96 {
        reveal_strlit("api-ms-win-core-registryuserspecific-l1-1-0");
        assert(lower(apiset_name(96)) =~= apiset_name(96));
        reveal_strlit("api-ms-win-core-rtlsupport-l1-1-1");
        assert(apiset_name(96).take(17) =~= apiset_name(97).take(17));
        lemma_differ_at_lt(apiset_name(96), apiset_name(97), 17);
    } else if i == 97 {
        reveal_strlit("api-ms-win-core-rtlsupport-l1-1-1");
        assert(lower(apiset_name(97)) =~= apiset_name(97));
        reveal_strlit("api-ms-win-core-rtlsupport-l1-2-2");
        assert(apiset_name(97).take(30) =~= apiset_name(98).take(30));
        lemma_differ_at_lt(apiset_name(97), apiset_name(98), 30);
    } else if i == 98 {
        reveal_strlit("api-ms-win-core-rtlsupport-l1-2-2");
        assert(lower(apiset_name(98)) =~= apiset_name(98));
        reveal_strlit("api-ms-win-core-shlwapi-legacy-l1-1-0");
        assert(apiset_name(98).take(16) =~= apiset_name(99).take(16));
        lemma_differ_at_lt(apiset_name(98), apiset_name(99), 16);
    } else if i == 99 {
        reveal_strlit("api-ms-win-core-shlwapi-legacy-l1-1-0");
        assert(lower(apiset_name(99)) =~= apiset_name(99));
        reveal_strlit("api-ms-win-core-shlwapi-obsolete-l1-1-0");
        assert(apiset_name(99).take(24) =~= apiset_name(100).take(24));
        lemma_differ_at_lt(apiset_name(99), apiset_name(100), 24);
    }
}

proof fn lemma_rows_100_125(i: int)
    requires
        100 <= i < 125,
    ensures
        plain_name(i),
        i + 1 < APISET_LEN ==> chars_lt(apiset_name(i), apiset_name(i + 1)),
{
    if i == 100 {
        reveal_strlit("api-ms-win-core-shlwapi-obsolete-l1-1-0");
        assert(lower(apiset_name(100)) =~= apiset_name(100));
        reveal_strlit("api-ms-win-core-shlwapi-obsolete-l1-2-0");
        assert(apiset_name(100).take(36) =~= apiset_name(101).take(36));
        lemma_differ_at_lt(apiset_name(100), apiset_name(101), 36);
    } else if i == 101 {
        reveal_strlit("api-ms-win-core-shlwapi-obsolete-l1-2-0");
        assert(lower(apiset_name(101)) =~= apiset_name(101));
        reveal_strlit("api-ms-win-core-sidebyside-ansi-l1-1-0");
        assert(apiset_name(101).take(17) =~= apiset_name(102).take(17));
        lemma_differ_at_lt(apiset_name(101), apiset_name(102), 17);
    } else if i == 102 {
        reveal_strlit("api-ms-win-core-sidebyside-ansi-l1-1-0");
        assert(lower(apiset_name(102)) =~= apiset_name(102));
        reveal_strlit("api-ms-win-core-sidebyside-l1-1-0");
        assert(apiset_name(102).take(27) =~= apiset_name(103).take(27));
        lemma_differ_at_lt(apiset_name(102), apiset_name(103), 27);
    } else if i == 103 {
        reveal_strlit("api-ms-win-core-sidebyside-l1-1-0");
        assert(lower(apiset_name(103)) =~= apiset_name(103));
        reveal_strlit("api-ms-win-core-state-helpers-l1-1-0");
        assert(apiset_name(103).take(17) =~= apiset_name(104).take(17));
        lemma_differ_at_lt(apiset_name(103), apiset_name(104), 17);
    } else if i == 104 {
        reveal_strlit("api-ms-win-core-state-helpers-l1-1-0");
        assert(lower(apiset_name(104)) =~= apiset_name(104));
        reveal_strlit("api-ms-win-core-string-l1-1-0");
        assert(apiset_name(104).take(18) =~= apiset_name(105).take(18));
        lemma_differ_at_lt(apiset_name(104), apiset_name(105), 18);
    } else if i == 105 {
        reveal_strlit("api-ms-win-core-string-l1-1-0");
        assert(lower(apiset_name(105)) =~= apiset_name(105));
        reveal_strlit("api-ms-win-core-string-l2-1-1");
        assert(apiset_name(105).take(24) =~= apiset_name(106).take(24));
        lemma_differ_at_lt(apiset_name(105), apiset_name(106), 24);
    } else if i == 106 {
        reveal_strlit("api-ms-win-core-string-l2-1-1");
        assert(lower(apiset_name(106)) =~= apiset_name(106));
        reveal_strlit("api-ms-win-core-string-obsolete-l1-1-1");
        assert(apiset_name(106).take(23) =~= apiset_name(107).take(23));
        lemma_differ_at_lt(apiset_name(106), apiset_name(107), 23);
    } else if i == 107 {
        reveal_strlit("api-ms-win-core-string-obsolete-l1-1-1");
        assert(lower(apiset_name(107)) =~= apiset_name(107));
        reveal_strlit("api-ms-win-core-stringansi-l1-1-0");
        assert(apiset_name(107).take(22) =~= apiset_name(108).take(22));
        lemma_differ_at_lt(apiset_name(107), apiset_name(108), 22);
    } else if i == 108 {
        reveal_strlit("api-ms-win-core-stringansi-l1-1-0");
        assert(lower(apiset_name(108)) =~= apiset_name(108));
        reveal_strlit("api-ms-win-core-stringloader-l1-1-1");
        assert(apiset_name(108).take(22) =~= apiset_name(109).take(22));
        lemma_differ_at_lt(apiset_name(108), apiset_name(109), 22);
    } else if i == 109 {
        reveal_strlit("api-ms-win-core-stringloader-l1-1-1");
        assert(lower(apiset_name(109)) =~= apiset_name(109));
        reveal_strlit("api-ms-win-core-synch-ansi-l1-1-0");
        assert(apiset_name(109).take(17) =~= apiset_name(110).take(17));
        lemma_differ_at_lt(apiset_name(109), apiset_name(110), 17);
    } else if i == 110 {
        reveal_strlit("api-ms-win-core-synch-ansi-l1-1-0");
        assert(lower(apiset_name(110)) =~= apiset_name(110));
        reveal_strlit("api-ms-win-core-synch-l1-1-1");
        assert(apiset_name(110).take(22) =~= apiset_name(111).take(22));
        lemma_differ_at_lt(apiset_name(110), apiset_name(111), 22);
    } else if i == 111 {
        reveal_strlit("api-ms-win-core-synch-l1-1-1");
        assert(lower(apiset_name(111)) =~= apiset_name(111));
        reveal_strlit("api-ms-win-core-synch-l1-2-1");
        assert(apiset_name(111).take(25) =~= apiset_name(112).take(25));
        lemma_differ_at_lt(apiset_name(111), apiset_name(112), 25);
    } else if i == 112 {
        reveal_strlit("api-ms-win-core-synch-l1-2-1");
        assert(lower(apiset_name(112)) =~= apiset_name(112));
        reveal_strlit("api-ms-win-core-sysinfo-l1-1-1");
        assert(apiset_name(112).take(18) =~= apiset_name(113).take(18));
        lemma_differ_at_lt(apiset_name(112), apiset_name(113), 18);
    } else if i == 113 {
        reveal_strlit("api-ms-win-core-sysinfo-l1-1-1");
        assert(lower(apiset_name(113)) =~= apiset_name(113));
        reveal_strlit("api-ms-win-core-sysinfo-l1-2-8");
        assert(apiset_name(113).take(27) =~= apiset_name(114).take(27));
        lemma_differ_at_lt(apiset_name(113), apiset_name(114), 27);
    } else if i == 114 {
        reveal_strlit("api-ms-win-core-sysinfo-l1-2-8");
        assert(lower(apiset_name(114)) =~= apiset_name(114));
        reveal_strlit("api-ms-win-core-systemtopology-l1-1-2");
        assert(apiset_name(114).take(19) =~= apiset_name(115).take(19));
        lemma_differ_at_lt(apiset_name(114), apiset_name(115), 19);
    } else if i == 115 {
        reveal_strlit("api-ms-win-core-systemtopology-l1-1-2");
        assert(lower(apiset_name(115)) =~= apiset_name(115));
        reveal_strlit("api-ms-win-core-threadpool-l1-1-0");
        assert(apiset_name(115).take(16) =~= apiset_name(116).take(16));
        lemma_differ_at_lt(apiset_name(115), apiset_name(116), 16);
    } else if i == 116 {
        reveal_strlit("api-ms-win-core-threadpool-l1-1-0");
        assert(lower(apiset_name(116)) =~= apiset_name(116));
        reveal_strlit("api-ms-win-core-threadpool-l1-2-0");
        assert(apiset_name(116).take(30) =~= apiset_name(117).take(30));
        lemma_differ_at_lt(apiset_name(116), apiset_name(117), 30);
    } else if i == 117 {
        reveal_strlit("api-ms-win-core-threadpool-l1-2-0");
        assert(lower(apiset_name(117)) =~= apiset_name(117));
        reveal_strlit("api-ms-win-core-threadpool-legacy-l1-1-0");
        assert(apiset_name(117).take(28) =~= apiset_name(118).take(28));
        lemma_differ_at_lt(apiset_name(117), apiset_name(118), 28);
    } else if i == 118 {
        reveal_strlit("api-ms-win-core-threadpool-legacy-l1-1-0");
        assert(lower(apiset_name(118)) =~= apiset_name(118));
        reveal_strlit("api-ms-win-core-threadpool-private-l1-1-0");
        assert(apiset_name(118).take(27) =~= apiset_name(119).take(27));
        lemma_differ_at_lt(apiset_name(118), apiset_name(119), 27);
    } else if i == 119 {
        reveal_strlit("api-ms-win-core-threadpool-private-l1-1-0");
        assert(lower(apiset_name(119)) =~= apiset_name(119));
        reveal_strlit("api-ms-win-core-timezone-l1-1-1");
        assert(apiset_name(119).take(17) =~= apiset_name(120).take(17));
        lemma_differ_at_lt(apiset_name(119), apiset_name(120), 17);
    } else if i == 120 {
        reveal_strlit("api-ms-win-core-timezone-l1-1-1");
        assert(lower(apiset_name(120)) =~= apiset_name(120));
        reveal_strlit("api-ms-win-core-timezone-private-l1-1-0");
        assert(apiset_name(120).take(25) =~= apiset_name(121).take(25));
        lemma_differ_at_lt(apiset_name(120), apiset_name(121), 25);
    } else if i == 121 {
        reveal_strlit("api-ms-win-core-timezone-private-l1-1-0");
        assert(lower(apiset_name(121)) =~= apiset_name(121));
        reveal_strlit("api-ms-win-core-toolhelp-l1-1-1");
        assert(apiset_name(121).take(17) =~= apiset_name(122).take(17));
        lemma_differ_at_lt(apiset_name(121), apiset_name(122), 17);
    } else if i == 122 {
        reveal_strlit("api-ms-win-core-toolhelp-l1-1-1");
        assert(lower(apiset_name(122)) =~= apiset_name(122));
        reveal_strlit("api-ms-win-core-ums-l1-1-0");
        assert(apiset_name(122).take(16) =~= apiset_name(123).take(16));
        lemma_differ_at_lt(apiset_name(122), apiset_name(123), 16);
    } else if i == 123 {
        reveal_strlit("api-ms-win-core-ums-l1-1-0");
        assert(lower(apiset_name(123)) =~= apiset_name(123));
        reveal_strlit("api-ms-win-core-url-l1-1-0");
        assert(apiset_name(123).take(17) =~= apiset_name(124).take(17));
        lemma_differ_at_lt(apiset_name(123), apiset_name(124), 17);
    } else if i == 124 {
        reveal_strlit("api-ms-win-core-url-l1-1-0");
        assert(lower(apiset_name(124)) =~= apiset_name(124));
        reveal_strlit("api-ms-win-core-util-l1-1-1");
        assert(apiset_name(124).take(17) =~= apiset_name(125).take(17));
        lemma_differ_at_lt(apiset_name(124), apiset_name(125), 17);
    }
}

proof fn lemma_rows_125_150(i: int)
    requires
        125 <= i < 150,
    ensures
        plain_name(i),
        i + 1 < APISET_LEN ==> chars_lt(apiset_name(i), apiset_name(i + 1)),
{
    if i == 125 {
        reveal_strlit("api-ms-win-core-util-l1-1-1");
        assert(lower(apiset_name(125)) =~= apiset_name(125));
        reveal_strlit("api-ms-win-core-version-l1-1-1");
        assert(apiset_name(125).take(16) =~= apiset_name(126).take(16));
        lemma_differ_at_lt(apiset_name(125), apiset_name(126), 16);
    } else if i == 126 {
        reveal_strlit("api-ms-win-core-version-l1-1-1");
        assert(lower(apiset_name(126)) =~= apiset_name(126));
        reveal_strlit("api-ms-win-core-version-private-l1-1-0");
        assert(apiset_name(126).take(24) =~= apiset_name(127).take(24));
        lemma_differ_at_lt(apiset_name(126), apiset_name(127), 24);
    } else if i == 127 {
        reveal_strlit("api-ms-win-core-version-private-l1-1-0");
        assert(lower(apiset_name(127)) =~= apiset_name(127));
        reveal_strlit("api-ms-win-core-versionansi-l1-1-1");
        assert(apiset_name(127).take(23) =~= apiset_name(128).take(23));
        lemma_differ_at_lt(apiset_name(127), apiset_name(128), 23);
    } else if i == 128 {
        reveal_strlit("api-ms-win-core-versionansi-l1-1-1");
        assert(lower(apiset_name(128)) =~= apiset_name(128));
        reveal_strlit("api-ms-win-core-windowsceip-l1-1-0");
        assert(apiset_name(128).take(16) =~= apiset_name(129).take(16));
        lemma_differ_at_lt(apiset_name(128), apiset_name(129), 16);
    } else if i == 129 {
        reveal_strlit("api-ms-win-core-windowsceip-l1-1-0");
        assert(lower(apiset_name(129)) =~= apiset_name(129));
        reveal_strlit("api-ms-win-core-windowserrorreporting-l1-1-3");
        assert(apiset_name(129).take(23) =~= apiset_name(130).take(23));
        lemma_differ_at_lt(apiset_name(129), apiset_name(130), 23);
    } else if i == 130 {
        reveal_strlit("api-ms-win-core-windowserrorreporting-l1-1-3");
        assert(lower(apiset_name(130)) =~= apiset_name(130));
        reveal_strlit("api-ms-win-core-wow64-l1-1-3");
        assert(apiset_name(130).take(17) =~= apiset_name(131).take(17));
        lemma_differ_at_lt(apiset_name(130), apiset_name(131), 17);
    } else if i == 131 {
        reveal_strlit("api-ms-win-core-wow64-l1-1-3");
        assert(lower(apiset_name(131)) =~= apiset_name(131));
        reveal_strlit("api-ms-win-core-xstate-l1-1-3");
        assert(apiset_name(131).take(16) =~= apiset_name(132).take(16));
        lemma_differ_at_lt(apiset_name(131), apiset_name(132), 16);
    } else if i == 132 {
        reveal_strlit("api-ms-win-core-xstate-l1-1-3");
        assert(lower(apiset_name(132)) =~= apiset_name(132));
        reveal_strlit("api-ms-win-core-xstate-l2-1-2");
        assert(apiset_name(132).take(24) =~= apiset_name(133).take(24));
        lemma_differ_at_lt(apiset_name(132), apiset_name(133), 24);
    } else if i == 133 {
        reveal_strlit("api-ms-win-core-xstate-l2-1-2");
        assert(lower(apiset_name(133)) =~= apiset_name(133));
        reveal_strlit("api-ms-win-deprecated-apis-obsolete-l1-1-0");
        assert(apiset_name(133).take(11) =~= apiset_name(134).take(11));
        lemma_differ_at_lt(apiset_name(133), apiset_name(134), 11);
    } else if i == 134 {
        reveal_strlit("api-ms-win-deprecated-apis-obsolete-l1-1-0");
        assert(lower(apiset_name(134)) =~= apiset_name(134));
        reveal_strlit("api-ms-win-downlevel-advapi32-l1-1-0");
        assert(apiset_name(134).take(12) =~= apiset_name(135).take(12));
        lemma_differ_at_lt(apiset_name(134), apiset_name(135), 12);
    } else if i == 135 {
        reveal_strlit("api-ms-win-downlevel-advapi32-l1-1-0");
        assert(lower(apiset_name(135)) =~= apiset_name(135));
        reveal_strlit("api-ms-win-downlevel-kernel32-l1-1-0");
        assert(apiset_name(135).take(21) =~= apiset_name(136).take(21));
        lemma_differ_at_lt(apiset_name(135), apiset_name(136), 21);
    } else if i == 136 {
        reveal_strlit("api-ms-win-downlevel-kernel32-l1-1-0");
        assert(lower(apiset_name(136)) =~= apiset_name(136));
        reveal_strlit("api-ms-win-downlevel-kernel32-l2-1-0");
        assert(apiset_name(136).take(31) =~= apiset_name(137).take(31));
        lemma_differ_at_lt(apiset_name(136), apiset_name(137), 31);
    } else if i == 137 {
        reveal_strlit("api-ms-win-downlevel-kernel32-l2-1-0");
        assert(lower(apiset_name(137)) =~= apiset_name(137));
        reveal_strlit("api-ms-win-downlevel-normaliz-l1-1-0");
        assert(apiset_name(137).take(21) =~= apiset_name(138).take(21));
        lemma_differ_at_lt(apiset_name(137), apiset_name(138), 21);
    } else if i == 138 {
        reveal_strlit("api-ms-win-downlevel-normaliz-l1-1-0");
        assert(lower(apiset_name(138)) =~= apiset_name(138));
        reveal_strlit("api-ms-win-downlevel-shlwapi-l1-1-0");
        assert(apiset_name(138).take(21) =~= apiset_name(139).take(21));
        lemma_differ_at_lt(apiset_name(138), apiset_name(139), 21);
    } else if i == 139 {
        reveal_strlit("api-ms-win-downlevel-shlwapi-l1-1-0");
        assert(lower(apiset_name(139)) =~= apiset_name(139));
        reveal_strlit("api-ms-win-downlevel-user32-l1-1-0");
        assert(apiset_name(139).take(21) =~= apiset_name(140).take(21));
        lemma_differ_at_lt(apiset_name(139), apiset_name(140), 21);
    } else if i == 140 {
        reveal_strlit("api-ms-win-downlevel-user32-l1-1-0");
        assert(lower(apiset_name(140)) =~= apiset_name(140));
        reveal_strlit("api-ms-win-downlevel-version-l1-1-0");
        assert(apiset_name(140).take(21) =~= apiset_name(141).take(21));
        lemma_differ_at_lt(apiset_name(140), apiset_name(141), 21);
    } else if i == 141 {
        reveal_strlit("api-ms-win-downlevel-version-l1-1-0");
        assert(lower(apiset_name(141)) =~= apiset_name(141));
        reveal_strlit("api-ms-win-eventing-classicprovider-l1-1-0");
        assert(apiset_name(141).take(11) =~= apiset_name(142).take(11));
        lemma_differ_at_lt(apiset_name(141), apiset_name(142), 11);
    } else if i == 142 {
        reveal_strlit("api-ms-win-eventing-classicprovider-l1-1-0");
        assert(lower(apiset_name(142)) =~= apiset_name(142));
        reveal_strlit("api-ms-win-eventing-provider-l1-1-0");
        assert(apiset_name(142).take(20) =~= apiset_name(143).take(20));
        lemma_differ_at_lt(apiset_name(142), apiset_name(143), 20);
    } else if i == 143 {
        reveal_strlit("api-ms-win-eventing-provider-l1-1-0");
        assert(lower(apiset_name(143)) =~= apiset_name(143));
        reveal_strlit("api-ms-win-gaming-deviceinformation-l1-1-0");
        assert(apiset_name(143).take(11) =~= apiset_name(144).take(11));
        lemma_differ_at_lt(apiset_name(143), apiset_name(144), 11);
    } else if i == 144 {
        reveal_strlit("api-ms-win-gaming-deviceinformation-l1-1-0");
        assert(lower(apiset_name(144)) =~= apiset_name(144));
        reveal_strlit("api-ms-win-http-time-l1-1-0");
        assert(apiset_name(144).take(11) =~= apiset_name(145).take(11));
        lemma_differ_at_lt(apiset_name(144), apiset_name(145), 11);
    } else if i == 145 {
        reveal_strlit("api-ms-win-http-time-l1-1-0");
        assert(lower(apiset_name(145)) =~= apiset_name(145));
        reveal_strlit("api-ms-win-legacy-shlwapi-l1-1-0");
        assert(apiset_name(145).take(11) =~= apiset_name(146).take(11));
        lemma_differ_at_lt(apiset_name(145), apiset_name(146), 11);
    } else if i == 146 {
        reveal_strlit("api-ms-win-legacy-shlwapi-l1-1-0");
        assert(lower(apiset_name(146)) =~= apiset_name(146));
        reveal_strlit("api-ms-win-mm-time-l1-1-0");
        assert(apiset_name(146).take(11) =~= apiset_name(147).take(11));
        lemma_differ_at_lt(apiset_name(146), apiset_name(147), 11);
    } else if i == 147 {
        reveal_strlit("api-ms-win-mm-time-l1-1-0");
        assert(lower(apiset_name(147)) =~= apiset_name(147));
        reveal_strlit("api-ms-win-obsolete-localization-l1-1-0");
        assert(apiset_name(147).take(11) =~= apiset_name(148).take(11));
        lemma_differ_at_lt(apiset_name(147), apiset_name(148), 11);
    } else if i == 148 {
        reveal_strlit("api-ms-win-obsolete-localization-l1-1-0");
        assert(lower(apiset_name(148)) =~= apiset_name(148));
        reveal_strlit("api-ms-win-obsolete-psapi-l1-1-0");
        assert(apiset_name(148).take(20) =~= apiset_name(149).take(20));
        lemma_differ_at_lt(apiset_name(148), apiset_name(149), 20);
    } else if i == 149 {
        reveal_strlit("api-ms-win-obsolete-psapi-l1-1-0");
        assert(lower(apiset_name(149)) =~= apiset_name(149));
        reveal_strlit("api-ms-win-obsolete-shlwapi-l1-1-0");
        assert(apiset_name(149).take(20) =~= apiset_name(150).take(20));
        lemma_differ_at_lt(apiset_name(149), apiset_name(150), 20);
    }
}

proof fn lemma_rows_150_175(i: int)
    requires
        150 <= i < 175,
    ensures
        plain_name(i),
        i + 1 < APISET_LEN ==> chars_lt(apiset_name(i), apiset_name(i + 1)),
{
    if i == 150 {
        reveal_strlit("api-ms-win-obsolete-shlwapi-l1-1-0");
        assert(lower(apiset_name(150)) =~= apiset_name(150));
        reveal_strlit("api-ms-win-oobe-notification-l1-1-0");
        assert(apiset_name(150).take(12) =~= apiset_name(151).take(12));
        lemma_differ_at_lt(apiset_name(150), apiset_name(151), 12);
    } else if i == 151 {
        reveal_strlit("api-ms-win-oobe-notification-l1-1-0");
        assert(lower(apiset_name(151)) =~= apiset_name(151));
        reveal_strlit("api-ms-win-security-activedirectoryclient-l1-1-1");
        assert(apiset_name(151).take(11) =~= apiset_name(152).take(11));
        lemma_differ_at_lt(apiset_name(151), apiset_name(152), 11);
    } else if i == 152 {
        reveal_strlit("api-ms-win-security-activedirectoryclient-l1-1-1");
        assert(lower(apiset_name(152)) =~= apiset_name(152));
        reveal_strlit("api-ms-win-security-appcontainer-l1-1-0");
        assert(apiset_name(152).take(21) =~= apiset_name(153).take(21));
        lemma_differ_at_lt(apiset_name(152), apiset_name(153), 21);
    } else if i == 153 {
        reveal_strlit("api-ms-win-security-appcontainer-l1-1-0");
        assert(lower(apiset_name(153)) =~= apiset_name(153));
        reveal_strlit("api-ms-win-security-base-l1-1-1");
        assert(apiset_name(153).take(20) =~= apiset_name(154).take(20));
        lemma_differ_at_lt(apiset_name(153), apiset_name(154), 20);
    } else if i == 154 {
        reveal_strlit("api-ms-win-security-base-l1-1-1");
        assert(lower(apiset_name(154)) =~= apiset_name(154));
        reveal_strlit("api-ms-win-security-base-l1-2-2");
        assert(apiset_name(154).take(28) =~= apiset_name(155).take(28));
        lemma_differ_at_lt(apiset_name(154), apiset_name(155), 28);
    } else if i == 155 {
        reveal_strlit("api-ms-win-security-base-l1-2-2");
        assert(lower(apiset_name(155)) =~= apiset_name(155));
        reveal_strlit("api-ms-win-security-base-private-l1-1-2");
        assert(apiset_name(155).take(25) =~= apiset_name(156).take(25));
        lemma_differ_at_lt(apiset_name(155), apiset_name(156), 25);
    } else if i == 156 {
        reveal_strlit("api-ms-win-security-base-private-l1-1-2");
        assert(lower(apiset_name(156)) =~= apiset_name(156));
        reveal_strlit("api-ms-win-security-grouppolicy-l1-1-0");
        assert(apiset_name(156).take(20) =~= apiset_name(157).take(20));
        lemma_differ_at_lt(apiset_name(156), apiset_name(157), 20);
    } else if i == 157 {
        reveal_strlit("api-ms-win-security-grouppolicy-l1-1-0");
        assert(lower(apiset_name(157)) =~= apiset_name(157));
        reveal_strlit("api-ms-win-shell-shellcom-l1-1-0");
        assert(apiset_name(157).take(12) =~= apiset_name(158).take(12));
        lemma_differ_at_lt(apiset_name(157), apiset_name(158), 12);
    } else if i == 158 {
        reveal_strlit("api-ms-win-shell-shellcom-l1-1-0");
        assert(lower(apiset_name(158)) =~= apiset_name(158));
        reveal_strlit("api-ms-win-stateseparation-helpers-l1-1-1");
        assert(apiset_name(158).take(12) =~= apiset_name(159).take(12));
        lemma_differ_at_lt(apiset_name(158), apiset_name(159), 12);
    } else if i == 159 {
        reveal_strlit("api-ms-win-stateseparation-helpers-l1-1-1");
        assert(lower(apiset_name(159)) =~= apiset_name(159));
        reveal_strlit("ext-ms-win-kernel32-appcompat-l1-1-0");
        assert(apiset_name(159).take(0) =~= apiset_name(160).take(0));
        lemma_differ_at_lt(apiset_name(159), apiset_name(160), 0);
    } else if i == 160 {
        reveal_strlit("ext-ms-win-kernel32-appcompat-l1-1-0");
        assert(lower(apiset_name(160)) =~= apiset_name(160));
        reveal_strlit("ext-ms-win-kernel32-datetime-l1-1-0");
        assert(apiset_name(160).take(20) =~= apiset_name(161).take(20));
        lemma_differ_at_lt(apiset_name(160), apiset_name(161), 20);
    } else if i == 161 {
        reveal_strlit("ext-ms-win-kernel32-datetime-l1-1-0");
        assert(lower(apiset_name(161)) =~= apiset_name(161));
        reveal_strlit("ext-ms-win-kernel32-elevation-l1-1-0");
        assert(apiset_name(161).take(20) =~= apiset_name(162).take(20));
        lemma_differ_at_lt(apiset_name(161), apiset_name(162), 20);
    } else if i == 162 {
        reveal_strlit("ext-ms-win-kernel32-elevation-l1-1-0");
        assert(lower(apiset_name(162)) =~= apiset_name(162));
        reveal_strlit("ext-ms-win-kernel32-errorhandling-l1-1-0");
        assert(apiset_name(162).take(21) =~= apiset_name(163).take(21));
        lemma_differ_at_lt(apiset_name(162), apiset_name(163), 21);
    } else if i == 163 {
        reveal_strlit("ext-ms-win-kernel32-errorhandling-l1-1-0");
        assert(lower(apiset_name(163)) =~= apiset_name(163));
        reveal_strlit("ext-ms-win-kernel32-file-l1-1-0");
        assert(apiset_name(163).take(20) =~= apiset_name(164).take(20));
        lemma_differ_at_lt(apiset_name(163), apiset_name(164), 20);
    } else if i == 164 {
        reveal_strlit("ext-ms-win-kernel32-file-l1-1-0");
        assert(lower(apiset_name(164)) =~= apiset_name(164));
        reveal_strlit("ext-ms-win-kernel32-localization-l1-1-0");
        assert(apiset_name(164).take(20) =~= apiset_name(165).take(20));
        lemma_differ_at_lt(apiset_name(164), apiset_name(165), 20);
    } else if i == 165 {
        reveal_strlit("ext-ms-win-kernel32-localization-l1-1-0");
        assert(lower(apiset_name(165)) =~= apiset_name(165));
        reveal_strlit("ext-ms-win-kernel32-process-l1-1-0");
        assert(apiset_name(165).take(20) =~= apiset_name(166).take(20));
        lemma_differ_at_lt(apiset_name(165), apiset_name(166), 20);
    } else if i == 166 {
        reveal_strlit("ext-ms-win-kernel32-process-l1-1-0");
        assert(lower(apiset_name(166)) =~= apiset_name(166));
        reveal_strlit("ext-ms-win-kernel32-quirks-l1-1-1");
        assert(apiset_name(166).take(20) =~= apiset_name(167).take(20));
        lemma_differ_at_lt(apiset_name(166), apiset_name(167), 20);
    } else if i == 167 {
        reveal_strlit("ext-ms-win-kernel32-quirks-l1-1-1");
        assert(lower(apiset_name(167)) =~= apiset_name(167));
        reveal_strlit("ext-ms-win-kernel32-registry-l1-1-0");
        assert(apiset_name(167).take(20) =~= apiset_name(168).take(20));
        lemma_differ_at_lt(apiset_name(167), apiset_name(168), 20);
    } else if i == 168 {
        reveal_strlit("ext-ms-win-kernel32-registry-l1-1-0");
        assert(lower(apiset_name(168)) =~= apiset_name(168));
        reveal_strlit("ext-ms-win-kernel32-sidebyside-l1-1-0");
        assert(apiset_name(168).take(20) =~= apiset_name(169).take(20));
        lemma_differ_at_lt(apiset_name(168), apiset_name(169), 20);
    } else if i == 169 {
        reveal_strlit("ext-ms-win-kernel32-sidebyside-l1-1-0");
        assert(lower(apiset_name(169)) =~= apiset_name(169));
        reveal_strlit("ext-ms-win-kernel32-transacted-l1-1-0");
        assert(apiset_name(169).take(20) =~= apiset_name(170).take(20));
        lemma_differ_at_lt(apiset_name(169), apiset_name(170), 20);
    } else if i == 170 {
        reveal_strlit("ext-ms-win-kernel32-transacted-l1-1-0");
        assert(lower(apiset_name(170)) =~= apiset_name(170));
        reveal_strlit("ext-ms-win-kernel32-updateresource-l1-1-0");
        assert(apiset_name(170).take(20) =~= apiset_name(171).take(20));
        lemma_differ_at_lt(apiset_name(170), apiset_name(171), 20);
    } else if i == 171 {
        reveal_strlit("ext-ms-win-kernel32-updateresource-l1-1-0");
        assert(lower(apiset_name(171)) =~= apiset_name(171));
        reveal_strlit("ext-ms-win-kernel32-windowserrorreporting-l1-1-1");
        assert(apiset_name(171).take(20) =~= apiset_name(172).take(20));
        lemma_differ_at_lt(apiset_name(171), apiset_name(172), 20);
    } else if i == 172 {
        reveal_strlit("ext-ms-win-kernel32-windowserrorreporting-l1-1-1");
        assert(lower(apiset_name(172)) =~= apiset_name(172));
        reveal_strlit("ext-ms-win-kernelbase-processthread-l1-1-3");
        assert(apiset_name(172).take(17) =~= apiset_name(173).take(17));
        lemma_differ_at_lt(apiset_name(172), apiset_name(173), 17);
    } else if i == 173 {
        reveal_strlit("ext-ms-win-kernelbase-processthread-l1-1-3");
        assert(lower(apiset_name(173)) =~= apiset_name(173));
        reveal_strlit("ext-ms-win-kernelbase-processthread-l1-2-0");
        assert(apiset_name(173).take(39) =~= apiset_name(174).take(39));
        lemma_differ_at_lt(apiset_name(173), apiset_name(174), 39);
    } else if i == 174 {
        reveal_strlit("ext-ms-win-kernelbase-processthread-l1-2-0");
        assert(lower(apiset_name(174)) =~= apiset_name(174));
    }
}

/// Row `i` of the table: its namespace is plain and sorts before the next.
pub proof fn lemma_row(i: int)
    requires
        0 <= i < APISET_LEN,
    ensures
        plain_name(i),
        i + 1 < APISET_LEN ==> chars_lt(apiset_name(i), apiset_name(i + 1)),
{
    if i < 25 {
        lemma_rows_0_25(i);
    } else if i < 50 {
        lemma_rows_25_50(i);
    } else if i < 75 {
        lemma_rows_50_75(i);
    } else if i < 100 {
        lemma_rows_75_100(i);
    } else if i < 125 {
        lemma_rows_100_125(i);
    } else if i < 150 {
        lemma_rows_125_150(i);
    } else if i < 175 {
        lemma_rows_150_175(i);
    }
}

/// Namespaces of earlier rows sort before those of later rows.
pub proof fn lemma_rows_sorted(j: int, i: int)
    requires
        0 <= j < i < APISET_LEN,
    ensures
        chars_lt(apiset_name(j), apiset_name(i)),
    decreases i - j,
{
    lemma_row(j);
    if j + 1 < i {
        lemma_rows_sorted(j + 1, i);
        lemma_chars_lt_order(apiset_name(j), apiset_name(j + 1), apiset_name(i));
    }
}

/// No two rows of the table name the same namespace.
pub proof fn lemma_rows_distinct(j: int, i: int)
    requires
        0 <= j < APISET_LEN,
        0 <= i < APISET_LEN,
        j != i,
    ensures
        apiset_name(j) != apiset_name(i),
{
    if j < i {
        lemma_rows_sorted(j, i);
        lemma_chars_lt_order(apiset_name(j), apiset_name(i), apiset_name(i));
    } else {
        lemma_rows_sorted(i, j);
        lemma_chars_lt_order(apiset_name(i), apiset_name(j), apiset_name(j));
    }
}

} // verus!
