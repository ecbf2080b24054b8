//! ApiSet namespace routing table (Windows 11 25H2 snapshot): each
//! `api-ms-*`/`ext-ms-*` namespace served by an implemented host module.
//! `kernelbase.dll` routes to `Kernel32` (one merged Win32 surface).
use vstd::prelude::*;
use crate::modules::KnownModule;

verus! {

/// Number of routed namespaces.
pub const APISET_LEN: usize = 175;

/// Namespace `i` (lowercase, without `.dll`).
pub open spec fn apiset_name(i: int) -> Seq<char> {
    match i as usize {
        0 => "api-ms-win-core-apiquery-l1-1-2"@,
        1 => "api-ms-win-core-apiquery-l2-1-1"@,
        2 => "api-ms-win-core-appcompat-l1-1-1"@,
        3 => "api-ms-win-core-appinit-l1-1-0"@,
        4 => "api-ms-win-core-atoms-l1-1-0"@,
        5 => "api-ms-win-core-backgroundtask-l1-1-0"@,
        6 => "api-ms-win-core-calendar-l1-1-0"@,
        7 => "api-ms-win-core-comm-l1-1-2"@,
        8 => "api-ms-win-core-commandlinetoargv-l1-1-0"@,
        9 => "api-ms-win-core-console-ansi-l2-1-0"@,
        10 => "api-ms-win-core-console-internal-l1-1-0"@,
        11 => "api-ms-win-core-console-l1-1-0"@,
        12 => "api-ms-win-core-console-l1-2-2"@,
        13 => "api-ms-win-core-console-l2-1-0"@,
        14 => "api-ms-win-core-console-l2-2-0"@,
        15 => "api-ms-win-core-console-l3-1-0"@,
        16 => "api-ms-win-core-console-l3-2-0"@,
        17 => "api-ms-win-core-crt-l1-1-0"@,
        18 => "api-ms-win-core-crt-l2-1-0"@,
        19 => "api-ms-win-core-datetime-l1-1-2"@,
        20 => "api-ms-win-core-debug-l1-1-2"@,
        21 => "api-ms-win-core-delayload-l1-1-1"@,
        22 => "api-ms-win-core-enclave-l1-1-1"@,
        23 => "api-ms-win-core-errorhandling-l1-1-3"@,
        24 => "api-ms-win-core-featuretoggles-l1-1-0"@,
        25 => "api-ms-win-core-fibers-l1-1-2"@,
        26 => "api-ms-win-core-fibers-l2-1-1"@,
        27 => "api-ms-win-core-file-ansi-l1-1-0"@,
        28 => "api-ms-win-core-file-ansi-l2-1-0"@,
        29 => "api-ms-win-core-file-fromapp-l1-1-0"@,
        30 => "api-ms-win-core-file-l1-1-1"@,
        31 => "api-ms-win-core-file-l1-2-5"@,
        32 => "api-ms-win-core-file-l2-1-4"@,
        33 => "api-ms-win-core-firmware-l1-1-0"@,
        34 => "api-ms-win-core-guard-l1-1-0"@,
        35 => "api-ms-win-core-handle-l1-1-0"@,
        36 => "api-ms-win-core-heap-l1-1-0"@,
        37 => "api-ms-win-core-heap-l1-2-0"@,
        38 => "api-ms-win-core-heap-l2-1-0"@,
        39 => "api-ms-win-core-heap-obsolete-l1-1-0"@,
        40 => "api-ms-win-core-interlocked-l1-1-1"@,
        41 => "api-ms-win-core-interlocked-l1-2-0"@,
        42 => "api-ms-win-core-io-l1-1-1"@,
        43 => "api-ms-win-core-ioring-l1-1-2"@,
        44 => "api-ms-win-core-job-l1-1-0"@,
        45 => "api-ms-win-core-job-l2-1-1"@,
        46 => "api-ms-win-core-kernel32-legacy-ansi-l1-1-0"@,
        47 => "api-ms-win-core-kernel32-legacy-l1-1-6"@,
        48 => "api-ms-win-core-kernel32-private-l1-1-2"@,
        49 => "api-ms-win-core-kernel32-private-l1-2-0"@,
        50 => "api-ms-win-core-largeinteger-l1-1-0"@,
        51 => "api-ms-win-core-libraryloader-l1-1-1"@,
        52 => "api-ms-win-core-libraryloader-l1-2-3"@,
        53 => "api-ms-win-core-libraryloader-l2-1-0"@,
        54 => "api-ms-win-core-libraryloader-private-l1-1-0"@,
        55 => "api-ms-win-core-localization-ansi-l1-1-0"@,
        56 => "api-ms-win-core-localization-l1-1-0"@,
        57 => "api-ms-win-core-localization-l1-2-4"@,
        58 => "api-ms-win-core-localization-l2-1-0"@,
        59 => "api-ms-win-core-localization-obsolete-l1-1-0"@,
        60 => "api-ms-win-core-localization-obsolete-l1-2-0"@,
        61 => "api-ms-win-core-localization-obsolete-l1-3-0"@,
        62 => "api-ms-win-core-localization-private-l1-1-0"@,
        63 => "api-ms-win-core-localregistry-l1-1-0"@,
        64 => "api-ms-win-core-memory-l1-1-9"@,
        65 => "api-ms-win-core-misc-l1-1-0"@,
        66 => "api-ms-win-core-namedpipe-ansi-l1-1-1"@,
        67 => "api-ms-win-core-namedpipe-l1-1-0"@,
        68 => "api-ms-win-core-namedpipe-l1-2-2"@,
        69 => "api-ms-win-core-namespace-ansi-l1-1-0"@,
        70 => "api-ms-win-core-namespace-l1-1-0"@,
        71 => "api-ms-win-core-normalization-l1-1-0"@,
        72 => "api-ms-win-core-path-l1-1-0"@,
        73 => "api-ms-win-core-pcw-l1-1-0"@,
        74 => "api-ms-win-core-perfcounters-l1-1-0"@,
        75 => "api-ms-win-core-perfcounters-l1-2-0"@,
        76 => "api-ms-win-core-privateprofile-l1-1-1"@,
        77 => "api-ms-win-core-processenvironment-ansi-l1-1-0"@,
        78 => "api-ms-win-core-processenvironment-l1-1-1"@,
        79 => "api-ms-win-core-processenvironment-l1-2-0"@,
        80 => "api-ms-win-core-processsecurity-l1-1-0"@,
        81 => "api-ms-win-core-processsnapshot-l1-1-0"@,
        82 => "api-ms-win-core-processthreads-l1-1-8"@,
        83 => "api-ms-win-core-processtopology-l1-1-0"@,
        84 => "api-ms-win-core-processtopology-l1-2-0"@,
        85 => "api-ms-win-core-processtopology-obsolete-l1-1-1"@,
        86 => "api-ms-win-core-processtopology-private-l1-1-0"@,
        87 => "api-ms-win-core-profile-l1-1-0"@,
        88 => "api-ms-win-core-psapi-ansi-l1-1-0"@,
        89 => "api-ms-win-core-psapi-l1-1-0"@,
        90 => "api-ms-win-core-psapi-obsolete-l1-1-0"@,
        91 => "api-ms-win-core-psapiansi-l1-1-0"@,
        92 => "api-ms-win-core-psm-key-l1-1-3"@,
        93 => "api-ms-win-core-quirks-l1-1-1"@,
        94 => "api-ms-win-core-realtime-l1-1-2"@,
        95 => "api-ms-win-core-registry-l1-1-2"@,
        96 => "api-ms-win-core-registryuserspecific-l1-1-0"@,
        97 => "api-ms-win-core-rtlsupport-l1-1-1"@,
        98 => "api-ms-win-core-rtlsupport-l1-2-2"@,
        99 => "api-ms-win-core-shlwapi-legacy-l1-1-0"@,
        100 => "api-ms-win-core-shlwapi-obsolete-l1-1-0"@,
        101 => "api-ms-win-core-shlwapi-obsolete-l1-2-0"@,
        102 => "api-ms-win-core-sidebyside-ansi-l1-1-0"@,
        103 => "api-ms-win-core-sidebyside-l1-1-0"@,
        104 => "api-ms-win-core-state-helpers-l1-1-0"@,
        105 => "api-ms-win-core-string-l1-1-0"@,
        106 => "api-ms-win-core-string-l2-1-1"@,
        107 => "api-ms-win-core-string-obsolete-l1-1-1"@,
        108 => "api-ms-win-core-stringansi-l1-1-0"@,
        109 => "api-ms-win-core-stringloader-l1-1-1"@,
        110 => "api-ms-win-core-synch-ansi-l1-1-0"@,
        111 => "api-ms-win-core-synch-l1-1-1"@,
        112 => "api-ms-win-core-synch-l1-2-1"@,
        113 => "api-ms-win-core-sysinfo-l1-1-1"@,
        114 => "api-ms-win-core-sysinfo-l1-2-8"@,
        115 => "api-ms-win-core-systemtopology-l1-1-2"@,
        116 => "api-ms-win-core-threadpool-l1-1-0"@,
        117 => "api-ms-win-core-threadpool-l1-2-0"@,
        118 => "api-ms-win-core-threadpool-legacy-l1-1-0"@,
        119 => "api-ms-win-core-threadpool-private-l1-1-0"@,
        120 => "api-ms-win-core-timezone-l1-1-1"@,
        121 => "api-ms-win-core-timezone-private-l1-1-0"@,
        122 => "api-ms-win-core-toolhelp-l1-1-1"@,
        123 => "api-ms-win-core-ums-l1-1-0"@,
        124 => "api-ms-win-core-url-l1-1-0"@,
        125 => "api-ms-win-core-util-l1-1-1"@,
        126 => "api-ms-win-core-version-l1-1-1"@,
        127 => "api-ms-win-core-version-private-l1-1-0"@,
        128 => "api-ms-win-core-versionansi-l1-1-1"@,
        129 => "api-ms-win-core-windowsceip-l1-1-0"@,
        130 => "api-ms-win-core-windowserrorreporting-l1-1-3"@,
        131 => "api-ms-win-core-wow64-l1-1-3"@,
        132 => "api-ms-win-core-xstate-l1-1-3"@,
        133 => "api-ms-win-core-xstate-l2-1-2"@,
        134 => "api-ms-win-deprecated-apis-obsolete-l1-1-0"@,
        135 => "api-ms-win-downlevel-advapi32-l1-1-0"@,
        136 => "api-ms-win-downlevel-kernel32-l1-1-0"@,
        137 => "api-ms-win-downlevel-kernel32-l2-1-0"@,
        138 => "api-ms-win-downlevel-normaliz-l1-1-0"@,
        139 => "api-ms-win-downlevel-shlwapi-l1-1-0"@,
        140 => "api-ms-win-downlevel-user32-l1-1-0"@,
        141 => "api-ms-win-downlevel-version-l1-1-0"@,
        142 => "api-ms-win-eventing-classicprovider-l1-1-0"@,
        143 => "api-ms-win-eventing-provider-l1-1-0"@,
        144 => "api-ms-win-gaming-deviceinformation-l1-1-0"@,
        145 => "api-ms-win-http-time-l1-1-0"@,
        146 => "api-ms-win-legacy-shlwapi-l1-1-0"@,
        147 => "api-ms-win-mm-time-l1-1-0"@,
        148 => "api-ms-win-obsolete-localization-l1-1-0"@,
        149 => "api-ms-win-obsolete-psapi-l1-1-0"@,
        150 => "api-ms-win-obsolete-shlwapi-l1-1-0"@,
        151 => "api-ms-win-oobe-notification-l1-1-0"@,
        152 => "api-ms-win-security-activedirectoryclient-l1-1-1"@,
        153 => "api-ms-win-security-appcontainer-l1-1-0"@,
        154 => "api-ms-win-security-base-l1-1-1"@,
        155 => "api-ms-win-security-base-l1-2-2"@,
        156 => "api-ms-win-security-base-private-l1-1-2"@,
        157 => "api-ms-win-security-grouppolicy-l1-1-0"@,
        158 => "api-ms-win-shell-shellcom-l1-1-0"@,
        159 => "api-ms-win-stateseparation-helpers-l1-1-1"@,
        160 => "ext-ms-win-kernel32-appcompat-l1-1-0"@,
        161 => "ext-ms-win-kernel32-datetime-l1-1-0"@,
        162 => "ext-ms-win-kernel32-elevation-l1-1-0"@,
        163 => "ext-ms-win-kernel32-errorhandling-l1-1-0"@,
        164 => "ext-ms-win-kernel32-file-l1-1-0"@,
        165 => "ext-ms-win-kernel32-localization-l1-1-0"@,
        166 => "ext-ms-win-kernel32-process-l1-1-0"@,
        167 => "ext-ms-win-kernel32-quirks-l1-1-1"@,
        168 => "ext-ms-win-kernel32-registry-l1-1-0"@,
        169 => "ext-ms-win-kernel32-sidebyside-l1-1-0"@,
        170 => "ext-ms-win-kernel32-transacted-l1-1-0"@,
        171 => "ext-ms-win-kernel32-updateresource-l1-1-0"@,
        172 => "ext-ms-win-kernel32-windowserrorreporting-l1-1-1"@,
        173 => "ext-ms-win-kernelbase-processthread-l1-1-3"@,
        174 => "ext-ms-win-kernelbase-processthread-l1-2-0"@,
        _ => Seq::empty(),
    }
}

/// Host module of namespace `i`.
pub open spec fn apiset_module(i: int) -> KnownModule {
    match i as usize {
        0 => KnownModule::Ntdll,
        17 => KnownModule::Ntdll,
        97 => KnownModule::Ntdll,
        98 => KnownModule::Ntdll,
        132 => KnownModule::Ntdll,
        _ => KnownModule::Kernel32,
    }
}

/// Entry `i` of the routing table.
pub fn apiset_entry(i: usize) -> (r: (&'static str, KnownModule))
    requires
        i < APISET_LEN,
    ensures
        r.0@ == apiset_name(i as int),
        r.1 == apiset_module(i as int),
{
    match i as usize {
        0 => ("api-ms-win-core-apiquery-l1-1-2", KnownModule::Ntdll),
        1 => ("api-ms-win-core-apiquery-l2-1-1", KnownModule::Kernel32),
        2 => ("api-ms-win-core-appcompat-l1-1-1", KnownModule::Kernel32),
        3 => ("api-ms-win-core-appinit-l1-1-0", KnownModule::Kernel32),
        4 => ("api-ms-win-core-atoms-l1-1-0", KnownModule::Kernel32),
        5 => ("api-ms-win-core-backgroundtask-l1-1-0", KnownModule::Kernel32),
        6 => ("api-ms-win-core-calendar-l1-1-0", KnownModule::Kernel32),
        7 => ("api-ms-win-core-comm-l1-1-2", KnownModule::Kernel32),
        8 => ("api-ms-win-core-commandlinetoargv-l1-1-0", KnownModule::Kernel32),
        9 => ("api-ms-win-core-console-ansi-l2-1-0", KnownModule::Kernel32),
        10 => ("api-ms-win-core-console-internal-l1-1-0", KnownModule::Kernel32),
        11 => ("api-ms-win-core-console-l1-1-0", KnownModule::Kernel32),
        12 => ("api-ms-win-core-console-l1-2-2", KnownModule::Kernel32),
        13 => ("api-ms-win-core-console-l2-1-0", KnownModule::Kernel32),
        14 => ("api-ms-win-core-console-l2-2-0", KnownModule::Kernel32),
        15 => ("api-ms-win-core-console-l3-1-0", KnownModule::Kernel32),
        16 => ("api-ms-win-core-console-l3-2-0", KnownModule::Kernel32),
        17 => ("api-ms-win-core-crt-l1-1-0", KnownModule::Ntdll),
        18 => ("api-ms-win-core-crt-l2-1-0", KnownModule::Kernel32),
        19 => ("api-ms-win-core-datetime-l1-1-2", KnownModule::Kernel32),
        20 => ("api-ms-win-core-debug-l1-1-2", KnownModule::Kernel32),
        21 => ("api-ms-win-core-delayload-l1-1-1", KnownModule::Kernel32),
        22 => ("api-ms-win-core-enclave-l1-1-1", KnownModule::Kernel32),
        23 => ("api-ms-win-core-errorhandling-l1-1-3", KnownModule::Kernel32),
        24 => ("api-ms-win-core-featuretoggles-l1-1-0", KnownModule::Kernel32),
        25 => ("api-ms-win-core-fibers-l1-1-2", KnownModule::Kernel32),
        26 => ("api-ms-win-core-fibers-l2-1-1", KnownModule::Kernel32),
        27 => ("api-ms-win-core-file-ansi-l1-1-0", KnownModule::Kernel32),
        28 => ("api-ms-win-core-file-ansi-l2-1-0", KnownModule::Kernel32),
        29 => ("api-ms-win-core-file-fromapp-l1-1-0", KnownModule::Kernel32),
        30 => ("api-ms-win-core-file-l1-1-1", KnownModule::Kernel32),
        31 => ("api-ms-win-core-file-l1-2-5", KnownModule::Kernel32),
        32 => ("api-ms-win-core-file-l2-1-4", KnownModule::Kernel32),
        33 => ("api-ms-win-core-firmware-l1-1-0", KnownModule::Kernel32),
        34 => ("api-ms-win-core-guard-l1-1-0", KnownModule::Kernel32),
        35 => ("api-ms-win-core-handle-l1-1-0", KnownModule::Kernel32),
        36 => ("api-ms-win-core-heap-l1-1-0", KnownModule::Kernel32),
        37 => ("api-ms-win-core-heap-l1-2-0", KnownModule::Kernel32),
        38 => ("api-ms-win-core-heap-l2-1-0", KnownModule::Kernel32),
        39 => ("api-ms-win-core-heap-obsolete-l1-1-0", KnownModule::Kernel32),
        40 => ("api-ms-win-core-interlocked-l1-1-1", KnownModule::Kernel32),
        41 => ("api-ms-win-core-interlocked-l1-2-0", KnownModule::Kernel32),
        42 => ("api-ms-win-core-io-l1-1-1", KnownModule::Kernel32),
        43 => ("api-ms-win-core-ioring-l1-1-2", KnownModule::Kernel32),
        44 => ("api-ms-win-core-job-l1-1-0", KnownModule::Kernel32),
        45 => ("api-ms-win-core-job-l2-1-1", KnownModule::Kernel32),
        46 => ("api-ms-win-core-kernel32-legacy-ansi-l1-1-0", KnownModule::Kernel32),
        47 => ("api-ms-win-core-kernel32-legacy-l1-1-6", KnownModule::Kernel32),
        48 => ("api-ms-win-core-kernel32-private-l1-1-2", KnownModule::Kernel32),
        49 => ("api-ms-win-core-kernel32-private-l1-2-0", KnownModule::Kernel32),
        50 => ("api-ms-win-core-largeinteger-l1-1-0", KnownModule::Kernel32),
        51 => ("api-ms-win-core-libraryloader-l1-1-1", KnownModule::Kernel32),
        52 => ("api-ms-win-core-libraryloader-l1-2-3", KnownModule::Kernel32),
        53 => ("api-ms-win-core-libraryloader-l2-1-0", KnownModule::Kernel32),
        54 => ("api-ms-win-core-libraryloader-private-l1-1-0", KnownModule::Kernel32),
        55 => ("api-ms-win-core-localization-ansi-l1-1-0", KnownModule::Kernel32),
        56 => ("api-ms-win-core-localization-l1-1-0", KnownModule::Kernel32),
        57 => ("api-ms-win-core-localization-l1-2-4", KnownModule::Kernel32),
        58 => ("api-ms-win-core-localization-l2-1-0", KnownModule::Kernel32),
        59 => ("api-ms-win-core-localization-obsolete-l1-1-0", KnownModule::Kernel32),
        60 => ("api-ms-win-core-localization-obsolete-l1-2-0", KnownModule::Kernel32),
        61 => ("api-ms-win-core-localization-obsolete-l1-3-0", KnownModule::Kernel32),
        62 => ("api-ms-win-core-localization-private-l1-1-0", KnownModule::Kernel32),
        63 => ("api-ms-win-core-localregistry-l1-1-0", KnownModule::Kernel32),
        64 => ("api-ms-win-core-memory-l1-1-9", KnownModule::Kernel32),
        65 => ("api-ms-win-core-misc-l1-1-0", KnownModule::Kernel32),
        66 => ("api-ms-win-core-namedpipe-ansi-l1-1-1", KnownModule::Kernel32),
        67 => ("api-ms-win-core-namedpipe-l1-1-0", KnownModule::Kernel32),
        68 => ("api-ms-win-core-namedpipe-l1-2-2", KnownModule::Kernel32),
        69 => ("api-ms-win-core-namespace-ansi-l1-1-0", KnownModule::Kernel32),
        70 => ("api-ms-win-core-namespace-l1-1-0", KnownModule::Kernel32),
        71 => ("api-ms-win-core-normalization-l1-1-0", KnownModule::Kernel32),
        72 => ("api-ms-win-core-path-l1-1-0", KnownModule::Kernel32),
        73 => ("api-ms-win-core-pcw-l1-1-0", KnownModule::Kernel32),
        74 => ("api-ms-win-core-perfcounters-l1-1-0", KnownModule::Kernel32),
        75 => ("api-ms-win-core-perfcounters-l1-2-0", KnownModule::Kernel32),
        76 => ("api-ms-win-core-privateprofile-l1-1-1", KnownModule::Kernel32),
        77 => ("api-ms-win-core-processenvironment-ansi-l1-1-0", KnownModule::Kernel32),
        78 => ("api-ms-win-core-processenvironment-l1-1-1", KnownModule::Kernel32),
        79 => ("api-ms-win-core-processenvironment-l1-2-0", KnownModule::Kernel32),
        80 => ("api-ms-win-core-processsecurity-l1-1-0", KnownModule::Kernel32),
        81 => ("api-ms-win-core-processsnapshot-l1-1-0", KnownModule::Kernel32),
        82 => ("api-ms-win-core-processthreads-l1-1-8", KnownModule::Kernel32),
        83 => ("api-ms-win-core-processtopology-l1-1-0", KnownModule::Kernel32),
        84 => ("api-ms-win-core-processtopology-l1-2-0", KnownModule::Kernel32),
        85 => ("api-ms-win-core-processtopology-obsolete-l1-1-1", KnownModule::Kernel32),
        86 => ("api-ms-win-core-processtopology-private-l1-1-0", KnownModule::Kernel32),
        87 => ("api-ms-win-core-profile-l1-1-0", KnownModule::Kernel32),
        88 => ("api-ms-win-core-psapi-ansi-l1-1-0", KnownModule::Kernel32),
        89 => ("api-ms-win-core-psapi-l1-1-0", KnownModule::Kernel32),
        90 => ("api-ms-win-core-psapi-obsolete-l1-1-0", KnownModule::Kernel32),
        91 => ("api-ms-win-core-psapiansi-l1-1-0", KnownModule::Kernel32),
        92 => ("api-ms-win-core-psm-key-l1-1-3", KnownModule::Kernel32),
        93 => ("api-ms-win-core-quirks-l1-1-1", KnownModule::Kernel32),
        94 => ("api-ms-win-core-realtime-l1-1-2", KnownModule::Kernel32),
        95 => ("api-ms-win-core-registry-l1-1-2", KnownModule::Kernel32),
        96 => ("api-ms-win-core-registryuserspecific-l1-1-0", KnownModule::Kernel32),
        97 => ("api-ms-win-core-rtlsupport-l1-1-1", KnownModule::Ntdll),
        98 => ("api-ms-win-core-rtlsupport-l1-2-2", KnownModule::Ntdll),
        99 => ("api-ms-win-core-shlwapi-legacy-l1-1-0", KnownModule::Kernel32),
        100 => ("api-ms-win-core-shlwapi-obsolete-l1-1-0", KnownModule::Kernel32),
        101 => ("api-ms-win-core-shlwapi-obsolete-l1-2-0", KnownModule::Kernel32),
        102 => ("api-ms-win-core-sidebyside-ansi-l1-1-0", KnownModule::Kernel32),
        103 => ("api-ms-win-core-sidebyside-l1-1-0", KnownModule::Kernel32),
        104 => ("api-ms-win-core-state-helpers-l1-1-0", KnownModule::Kernel32),
        105 => ("api-ms-win-core-string-l1-1-0", KnownModule::Kernel32),
        106 => ("api-ms-win-core-string-l2-1-1", KnownModule::Kernel32),
        107 => ("api-ms-win-core-string-obsolete-l1-1-1", KnownModule::Kernel32),
        108 => ("api-ms-win-core-stringansi-l1-1-0", KnownModule::Kernel32),
        109 => ("api-ms-win-core-stringloader-l1-1-1", KnownModule::Kernel32),
        110 => ("api-ms-win-core-synch-ansi-l1-1-0", KnownModule::Kernel32),
        111 => ("api-ms-win-core-synch-l1-1-1", KnownModule::Kernel32),
        112 => ("api-ms-win-core-synch-l1-2-1", KnownModule::Kernel32),
        113 => ("api-ms-win-core-sysinfo-l1-1-1", KnownModule::Kernel32),
        114 => ("api-ms-win-core-sysinfo-l1-2-8", KnownModule::Kernel32),
        115 => ("api-ms-win-core-systemtopology-l1-1-2", KnownModule::Kernel32),
        116 => ("api-ms-win-core-threadpool-l1-1-0", KnownModule::Kernel32),
        117 => ("api-ms-win-core-threadpool-l1-2-0", KnownModule::Kernel32),
        118 => ("api-ms-win-core-threadpool-legacy-l1-1-0", KnownModule::Kernel32),
        119 => ("api-ms-win-core-threadpool-private-l1-1-0", KnownModule::Kernel32),
        120 => ("api-ms-win-core-timezone-l1-1-1", KnownModule::Kernel32),
        121 => ("api-ms-win-core-timezone-private-l1-1-0", KnownModule::Kernel32),
        122 => ("api-ms-win-core-toolhelp-l1-1-1", KnownModule::Kernel32),
        123 => ("api-ms-win-core-ums-l1-1-0", KnownModule::Kernel32),
        124 => ("api-ms-win-core-url-l1-1-0", KnownModule::Kernel32),
        125 => ("api-ms-win-core-util-l1-1-1", KnownModule::Kernel32),
        126 => ("api-ms-win-core-version-l1-1-1", KnownModule::Kernel32),
        127 => ("api-ms-win-core-version-private-l1-1-0", KnownModule::Kernel32),
        128 => ("api-ms-win-core-versionansi-l1-1-1", KnownModule::Kernel32),
        129 => ("api-ms-win-core-windowsceip-l1-1-0", KnownModule::Kernel32),
        130 => ("api-ms-win-core-windowserrorreporting-l1-1-3", KnownModule::Kernel32),
        131 => ("api-ms-win-core-wow64-l1-1-3", KnownModule::Kernel32),
        132 => ("api-ms-win-core-xstate-l1-1-3", KnownModule::Ntdll),
        133 => ("api-ms-win-core-xstate-l2-1-2", KnownModule::Kernel32),
        134 => ("api-ms-win-deprecated-apis-obsolete-l1-1-0", KnownModule::Kernel32),
        135 => ("api-ms-win-downlevel-advapi32-l1-1-0", KnownModule::Kernel32),
        136 => ("api-ms-win-downlevel-kernel32-l1-1-0", KnownModule::Kernel32),
        137 => ("api-ms-win-downlevel-kernel32-l2-1-0", KnownModule::Kernel32),
        138 => ("api-ms-win-downlevel-normaliz-l1-1-0", KnownModule::Kernel32),
        139 => ("api-ms-win-downlevel-shlwapi-l1-1-0", KnownModule::Kernel32),
        140 => ("api-ms-win-downlevel-user32-l1-1-0", KnownModule::Kernel32),
        141 => ("api-ms-win-downlevel-version-l1-1-0", KnownModule::Kernel32),
        142 => ("api-ms-win-eventing-classicprovider-l1-1-0", KnownModule::Kernel32),
        143 => ("api-ms-win-eventing-provider-l1-1-0", KnownModule::Kernel32),
        144 => ("api-ms-win-gaming-deviceinformation-l1-1-0", KnownModule::Kernel32),
        145 => ("api-ms-win-http-time-l1-1-0", KnownModule::Kernel32),
        146 => ("api-ms-win-legacy-shlwapi-l1-1-0", KnownModule::Kernel32),
        147 => ("api-ms-win-mm-time-l1-1-0", KnownModule::Kernel32),
        148 => ("api-ms-win-obsolete-localization-l1-1-0", KnownModule::Kernel32),
        149 => ("api-ms-win-obsolete-psapi-l1-1-0", KnownModule::Kernel32),
        150 => ("api-ms-win-obsolete-shlwapi-l1-1-0", KnownModule::Kernel32),
        151 => ("api-ms-win-oobe-notification-l1-1-0", KnownModule::Kernel32),
        152 => ("api-ms-win-security-activedirectoryclient-l1-1-1", KnownModule::Kernel32),
        153 => ("api-ms-win-security-appcontainer-l1-1-0", KnownModule::Kernel32),
        154 => ("api-ms-win-security-base-l1-1-1", KnownModule::Kernel32),
        155 => ("api-ms-win-security-base-l1-2-2", KnownModule::Kernel32),
        156 => ("api-ms-win-security-base-private-l1-1-2", KnownModule::Kernel32),
        157 => ("api-ms-win-security-grouppolicy-l1-1-0", KnownModule::Kernel32),
        158 => ("api-ms-win-shell-shellcom-l1-1-0", KnownModule::Kernel32),
        159 => ("api-ms-win-stateseparation-helpers-l1-1-1", KnownModule::Kernel32),
        160 => ("ext-ms-win-kernel32-appcompat-l1-1-0", KnownModule::Kernel32),
        161 => ("ext-ms-win-kernel32-datetime-l1-1-0", KnownModule::Kernel32),
        162 => ("ext-ms-win-kernel32-elevation-l1-1-0", KnownModule::Kernel32),
        163 => ("ext-ms-win-kernel32-errorhandling-l1-1-0", KnownModule::Kernel32),
        164 => ("ext-ms-win-kernel32-file-l1-1-0", KnownModule::Kernel32),
        165 => ("ext-ms-win-kernel32-localization-l1-1-0", KnownModule::Kernel32),
        166 => ("ext-ms-win-kernel32-process-l1-1-0", KnownModule::Kernel32),
        167 => ("ext-ms-win-kernel32-quirks-l1-1-1", KnownModule::Kernel32),
        168 => ("ext-ms-win-kernel32-registry-l1-1-0", KnownModule::Kernel32),
        169 => ("ext-ms-win-kernel32-sidebyside-l1-1-0", KnownModule::Kernel32),
        170 => ("ext-ms-win-kernel32-transacted-l1-1-0", KnownModule::Kernel32),
        171 => ("ext-ms-win-kernel32-updateresource-l1-1-0", KnownModule::Kernel32),
        172 => ("ext-ms-win-kernel32-windowserrorreporting-l1-1-1", KnownModule::Kernel32),
        173 => ("ext-ms-win-kernelbase-processthread-l1-1-3", KnownModule::Kernel32),
        174 => ("ext-ms-win-kernelbase-processthread-l1-2-0", KnownModule::Kernel32),
        _ => ("", KnownModule::Kernel32),
    }
}

} // verus!
