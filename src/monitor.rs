//! Decisions of the integrity monitor.
//!
//! The probes themselves (the trace-attach denial, the process-information
//! query, the process listing) are made by the caller; this module turns their
//! raw results into detection verdicts and the monitor's reaction.
use crate::framing::le_u32_at;
use vstd::prelude::*;
use vstd::std_specs::iter::IteratorSpec;

verus! {

/// Cadence of the background loop, in milliseconds.
pub const POLL_INTERVAL_MS: u64 = 1000;

/// Name of the signal on which the on-demand check runs.
pub const INTEGRITY_SIGNAL: &'static str = "check_integrity";

/// Offset of the process flags word inside the process-information record.
pub const PROC_FLAGS_OFFSET: usize = 0x68;

/// The "being traced" bit of the process flags word.
pub const TRACED_FLAG: u32 = 0x800;

/// Status returned by a trace-attach denial that failed.
pub const DENY_FAILED_STATUS: i32 = -1;

/// What the platform's debugger probes observed.
#[derive(Debug)]
pub enum DebugProbe {
    /// The platform offers no trace-attach prevention: detection is
    /// conservatively reported as positive.
    Unsupported,
    /// Native probes: the status of the second trace-attach denial, and the
    /// process-information record (`None` when the query failed).
    Native { deny_attach_status: i32, proc_info: Option<Vec<u8>> },
}

/// Whether the record carries the "being traced" bit in its (little-endian)
/// flags word; a record too short to hold the word carries no flag.
pub open spec fn traced_bit_set(info: Seq<u8>) -> bool {
    info.len() >= PROC_FLAGS_OFFSET + 4 && (le_u32_at(info, PROC_FLAGS_OFFSET as int) / 2048)
        % 2 == 1
}

/// The debugger verdict for what the probes observed.
pub open spec fn debugger_verdict(probe: DebugProbe) -> bool {
    match probe {
        DebugProbe::Unsupported => true,
        DebugProbe::Native { deny_attach_status, proc_info } => deny_attach_status
            == DENY_FAILED_STATUS || match proc_info {
            Some(info) => traced_bit_set(info@),
            None => false,
        },
    }
}

/// Reads the flags word of a process-information record and tests its
/// "being traced" bit.
pub fn traced_flag_set(info: &[u8]) -> (r: bool)
    ensures
        r == traced_bit_set(info@),
{
    if info.len() < PROC_FLAGS_OFFSET + 4 {
        return false;
    }
    let flags: u32 = info[PROC_FLAGS_OFFSET] as u32 + 256 * (info[PROC_FLAGS_OFFSET + 1] as u32)
        + 65536 * (info[PROC_FLAGS_OFFSET + 2] as u32) + 16777216 * (info[PROC_FLAGS_OFFSET
        + 3] as u32);
    (flags / TRACED_FLAG) % 2 == 1
}

/// Debugger detection: positive when a second trace-attach denial failed (a
/// tracer is attached), when the process flags carry the "being traced" bit,
/// or always on a platform without the native primitive.
pub fn detect_debugger(probe: &DebugProbe) -> (r: bool)
    ensures
        r == debugger_verdict(*probe),
{
    match probe {
        DebugProbe::Unsupported => true,
        DebugProbe::Native { deny_attach_status, proc_info } => {
            if *deny_attach_status == DENY_FAILED_STATUS {
                return true;
            }
            match proc_info {
                Some(info) => traced_flag_set(info.as_slice()),
                None => false,
            }
        },
    }
}

/// The reverse-engineering and debugging tools that the monitor looks for.
pub open spec fn denylist() -> Seq<Seq<char>> {
    seq![
        "Binary Ninja"@,
        "Hopper"@,
        "ida64"@,
        "ida32"@,
        "Ghidra"@,
        "lldb"@,
        "gdb"@,
        "radare2"@,
        "strace"@,
        "dtrace"@,
    ]
}

/// Number of denylisted names.
pub const DENYLIST_LEN: usize = 10;

/// Whether `needle` occurs in `hay` as a contiguous run.
pub open spec fn occurs_in(needle: Seq<char>, hay: Seq<char>) -> bool {
    exists|i: int| 0 <= i && i + needle.len() <= hay.len() && #[trigger] hay.subrange(i, i + needle.len()) == needle
}

/// Whether a process listing names at least one denylisted tool.
pub open spec fn listing_suspicious(listing: Seq<char>) -> bool {
    exists|k: int| 0 <= k < denylist().len() && occurs_in(#[trigger] denylist()[k], listing)
}

/// The `k`-th denylisted name.
pub fn denylisted_name(k: usize) -> (r: &'static str)
    requires
        k < DENYLIST_LEN,
    ensures
        r@ == denylist()[k as int],
{
    match k {
        0 => "Binary Ninja",
        1 => "Hopper",
        2 => "ida64",
        3 => "ida32",
        4 => "Ghidra",
        5 => "lldb",
        6 => "gdb",
        7 => "radare2",
        8 => "strace",
        _ => "dtrace",
    }
}

/// The characters of `s`, in order.
pub fn chars_of(s: &str) -> (r: Vec<char>)
    ensures
        r@ == s@,
{
    broadcast use vstd::string::axiom_spec_iter, vstd::string::next_postcondition;

    let mut it = s.chars();
    let mut out: Vec<char> = Vec::new();
    loop
        invariant
            it.obeys_prophetic_iter_laws(),
            it.decrease() is Some,
            out@ + it.remaining() == s@,
        ensures
            out@ == s@,
        decreases it.decrease()->0,
    {
        match it.next() {
            Some(c) => {
                out.push(c);
            },
            None => {
                assert(out@ + it.remaining() =~= out@);
                break;
            },
        }
    }
    out
}

/// Whether `needle` occurs in `hay` starting at `i`.
pub(crate) fn occurs_at(needle: &Vec<char>, hay: &Vec<char>, i: usize) -> (r: bool)
    requires
        i + needle@.len() <= hay@.len(),
    ensures
        r == (hay@.subrange(i as int, i + needle@.len()) == needle@),
{
    let hay_len = hay.len();
    let mut j: usize = 0;
    while j < needle.len()
        invariant
            hay_len == hay@.len(),
            j <= needle@.len(),
            i + needle@.len() <= hay@.len(),
            forall|t: int| 0 <= t < j ==> hay@[i + t] == needle@[t],
        decreases needle@.len() - j,
    {
        if hay[i + j] != needle[j] {
            assert(hay@.subrange(i as int, i + needle@.len())[j as int] != needle@[j as int]);
            return false;
        }
        j = j + 1;
    }
    assert(hay@.subrange(i as int, i + needle@.len()) =~= needle@);
    true
}

/// Whether `needle` occurs anywhere in `hay`.
pub fn contains_chars(hay: &Vec<char>, needle: &Vec<char>) -> (r: bool)
    ensures
        r == occurs_in(needle@, hay@),
{
    if needle.len() > hay.len() {
        return false;
    }
    let last: usize = hay.len() - needle.len();
    let mut i: usize = 0;
    while i <= last
        invariant
            i <= last,
            last + needle@.len() == hay@.len(),
            forall|t: int| 0 <= t < i ==> #[trigger] hay@.subrange(t, t + needle@.len()) != needle@,
        decreases last + 1 - i,
    {
        if occurs_at(needle, hay, i) {
            return true;
        }
        if i == last {
            return false;
        }
        i = i + 1;
    }
    false
}

/// Suspicious-tool detection on a process listing: positive exactly when the
/// listing holds one of the denylisted names as a substring.
pub fn listing_is_suspicious(listing: &str) -> (r: bool)
    ensures
        r == listing_suspicious(listing@),
{
    let hay = chars_of(listing);
    let mut k: usize = 0;
    while k < DENYLIST_LEN
        invariant
            k <= DENYLIST_LEN,
            hay@ == listing@,
            forall|t: int| 0 <= t < k ==> !occurs_in(#[trigger] denylist()[t], listing@),
        decreases DENYLIST_LEN - k,
    {
        let needle = chars_of(denylisted_name(k));
        if contains_chars(&hay, &needle) {
            return true;
        }
        k = k + 1;
    }
    false
}

/// Suspicious-tool detection on the outcome of listing the processes: a
/// listing that could not be obtained counts as clean.
pub fn check_environment(listing: Option<&str>) -> (r: bool)
    ensures
        r == match listing {
            Some(s) => listing_suspicious(s@),
            None => false,
        },
{
    match listing {
        Some(s) => listing_is_suspicious(s),
        None => false,
    }
}

/// The outcome of one detection round.
#[derive(Debug, Clone, Copy, PartialEq, Eq, Structural)]
pub struct DetectionResult {
    pub debugger_attached: bool,
    pub suspicious_tool: bool,
}

/// What the monitor does after a detection round.
#[derive(Debug, Clone, Copy, PartialEq, Eq, Structural)]
pub enum MonitorAction {
    /// Nothing was detected: keep running.
    Continue,
    /// Something was detected: report, flush output and exit with status 1.
    Terminate,
}

/// Exit status of a process terminated on detection.
pub const VIOLATION_EXIT_CODE: i32 = 1;

/// Whether a round found either kind of violation.
pub open spec fn is_violation_spec(r: DetectionResult) -> bool {
    r.debugger_attached || r.suspicious_tool
}

impl DetectionResult {
    /// Whether either detection was positive (fail-closed OR).
    pub fn is_violation(&self) -> (r: bool)
        ensures
            r == is_violation_spec(*self),
    {
        self.debugger_attached || self.suspicious_tool
    }
}

/// One detection round, shared by the background loop and the on-demand
/// check: both detections on what the probes observed.
pub fn run_detection(probe: &DebugProbe, listing: Option<&str>) -> (r: DetectionResult)
    ensures
        r.debugger_attached == debugger_verdict(*probe),
        r.suspicious_tool == match listing {
            Some(s) => listing_suspicious(s@),
            None => false,
        },
{
    DetectionResult {
        debugger_attached: detect_debugger(probe),
        suspicious_tool: check_environment(listing),
    }
}

/// The monitor's reaction: terminate on any violation, else continue.
pub fn react(result: &DetectionResult) -> (r: MonitorAction)
    ensures
        r == (if is_violation_spec(*result) {
            MonitorAction::Terminate
        } else {
            MonitorAction::Continue
        }),
{
    if result.is_violation() {
        MonitorAction::Terminate
    } else {
        MonitorAction::Continue
    }
}

/// Detection reads only what the probes observed: two rounds on the same
/// observations reach the same verdicts.
pub proof fn lemma_detection_deterministic(
    a: DebugProbe,
    b: DebugProbe,
    listing_a: Option<Seq<char>>,
    listing_b: Option<Seq<char>>,
)
    requires
        a == b,
        listing_a == listing_b,
    ensures
        debugger_verdict(a) == debugger_verdict(b),
        match listing_a {
            Some(s) => listing_suspicious(s),
            None => false,
        } == match listing_b {
            Some(s) => listing_suspicious(s),
            None => false,
        },
{
}

/// An empty listing names no tool.
pub proof fn lemma_empty_listing_clean()
    ensures
        !listing_suspicious(Seq::<char>::empty()),
{
    reveal_strlit("Binary Ninja");
    reveal_strlit("Hopper");
    reveal_strlit("ida64");
    reveal_strlit("ida32");
    reveal_strlit("Ghidra");
    reveal_strlit("lldb");
    reveal_strlit("gdb");
    reveal_strlit("radare2");
    reveal_strlit("strace");
    reveal_strlit("dtrace");
    assert forall|k: int| 0 <= k < denylist().len() implies !occurs_in(
        #[trigger] denylist()[k],
        Seq::<char>::empty(),
    ) by {
        assert(denylist()[k].len() > 0);
    }
}

} // verus!
