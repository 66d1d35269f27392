//! Lifecycle manager: terminates processes by pid, politely or with bounded
//! retries, and classifies file-lock probes.
//!
//! Sleeping between retry attempts cannot happen here, so the forced kill is
//! a bounded state machine: the caller performs each returned action (probe,
//! signal, wait) and feeds the observed outcome back in.  The machine itself
//! guarantees the attempt and wait budgets.

use vstd::prelude::*;

verus! {

// ---------------------------------------------------------------------------
// Polite kill
// ---------------------------------------------------------------------------

/// What came of handing a termination signal to the operating system.
#[derive(PartialEq, Eq, Structural, Clone, Copy, Debug)]
pub enum SignalOutcome {
    /// The pid was not in the fresh snapshot: the process is already gone.
    Absent,
    /// The signal was sent successfully.
    Accepted,
    /// The OS refused the signal, commonly for want of privilege.
    Refused,
}

#[derive(PartialEq, Eq, Structural, Clone, Copy, Debug)]
pub enum KillError {
    /// The OS denied the termination signal.
    PermissionDenied { pid: u32 },
    /// Every attempt was spent and the process may still be running.
    StillRunning { pid: u32 },
}

/// Relies on sysinfo::System::refresh_processes and sysinfo::Process::kill:
/// the snapshot is fresh, and `kill` returns whether the signal was sent.
/// Two calls on one pid may differ; nothing is promised of the outcome.
#[verifier::external_body]
fn send_kill_signal(pid: u32) -> SignalOutcome {
    let mut sys = sysinfo::System::new_with_specifics(
        sysinfo::RefreshKind::nothing().with_processes(sysinfo::ProcessRefreshKind::everything()),
    );
    sys.refresh_processes(sysinfo::ProcessesToUpdate::All, true);
    match sys.process(sysinfo::Pid::from_u32(pid)) {
        Some(p) => {
            if p.kill() {
                SignalOutcome::Accepted
            } else {
                SignalOutcome::Refused
            }
        },
        None => SignalOutcome::Absent,
    }
}

/// The result a polite kill owes for each signal outcome: a process that is
/// already gone is a success, not an error — the objective "the process is
/// not running" is already met.
pub fn kill_decision(pid: u32, outcome: SignalOutcome) -> (r: Result<(), KillError>)
    ensures
        outcome is Absent ==> r is Ok,
        outcome is Accepted ==> r is Ok,
        outcome is Refused ==> r == Result::<(), KillError>::Err(
            KillError::PermissionDenied { pid },
        ),
{
    match outcome {
        SignalOutcome::Absent => Ok(()),
        SignalOutcome::Accepted => Ok(()),
        SignalOutcome::Refused => Err(KillError::PermissionDenied { pid }),
    }
}

/// Issues a single termination signal, best effort.  Whatever the OS
/// answered, the result is a success or a permission error for this pid.
pub fn kill_process(pid: u32) -> (r: Result<(), KillError>)
    ensures
        r is Ok || r == Result::<(), KillError>::Err(KillError::PermissionDenied { pid }),
{
    let outcome = send_kill_signal(pid);
    kill_decision(pid, outcome)
}

/// Politely kills each pid in turn; one pid's failure never aborts the batch.
pub fn kill_processes(pids: &Vec<u32>) -> (r: Vec<(u32, Result<(), KillError>)>)
    ensures
        r@.len() == pids@.len(),
        forall|i: int| 0 <= i < r@.len() ==> (#[trigger] r@[i]).0 == pids@[i],
        forall|i: int|
            0 <= i < r@.len() ==> ((#[trigger] r@[i]).1 is Ok || r@[i].1 == Result::<
                (),
                KillError,
            >::Err(KillError::PermissionDenied { pid: pids@[i] })),
{
    let mut r: Vec<(u32, Result<(), KillError>)> = Vec::new();
    let mut i: usize = 0;
    while i < pids.len()
        invariant
            0 <= i <= pids@.len(),
            r@.len() == i,
            forall|m: int| 0 <= m < i ==> (#[trigger] r@[m]).0 == pids@[m],
            forall|m: int|
                0 <= m < i ==> ((#[trigger] r@[m]).1 is Ok || r@[m].1 == Result::<
                    (),
                    KillError,
                >::Err(KillError::PermissionDenied { pid: pids@[m] })),
        decreases pids@.len() - i,
    {
        let pid = pids[i];
        let res = kill_process(pid);
        r.push((pid, res));
        i = i + 1;
    }
    r
}

// ---------------------------------------------------------------------------
// Forced kill: a bounded state machine
// ---------------------------------------------------------------------------

#[derive(PartialEq, Eq, Structural, Clone, Copy, Debug)]
pub enum KillPhase {
    /// Look the pid up before anything is sent.
    Checking,
    /// A termination signal is due.
    Signaling,
    /// A signal was accepted; wait briefly, then re-check existence.
    Verifying,
    Succeeded,
    Failed,
}

/// The next thing the driver of a forced kill must do.
#[derive(PartialEq, Eq, Structural, Clone, Copy, Debug)]
pub enum KillAction {
    /// Check whether the pid is in a fresh snapshot.
    ProbeExistence,
    /// Wait `wait_ms`, then send the termination signal.
    SendSignalAfterWait { wait_ms: u16 },
    /// Wait `wait_ms`, then re-check whether the pid is gone.
    VerifyAfterWait { wait_ms: u16 },
    /// The run is over.
    Report { success: bool },
}

/// A forced kill in progress: up to three signal attempts, each verified
/// after a short wait, with a longer wait between attempts.
#[derive(PartialEq, Eq, Structural, Clone, Copy)]
pub struct ForcedKill {
    pub phase: KillPhase,
    /// The attempt now in progress, 1 to 3.
    pub attempt: u8,
    /// Signals handed to the OS so far.
    pub signals_sent: u8,
    /// Waiting the driver was asked to perform so far, in milliseconds.
    pub slept_ms: u16,
    /// Whether the run failed because the OS refused the final signal,
    /// rather than because the process outlived every attempt.
    pub denied: bool,
}

impl ForcedKill {
    /// The machine never leaves these bounds; they are what caps a forced
    /// kill at three signals and 3.5 s of waiting.
    pub open spec fn wf(self) -> bool {
        &&& 1 <= self.attempt <= 3
        &&& match self.phase {
            KillPhase::Checking => self.attempt == 1 && self.signals_sent == 0 && self.slept_ms
                == 0,
            KillPhase::Signaling => self.signals_sent == self.attempt - 1 && self.slept_ms <= 1500
                * (self.attempt - 1),
            KillPhase::Verifying => self.signals_sent == self.attempt && self.slept_ms <= 1500
                * self.attempt - 1000,
            KillPhase::Succeeded => self.signals_sent <= 3 && self.slept_ms <= 3500,
            KillPhase::Failed => self.signals_sent <= 3 && self.slept_ms <= 3500,
        }
    }

    pub fn new() -> (m: ForcedKill)
        ensures
            m.wf(),
            m.phase is Checking,
            m.signals_sent == 0,
            m.slept_ms == 0,
    {
        ForcedKill {
            phase: KillPhase::Checking,
            attempt: 1,
            signals_sent: 0,
            slept_ms: 0,
            denied: false,
        }
    }

    /// What the driver must do next, a pure function of the state.
    pub fn next_action(&self) -> (a: KillAction)
        requires
            self.wf(),
        ensures
            self.phase is Checking ==> a is ProbeExistence,
            self.phase is Signaling ==> a == (KillAction::SendSignalAfterWait {
                wait_ms: if self.attempt == 1 { 0u16 } else { 1000u16 },
            }),
            self.phase is Verifying ==> a == (KillAction::VerifyAfterWait { wait_ms: 500u16 }),
            self.phase is Succeeded ==> a == (KillAction::Report { success: true }),
            self.phase is Failed ==> a == (KillAction::Report { success: false }),
    {
        match self.phase {
            KillPhase::Checking => KillAction::ProbeExistence,
            KillPhase::Signaling => KillAction::SendSignalAfterWait {
                wait_ms: if self.attempt == 1 { 0 } else { 1000 },
            },
            KillPhase::Verifying => KillAction::VerifyAfterWait { wait_ms: 500 },
            KillPhase::Succeeded => KillAction::Report { success: true },
            KillPhase::Failed => KillAction::Report { success: false },
        }
    }

    /// Feeds back the existence probe.  A pid that is already absent
    /// succeeds immediately: no signal is sent and no wait is scheduled.
    pub fn on_exists(&mut self, exists: bool)
        requires
            old(self).wf(),
            old(self).phase is Checking,
        ensures
            final(self).wf(),
            !exists ==> final(self).phase is Succeeded && final(self).signals_sent == 0 && final(self).slept_ms == 0,
            exists ==> final(self).phase is Signaling && final(self).attempt == 1,
    {
        if exists {
            self.phase = KillPhase::Signaling;
        } else {
            self.phase = KillPhase::Succeeded;
        }
    }

    /// Feeds back the outcome of one signal.  An absent process succeeds; an
    /// accepted signal moves on to verification; a refused signal retries
    /// until the attempts are spent, then fails.
    pub fn on_signal(&mut self, outcome: SignalOutcome)
        requires
            old(self).wf(),
            old(self).phase is Signaling,
        ensures
            final(self).wf(),
            outcome is Absent ==> final(self).phase is Succeeded && final(self).signals_sent == old(self).signals_sent,
            outcome is Accepted ==> final(self).phase is Verifying && final(self).signals_sent
                == old(self).signals_sent + 1,
            outcome is Refused && old(self).attempt == 3 ==> final(self).phase is Failed && final(self).denied,
            outcome is Refused && old(self).attempt < 3 ==> final(self).phase is Signaling && final(self).attempt == old(self).attempt + 1,
            final(self).signals_sent <= old(self).signals_sent + 1,
    {
        match outcome {
            SignalOutcome::Absent => {
                self.phase = KillPhase::Succeeded;
            },
            SignalOutcome::Accepted => {
                self.signals_sent = self.signals_sent + 1;
                self.slept_ms = self.slept_ms + 500;
                self.phase = KillPhase::Verifying;
            },
            SignalOutcome::Refused => {
                self.signals_sent = self.signals_sent + 1;
                if self.attempt == 3 {
                    self.phase = KillPhase::Failed;
                    self.denied = true;
                } else {
                    self.attempt = self.attempt + 1;
                    self.slept_ms = self.slept_ms + 1000;
                }
            },
        }
    }

    /// Feeds back the post-signal existence check.  A confirmed exit
    /// succeeds; otherwise the next attempt begins, until the attempts are
    /// spent.
    pub fn on_verify(&mut self, gone: bool)
        requires
            old(self).wf(),
            old(self).phase is Verifying,
        ensures
            final(self).wf(),
            gone ==> final(self).phase is Succeeded,
            !gone && old(self).attempt == 3 ==> final(self).phase is Failed && final(self).denied
                == old(self).denied,
            !gone && old(self).attempt < 3 ==> final(self).phase is Signaling && final(self).attempt
                == old(self).attempt + 1,
    {
        if gone {
            self.phase = KillPhase::Succeeded;
        } else if self.attempt == 3 {
            self.phase = KillPhase::Failed;
        } else {
            self.attempt = self.attempt + 1;
            self.slept_ms = self.slept_ms + 1000;
            self.phase = KillPhase::Signaling;
        }
    }

    /// The final verdict, once a terminal phase is reached: a refused final
    /// signal reports the permission failure, an outlived run reports that
    /// the process may still be running.
    pub fn outcome(&self, pid: u32) -> (r: Option<Result<(), KillError>>)
        ensures
            self.phase is Succeeded ==> r == Some(Result::<(), KillError>::Ok(())),
            self.phase is Failed && self.denied ==> r == Some(
                Result::<(), KillError>::Err(KillError::PermissionDenied { pid }),
            ),
            self.phase is Failed && !self.denied ==> r == Some(
                Result::<(), KillError>::Err(KillError::StillRunning { pid }),
            ),
            !(self.phase is Succeeded) && !(self.phase is Failed) ==> r is None,
    {
        match self.phase {
            KillPhase::Succeeded => Some(Ok(())),
            KillPhase::Failed => {
                if self.denied {
                    Some(Err(KillError::PermissionDenied { pid }))
                } else {
                    Some(Err(KillError::StillRunning { pid }))
                }
            },
            _ => None,
        }
    }
}

/// However a forced kill is driven, it issues at most three signals and
/// schedules at most 3×500 ms + 2×1000 ms = 3.5 s of waiting.
pub proof fn lemma_forced_kill_bounded(m: ForcedKill)
    requires
        m.wf(),
    ensures
        m.signals_sent <= 3,
        m.slept_ms <= 3500,
{
}

// ---------------------------------------------------------------------------
// Lock detection decisions
// ---------------------------------------------------------------------------

/// What came of opening the target for writing.
#[derive(PartialEq, Eq, Structural, Clone, Copy)]
pub enum OpenOutcome {
    Opened,
    NotFound,
    PermissionDenied,
    OtherError,
}

/// What came of listing a directory's entries.
#[derive(PartialEq, Eq, Structural, Clone, Copy)]
pub enum DirReadOutcome {
    Readable,
    PermissionDenied,
    OtherError,
}

/// What came of the handle-inspection query of the shell tooling.
#[derive(PartialEq, Eq, Structural, Clone, Copy)]
pub enum PsProbe {
    /// The query ran; `holders` says whether it reported any holder.
    Reported { holders: bool },
    /// The query ran and failed.
    Failed,
    /// The tooling is not available.
    Unavailable,
}

/// A directory counts as locked when its entries cannot be enumerated,
/// whether for permission or any other error: false negatives are worse
/// than false positives for a destructive tool.
pub fn is_directory_locked(probe: DirReadOutcome) -> (r: bool)
    ensures
        r == !(probe is Readable),
{
    !matches!(probe, DirReadOutcome::Readable)
}

/// The secondary check that tells a lock from plain missing permission,
/// once a write-mode open was denied: a readable but unwritable file is the
/// classic sharing violation; failing tooling is read conservatively; as a
/// last resort a no-op rename probe decides.
pub fn check_file_locking_status(read_open_ok: bool, ps: PsProbe, rename_ok: bool) -> (r: bool)
    ensures
        read_open_ok ==> r,
        ps matches PsProbe::Reported { holders } ==> (!read_open_ok ==> r == holders),
        !read_open_ok && ps is Failed ==> r,
        !read_open_ok && ps is Unavailable ==> r == !rename_ok,
{
    if read_open_ok {
        true
    } else {
        match ps {
            PsProbe::Reported { holders } => holders,
            PsProbe::Failed => true,
            PsProbe::Unavailable => !rename_ok,
        }
    }
}

/// Whether the handle-inspection output reports a holder: the count query
/// answers with a zero digit somewhere exactly when nothing holds the file.
pub fn ps_measure_indicates_holders(output: &[u8]) -> (r: bool)
    ensures
        r == !(exists|m: int| 0 <= m < output@.len() && output@[m] == 0x30),
{
    !crate::text::contains_byte(output, 0x30)
}

/// The platform-specific lock signals, already probed by the caller.
#[derive(PartialEq, Eq, Structural, Clone, Copy)]
pub enum LockSignal {
    /// Open-mode probing: a clean or not-found open means unlocked, a
    /// permission error defers to the secondary check, anything else is
    /// conservatively a lock.
    OpenProbe { is_dir: bool, dir_probe: DirReadOutcome, open_probe: OpenOutcome, secondary: bool },
    /// A single reliable user-space listing tool: its success is the signal.
    ListingTool { success: bool },
}

pub open spec fn lock_signal_locked(sig: LockSignal) -> bool {
    match sig {
        LockSignal::OpenProbe { is_dir, dir_probe, open_probe, secondary } => {
            if is_dir {
                !(dir_probe is Readable)
            } else {
                match open_probe {
                    OpenOutcome::Opened => false,
                    OpenOutcome::NotFound => false,
                    OpenOutcome::PermissionDenied => secondary,
                    OpenOutcome::OtherError => true,
                }
            }
        },
        LockSignal::ListingTool { success } => success,
    }
}

/// Classifies the lock probes of one path.  A path that no longer exists is
/// not locked.
pub fn is_file_locked(exists: bool, sig: LockSignal) -> (r: bool)
    ensures
        r == (exists && lock_signal_locked(sig)),
{
    if !exists {
        return false;
    }
    match sig {
        LockSignal::OpenProbe { is_dir, dir_probe, open_probe, secondary } => {
            if is_dir {
                is_directory_locked(dir_probe)
            } else {
                match open_probe {
                    OpenOutcome::Opened => false,
                    OpenOutcome::NotFound => false,
                    OpenOutcome::PermissionDenied => secondary,
                    OpenOutcome::OtherError => true,
                }
            }
        },
        LockSignal::ListingTool { success } => success,
    }
}

// ---------------------------------------------------------------------------
// Finding and reporting lock holders
// ---------------------------------------------------------------------------

/// Appends each pid of `more` that `acc` does not already hold.
pub open spec fn dedup_merge(acc: Seq<u32>, more: Seq<u32>) -> Seq<u32>
    decreases more.len(),
{
    if more.len() == 0 {
        acc
    } else {
        let next = if acc.contains(more[0]) {
            acc
        } else {
            acc.push(more[0])
        };
        dedup_merge(next, more.drop_first())
    }
}

/// Merging adds exactly the pids of `more`.
pub proof fn lemma_dedup_merge_contains(acc: Seq<u32>, more: Seq<u32>, x: u32)
    ensures
        dedup_merge(acc, more).contains(x) <==> acc.contains(x) || more.contains(x),
    decreases more.len(),
{
    if more.len() > 0 {
        let next = if acc.contains(more[0]) {
            acc
        } else {
            acc.push(more[0])
        };
        lemma_dedup_merge_contains(next, more.drop_first(), x);
        assert(more.contains(x) <==> (x == more[0] || more.drop_first().contains(x))) by {
            if more.contains(x) {
                let i = choose|i: int| 0 <= i < more.len() && more[i] == x;
                if i > 0 {
                    assert(more.drop_first()[i - 1] == x);
                }
            }
            if more.drop_first().contains(x) {
                let i = choose|i: int| 0 <= i < more.drop_first().len() && more.drop_first()[i] == x;
                assert(more[i + 1] == x);
            }
        }
        if !acc.contains(more[0]) {
            assert(next.contains(x) <==> (acc.contains(x) || x == more[0])) by {
                if next.contains(x) {
                    let i = choose|i: int| 0 <= i < next.len() && next[i] == x;
                    if i < acc.len() {
                        assert(acc[i] == x);
                    }
                }
                if acc.contains(x) {
                    let i = choose|i: int| 0 <= i < acc.len() && acc[i] == x;
                    assert(next[i] == x);
                }
                assert(next[acc.len() as int] == more[0]);
            }
        }
    }
}

/// Adds the pids found by one detection strategy to the accumulated list,
/// skipping pids already present: on some platforms no single method is
/// reliable alone, and the strategies overlap.
pub fn merge_holder_pids(acc: &mut Vec<u32>, more: &Vec<u32>)
    ensures
        final(acc)@ == dedup_merge(old(acc)@, more@),
{
    let mut i: usize = 0;
    proof {
        assert(more@.skip(0) =~= more@);
    }
    while i < more.len()
        invariant
            0 <= i <= more@.len(),
            dedup_merge(acc@, more@.skip(i as int)) == dedup_merge(old(acc)@, more@),
        decreases more@.len() - i,
    {
        proof {
            assert(more@.skip(i as int)[0] == more@[i as int]);
            assert(more@.skip(i as int).drop_first() =~= more@.skip(i + 1));
        }
        let pid = more[i];
        let mut present: bool = false;
        let mut j: usize = 0;
        while j < acc.len()
            invariant
                0 <= j <= acc@.len(),
                present <==> exists|m: int| 0 <= m < j && acc@[m] == pid,
            decreases acc@.len() - j,
        {
            if acc[j] == pid {
                present = true;
                proof {
                    assert(acc@[j as int] == pid);
                }
                j = acc.len();
            } else {
                j = j + 1;
            }
        }
        if !present {
            proof {
                assert(!acc@.contains(pid));
            }
            acc.push(pid);
        } else {
            proof {
                assert(acc@.contains(pid));
            }
        }
        i = i + 1;
    }
    proof {
        assert(more@.skip(more@.len() as int).len() == 0);
    }
}

/// Merges the pids of the three detection strategies, keeping the first
/// strategy's order and dropping duplicates across strategies.
pub fn find_processes_by_file(
    handle_pids: &Vec<u32>,
    shell_pids: &Vec<u32>,
    query_pids: &Vec<u32>,
) -> (r: Vec<u32>)
    ensures
        r@ == dedup_merge(dedup_merge(handle_pids@, shell_pids@), query_pids@),
        forall|x: u32|
            r@.contains(x) <==> (handle_pids@.contains(x) || shell_pids@.contains(x)
                || query_pids@.contains(x)),
{
    let mut r: Vec<u32> = Vec::new();
    let mut i: usize = 0;
    while i < handle_pids.len()
        invariant
            0 <= i <= handle_pids@.len(),
            r@ =~= handle_pids@.take(i as int),
        decreases handle_pids@.len() - i,
    {
        r.push(handle_pids[i]);
        proof {
            assert(r@ =~= handle_pids@.take(i + 1));
        }
        i = i + 1;
    }
    proof {
        assert(r@ =~= handle_pids@);
    }
    merge_holder_pids(&mut r, shell_pids);
    merge_holder_pids(&mut r, query_pids);
    proof {
        assert forall|x: u32|
            r@.contains(x) <==> (handle_pids@.contains(x) || shell_pids@.contains(x)
                || query_pids@.contains(x)) by {
            lemma_dedup_merge_contains(dedup_merge(handle_pids@, shell_pids@), query_pids@, x);
            lemma_dedup_merge_contains(handle_pids@, shell_pids@, x);
        }
    }
    r
}

/// The input without its trailing run of `c` bytes.
pub open spec fn drop_trailing(s: Seq<u8>, c: u8) -> Seq<u8>
    decreases s.len(),
{
    if s.len() > 0 && s.last() == c {
        drop_trailing(s.drop_last(), c)
    } else {
        s
    }
}

/// Strips a trailing run of `c` bytes, as when a pid column carries a
/// colon suffix.
fn strip_trailing(s: &[u8], c: u8) -> (r: Vec<u8>)
    ensures
        r@ == drop_trailing(s@, c),
{
    let mut k: usize = s.len();
    proof {
        assert(s@.take(s@.len() as int) =~= s@);
    }
    while k > 0 && s[k - 1] == c
        invariant
            0 <= k <= s@.len(),
            drop_trailing(s@, c) == drop_trailing(s@.take(k as int), c),
        decreases k,
    {
        proof {
            assert(s@.take(k as int).drop_last() =~= s@.take(k - 1));
            assert(s@.take(k as int).last() == s@[k - 1]);
        }
        k = k - 1;
    }
    let mut r: Vec<u8> = Vec::new();
    let mut i: usize = 0;
    while i < k
        invariant
            0 <= i <= k <= s@.len(),
            r@ =~= s@.subrange(0, i as int),
        decreases k - i,
    {
        r.push(s[i]);
        proof {
            assert(r@ =~= s@.subrange(0, i + 1));
        }
        i = i + 1;
    }
    proof {
        if k > 0 {
            assert(s@.take(k as int).last() == s@[k - 1]);
            assert(s@[k - 1] != c);
        }
        assert(drop_trailing(s@.take(k as int), c) == s@.take(k as int));
        assert(r@ =~= s@.take(k as int));
    }
    r
}

/// The pid a row of the handle-inspection tool's output names: rows
/// carrying the pid marker hold it in the second column, with a colon
/// suffix.
pub open spec fn handle_line_pid(line: Seq<u8>) -> Option<u32> {
    let parts = crate::text::split_ws(line);
    if crate::text::contains_seq(line, seq![0x70u8, 0x69u8, 0x64u8, 0x3au8]) && parts.len() >= 2 {
        let t = drop_trailing(parts[1], 0x3a);
        if t.len() > 0 && crate::text::all_digits(t) && crate::text::dec_val(t) <= u32::MAX {
            Some((crate::text::dec_val(t) as u32))
        } else {
            None
        }
    } else {
        None
    }
}

/// The pids of every parseable row of the handle-inspection tool's output,
/// in row order.
pub open spec fn handle_output_pids(lines: Seq<Seq<u8>>) -> Seq<u32>
    decreases lines.len(),
{
    if lines.len() == 0 {
        Seq::empty()
    } else {
        let rest = handle_output_pids(lines.drop_first());
        match handle_line_pid(lines[0]) {
            Some(pid) => seq![pid] + rest,
            None => rest,
        }
    }
}

/// Parses the handle-inspection tool's output, one holder pid per marked
/// row; unparseable rows are skipped silently.
pub fn parse_handle_output(content: &[u8]) -> (r: Vec<u32>)
    ensures
        r@ == handle_output_pids(crate::text::split_lines(content@)),
{
    let lines = crate::text::split_into_lines(content);
    let mut r: Vec<u32> = Vec::new();
    let mut i: usize = 0;
    let ghost all = crate::text::split_lines(content@);
    let marker: Vec<u8> = vec![0x70u8, 0x69u8, 0x64u8, 0x3au8];
    proof {
        assert(all.skip(0) =~= all);
        assert(marker@ =~= seq![0x70u8, 0x69u8, 0x64u8, 0x3au8]);
    }
    while i < lines.len()
        invariant
            0 <= i <= lines@.len(),
            lines@.map_values(|t: Vec<u8>| t@) == all,
            marker@ == seq![0x70u8, 0x69u8, 0x64u8, 0x3au8],
            r@ + handle_output_pids(all.skip(i as int)) =~= handle_output_pids(all),
        decreases lines@.len() - i,
    {
        proof {
            assert(all.skip(i as int)[0] == all[i as int]);
            assert(all.skip(i as int).drop_first() =~= all.skip(i + 1));
            assert(all[i as int] == lines@.map_values(|t: Vec<u8>| t@)[i as int]);
        }
        if crate::text::contains_bytes(lines[i].as_slice(), marker.as_slice()) {
            let parts = crate::text::split_ws_fields(lines[i].as_slice());
            if parts.len() >= 2 {
                proof {
                    assert(parts@.map_values(|t: Vec<u8>| t@)[1] == parts@[1]@);
                }
                let tok = strip_trailing(parts[1].as_slice(), 0x3a);
                match crate::text::parse_u32_dec(tok.as_slice()) {
                    Some(pid) => {
                        r.push(pid);
                    },
                    None => {},
                }
            }
        }
        i = i + 1;
    }
    proof {
        assert(handle_output_pids(all.skip(lines@.len() as int)) =~= Seq::<u32>::empty());
        assert(r@ + Seq::<u32>::empty() =~= r@);
    }
    r
}

/// The pid a row of the process-query tool's output names: rows of the
/// form `ProcessId=<pid>`, with possible surrounding whitespace on the
/// value.
pub open spec fn query_line_pid(line: Seq<u8>) -> Option<u32> {
    let marker = seq![
        0x50u8, 0x72u8, 0x6fu8, 0x63u8, 0x65u8, 0x73u8, 0x73u8, 0x49u8, 0x64u8, 0x3du8,
    ];
    if line.len() >= 10 && line.take(10) == marker {
        let parts = crate::text::split_ws(line.skip(10));
        if parts.len() == 1 && parts[0].len() > 0 && crate::text::all_digits(parts[0])
            && crate::text::dec_val(parts[0]) <= u32::MAX {
            Some((crate::text::dec_val(parts[0]) as u32))
        } else {
            None
        }
    } else {
        None
    }
}

/// The pids of every parseable row of the process-query tool's output.
pub open spec fn query_output_pids(lines: Seq<Seq<u8>>) -> Seq<u32>
    decreases lines.len(),
{
    if lines.len() == 0 {
        Seq::empty()
    } else {
        let rest = query_output_pids(lines.drop_first());
        match query_line_pid(lines[0]) {
            Some(pid) => seq![pid] + rest,
            None => rest,
        }
    }
}

/// Parses the process-query tool's list-format output, one holder pid per
/// `ProcessId=` row; unparseable rows are skipped silently.
pub fn parse_wmic_output(content: &[u8]) -> (r: Vec<u32>)
    ensures
        r@ == query_output_pids(crate::text::split_lines(content@)),
{
    let lines = crate::text::split_into_lines(content);
    let mut r: Vec<u32> = Vec::new();
    let mut i: usize = 0;
    let ghost all = crate::text::split_lines(content@);
    let marker: Vec<u8> = vec![
        0x50u8, 0x72u8, 0x6fu8, 0x63u8, 0x65u8, 0x73u8, 0x73u8, 0x49u8, 0x64u8, 0x3du8,
    ];
    proof {
        assert(all.skip(0) =~= all);
    }
    while i < lines.len()
        invariant
            0 <= i <= lines@.len(),
            lines@.map_values(|t: Vec<u8>| t@) == all,
            marker@ == seq![
                0x50u8, 0x72u8, 0x6fu8, 0x63u8, 0x65u8, 0x73u8, 0x73u8, 0x49u8, 0x64u8, 0x3du8,
            ],
            r@ + query_output_pids(all.skip(i as int)) =~= query_output_pids(all),
        decreases lines@.len() - i,
    {
        proof {
            assert(all.skip(i as int)[0] == all[i as int]);
            assert(all.skip(i as int).drop_first() =~= all.skip(i + 1));
            assert(all[i as int] == lines@.map_values(|t: Vec<u8>| t@)[i as int]);
        }
        let line = &lines[i];
        if line.len() >= 10 {
            let mut has_prefix: bool = true;
            let mut m: usize = 0;
            while m < 10
                invariant
                    0 <= m <= 10,
                    line@.len() >= 10,
                    marker@.len() == 10,
                    has_prefix <==> (forall|q: int| 0 <= q < m ==> line@[q] == marker@[q]),
                decreases 10 - m,
            {
                if line[m] != marker[m] {
                    has_prefix = false;
                    proof {
                        assert(line@[m as int] != marker@[m as int]);
                    }
                    m = 10;
                } else {
                    m = m + 1;
                }
            }
            if has_prefix {
                proof {
                    assert(line@.take(10) =~= marker@);
                }
                let rest = crate::text::suffix_of(line.as_slice(), 10);
                let parts = crate::text::split_ws_fields(rest.as_slice());
                if parts.len() == 1 {
                    proof {
                        assert(parts@.map_values(|t: Vec<u8>| t@)[0] == parts@[0]@);
                    }
                    match crate::text::parse_u32_dec(parts[0].as_slice()) {
                        Some(pid) => {
                            r.push(pid);
                        },
                        None => {},
                    }
                }
            } else {
                proof {
                    assert(line@.take(10) != marker@) by {
                        if line@.take(10) == marker@ {
                            assert(forall|q: int|
                                0 <= q < 10 ==> line@[q] == #[trigger] line@.take(10)[q]);
                        }
                    }
                }
            }
        }
        i = i + 1;
    }
    proof {
        assert(query_output_pids(all.skip(lines@.len() as int)) =~= Seq::<u32>::empty());
        assert(r@ + Seq::<u32>::empty() =~= r@);
    }
    r
}

/// The pid on each line of the targeted listing tool's output, in order;
/// lines that are not a plain pid are skipped.
pub open spec fn pid_lines(lines: Seq<Seq<u8>>) -> Seq<u32>
    decreases lines.len(),
{
    if lines.len() == 0 {
        Seq::empty()
    } else {
        let rest = pid_lines(lines.drop_first());
        if crate::text::split_ws(lines[0]).len() == 1 {
            let t = crate::text::split_ws(lines[0])[0];
            if t.len() > 0 && crate::text::all_digits(t) && crate::text::dec_val(t) <= u32::MAX {
                seq![(crate::text::dec_val(t) as u32)] + rest
            } else {
                rest
            }
        } else {
            rest
        }
    }
}

/// Parses the targeted listing tool's output: one pid per line.
pub fn parse_pid_lines(content: &[u8]) -> (r: Vec<u32>)
    ensures
        r@ == pid_lines(crate::text::split_lines(content@)),
{
    let lines = crate::text::split_into_lines(content);
    let mut r: Vec<u32> = Vec::new();
    let mut i: usize = 0;
    let ghost all = crate::text::split_lines(content@);
    proof {
        assert(all.skip(0) =~= all);
    }
    while i < lines.len()
        invariant
            0 <= i <= lines@.len(),
            lines@.map_values(|t: Vec<u8>| t@) == all,
            r@ + pid_lines(all.skip(i as int)) =~= pid_lines(all),
        decreases lines@.len() - i,
    {
        proof {
            assert(all.skip(i as int)[0] == all[i as int]);
            assert(all.skip(i as int).drop_first() =~= all.skip(i + 1));
            assert(all[i as int] == lines@.map_values(|t: Vec<u8>| t@)[i as int]);
        }
        let fields = crate::text::split_ws_fields(lines[i].as_slice());
        if fields.len() == 1 {
            proof {
                assert(fields@.map_values(|t: Vec<u8>| t@)[0] == fields@[0]@);
            }
            match crate::text::parse_u32_dec(fields[0].as_slice()) {
                Some(pid) => {
                    r.push(pid);
                },
                None => {},
            }
        }
        i = i + 1;
    }
    proof {
        assert(pid_lines(all.skip(lines@.len() as int)) =~= Seq::<u32>::empty());
        assert(r@ + Seq::<u32>::empty() =~= r@);
    }
    r
}

/// One process holding a lock on a path.
pub struct FileLockProcess {
    pub pid: u32,
    pub name: String,
    pub cmd: String,
}

/// The lock report for one path: `locked` is true if either the platform
/// probe signalled a lock or any holder pid resolved — the two signals can
/// disagree and both are honoured.
pub struct FileLockInfo {
    pub path: String,
    pub locked: bool,
    pub processes: Vec<FileLockProcess>,
}

/// The probes the caller already made for one path.
pub struct LockProbeReport {
    pub path: String,
    /// The platform-specific lock signal.
    pub locked: bool,
    /// Holder pids found by the detection strategies, possibly repeated.
    pub holder_pids: Vec<u32>,
}

/// Relies on sysinfo::System::process, sysinfo::Process::name and
/// sysinfo::Process::cmd: the name and the space-joined command line of the
/// pid, if it is in a fresh snapshot.  Nothing is promised of the outcome.
#[verifier::external_body]
fn lookup_process_strings(pid: u32) -> Option<(String, String)> {
    let mut sys = sysinfo::System::new_with_specifics(
        sysinfo::RefreshKind::nothing().with_processes(sysinfo::ProcessRefreshKind::everything()),
    );
    sys.refresh_processes(sysinfo::ProcessesToUpdate::All, true);
    sys.process(sysinfo::Pid::from_u32(pid)).map(|p| {
        let name = p.name().to_string_lossy().to_string();
        let cmd: Vec<String> = p.cmd().iter().map(|s| s.to_string_lossy().to_string()).collect();
        (name, cmd.join(" "))
    })
}

/// The holder pids listed in a lock report.
pub open spec fn holder_pids_of(info: FileLockInfo) -> Seq<u32> {
    info.processes@.map_values(|p: FileLockProcess| p.pid)
}

pub open spec fn strictly_sorted_u32(s: Seq<u32>) -> bool {
    forall|i: int, j: int| 0 <= i < j < s.len() ==> s[i] < s[j]
}

/// Inserts into a strictly sorted list, dropping duplicates.
fn insert_unique_sorted(out: &mut Vec<u32>, x: u32)
    requires
        strictly_sorted_u32(old(out)@),
    ensures
        strictly_sorted_u32(final(out)@),
        forall|y: u32| final(out)@.contains(y) <==> (old(out)@.contains(y) || y == x),
{
    let ghost orig = out@;
    let mut idx: usize = 0;
    while idx < out.len() && out[idx] < x
        invariant
            0 <= idx <= out@.len(),
            out@ == orig,
            strictly_sorted_u32(orig),
            forall|m: int| 0 <= m < idx ==> orig[m] < x,
        decreases out@.len() - idx,
    {
        idx = idx + 1;
    }
    if idx < out.len() && out[idx] == x {
        proof {
            assert(orig.contains(x));
            assert forall|y: u32| out@.contains(y) <==> (orig.contains(y) || y == x) by {}
        }
        return ;
    }
    out.insert(idx, x);
    proof {
        assert(out@ == orig.insert(idx as int, x));
        orig.insert_ensures(idx as int, x);
        assert forall|i: int, j: int| 0 <= i < j < out@.len() implies out@[i] < out@[j] by {
            if i < idx && j == idx {
                assert(out@[i] == orig[i]);
            } else if i == idx && j > idx {
                assert(out@[j] == orig[j - 1]);
                assert(orig[idx as int] > x || orig[idx as int] == x);
                assert(orig[idx as int] != x) by {
                    if idx < orig.len() && orig[idx as int] == x {
                    }
                }
                assert(orig[j - 1] >= orig[idx as int]);
            } else if i < idx && j > idx {
                assert(out@[i] == orig[i]);
                assert(out@[j] == orig[j - 1]);
            } else if i > idx {
                assert(out@[i] == orig[i - 1]);
                assert(out@[j] == orig[j - 1]);
            } else {
                assert(out@[i] == orig[i]);
                assert(out@[j] == orig[j]);
            }
        }
        assert forall|y: u32| out@.contains(y) <==> (orig.contains(y) || y == x) by {
            if out@.contains(y) {
                let i = choose|i: int| 0 <= i < out@.len() && out@[i] == y;
                if i < idx {
                    assert(orig[i] == y);
                } else if i == idx {
                } else {
                    assert(orig[i - 1] == y);
                }
            }
            if orig.contains(y) {
                let i = choose|i: int| 0 <= i < orig.len() && orig[i] == y;
                if i < idx {
                    assert(out@[i] == y);
                } else {
                    assert(out@[i + 1] == y);
                }
            }
            assert(out@[idx as int] == x);
        }
    }
}

/// Sorts the holder pids ascending and removes duplicates found by
/// overlapping detection strategies.
pub fn sort_dedup_pids(v: &Vec<u32>) -> (r: Vec<u32>)
    ensures
        strictly_sorted_u32(r@),
        forall|y: u32| r@.contains(y) <==> v@.contains(y),
{
    let mut r: Vec<u32> = Vec::new();
    let mut i: usize = 0;
    while i < v.len()
        invariant
            0 <= i <= v@.len(),
            strictly_sorted_u32(r@),
            forall|y: u32| r@.contains(y) <==> v@.take(i as int).contains(y),
        decreases v@.len() - i,
    {
        let ghost before = r@;
        insert_unique_sorted(&mut r, v[i]);
        proof {
            assert forall|y: u32| r@.contains(y) <==> v@.take(i + 1).contains(y) by {
                assert(v@.take(i + 1) =~= v@.take(i as int).push(v@[i as int]));
                if v@.take(i + 1).contains(y) {
                    let m = choose|m: int|
                        0 <= m < v@.take(i + 1).len() && #[trigger] v@.take(i + 1)[m] == y;
                    if m < i {
                        assert(v@.take(i as int)[m] == y);
                    }
                }
                if v@.take(i as int).contains(y) {
                    let m = choose|m: int|
                        0 <= m < v@.take(i as int).len() && v@.take(i as int)[m] == y;
                    assert(v@.take(i + 1)[m] == y);
                }
                if y == v@[i as int] {
                    assert(v@.take(i + 1)[i as int] == y);
                }
            }
        }
        i = i + 1;
    }
    proof {
        assert(v@.take(v@.len() as int) =~= v@);
    }
    r
}

/// Builds the lock report for each probed path: holders are de-duplicated
/// and listed ascending by pid, each joined with its snapshot name and
/// command line (or a placeholder when the pid is gone), and a path counts
/// as locked if either signal says so.
pub fn inspect_file_locks(probes: &Vec<LockProbeReport>) -> (r: Vec<FileLockInfo>)
    ensures
        r@.len() == probes@.len(),
        forall|i: int| 0 <= i < r@.len() ==> (#[trigger] r@[i]).path == probes@[i].path,
        forall|i: int|
            0 <= i < r@.len() ==> (#[trigger] r@[i]).locked == (probes@[i].locked
                || probes@[i].holder_pids@.len() > 0),
        forall|i: int|
            0 <= i < r@.len() ==> strictly_sorted_u32(holder_pids_of(#[trigger] r@[i])),
        forall|i: int, y: u32|
            0 <= i < r@.len() ==> (#[trigger] holder_pids_of(r@[i]).contains(y)
                <==> probes@[i].holder_pids@.contains(y)),
{
    let mut r: Vec<FileLockInfo> = Vec::new();
    let mut i: usize = 0;
    while i < probes.len()
        invariant
            0 <= i <= probes@.len(),
            r@.len() == i,
            forall|m: int| 0 <= m < i ==> (#[trigger] r@[m]).path == probes@[m].path,
            forall|m: int|
                0 <= m < i ==> (#[trigger] r@[m]).locked == (probes@[m].locked
                    || probes@[m].holder_pids@.len() > 0),
            forall|m: int|
                0 <= m < i ==> strictly_sorted_u32(holder_pids_of(#[trigger] r@[m])),
            forall|m: int, y: u32|
                0 <= m < i ==> (#[trigger] holder_pids_of(r@[m]).contains(y)
                    <==> probes@[m].holder_pids@.contains(y)),
        decreases probes@.len() - i,
    {
        let probe = &probes[i];
        let pids = sort_dedup_pids(&probe.holder_pids);
        let mut processes: Vec<FileLockProcess> = Vec::new();
        let mut k: usize = 0;
        while k < pids.len()
            invariant
                0 <= k <= pids@.len(),
                processes@.len() == k,
                forall|m: int|
                    0 <= m < k ==> (#[trigger] processes@[m]).pid == pids@[m],
            decreases pids@.len() - k,
        {
            let pid = pids[k];
            match lookup_process_strings(pid) {
                Some((name, cmd)) => {
                    processes.push(FileLockProcess { pid, name, cmd });
                },
                None => {
                    processes.push(
                        FileLockProcess {
                            pid,
                            name: String::from_str("unknown"),
                            cmd: String::new(),
                        },
                    );
                },
            }
            k = k + 1;
        }
        proof {
            assert(processes@.map_values(|p: FileLockProcess| p.pid) =~= pids@);
            assert(holder_pids_of(
                FileLockInfo {
                    path: probe.path,
                    locked: probe.locked || pids@.len() > 0,
                    processes,
                },
            ) =~= pids@);
        }
        let any_holder = pids.len() > 0;
        proof {
            if probe.holder_pids@.len() > 0 {
                assert(probe.holder_pids@.contains(probe.holder_pids@[0]));
            }
            if pids@.len() > 0 {
                assert(pids@.contains(pids@[0]));
            }
        }
        let locked = probe.locked || any_holder;
        r.push(FileLockInfo { path: probe.path.clone(), locked, processes });
        i = i + 1;
    }
    r
}

} // verus!
