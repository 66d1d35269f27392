//! Live monitor: ranks one snapshot of the process directory for display
//! and diffs consecutive terminal frames so only changed lines are redrawn.
//!
//! The sampling loop itself (refresh, sleep, repeat) belongs to the caller;
//! each tick hands the fresh snapshot in and takes the ranked rows and the
//! line operations back.

use crate::port::ProcessInfo;
use vstd::multiset::Multiset;
use vstd::prelude::*;

verus! {

/// The live monitor's configuration for one run.
pub struct TopOptions {
    pub interval_ms: u64,
    pub limit: usize,
    pub show_cpu: bool,
    pub show_cmd: bool,
    pub once: bool,
}

/// One display row: a process with its share of total memory, in permille
/// so that no floating point is needed.
pub struct ProcessView {
    pub pid: u32,
    pub name: String,
    pub memory_bytes: u64,
    pub memory_permille: u32,
    pub cpu_permille: u32,
    pub cmd: String,
}

impl Clone for ProcessView {
    fn clone(&self) -> (r: Self)
        ensures
            r == *self,
    {
        ProcessView {
            pid: self.pid,
            name: self.name.clone(),
            memory_bytes: self.memory_bytes,
            memory_permille: self.memory_permille,
            cpu_permille: self.cpu_permille,
            cmd: self.cmd.clone(),
        }
    }
}

/// A process's share of total memory, in permille, capped at the
/// representable maximum; zero when the total is unknown.
pub open spec fn spec_mem_permille(mem: nat, total: nat) -> nat {
    if total == 0 {
        0
    } else if mem * 1000 / total > u32::MAX {
        u32::MAX as nat
    } else {
        mem * 1000 / total
    }
}

/// The display row one snapshot record yields.
pub open spec fn spec_view_row(p: ProcessInfo, total_memory: u64) -> ProcessView {
    ProcessView {
        pid: p.pid,
        name: p.name,
        memory_bytes: p.memory,
        memory_permille: spec_mem_permille(p.memory as nat, total_memory as nat) as u32,
        cpu_permille: p.cpu_permille,
        cmd: p.cmd,
    }
}

/// Computes the memory share of one process.
pub fn mem_permille(mem: u64, total: u64) -> (r: u32)
    ensures
        r == spec_mem_permille(mem as nat, total as nat),
{
    if total == 0 {
        return 0;
    }
    let v: u128 = (mem as u128) * 1000 / (total as u128);
    if v > 0xffff_ffff {
        u32::MAX
    } else {
        v as u32
    }
}

/// Turns a fresh snapshot into display rows, one per record, in order.
pub fn build_views(snapshot: &Vec<ProcessInfo>, total_memory: u64) -> (r: Vec<ProcessView>)
    ensures
        r@.len() == snapshot@.len(),
        forall|i: int|
            0 <= i < r@.len() ==> #[trigger] r@[i] == spec_view_row(snapshot@[i], total_memory),
{
    let mut r: Vec<ProcessView> = Vec::new();
    let mut i: usize = 0;
    while i < snapshot.len()
        invariant
            0 <= i <= snapshot@.len(),
            r@.len() == i,
            forall|m: int|
                0 <= m < i ==> #[trigger] r@[m] == spec_view_row(snapshot@[m], total_memory),
        decreases snapshot@.len() - i,
    {
        let p = &snapshot[i];
        let row = ProcessView {
            pid: p.pid,
            name: p.name.clone(),
            memory_bytes: p.memory,
            memory_permille: mem_permille(p.memory, total_memory),
            cpu_permille: p.cpu_permille,
            cmd: p.cmd.clone(),
        };
        r.push(row);
        i = i + 1;
    }
    r
}

// ---------------------------------------------------------------------------
// Ranking
// ---------------------------------------------------------------------------

/// The blended ranking score used when CPU display is requested: memory
/// weighted 0.7 against CPU weighted 0.3 and scaled into a comparable
/// range, held in integers (the score is ten times the blend).
pub open spec fn score_of(v: ProcessView) -> int {
    7 * v.memory_bytes + 300 * v.cpu_permille
}

/// Descending rank order: by blended score when CPU is shown, by memory
/// alone otherwise.
pub open spec fn rank_ge(a: ProcessView, b: ProcessView, show_cpu: bool) -> bool {
    if show_cpu {
        score_of(a) >= score_of(b)
    } else {
        a.memory_bytes >= b.memory_bytes
    }
}

pub open spec fn rank_sorted(s: Seq<ProcessView>, show_cpu: bool) -> bool {
    forall|i: int, j: int|
        0 <= i < j < s.len() ==> rank_ge(#[trigger] s[i], #[trigger] s[j], show_cpu)
}

/// Compares two rows in rank order.
fn rank_ge_exec(a: &ProcessView, b: &ProcessView, show_cpu: bool) -> (r: bool)
    ensures
        r == rank_ge(*a, *b, show_cpu),
{
    if show_cpu {
        let sa: u128 = 7 * (a.memory_bytes as u128) + 300 * (a.cpu_permille as u128);
        let sb: u128 = 7 * (b.memory_bytes as u128) + 300 * (b.cpu_permille as u128);
        sa >= sb
    } else {
        a.memory_bytes >= b.memory_bytes
    }
}

/// Inserts a row into a rank-ordered list.
fn insert_ranked(out: &mut Vec<ProcessView>, x: ProcessView, show_cpu: bool)
    requires
        rank_sorted(old(out)@, show_cpu),
    ensures
        rank_sorted(final(out)@, show_cpu),
        final(out)@.to_multiset() == old(out)@.to_multiset().insert(x),
        final(out)@.len() == old(out)@.len() + 1,
{
    broadcast use vstd::seq_lib::group_to_multiset_ensures;

    let ghost orig = out@;
    let mut idx: usize = 0;
    while idx < out.len() && rank_ge_exec(&out[idx], &x, show_cpu)
        invariant
            0 <= idx <= out@.len(),
            out@ == orig,
            rank_sorted(orig, show_cpu),
            forall|m: int| 0 <= m < idx ==> rank_ge(#[trigger] orig[m], x, show_cpu),
        decreases out@.len() - idx,
    {
        idx = idx + 1;
    }
    out.insert(idx, x);
    proof {
        assert(out@ == orig.insert(idx as int, x));
        orig.insert_ensures(idx as int, x);
        assert forall|i: int, j: int|
            0 <= i < j < out@.len() implies rank_ge(
            #[trigger] out@[i],
            #[trigger] out@[j],
            show_cpu,
        ) by {
            if i < idx && j == idx {
            } else if i == idx && j > idx {
                assert(out@[j] == orig[j - 1]);
                assert(!rank_ge(orig[idx as int], x, show_cpu));
                assert(rank_ge(orig[idx as int], orig[j - 1], show_cpu) || idx == j - 1);
            } else if i < idx && j > idx {
                assert(out@[i] == orig[i]);
                assert(out@[j] == orig[j - 1]);
            } else if i > idx {
                assert(out@[i] == orig[i - 1]);
                assert(out@[j] == orig[j - 1]);
            } else {
                assert(out@[i] == orig[i]);
                assert(out@[j] == orig[j]);
            }
        }
        vstd::seq_lib::to_multiset_insert::<ProcessView>(orig, idx as int, x);
    }
}

/// Concatenation adds the element multisets.
proof fn lemma_to_multiset_add(a: Seq<ProcessView>, b: Seq<ProcessView>)
    ensures
        (a + b).to_multiset() == a.to_multiset().add(b.to_multiset()),
    decreases b.len(),
{
    broadcast use vstd::seq_lib::group_to_multiset_ensures;

    if b.len() == 0 {
        assert(a + b =~= a);
        assert(b.to_multiset() =~= Multiset::<ProcessView>::empty());
        assert(a.to_multiset().add(b.to_multiset()) =~= a.to_multiset());
    } else {
        let b0 = b.drop_last();
        lemma_to_multiset_add(a, b0);
        assert(a + b =~= (a + b0).push(b.last()));
        assert(b =~= b0.push(b.last()));
        assert((a + b).to_multiset() =~= a.to_multiset().add(b.to_multiset()));
    }
}

/// Sorts the rows into descending rank order and truncates the list to the
/// display limit (at least one row).  The kept rows are drawn from the
/// snapshot, and every discarded row ranks at or below every kept one.
pub fn rank_processes(views: Vec<ProcessView>, show_cpu: bool, limit: usize) -> (r: Vec<
    ProcessView,
>)
    ensures
        rank_sorted(r@, show_cpu),
        r@.len() == vstd::math::min(views@.len() as int, vstd::math::max(limit as int, 1)),
        r@.to_multiset().subset_of(views@.to_multiset()),
        forall|e: ProcessView|
            views@.to_multiset().sub(r@.to_multiset()).count(e) > 0 ==> (r@.len() > 0 && rank_ge(
                r@[r@.len() - 1],
                e,
                show_cpu,
            )),
{
    broadcast use vstd::seq_lib::group_to_multiset_ensures;

    let ghost whole = views@;
    let mut input = views;
    let mut sorted: Vec<ProcessView> = Vec::new();
    while input.len() > 0
        invariant
            rank_sorted(sorted@, show_cpu),
            sorted@.to_multiset().add(input@.to_multiset()) =~= whole.to_multiset(),
            sorted@.len() + input@.len() == whole.len(),
        decreases input@.len(),
    {
        let ghost in_before = input@;
        let x = input.remove(0);
        proof {
            assert(input@ == in_before.remove(0));
            vstd::seq_lib::to_multiset_remove::<ProcessView>(in_before, 0);
            vstd::seq_lib::to_multiset_contains::<ProcessView>(in_before, x);
            assert(in_before.contains(x)) by {
                assert(in_before[0] == x);
            }
        }
        let ghost sorted_before = sorted@;
        insert_ranked(&mut sorted, x, show_cpu);
        proof {
            let a = sorted_before.to_multiset();
            let b = in_before.to_multiset();
            assert(sorted@.to_multiset().add(input@.to_multiset()) =~= a.insert(x).add(
                b.remove(x),
            ));
            assert(a.insert(x).add(b.remove(x)) =~= a.add(b));
        }
    }
    proof {
        assert(input@.to_multiset() =~= Multiset::<ProcessView>::empty());
        assert(sorted@.to_multiset() =~= whole.to_multiset());
    }
    let keep: usize = if limit < 1 {
        1
    } else {
        limit
    };
    let ghost full = sorted@;
    if sorted.len() > keep {
        sorted.truncate(keep);
        proof {
            assert(sorted@ == full.subrange(0, keep as int));
            let kept = full.subrange(0, keep as int);
            let rest = full.subrange(keep as int, full.len() as int);
            assert(full =~= kept + rest);
            lemma_to_multiset_add(kept, rest);
            assert(kept.to_multiset().add(rest.to_multiset()) == full.to_multiset());
            assert(kept.to_multiset().subset_of(full.to_multiset()));
            assert forall|e: ProcessView|
                whole.to_multiset().sub(sorted@.to_multiset()).count(e) > 0 implies (sorted@.len()
                > 0 && rank_ge(sorted@[sorted@.len() - 1], e, show_cpu)) by {
                assert(whole.to_multiset().sub(kept.to_multiset()).count(e) == rest.to_multiset()
                    .count(e));
                vstd::seq_lib::to_multiset_contains::<ProcessView>(rest, e);
                assert(rest.contains(e));
                let j = choose|j: int| 0 <= j < rest.len() && rest[j] == e;
                assert(full[keep + j] == e);
                assert(rank_ge(full[keep as int - 1], full[keep + j], show_cpu));
                assert(sorted@[keep as int - 1] == full[keep as int - 1]);
            }
        }
    } else {
        proof {
            assert(whole.to_multiset().sub(sorted@.to_multiset()) =~= Multiset::<
                ProcessView,
            >::empty());
            assert(sorted@.to_multiset().subset_of(whole.to_multiset()));
        }
    }
    sorted
}

// ---------------------------------------------------------------------------
// Pacing
// ---------------------------------------------------------------------------

/// How long the loop still has to sleep after a tick: the interval less the
/// tick's own processing time, and never a negative duration.
pub fn remaining_sleep_ms(elapsed_ms: u64, interval_ms: u64) -> (r: u64)
    ensures
        elapsed_ms >= interval_ms ==> r == 0,
        elapsed_ms < interval_ms ==> r == interval_ms - elapsed_ms,
{
    if elapsed_ms >= interval_ms {
        0
    } else {
        interval_ms - elapsed_ms
    }
}

// ---------------------------------------------------------------------------
// Differential rendering
// ---------------------------------------------------------------------------

/// One cursor operation of the differential renderer.
pub enum LineOp {
    /// The line is unchanged: move the cursor down one row, rewriting
    /// nothing.
    Advance,
    /// The line changed or is new: clear the row and write this text.
    Rewrite { text: String },
    /// A trailing line of the old frame has no successor: clear it.
    Clear,
}

pub open spec fn is_rewrite_of(op: LineOp, s: Seq<char>) -> bool {
    op matches LineOp::Rewrite { text } && text@ == s
}

/// The contract between two consecutive frames and the operations the
/// renderer issues, line by line.
pub open spec fn diff_describes(ops: Seq<LineOp>, new: Seq<Seq<char>>, old: Seq<Seq<char>>) -> bool {
    let common = vstd::math::min(new.len() as int, old.len() as int);
    &&& ops.len() == vstd::math::max(new.len() as int, old.len() as int)
    &&& forall|i: int| 0 <= i < common && new[i] == old[i] ==> (#[trigger] ops[i]) is Advance
    &&& forall|i: int|
        0 <= i < common && new[i] != old[i] ==> is_rewrite_of(#[trigger] ops[i], new[i])
    &&& forall|i: int| common <= i < new.len() ==> is_rewrite_of(#[trigger] ops[i], new[i])
    &&& forall|i: int| new.len() <= i < old.len() ==> (#[trigger] ops[i]) is Clear
}

/// Compares the new frame to the previous one line by line: unchanged
/// lines only advance the cursor, changed or new lines are rewritten, and
/// trailing lines of a longer old frame are cleared.
pub fn diff_frames(new: &Vec<String>, old: &Vec<String>) -> (ops: Vec<LineOp>)
    ensures
        diff_describes(ops@, new.deep_view(), old.deep_view()),
{
    let mut ops: Vec<LineOp> = Vec::new();
    let mut i: usize = 0;
    let common: usize = if new.len() < old.len() {
        new.len()
    } else {
        old.len()
    };
    while i < common
        invariant
            0 <= i <= common,
            common == vstd::math::min(new@.len() as int, old@.len() as int),
            ops@.len() == i,
            forall|m: int|
                0 <= m < i && new.deep_view()[m] == old.deep_view()[m] ==> (#[trigger] ops@[m])
                    is Advance,
            forall|m: int|
                0 <= m < i && new.deep_view()[m] != old.deep_view()[m] ==> is_rewrite_of(
                    #[trigger] ops@[m],
                    new.deep_view()[m],
                ),
        decreases common - i,
    {
        proof {
            assert(new.deep_view()[i as int] == new@[i as int]@);
            assert(old.deep_view()[i as int] == old@[i as int]@);
        }
        if new[i].eq(&old[i]) {
            ops.push(LineOp::Advance);
        } else {
            ops.push(LineOp::Rewrite { text: new[i].clone() });
        }
        i = i + 1;
    }
    while i < new.len()
        invariant
            common <= i <= new@.len(),
            common == vstd::math::min(new@.len() as int, old@.len() as int),
            ops@.len() == i,
            forall|m: int|
                0 <= m < common && new.deep_view()[m] == old.deep_view()[m] ==> (
                #[trigger] ops@[m]) is Advance,
            forall|m: int|
                0 <= m < common && new.deep_view()[m] != old.deep_view()[m] ==> is_rewrite_of(
                    #[trigger] ops@[m],
                    new.deep_view()[m],
                ),
            forall|m: int|
                common <= m < i ==> is_rewrite_of(#[trigger] ops@[m], new.deep_view()[m]),
        decreases new@.len() - i,
    {
        proof {
            assert(new.deep_view()[i as int] == new@[i as int]@);
        }
        ops.push(LineOp::Rewrite { text: new[i].clone() });
        i = i + 1;
    }
    while i < old.len()
        invariant
            common <= i,
            new@.len() <= i,
            i <= vstd::math::max(new@.len() as int, old@.len() as int),
            common == vstd::math::min(new@.len() as int, old@.len() as int),
            ops@.len() == i,
            forall|m: int|
                0 <= m < common && new.deep_view()[m] == old.deep_view()[m] ==> (
                #[trigger] ops@[m]) is Advance,
            forall|m: int|
                0 <= m < common && new.deep_view()[m] != old.deep_view()[m] ==> is_rewrite_of(
                    #[trigger] ops@[m],
                    new.deep_view()[m],
                ),
            forall|m: int|
                common <= m < new@.len() ==> is_rewrite_of(#[trigger] ops@[m], new.deep_view()[m]),
            forall|m: int| new@.len() <= m < i ==> (#[trigger] ops@[m]) is Clear,
        decreases old@.len() - i,
    {
        ops.push(LineOp::Clear);
        i = i + 1;
    }
    proof {
        assert(new.deep_view().len() == new@.len());
        assert(old.deep_view().len() == old@.len());
    }
    ops
}

/// Two identical consecutive frames draw nothing: the renderer issues only
/// cursor advances — no rewrite and no clear.
pub proof fn lemma_identical_frames_only_advance(ops: Seq<LineOp>, frame: Seq<Seq<char>>)
    requires
        diff_describes(ops, frame, frame),
    ensures
        ops.len() == frame.len(),
        forall|i: int| 0 <= i < ops.len() ==> (#[trigger] ops[i]) is Advance,
{
}

} // verus!
