//! Connection resolver: maps listening ports to owning processes.
//!
//! The platform backends produce raw tabular output (a network-status tool,
//! kernel connection tables, a socket-listing tool); the parsers here turn
//! that output into `PortBinding` values, and the join functions below pair
//! bindings with a process snapshot.

use crate::text::{
    after_last, all_digits, all_hex_digits, before_first, dec_val, hex_val, parse_u16_dec,
    parse_u16_hex, parse_u32_dec, parse_u64_dec, prefix_before_first, split_into_lines,
    split_lines, split_ws, split_ws_fields, suffix_after_last,
};
use vstd::prelude::*;

verus! {

/// A single listening-port-to-process association, derived fresh on every
/// resolution call and never cached.
#[derive(PartialEq, Eq, Structural, Clone, Copy)]
pub struct PortBinding {
    pub port: u16,
    pub pid: u32,
}

/// A process as the directory snapshot records it.  The command line is
/// kept space-joined, and CPU load in permille, so that ranking and
/// display preparation need no floating point.
pub struct ProcessInfo {
    pub pid: u32,
    pub name: String,
    pub cmd: String,
    pub cpu_permille: u32,
    pub memory: u64,
}

impl Clone for ProcessInfo {
    fn clone(&self) -> (r: Self)
        ensures
            r == *self,
    {
        ProcessInfo {
            pid: self.pid,
            name: self.name.clone(),
            cmd: self.cmd.clone(),
            cpu_permille: self.cpu_permille,
            memory: self.memory,
        }
    }
}

/// The join of a binding and the owning process record.
pub struct PortInfo {
    pub port: u16,
    pub process: ProcessInfo,
}

impl Clone for PortInfo {
    fn clone(&self) -> (r: Self)
        ensures
            r == *self,
    {
        PortInfo { port: self.port, process: self.process.clone() }
    }
}

/// True when `bindings` associates at most one pid with each port.
pub open spec fn unique_ports(bindings: Seq<PortBinding>) -> bool {
    forall|i: int, j: int|
        0 <= i < j < bindings.len() ==> bindings[i].port != bindings[j].port
}

// ---------------------------------------------------------------------------
// Upserting bindings
// ---------------------------------------------------------------------------

/// Adds a binding, overwriting an earlier binding of the same port, as an
/// insertion into a port-keyed mapping would.
pub open spec fn upsert(bs: Seq<PortBinding>, b: PortBinding) -> Seq<PortBinding>
    decreases bs.len(),
{
    if bs.len() == 0 {
        seq![b]
    } else if bs[0].port == b.port {
        seq![b] + bs.drop_first()
    } else {
        seq![bs[0]] + upsert(bs.drop_first(), b)
    }
}

/// Whether some binding in the table claims the port `q`.
pub open spec fn has_port(bs: Seq<PortBinding>, q: u16) -> bool {
    exists|i: int| 0 <= i < bs.len() && #[trigger] bs[i].port == q
}

pub proof fn lemma_upsert_ports(bs: Seq<PortBinding>, b: PortBinding, q: u16)
    ensures
        has_port(upsert(bs, b), q) <==> (q == b.port || has_port(bs, q)),
    decreases bs.len(),
{
    let u = upsert(bs, b);
    if bs.len() == 0 {
        assert(u[0] == b);
        if q == b.port {
            assert(u[0].port == q);
        }
    } else if bs[0].port == b.port {
        assert(forall|i: int| 1 <= i < u.len() ==> #[trigger] u[i] == bs[i]);
        if has_port(u, q) {
            let i = choose|i: int| 0 <= i < u.len() && #[trigger] u[i].port == q;
            if i > 0 {
                assert(bs[i].port == q);
            }
        }
        if has_port(bs, q) {
            let i = choose|i: int| 0 <= i < bs.len() && #[trigger] bs[i].port == q;
            if i == 0 {
                assert(u[0].port == q);
            } else {
                assert(u[i].port == q);
            }
        }
        if q == b.port {
            assert(u[0].port == q);
        }
    } else {
        let d = bs.drop_first();
        lemma_upsert_ports(d, b, q);
        assert(u[0] == bs[0]);
        assert(forall|i: int| 1 <= i < u.len() ==> #[trigger] u[i] == upsert(d, b)[i - 1]);
        if has_port(u, q) {
            let i = choose|i: int| 0 <= i < u.len() && #[trigger] u[i].port == q;
            if i == 0 {
                assert(bs[0].port == q);
            } else {
                assert(upsert(d, b)[i - 1].port == q);
                assert(has_port(upsert(d, b), q));
                if q != b.port {
                    let m = choose|m: int| 0 <= m < d.len() && #[trigger] d[m].port == q;
                    assert(bs[m + 1].port == q);
                }
            }
        }
        if q == b.port {
            assert(has_port(upsert(d, b), q));
            let m = choose|m: int| 0 <= m < upsert(d, b).len() && #[trigger] upsert(d, b)[m].port == q;
            assert(u[m + 1].port == q);
        }
        if has_port(bs, q) {
            let i = choose|i: int| 0 <= i < bs.len() && #[trigger] bs[i].port == q;
            if i == 0 {
                assert(u[0].port == q);
            } else {
                assert(d[i - 1].port == q);
                assert(has_port(upsert(d, b), q));
                let m = choose|m: int|
                    0 <= m < upsert(d, b).len() && #[trigger] upsert(d, b)[m].port == q;
                assert(u[m + 1].port == q);
            }
        }
    }
}

/// Overwriting insertions keep the port key unique.
pub proof fn lemma_upsert_unique(bs: Seq<PortBinding>, b: PortBinding)
    requires
        unique_ports(bs),
    ensures
        unique_ports(upsert(bs, b)),
    decreases bs.len(),
{
    if bs.len() == 0 {
    } else if bs[0].port == b.port {
        assert(forall|i: int|
            1 <= i < upsert(bs, b).len() ==> #[trigger] upsert(bs, b)[i] == bs[i]);
    } else {
        let d = bs.drop_first();
        assert(forall|i: int, j: int|
            0 <= i < j < d.len() ==> #[trigger] d[i].port != #[trigger] d[j].port);
        lemma_upsert_unique(d, b);
        let u = upsert(bs, b);
        assert(u[0] == bs[0]);
        assert(forall|i: int| 1 <= i < u.len() ==> #[trigger] u[i] == upsert(d, b)[i - 1]);
        assert forall|i: int, j: int| 0 <= i < j < u.len() implies u[i].port != u[j].port by {
            if i == 0 {
                if u[j].port == bs[0].port {
                    assert(upsert(d, b)[j - 1].port == bs[0].port);
                    assert(has_port(upsert(d, b), bs[0].port));
                    lemma_upsert_ports(d, b, bs[0].port);
                    assert(has_port(d, bs[0].port));
                    let m = choose|m: int|
                        0 <= m < d.len() && #[trigger] d[m].port == bs[0].port;
                    assert(bs[m + 1].port == bs[0].port);
                }
            }
        }
    }
}

/// Adds a binding to the accumulated table, overwriting any earlier binding
/// of the same port.
pub fn upsert_binding(bs: &mut Vec<PortBinding>, b: PortBinding)
    ensures
        final(bs)@ == upsert(old(bs)@, b),
{
    let ghost orig = bs@;
    proof {
        assert(orig == old(bs)@);
    }
    let mut i: usize = 0;
    while i < bs.len()
        invariant
            0 <= i <= bs@.len(),
            bs@ == orig,
            orig == old(bs)@,
            forall|m: int| 0 <= m < i ==> orig[m].port != b.port,
        decreases bs@.len() - i,
    {
        if bs[i].port == b.port {
            bs.set(i, b);
            proof {
                lemma_upsert_update(orig, b, i as int);
                assert(bs@ == orig.update(i as int, b));
                assert(bs@ == upsert(orig, b));
            }
            return ;
        }
        i = i + 1;
    }
    bs.push(b);
    proof {
        lemma_upsert_append(orig, b);
    }
}

proof fn lemma_upsert_update(bs: Seq<PortBinding>, b: PortBinding, i: int)
    requires
        0 <= i < bs.len(),
        bs[i].port == b.port,
        forall|m: int| 0 <= m < i ==> bs[m].port != b.port,
    ensures
        upsert(bs, b) == bs.update(i, b),
    decreases i,
{
    if i == 0 {
        assert(upsert(bs, b) =~= bs.update(0, b));
    } else {
        let d = bs.drop_first();
        assert(d[i - 1].port == b.port);
        assert(forall|m: int| 0 <= m < i - 1 ==> #[trigger] d[m].port != b.port);
        lemma_upsert_update(d, b, i - 1);
        assert(upsert(bs, b) =~= bs.update(i, b));
    }
}

proof fn lemma_upsert_append(bs: Seq<PortBinding>, b: PortBinding)
    requires
        forall|m: int| 0 <= m < bs.len() ==> bs[m].port != b.port,
    ensures
        upsert(bs, b) == bs.push(b),
    decreases bs.len(),
{
    if bs.len() == 0 {
        assert(upsert(bs, b) =~= bs.push(b));
    } else {
        let d = bs.drop_first();
        assert(forall|m: int| 0 <= m < d.len() ==> #[trigger] d[m].port != b.port);
        lemma_upsert_append(d, b);
        assert(upsert(bs, b) =~= bs.push(b));
    }
}

// ---------------------------------------------------------------------------
// Backend parsers
// ---------------------------------------------------------------------------

/// The binding held by one row of the network-status tool's output:
/// the local-address column's trailing `:port` suffix and the trailing
/// pid column.  Rows that do not parse yield nothing.
pub open spec fn netstat_line_binding(line: Seq<u8>) -> Option<PortBinding> {
    let parts = split_ws(line);
    if parts.len() >= 5 {
        let port_tok = after_last(parts[1], 0x3a);
        let pid_tok = parts[parts.len() - 1];
        if port_tok.len() > 0 && all_digits(port_tok) && dec_val(port_tok) <= u16::MAX
            && pid_tok.len() > 0 && all_digits(pid_tok) && dec_val(pid_tok) <= u32::MAX {
            Some(
                PortBinding {
                    port: dec_val(port_tok) as u16,
                    pid: dec_val(pid_tok) as u32,
                },
            )
        } else {
            None
        }
    } else {
        None
    }
}

/// Parses one row of the network-status tool's output.
pub fn parse_netstat_line(line: &[u8]) -> (r: Option<PortBinding>)
    ensures
        r == netstat_line_binding(line@),
{
    let parts = split_ws_fields(line);
    proof {
        assert(parts@.map_values(|t: Vec<u8>| t@).len() == parts@.len());
    }
    if parts.len() < 5 {
        return None;
    }
    proof {
        assert(parts@.map_values(|t: Vec<u8>| t@)[1] == parts@[1]@);
        assert(parts@.map_values(|t: Vec<u8>| t@)[parts@.len() - 1] == parts@[parts@.len() - 1]@);
    }
    let port_tok = suffix_after_last(parts[1].as_slice(), 0x3a);
    let pid_tok = &parts[parts.len() - 1];
    let port = parse_u16_dec(port_tok.as_slice());
    let pid = parse_u32_dec(pid_tok.as_slice());
    match (port, pid) {
        (Some(port), Some(pid)) => Some(PortBinding { port, pid }),
        _ => None,
    }
}

/// The accumulated binding table after folding each line of backend output
/// into `acc`, overwriting earlier bindings of re-listed ports.
pub open spec fn fold_bindings(
    lines: Seq<Seq<u8>>,
    f: spec_fn(Seq<u8>) -> Option<PortBinding>,
    acc: Seq<PortBinding>,
) -> Seq<PortBinding>
    decreases lines.len(),
{
    if lines.len() == 0 {
        acc
    } else {
        let next = match f(lines[0]) {
            Some(b) => upsert(acc, b),
            None => acc,
        };
        fold_bindings(lines.drop_first(), f, next)
    }
}

/// Folding keeps the port key unique.
pub proof fn lemma_fold_bindings_unique(
    lines: Seq<Seq<u8>>,
    f: spec_fn(Seq<u8>) -> Option<PortBinding>,
    acc: Seq<PortBinding>,
)
    requires
        unique_ports(acc),
    ensures
        unique_ports(fold_bindings(lines, f, acc)),
    decreases lines.len(),
{
    if lines.len() > 0 {
        match f(lines[0]) {
            Some(b) => {
                lemma_upsert_unique(acc, b);
                lemma_fold_bindings_unique(lines.drop_first(), f, upsert(acc, b));
            },
            None => {
                lemma_fold_bindings_unique(lines.drop_first(), f, acc);
            },
        }
    }
}

/// Parses the complete output of the network-status tool, skipping its four
/// header lines; unparseable rows are skipped silently.
pub fn parse_netstat_output(content: &[u8]) -> (r: Vec<PortBinding>)
    ensures
        split_lines(content@).len() >= 4 ==> r@ == fold_bindings(
            split_lines(content@).skip(4),
            |line: Seq<u8>| netstat_line_binding(line),
            Seq::empty(),
        ),
        split_lines(content@).len() < 4 ==> r@ == Seq::<PortBinding>::empty(),
        unique_ports(r@),
{
    let ghost f = |line: Seq<u8>| netstat_line_binding(line);
    let lines = split_into_lines(content);
    let mut r: Vec<PortBinding> = Vec::new();
    let mut i: usize = 4;
    let ghost all = split_lines(content@);
    if lines.len() < 4 {
        return r;
    }
    let ghost goal = fold_bindings(all.skip(4), f, Seq::empty());
    if lines.len() == 4 {
        proof {
            assert(all.skip(4).len() == 0);
        }
        return r;
    }
    while i < lines.len()
        invariant
            4 <= i <= lines@.len(),
            lines@.map_values(|t: Vec<u8>| t@) == all,
            goal == fold_bindings(all.skip(i as int), f, r@),
            goal == fold_bindings(all.skip(4), f, Seq::empty()),
            f == |line: Seq<u8>| netstat_line_binding(line),
        decreases lines@.len() - i,
    {
        proof {
            assert(all.skip(i as int)[0] == all[i as int]);
            assert(all.skip(i as int).drop_first() =~= all.skip(i + 1));
            assert(all[i as int] == lines@.map_values(|t: Vec<u8>| t@)[i as int]);
        }
        match parse_netstat_line(lines[i].as_slice()) {
            Some(b) => {
                upsert_binding(&mut r, b);
            },
            None => {},
        }
        i = i + 1;
    }
    proof {
        assert(all.skip(lines@.len() as int).len() == 0);
        lemma_fold_bindings_unique(all.skip(4), f, Seq::empty());
    }
    r
}

/// The port/inode pair held by one row of a kernel connection table: a
/// hex-encoded local port and a socket inode number.
pub open spec fn proc_net_line_entry(line: Seq<u8>) -> Option<(u16, u64)> {
    let parts = split_ws(line);
    if parts.len() >= 10 {
        let port_tok = after_last(parts[1], 0x3a);
        let inode_tok = parts[9];
        if port_tok.len() > 0 && all_hex_digits(port_tok) && hex_val(port_tok) <= u16::MAX
            && inode_tok.len() > 0 && all_digits(inode_tok) && dec_val(inode_tok) <= u64::MAX {
            Some(((hex_val(port_tok) as u16), (dec_val(inode_tok) as u64)))
        } else {
            None
        }
    } else {
        None
    }
}

/// Parses one row of a kernel connection table.
pub fn parse_proc_net_line(line: &[u8]) -> (r: Option<(u16, u64)>)
    ensures
        r == proc_net_line_entry(line@),
{
    let parts = split_ws_fields(line);
    if parts.len() < 10 {
        return None;
    }
    proof {
        assert(parts@.map_values(|t: Vec<u8>| t@)[1] == parts@[1]@);
        assert(parts@.map_values(|t: Vec<u8>| t@)[9] == parts@[9]@);
    }
    let port_tok = suffix_after_last(parts[1].as_slice(), 0x3a);
    let port = parse_u16_hex(port_tok.as_slice());
    let inode = parse_u64_dec(parts[9].as_slice());
    match (port, inode) {
        (Some(port), Some(inode)) => Some((port, inode)),
        _ => None,
    }
}

/// The port/inode pairs of every parseable row of a kernel connection
/// table, in row order, skipping the header line.
pub open spec fn proc_net_entries(lines: Seq<Seq<u8>>) -> Seq<(u16, u64)>
    decreases lines.len(),
{
    if lines.len() == 0 {
        Seq::empty()
    } else {
        let rest = proc_net_entries(lines.drop_first());
        match proc_net_line_entry(lines[0]) {
            Some(e) => seq![e] + rest,
            None => rest,
        }
    }
}

/// Parses a kernel connection table (one protocol's rows), returning the
/// port/inode pairs of the parseable rows; the caller resolves each inode
/// to the pid holding a matching socket descriptor.
pub fn parse_proc_net(content: &[u8]) -> (r: Vec<(u16, u64)>)
    ensures
        split_lines(content@).len() >= 1 ==> r@ == proc_net_entries(
            split_lines(content@).skip(1),
        ),
        split_lines(content@).len() < 1 ==> r@ == Seq::<(u16, u64)>::empty(),
{
    let lines = split_into_lines(content);
    let mut r: Vec<(u16, u64)> = Vec::new();
    let mut i: usize = 1;
    let ghost all = split_lines(content@);
    if lines.len() < 1 {
        return r;
    }
    if lines.len() == 1 {
        proof {
            assert(all.skip(1).len() == 0);
        }
        return r;
    }
    while i < lines.len()
        invariant
            1 <= i <= lines@.len(),
            lines@.map_values(|t: Vec<u8>| t@) == all,
            r@ + proc_net_entries(all.skip(i as int)) =~= proc_net_entries(all.skip(1)),
        decreases lines@.len() - i,
    {
        proof {
            assert(all.skip(i as int)[0] == all[i as int]);
            assert(all.skip(i as int).drop_first() =~= all.skip(i + 1));
            assert(all[i as int] == lines@.map_values(|t: Vec<u8>| t@)[i as int]);
        }
        match parse_proc_net_line(lines[i].as_slice()) {
            Some(e) => {
                r.push(e);
            },
            None => {},
        }
        i = i + 1;
    }
    proof {
        assert(proc_net_entries(all.skip(lines@.len() as int)) =~= Seq::<(u16, u64)>::empty());
        assert(r@ + Seq::<(u16, u64)>::empty() =~= r@);
    }
    r
}

/// The binding held by one row of the socket-listing tool's output: the
/// pid column and the `address:port` token, with a trailing state
/// annotation stripped.
pub open spec fn lsof_line_binding(line: Seq<u8>) -> Option<PortBinding> {
    let parts = split_ws(line);
    if parts.len() >= 9 {
        let pid_tok = parts[1];
        let port_tok = before_first(after_last(parts[8], 0x3a), 0x28);
        if port_tok.len() > 0 && all_digits(port_tok) && dec_val(port_tok) <= u16::MAX
            && pid_tok.len() > 0 && all_digits(pid_tok) && dec_val(pid_tok) <= u32::MAX {
            Some(
                PortBinding {
                    port: dec_val(port_tok) as u16,
                    pid: dec_val(pid_tok) as u32,
                },
            )
        } else {
            None
        }
    } else {
        None
    }
}

/// Parses one row of the socket-listing tool's output.
pub fn parse_lsof_line(line: &[u8]) -> (r: Option<PortBinding>)
    ensures
        r == lsof_line_binding(line@),
{
    let parts = split_ws_fields(line);
    if parts.len() < 9 {
        return None;
    }
    proof {
        assert(parts@.map_values(|t: Vec<u8>| t@)[1] == parts@[1]@);
        assert(parts@.map_values(|t: Vec<u8>| t@)[8] == parts@[8]@);
    }
    let tail = suffix_after_last(parts[8].as_slice(), 0x3a);
    let port_tok = prefix_before_first(tail.as_slice(), 0x28);
    let port = parse_u16_dec(port_tok.as_slice());
    let pid = parse_u32_dec(parts[1].as_slice());
    match (port, pid) {
        (Some(port), Some(pid)) => Some(PortBinding { port, pid }),
        _ => None,
    }
}

/// Parses the complete output of the socket-listing tool, skipping the
/// header line; unparseable rows are skipped silently.
pub fn parse_lsof_output(content: &[u8]) -> (r: Vec<PortBinding>)
    ensures
        split_lines(content@).len() >= 1 ==> r@ == fold_bindings(
            split_lines(content@).skip(1),
            |line: Seq<u8>| lsof_line_binding(line),
            Seq::empty(),
        ),
        split_lines(content@).len() < 1 ==> r@ == Seq::<PortBinding>::empty(),
        unique_ports(r@),
{
    let ghost f = |line: Seq<u8>| lsof_line_binding(line);
    let lines = split_into_lines(content);
    let mut r: Vec<PortBinding> = Vec::new();
    let mut i: usize = 1;
    let ghost all = split_lines(content@);
    if lines.len() < 1 {
        return r;
    }
    let ghost goal = fold_bindings(all.skip(1), f, Seq::empty());
    if lines.len() == 1 {
        proof {
            assert(all.skip(1).len() == 0);
        }
        return r;
    }
    while i < lines.len()
        invariant
            1 <= i <= lines@.len(),
            lines@.map_values(|t: Vec<u8>| t@) == all,
            goal == fold_bindings(all.skip(i as int), f, r@),
            goal == fold_bindings(all.skip(1), f, Seq::empty()),
            f == |line: Seq<u8>| lsof_line_binding(line),
        decreases lines@.len() - i,
    {
        proof {
            assert(all.skip(i as int)[0] == all[i as int]);
            assert(all.skip(i as int).drop_first() =~= all.skip(i + 1));
            assert(all[i as int] == lines@.map_values(|t: Vec<u8>| t@)[i as int]);
        }
        match parse_lsof_line(lines[i].as_slice()) {
            Some(b) => {
                upsert_binding(&mut r, b);
            },
            None => {},
        }
        i = i + 1;
    }
    proof {
        assert(all.skip(lines@.len() as int).len() == 0);
        lemma_fold_bindings_unique(all.skip(1), f, Seq::empty());
    }
    r
}

// ---------------------------------------------------------------------------
// Joining bindings with the process directory
// ---------------------------------------------------------------------------

/// The pid of the first binding of `port`, if any.
pub open spec fn lookup_pid(bs: Seq<PortBinding>, port: u16) -> Option<u32>
    decreases bs.len(),
{
    if bs.len() == 0 {
        None
    } else if bs[0].port == port {
        Some(bs[0].pid)
    } else {
        lookup_pid(bs.drop_first(), port)
    }
}

/// Looks a port up in the binding table.
pub fn find_binding(bs: &Vec<PortBinding>, port: u16) -> (r: Option<u32>)
    ensures
        r == lookup_pid(bs@, port),
{
    let mut i: usize = 0;
    proof {
        assert(bs@.skip(0) =~= bs@);
    }
    while i < bs.len()
        invariant
            0 <= i <= bs@.len(),
            lookup_pid(bs@, port) == lookup_pid(bs@.skip(i as int), port),
        decreases bs@.len() - i,
    {
        if bs[i].port == port {
            proof {
                assert(bs@.skip(i as int)[0] == bs@[i as int]);
            }
            return Some(bs[i].pid);
        }
        proof {
            assert(bs@.skip(i as int)[0] == bs@[i as int]);
            assert(bs@.skip(i as int).drop_first() =~= bs@.skip(i + 1));
        }
        i = i + 1;
    }
    None
}

/// The first snapshot record of `pid`, if any.
pub open spec fn lookup_proc(ps: Seq<ProcessInfo>, pid: u32) -> Option<ProcessInfo>
    decreases ps.len(),
{
    if ps.len() == 0 {
        None
    } else if ps[0].pid == pid {
        Some(ps[0])
    } else {
        lookup_proc(ps.drop_first(), pid)
    }
}

/// Looks a pid up in the process directory snapshot.
pub fn find_process(ps: &Vec<ProcessInfo>, pid: u32) -> (r: Option<ProcessInfo>)
    ensures
        r == lookup_proc(ps@, pid),
{
    let mut i: usize = 0;
    proof {
        assert(ps@.skip(0) =~= ps@);
    }
    while i < ps.len()
        invariant
            0 <= i <= ps@.len(),
            lookup_proc(ps@, pid) == lookup_proc(ps@.skip(i as int), pid),
        decreases ps@.len() - i,
    {
        proof {
            assert(ps@.skip(i as int)[0] == ps@[i as int]);
        }
        if ps[i].pid == pid {
            return Some(ps[i].clone());
        }
        proof {
            assert(ps@.skip(i as int).drop_first() =~= ps@.skip(i + 1));
        }
        i = i + 1;
    }
    None
}

/// The join of the requested ports with the binding table and the process
/// directory: one entry per requested port whose binding resolves to a
/// running process, in request order.  A port with no resolvable owner
/// yields no entry — that is not an error.
pub open spec fn resolve_ports(
    ports: Seq<u16>,
    bs: Seq<PortBinding>,
    ps: Seq<ProcessInfo>,
) -> Seq<PortInfo>
    decreases ports.len(),
{
    if ports.len() == 0 {
        Seq::empty()
    } else {
        let rest = resolve_ports(ports.drop_first(), bs, ps);
        match lookup_pid(bs, ports[0]) {
            Some(pid) => match lookup_proc(ps, pid) {
                Some(p) => seq![PortInfo { port: ports[0], process: p }] + rest,
                None => rest,
            },
            None => rest,
        }
    }
}

/// Every resolved entry answers one of the requested ports, and when the
/// request holds no duplicates, no port is answered twice.
pub proof fn lemma_resolve_ports_sound(ports: Seq<u16>, bs: Seq<PortBinding>, ps: Seq<ProcessInfo>)
    ensures
        forall|k: int|
            0 <= k < resolve_ports(ports, bs, ps).len() ==> ports.contains(
                #[trigger] resolve_ports(ports, bs, ps)[k].port,
            ),
        (forall|i: int, j: int| 0 <= i < j < ports.len() ==> ports[i] != ports[j]) ==> (forall|
            i: int,
            j: int,
        |
            0 <= i < j < resolve_ports(ports, bs, ps).len() ==> resolve_ports(ports, bs, ps)[i].port
                != resolve_ports(ports, bs, ps)[j].port),
    decreases ports.len(),
{
    if ports.len() > 0 {
        let d = ports.drop_first();
        lemma_resolve_ports_sound(d, bs, ps);
        let r = resolve_ports(ports, bs, ps);
        let rest = resolve_ports(d, bs, ps);
        assert(forall|k: int| 0 <= k < d.len() ==> ports.contains(#[trigger] d[k]));
        assert(forall|k: int| 0 <= k < rest.len() ==> d.contains(#[trigger] rest[k].port));
        let picked = match lookup_pid(bs, ports[0]) {
            Some(pid) => lookup_proc(ps, pid) is Some,
            None => false,
        };
        if picked {
            assert(r[0].port == ports[0]);
            assert(forall|k: int| 1 <= k < r.len() ==> #[trigger] r[k] == rest[k - 1]);
            assert(forall|k: int|
                0 <= k < r.len() ==> ports.contains(#[trigger] r[k].port)) by {
                assert(ports.contains(ports[0]));
            }
            if forall|i: int, j: int| 0 <= i < j < ports.len() ==> ports[i] != ports[j] {
                assert(forall|i: int, j: int| 0 <= i < j < d.len() ==> d[i] != d[j]) by {
                    assert(forall|i: int| 0 <= i < d.len() ==> d[i] == ports[i + 1]);
                }
                assert forall|i: int, j: int| 0 <= i < j < r.len() implies r[i].port
                    != r[j].port by {
                    if i == 0 {
                        assert(d.contains(rest[j - 1].port));
                        let m = choose|m: int| 0 <= m < d.len() && d[m] == rest[j - 1].port;
                        assert(ports[m + 1] == r[j].port);
                    }
                }
            }
        } else {
            assert(r == rest);
            if forall|i: int, j: int| 0 <= i < j < ports.len() ==> ports[i] != ports[j] {
                assert(forall|i: int, j: int| 0 <= i < j < d.len() ==> d[i] != d[j]) by {
                    assert(forall|i: int| 0 <= i < d.len() ==> d[i] == ports[i + 1]);
                }
            }
        }
    }
}

/// Resolves each requested port to its owning process, best effort.
/// Request order is kept; unresolvable ports are skipped silently.
pub fn find_processes_by_ports(
    ports: &Vec<u16>,
    bindings: &Vec<PortBinding>,
    snapshot: &Vec<ProcessInfo>,
) -> (r: Vec<PortInfo>)
    ensures
        r@ == resolve_ports(ports@, bindings@, snapshot@),
        forall|k: int| 0 <= k < r@.len() ==> ports@.contains(#[trigger] r@[k].port),
        (forall|i: int, j: int| 0 <= i < j < ports@.len() ==> ports@[i] != ports@[j]) ==> (forall|
            i: int,
            j: int,
        | 0 <= i < j < r@.len() ==> r@[i].port != r@[j].port),
{
    let mut r: Vec<PortInfo> = Vec::new();
    let mut i: usize = 0;
    proof {
        assert(ports@.skip(0) =~= ports@);
    }
    while i < ports.len()
        invariant
            0 <= i <= ports@.len(),
            r@ + resolve_ports(ports@.skip(i as int), bindings@, snapshot@) =~= resolve_ports(
                ports@,
                bindings@,
                snapshot@,
            ),
        decreases ports@.len() - i,
    {
        proof {
            assert(ports@.skip(i as int)[0] == ports@[i as int]);
            assert(ports@.skip(i as int).drop_first() =~= ports@.skip(i + 1));
        }
        match find_binding(bindings, ports[i]) {
            Some(pid) => {
                match find_process(snapshot, pid) {
                    Some(p) => {
                        r.push(PortInfo { port: ports[i], process: p });
                    },
                    None => {},
                }
            },
            None => {},
        }
        i = i + 1;
    }
    proof {
        assert(resolve_ports(ports@.skip(ports@.len() as int), bindings@, snapshot@)
            =~= Seq::<PortInfo>::empty());
        assert(r@ =~= resolve_ports(ports@, bindings@, snapshot@));
        lemma_resolve_ports_sound(ports@, bindings@, snapshot@);
    }
    r
}

/// The join of every binding with the process directory, in table order.
pub open spec fn all_port_infos(bs: Seq<PortBinding>, ps: Seq<ProcessInfo>) -> Seq<PortInfo>
    decreases bs.len(),
{
    if bs.len() == 0 {
        Seq::empty()
    } else {
        let rest = all_port_infos(bs.drop_first(), ps);
        match lookup_proc(ps, bs[0].pid) {
            Some(p) => seq![PortInfo { port: bs[0].port, process: p }] + rest,
            None => rest,
        }
    }
}

/// When the binding table holds each port once, so does the join.
pub proof fn lemma_all_port_infos_unique(bs: Seq<PortBinding>, ps: Seq<ProcessInfo>)
    requires
        unique_ports(bs),
    ensures
        forall|k: int|
            0 <= k < all_port_infos(bs, ps).len() ==> has_port(
                bs,
                #[trigger] all_port_infos(bs, ps)[k].port,
            ),
        forall|i: int, j: int|
            0 <= i < j < all_port_infos(bs, ps).len() ==> all_port_infos(bs, ps)[i].port
                != all_port_infos(bs, ps)[j].port,
    decreases bs.len(),
{
    if bs.len() > 0 {
        let d = bs.drop_first();
        assert(forall|i: int, j: int|
            0 <= i < j < d.len() ==> #[trigger] d[i].port != #[trigger] d[j].port);
        lemma_all_port_infos_unique(d, ps);
        let r = all_port_infos(bs, ps);
        let rest = all_port_infos(d, ps);
        if lookup_proc(ps, bs[0].pid) is Some {
            assert(r[0].port == bs[0].port);
            assert(forall|k: int| 1 <= k < r.len() ==> #[trigger] r[k] == rest[k - 1]);
            assert forall|k: int| 0 <= k < r.len() implies has_port(bs, r[k].port) by {
                if k == 0 {
                    assert(bs[0].port == r[0].port);
                } else {
                    assert(has_port(d, rest[k - 1].port));
                    let m = choose|m: int| 0 <= m < d.len() && #[trigger] d[m].port == rest[k - 1].port;
                    assert(bs[m + 1].port == r[k].port);
                }
            }
            assert forall|i: int, j: int| 0 <= i < j < r.len() implies r[i].port != r[j].port by {
                if i == 0 {
                    assert(has_port(d, rest[j - 1].port));
                    let m = choose|m: int| 0 <= m < d.len() && #[trigger] d[m].port == rest[j - 1].port;
                    assert(bs[m + 1].port == r[j].port);
                }
            }
        } else {
            assert(r == rest);
            assert forall|k: int| 0 <= k < r.len() implies has_port(bs, r[k].port) by {
                assert(has_port(d, rest[k].port));
                let m = choose|m: int| 0 <= m < d.len() && #[trigger] d[m].port == rest[k].port;
                assert(bs[m + 1].port == r[k].port);
            }
        }
    }
}

pub open spec fn sorted_by_port(s: Seq<PortInfo>) -> bool {
    forall|i: int, j: int| 0 <= i < j < s.len() ==> s[i].port <= s[j].port
}

/// Inserts an entry into a port-sorted list, keeping it sorted.
fn insert_sorted_by_port(out: &mut Vec<PortInfo>, x: PortInfo)
    requires
        sorted_by_port(old(out)@),
    ensures
        sorted_by_port(final(out)@),
        final(out)@.to_multiset() == old(out)@.to_multiset().insert(x),
        final(out)@.len() == old(out)@.len() + 1,
{
    broadcast use vstd::seq_lib::group_to_multiset_ensures;

    let ghost orig = out@;
    let mut idx: usize = 0;
    while idx < out.len() && out[idx].port <= x.port
        invariant
            0 <= idx <= out@.len(),
            out@ == orig,
            sorted_by_port(orig),
            forall|m: int| 0 <= m < idx ==> orig[m].port <= x.port,
        decreases out@.len() - idx,
    {
        idx = idx + 1;
    }
    out.insert(idx, x);
    proof {
        assert(out@ == orig.insert(idx as int, x));
        assert forall|i: int, j: int| 0 <= i < j < out@.len() implies out@[i].port
            <= out@[j].port by {
            if i < idx && j == idx {
            } else if i == idx && j > idx {
                assert(out@[j] == orig[j - 1]);
                assert(orig[idx as int].port > x.port);
                assert(orig[j - 1].port >= orig[idx as int].port);
            } else if i < idx && j > idx {
                assert(out@[i] == orig[i]);
                assert(out@[j] == orig[j - 1]);
            } else if i > idx && j > idx {
                assert(out@[i] == orig[i - 1]);
                assert(out@[j] == orig[j - 1]);
            } else if i < idx && j < idx {
                assert(out@[i] == orig[i]);
                assert(out@[j] == orig[j]);
            }
        }
    }
}

/// Sorts the joined entries ascending by port.  With a unique-port binding
/// table the result is strictly ascending: no duplicate ports.
pub fn list_all_ports(bindings: &Vec<PortBinding>, snapshot: &Vec<ProcessInfo>) -> (r: Vec<
    PortInfo,
>)
    requires
        unique_ports(bindings@),
    ensures
        r@.to_multiset() == all_port_infos(bindings@, snapshot@).to_multiset(),
        sorted_by_port(r@),
        forall|i: int, j: int| 0 <= i < j < r@.len() ==> r@[i].port < r@[j].port,
{
    broadcast use vstd::seq_lib::group_to_multiset_ensures;

    let mut r: Vec<PortInfo> = Vec::new();
    let mut i: usize = 0;
    let ghost src = all_port_infos(bindings@, snapshot@);
    proof {
        assert(bindings@.skip(0) =~= bindings@);
    }
    let mut pending: Vec<PortInfo> = Vec::new();
    while i < bindings.len()
        invariant
            0 <= i <= bindings@.len(),
            pending@ + all_port_infos(bindings@.skip(i as int), snapshot@) =~= src,
            src == all_port_infos(bindings@, snapshot@),
        decreases bindings@.len() - i,
    {
        proof {
            assert(bindings@.skip(i as int)[0] == bindings@[i as int]);
            assert(bindings@.skip(i as int).drop_first() =~= bindings@.skip(i + 1));
        }
        match find_process(snapshot, bindings[i].pid) {
            Some(p) => {
                pending.push(PortInfo { port: bindings[i].port, process: p });
            },
            None => {},
        }
        i = i + 1;
    }
    proof {
        assert(all_port_infos(bindings@.skip(bindings@.len() as int), snapshot@)
            =~= Seq::<PortInfo>::empty());
        assert(pending@ =~= src);
    }
    let mut j: usize = 0;
    while j < pending.len()
        invariant
            0 <= j <= pending@.len(),
            pending@ == src,
            sorted_by_port(r@),
            r@.to_multiset() == pending@.take(j as int).to_multiset(),
            r@.len() == j,
        decreases pending@.len() - j,
    {
        let x = pending[j].clone();
        proof {
            assert(pending@.take(j + 1) =~= pending@.take(j as int).push(pending@[j as int]));
            vstd::seq_lib::to_multiset_build::<PortInfo>(
                pending@.take(j as int),
                pending@[j as int],
            );
        }
        insert_sorted_by_port(&mut r, x);
        j = j + 1;
    }
    proof {
        assert(pending@.take(pending@.len() as int) =~= pending@);
        lemma_all_port_infos_unique(bindings@, snapshot@);
        lemma_sorted_unique(src, r@);
    }
    r
}

/// A port-sorted permutation of entries with pairwise distinct ports is
/// strictly ascending.
proof fn lemma_sorted_unique(src: Seq<PortInfo>, r: Seq<PortInfo>)
    requires
        r.to_multiset() == src.to_multiset(),
        sorted_by_port(r),
        forall|i: int, j: int| 0 <= i < j < src.len() ==> src[i].port != src[j].port,
    ensures
        forall|i: int, j: int| 0 <= i < j < r.len() ==> r[i].port < r[j].port,
{
    broadcast use vstd::seq_lib::group_to_multiset_ensures;

    assert forall|i: int, j: int| 0 <= i < j < r.len() implies r[i].port < r[j].port by {
        if r[i].port == r[j].port {
            if r[i] == r[j] {
                let r2 = r.remove(i);
                assert(r2.to_multiset() == r.to_multiset().remove(r[i]));
                assert(r2[j - 1] == r[j]);
                assert(r2.contains(r[i]));
                assert(r2.to_multiset().count(r[i]) > 0);
                assert(r.to_multiset().count(r[i]) >= 2);
                assert(src.to_multiset().count(r[i]) >= 2);
                assert(src.to_multiset().contains(r[i]));
                assert(src.contains(r[i]));
                let a = choose|a: int| 0 <= a < src.len() && src[a] == r[i];
                let s2 = src.remove(a);
                assert(s2.to_multiset() == src.to_multiset().remove(src[a]));
                assert(s2.to_multiset().count(r[i]) >= 1);
                assert(s2.contains(r[i]));
                let b = choose|b: int| 0 <= b < s2.len() && s2[b] == r[i];
                if b < a {
                    assert(src[b] == s2[b]);
                    assert(src[b].port == src[a].port);
                } else {
                    assert(src[b + 1] == s2[b]);
                    assert(src[b + 1].port == src[a].port);
                }
            } else {
                assert(r.contains(r[i]));
                assert(r.to_multiset().count(r[i]) > 0);
                assert(src.to_multiset().count(r[i]) > 0);
                assert(src.contains(r[i]));
                assert(r.contains(r[j]));
                assert(r.to_multiset().count(r[j]) > 0);
                assert(src.to_multiset().count(r[j]) > 0);
                assert(src.contains(r[j]));
                let a = choose|a: int| 0 <= a < src.len() && src[a] == r[i];
                let b = choose|b: int| 0 <= b < src.len() && src[b] == r[j];
                assert(a != b);
                assert(src[a].port == src[b].port);
            }
        }
    }
}

} // verus!
