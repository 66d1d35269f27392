//! Removal engine: builds an ordered deletion plan from a directory walk,
//! refuses unsafe requests, and decides the per-entry fallback and lock
//! handling during execution.
//!
//! Paths are handled as component lists; the caller converts between them
//! and the platform's native paths.  All filesystem reads and writes stay
//! with the caller: planning and the execution decisions are pure.

use vstd::multiset::Multiset;
use vstd::prelude::*;

verus! {

/// One planned deletion: a file, symlink or directory discovered by the walk.
pub struct FileInfo {
    /// The components of the path, root first.
    pub path: Vec<String>,
    pub is_dir: bool,
    pub size: u64,
    pub is_symlink: bool,
}

/// The mathematical image of a `FileInfo`.
pub struct EntryV {
    pub path: Seq<Seq<char>>,
    pub is_dir: bool,
    pub size: u64,
    pub is_symlink: bool,
}

impl View for FileInfo {
    type V = EntryV;

    open spec fn view(&self) -> EntryV {
        EntryV {
            path: self.path.deep_view(),
            is_dir: self.is_dir,
            size: self.size,
            is_symlink: self.is_symlink,
        }
    }
}

/// The mathematical image of a plan: the entries' views, in order.
pub open spec fn plan_view(s: Seq<FileInfo>) -> Seq<EntryV> {
    s.map_values(|f: FileInfo| f@)
}

/// Why a removal request was refused at planning time.
#[derive(Debug)]
pub enum PlanError {
    /// The path names a protected filesystem root.
    CriticalPath { path: Vec<String> },
    /// The path does not exist.
    NotFound { path: Vec<String> },
    /// A non-empty directory was requested without the recursive flag.
    NeedsRecursive { path: Vec<String> },
}

/// The mathematical image of a `PlanError`.
pub enum PlanErrV {
    CriticalPath { path: Seq<Seq<char>> },
    NotFound { path: Seq<Seq<char>> },
    NeedsRecursive { path: Seq<Seq<char>> },
}

impl View for PlanError {
    type V = PlanErrV;

    open spec fn view(&self) -> PlanErrV {
        match self {
            PlanError::CriticalPath { path } => PlanErrV::CriticalPath { path: path.deep_view() },
            PlanError::NotFound { path } => PlanErrV::NotFound { path: path.deep_view() },
            PlanError::NeedsRecursive { path } => PlanErrV::NeedsRecursive {
                path: path.deep_view(),
            },
        }
    }
}

// ---------------------------------------------------------------------------
// Paths
// ---------------------------------------------------------------------------

/// Whether `a` is a (not necessarily proper) prefix of `b`: the ancestor
/// relation on component paths, including the path itself.
pub open spec fn is_prefix_of(a: Seq<Seq<char>>, b: Seq<Seq<char>>) -> bool {
    a.len() <= b.len() && forall|i: int| 0 <= i < a.len() ==> a[i] == #[trigger] b[i]
}

/// Copies a component path; the copy denotes the same path.
pub fn clone_path(p: &Vec<String>) -> (r: Vec<String>)
    ensures
        r.deep_view() == p.deep_view(),
{
    let r = p.clone();
    proof {
        assert forall|i: int| 0 <= i < r@.len() implies r@[i]@ == #[trigger] p@[i]@ by {}
        assert(r.deep_view() =~~= p.deep_view());
    }
    r
}

/// Whether the two component paths are the same path.
pub fn path_eq(a: &Vec<String>, b: &Vec<String>) -> (r: bool)
    ensures
        r == (a.deep_view() == b.deep_view()),
{
    if a.len() != b.len() {
        proof {
            assert(a.deep_view().len() == a@.len());
            assert(b.deep_view().len() == b@.len());
        }
        return false;
    }
    let mut i: usize = 0;
    while i < a.len()
        invariant
            0 <= i <= a@.len(),
            a@.len() == b@.len(),
            forall|m: int| 0 <= m < i ==> a@[m]@ == #[trigger] b@[m]@,
        decreases a@.len() - i,
    {
        if !a[i].eq(&b[i]) {
            proof {
                assert(a.deep_view()[i as int] == a@[i as int]@);
                assert(b.deep_view()[i as int] == b@[i as int]@);
            }
            return false;
        }
        i = i + 1;
    }
    proof {
        assert(a.deep_view() =~~= b.deep_view());
    }
    true
}

/// Whether `a` is an ancestor of `b` (or `b` itself).
pub fn path_is_prefix(a: &Vec<String>, b: &Vec<String>) -> (r: bool)
    ensures
        r == is_prefix_of(a.deep_view(), b.deep_view()),
{
    if a.len() > b.len() {
        proof {
            assert(a.deep_view().len() == a@.len());
            assert(b.deep_view().len() == b@.len());
        }
        return false;
    }
    let mut i: usize = 0;
    while i < a.len()
        invariant
            0 <= i <= a@.len(),
            a@.len() <= b@.len(),
            forall|m: int| 0 <= m < i ==> a@[m]@ == #[trigger] b@[m]@,
        decreases a@.len() - i,
    {
        if !a[i].eq(&b[i]) {
            proof {
                assert(a.deep_view()[i as int] == a@[i as int]@);
                assert(b.deep_view()[i as int] == b@[i as int]@);
            }
            return false;
        }
        i = i + 1;
    }
    proof {
        assert forall|m: int|
            0 <= m < a.deep_view().len() implies a.deep_view()[m] == #[trigger] b.deep_view()[m] by {
            assert(a.deep_view()[m] == a@[m]@);
            assert(b.deep_view()[m] == b@[m]@);
        }
    }
    true
}

// ---------------------------------------------------------------------------
// Protected roots
// ---------------------------------------------------------------------------

/// Whether the path is one of the protected filesystem roots (the system
/// drive's root, or the root directory): those are never deletion targets,
/// however explicit the request.
pub open spec fn spec_critical(path: Seq<Seq<char>>, roots: Seq<Seq<Seq<char>>>) -> bool {
    exists|k: int| 0 <= k < roots.len() && roots[k] == path
}

/// Checks a requested path against the protected roots.
pub fn is_system_critical_path(path: &Vec<String>, roots: &Vec<Vec<String>>) -> (r: bool)
    ensures
        r == spec_critical(path.deep_view(), roots.deep_view()),
{
    let mut k: usize = 0;
    while k < roots.len()
        invariant
            0 <= k <= roots@.len(),
            forall|m: int| 0 <= m < k ==> #[trigger] roots.deep_view()[m] != path.deep_view(),
        decreases roots@.len() - k,
    {
        if path_eq(&roots[k], path) {
            proof {
                assert(roots.deep_view()[k as int] == roots@[k as int].deep_view());
            }
            return true;
        }
        proof {
            assert(roots.deep_view()[k as int] == roots@[k as int].deep_view());
        }
        k = k + 1;
    }
    false
}

/// Refuses a batch whose paths include a protected root; the first offender
/// is named.  All paths are safe exactly when the result is `Ok`.
pub fn validate_paths(paths: &Vec<Vec<String>>, roots: &Vec<Vec<String>>) -> (r: Result<
    (),
    PlanError,
>)
    ensures
        r is Ok <==> (forall|i: int|
            0 <= i < paths.deep_view().len() ==> !spec_critical(
                #[trigger] paths.deep_view()[i],
                roots.deep_view(),
            )),
        r matches Err(e) ==> (e@ matches PlanErrV::CriticalPath { path } && exists|i: int|
            0 <= i < paths.deep_view().len() && #[trigger] paths.deep_view()[i] == path
                && spec_critical(path, roots.deep_view())),
{
    let mut i: usize = 0;
    while i < paths.len()
        invariant
            0 <= i <= paths@.len(),
            forall|m: int|
                0 <= m < i ==> !spec_critical(#[trigger] paths.deep_view()[m], roots.deep_view()),
        decreases paths@.len() - i,
    {
        proof {
            assert(paths.deep_view()[i as int] == paths@[i as int].deep_view());
        }
        if is_system_critical_path(&paths[i], roots) {
            let offender = clone_path(&paths[i]);
            proof {
                assert(offender.deep_view() == paths.deep_view()[i as int]);
            }
            return Err(PlanError::CriticalPath { path: offender });
        }
        i = i + 1;
    }
    proof {
        assert(paths.deep_view().len() == paths@.len());
    }
    Ok(())
}

// ---------------------------------------------------------------------------
// The walk: from a directory tree to a flat plan
// ---------------------------------------------------------------------------

/// What a symlink-non-following walk of one requested path found.  A
/// directory's entry lists its children in directory order; symlinks are
/// never descended, and carry their resolved absolute target when it could
/// be read.
pub enum FsTree {
    Leaf { name: String, size: u64 },
    Link { name: String, size: u64, target: Option<Vec<String>> },
    Dir { name: String, children: Vec<FsTree> },
}

/// The plan entries contributed by one node under the directory `dir`,
/// children strictly before their parent.  A symlink whose target could
/// not be read, or whose target is the walked directory or an ancestor of
/// it (a cycle), contributes nothing.
pub open spec fn flat_tree(dir: Seq<Seq<char>>, t: FsTree) -> Seq<EntryV>
    decreases t, 0int,
{
    match t {
        FsTree::Leaf { name, size } => seq![
            EntryV { path: dir.push(name@), is_dir: false, size: size, is_symlink: false },
        ],
        FsTree::Link { name, size, target } => match target {
            Option::None => Seq::empty(),
            Option::Some(tv) => {
                if is_prefix_of(tv.deep_view(), dir) {
                    Seq::empty()
                } else {
                    seq![
                        EntryV {
                            path: dir.push(name@),
                            is_dir: false,
                            size: size,
                            is_symlink: true,
                        },
                    ]
                }
            },
        },
        FsTree::Dir { name, children } => flat_children(dir.push(name@), children, 0).push(
            EntryV { path: dir.push(name@), is_dir: true, size: 0, is_symlink: false },
        ),
    }
}

/// The plan entries of the children from index `i` on, in directory order.
pub open spec fn flat_children(dir: Seq<Seq<char>>, children: Vec<FsTree>, i: int) -> Seq<EntryV>
    decreases children, children.len() - i,
{
    if i < 0 || i >= children.len() {
        Seq::empty()
    } else {
        flat_tree(dir, children[i]) + flat_children(dir, children, i + 1)
    }
}

/// `plan_view` turns a push into a push of the view.
proof fn lemma_plan_push(prev: Seq<FileInfo>, entry: FileInfo)
    ensures
        plan_view(prev.push(entry)) == plan_view(prev).push(entry@),
{
    assert forall|i: int|
        0 <= i < plan_view(prev.push(entry)).len() implies plan_view(prev.push(entry))[i]
        == plan_view(prev).push(entry@)[i] by {
        assert(plan_view(prev.push(entry))[i] == prev.push(entry)[i]@);
        if i < prev.len() {
            assert(prev.push(entry)[i] == prev[i]);
            assert(plan_view(prev)[i] == prev[i]@);
        } else {
            assert(prev.push(entry)[i] == entry);
        }
    }
    assert(plan_view(prev.push(entry)) =~= plan_view(prev).push(entry@));
}

/// Appending one element is the same as adding a singleton.
proof fn lemma_push_as_add(s: Seq<EntryV>, e: EntryV)
    ensures
        s.push(e) == s + seq![e],
{
    assert(s.push(e) =~= s + seq![e]);
}

/// Appends the entries of one walked node to the plan being built.
#[verifier::loop_isolation(false)]
pub fn flatten_tree(dir: &Vec<String>, t: &FsTree, out: &mut Vec<FileInfo>)
    ensures
        plan_view(final(out)@) == plan_view(old(out)@) + flat_tree(dir.deep_view(), *t),
    decreases *t,
{
    let ghost base = plan_view(out@);
    match t {
        FsTree::Leaf { name, size } => {
            let mut p = clone_path(dir);
            p.push(name.clone());
            proof {
                assert(p.deep_view() =~= dir.deep_view().push(name@));
            }
            let entry = FileInfo { path: p, is_dir: false, size: *size, is_symlink: false };
            let ghost prev = out@;
            proof {
                assert(entry@ == flat_tree(dir.deep_view(), *t)[0]);
            }
            out.push(entry);
            proof {
                lemma_plan_push(prev, entry);
                lemma_push_as_add(base, entry@);
                assert(flat_tree(dir.deep_view(), *t) =~= seq![entry@]);
            }
        },
        FsTree::Link { name, size, target } => {
            match target {
                Option::None => {
                    proof {
                        assert(base + flat_tree(dir.deep_view(), *t) =~= base);
                    }
                },
                Option::Some(tv) => {
                    if path_is_prefix(tv, dir) {
                        proof {
                            assert(base + flat_tree(dir.deep_view(), *t) =~= base);
                        }
                    } else {
                        let mut p = clone_path(dir);
                        p.push(name.clone());
                        proof {
                            assert(p.deep_view() =~= dir.deep_view().push(name@));
                        }
                        let entry = FileInfo {
                            path: p,
                            is_dir: false,
                            size: *size,
                            is_symlink: true,
                        };
                        let ghost prev = out@;
                        proof {
                            assert(entry@ == flat_tree(dir.deep_view(), *t)[0]);
                        }
                        out.push(entry);
                        proof {
                            lemma_plan_push(prev, entry);
                            lemma_push_as_add(base, entry@);
                            assert(flat_tree(dir.deep_view(), *t) =~= seq![entry@]);
                        }
                    }
                },
            }
        },
        FsTree::Dir { name, children } => {
            let mut sub = clone_path(dir);
            sub.push(name.clone());
            proof {
                assert(sub.deep_view() =~= dir.deep_view().push(name@));
            }
            let mut i: usize = 0;
            while i < children.len()
                invariant
                    0 <= i <= children@.len(),
                    plan_view(out@) + flat_children(sub.deep_view(), *children, i as int) =~= base
                        + flat_children(sub.deep_view(), *children, 0),
                decreases children@.len() - i,
            {
                flatten_tree(&sub, &children[i], out);
                proof {
                    assert(plan_view(out@) + flat_children(sub.deep_view(), *children, i + 1)
                        =~= base + flat_children(sub.deep_view(), *children, 0));
                }
                i = i + 1;
            }
            let mut p = clone_path(dir);
            p.push(name.clone());
            proof {
                assert(p.deep_view() =~= dir.deep_view().push(name@));
                assert(plan_view(out@) =~= base + flat_children(sub.deep_view(), *children, 0));
            }
            let entry = FileInfo { path: p, is_dir: true, size: 0, is_symlink: false };
            let ghost prev = out@;
            out.push(entry);
            proof {
                lemma_plan_push(prev, entry);
                assert(plan_view(out@) =~= base + flat_tree(dir.deep_view(), *t));
            }
        },
    }
}

// ---------------------------------------------------------------------------
// Planning
// ---------------------------------------------------------------------------

/// One requested path together with what the walk found there.
pub struct RootRequest {
    pub path: Vec<String>,
    pub state: RootState,
}

pub enum RootState {
    /// The path does not exist: planning refuses the request.
    Missing,
    /// What the symlink-non-following walk found at the path.
    Present { tree: FsTree },
}

/// The plan entries one requested path owes, or the error that refuses it.
/// A directory needs the recursive flag unless it is empty; a file or
/// symlink root is removed as itself, without target checks.
pub open spec fn root_entries(path: Seq<Seq<char>>, tree: FsTree, recursive: bool) -> Result<
    Seq<EntryV>,
    PlanErrV,
> {
    match tree {
        FsTree::Leaf { name, size } => Ok(
            seq![EntryV { path: path, is_dir: false, size: size, is_symlink: false }],
        ),
        FsTree::Link { name, size, target } => Ok(
            seq![EntryV { path: path, is_dir: false, size: size, is_symlink: true }],
        ),
        FsTree::Dir { name, children } => {
            if recursive {
                Ok(
                    flat_children(path, children, 0).push(
                        EntryV { path: path, is_dir: true, size: 0, is_symlink: false },
                    ),
                )
            } else if children.len() == 0 {
                Ok(seq![EntryV { path: path, is_dir: true, size: 0, is_symlink: false }])
            } else {
                Err(PlanErrV::NeedsRecursive { path })
            }
        },
    }
}

/// The whole plan: each root's entries in request order, children before
/// parents within a root; the first refused root refuses the request.
pub open spec fn collect_spec(roots: Seq<RootRequest>, recursive: bool) -> Result<
    Seq<EntryV>,
    PlanErrV,
>
    decreases roots.len(),
{
    if roots.len() == 0 {
        Ok(Seq::empty())
    } else {
        match roots[0].state {
            RootState::Missing => Err(PlanErrV::NotFound { path: roots[0].path.deep_view() }),
            RootState::Present { tree } => match root_entries(
                roots[0].path.deep_view(),
                tree,
                recursive,
            ) {
                Ok(es) => match collect_spec(roots.drop_first(), recursive) {
                    Ok(rest) => Ok(es + rest),
                    Err(e) => Err(e),
                },
                Err(e) => Err(e),
            },
        }
    }
}

/// Planning fails whenever some requested directory is non-empty and the
/// recursive flag is off.
pub proof fn lemma_plan_needs_recursive(roots: Seq<RootRequest>, k: int)
    requires
        0 <= k < roots.len(),
        roots[k].state matches RootState::Present { tree } && (tree matches FsTree::Dir {
            children,
            ..
        } && children.len() > 0),
    ensures
        collect_spec(roots, false) is Err,
    decreases roots.len(),
{
    if roots.len() > 0 {
        match roots[0].state {
            RootState::Missing => {},
            RootState::Present { tree } => {
                match root_entries(roots[0].path.deep_view(), tree, false) {
                    Ok(es) => {
                        assert(k > 0);
                        lemma_plan_needs_recursive(roots.drop_first(), k - 1);
                    },
                    Err(e) => {},
                }
            },
        }
    }
}

/// Builds the ordered deletion plan for the requested paths.  Every root
/// must exist, and a non-empty directory root needs the recursive flag;
/// within each directory, children are planned strictly before the
/// directory itself.
#[verifier::loop_isolation(false)]
pub fn collect_files_to_remove(roots: &Vec<RootRequest>, recursive: bool) -> (r: Result<
    Vec<FileInfo>,
    PlanError,
>)
    ensures
        r matches Ok(v) ==> collect_spec(roots@, recursive) == Result::<
            Seq<EntryV>,
            PlanErrV,
        >::Ok(plan_view(v@)),
        r matches Err(e) ==> collect_spec(roots@, recursive) == Result::<
            Seq<EntryV>,
            PlanErrV,
        >::Err(e@),
{
    let mut out: Vec<FileInfo> = Vec::new();
    let mut i: usize = 0;
    proof {
        assert(roots@.skip(0) =~= roots@);
    }
    while i < roots.len()
        invariant
            0 <= i <= roots@.len(),
            (match collect_spec(roots@.skip(i as int), recursive) {
                Ok(rest) => collect_spec(roots@, recursive) == Result::<
                    Seq<EntryV>,
                    PlanErrV,
                >::Ok(plan_view(out@) + rest),
                Err(e) => collect_spec(roots@, recursive) == Result::<
                    Seq<EntryV>,
                    PlanErrV,
                >::Err(e),
            }),
        decreases roots@.len() - i,
    {
        proof {
            assert(roots@.skip(i as int)[0] == roots@[i as int]);
            assert(roots@.skip(i as int).drop_first() =~= roots@.skip(i + 1));
        }
        let root = &roots[i];
        let ghost before = plan_view(out@);
        match &root.state {
            RootState::Missing => {
                return Err(PlanError::NotFound { path: clone_path(&root.path) });
            },
            RootState::Present { tree } => {
                match tree {
                    FsTree::Leaf { name, size } => {
                        let entry = FileInfo {
                            path: clone_path(&root.path),
                            is_dir: false,
                            size: *size,
                            is_symlink: false,
                        };
                        let ghost prev = out@;
                        out.push(entry);
                        proof {
                            lemma_plan_push(prev, entry);
                            lemma_push_as_add(before, entry@);
                            assert(root_entries(root.path.deep_view(), *tree, recursive)
                                == Result::<Seq<EntryV>, PlanErrV>::Ok(seq![entry@]));
                        }
                    },
                    FsTree::Link { name, size, target } => {
                        let entry = FileInfo {
                            path: clone_path(&root.path),
                            is_dir: false,
                            size: *size,
                            is_symlink: true,
                        };
                        let ghost prev = out@;
                        out.push(entry);
                        proof {
                            lemma_plan_push(prev, entry);
                            lemma_push_as_add(before, entry@);
                            assert(root_entries(root.path.deep_view(), *tree, recursive)
                                == Result::<Seq<EntryV>, PlanErrV>::Ok(seq![entry@]));
                        }
                    },
                    FsTree::Dir { name, children } => {
                        if !recursive && children.len() > 0 {
                            return Err(
                                PlanError::NeedsRecursive { path: clone_path(&root.path) },
                            );
                        }
                        let dir_path = clone_path(&root.path);
                        if recursive {
                            let mut k: usize = 0;
                            while k < children.len()
                                invariant
                                    0 <= k <= children@.len(),
                                    plan_view(out@) + flat_children(
                                        dir_path.deep_view(),
                                        *children,
                                        k as int,
                                    ) =~= before + flat_children(
                                        dir_path.deep_view(),
                                        *children,
                                        0,
                                    ),
                                decreases children@.len() - k,
                            {
                                flatten_tree(&dir_path, &children[k], &mut out);
                                proof {
                                    assert(plan_view(out@) + flat_children(
                                        dir_path.deep_view(),
                                        *children,
                                        k + 1,
                                    ) =~= before + flat_children(
                                        dir_path.deep_view(),
                                        *children,
                                        0,
                                    ));
                                }
                                k = k + 1;
                            }
                            proof {
                                assert(plan_view(out@) =~= before + flat_children(
                                    dir_path.deep_view(),
                                    *children,
                                    0,
                                ));
                            }
                        }
                        let entry = FileInfo {
                            path: dir_path,
                            is_dir: true,
                            size: 0,
                            is_symlink: false,
                        };
                        let ghost prev = out@;
                        out.push(entry);
                        proof {
                            lemma_plan_push(prev, entry);
                            if recursive {
                                assert(plan_view(out@) =~= before + flat_children(
                                    entry.path.deep_view(),
                                    *children,
                                    0,
                                ).push(entry@));
                                assert(root_entries(root.path.deep_view(), *tree, recursive)
                                    == Result::<Seq<EntryV>, PlanErrV>::Ok(
                                    flat_children(entry.path.deep_view(), *children, 0).push(
                                        entry@,
                                    ),
                                ));
                            } else {
                                lemma_push_as_add(before, entry@);
                                assert(root_entries(root.path.deep_view(), *tree, recursive)
                                    == Result::<Seq<EntryV>, PlanErrV>::Ok(seq![entry@]));
                            }
                        }
                    },
                }
            },
        }
        proof {
            let es = root_entries(roots@[i as int].path.deep_view(),
                roots@[i as int].state->Present_tree, recursive)->Ok_0;
            assert(plan_view(out@) =~= before + es);
            match collect_spec(roots@.skip(i + 1), recursive) {
                Ok(rest) => {
                    assert(before + es + rest =~= before + (es + rest));
                },
                Err(e) => {},
            }
        }
        i = i + 1;
    }
    proof {
        assert(roots@.skip(roots@.len() as int).len() == 0);
        assert(plan_view(out@) + Seq::<EntryV>::empty() =~= plan_view(out@));
    }
    Ok(out)
}

// ---------------------------------------------------------------------------
// Execution order
// ---------------------------------------------------------------------------

/// The deletion order: every file strictly before every directory, and
/// within each group deeper paths (more components) strictly before
/// shallower ones, so children go before their parents.
pub open spec fn removal_le(a: EntryV, b: EntryV) -> bool {
    (!a.is_dir && b.is_dir) || (a.is_dir == b.is_dir && a.path.len() >= b.path.len())
}

pub open spec fn removal_sorted(s: Seq<EntryV>) -> bool {
    forall|i: int, j: int| 0 <= i < j < s.len() ==> removal_le(#[trigger] s[i], #[trigger] s[j])
}

/// Compares two entries in deletion order.
fn removal_le_exec(a: &FileInfo, b: &FileInfo) -> (r: bool)
    ensures
        r == removal_le(a@, b@),
{
    proof {
        assert(a@.path.len() == a.path@.len());
        assert(b@.path.len() == b.path@.len());
    }
    (!a.is_dir && b.is_dir) || (a.is_dir == b.is_dir && a.path.len() >= b.path.len())
}

/// Inserts an entry into a plan kept in deletion order.
fn insert_removal_order(out: &mut Vec<FileInfo>, x: FileInfo)
    requires
        removal_sorted(plan_view(old(out)@)),
    ensures
        removal_sorted(plan_view(final(out)@)),
        plan_view(final(out)@).to_multiset() == plan_view(old(out)@).to_multiset().insert(x@),
        final(out)@.len() == old(out)@.len() + 1,
{
    broadcast use vstd::seq_lib::group_to_multiset_ensures;

    let ghost orig = out@;
    let mut idx: usize = 0;
    while idx < out.len() && removal_le_exec(&out[idx], &x)
        invariant
            0 <= idx <= out@.len(),
            out@ == orig,
            orig == old(out)@,
            removal_sorted(plan_view(orig)),
            forall|m: int| 0 <= m < idx ==> removal_le(#[trigger] plan_view(orig)[m], x@),
        decreases out@.len() - idx,
    {
        proof {
            assert(plan_view(orig)[idx as int] == orig[idx as int]@);
        }
        idx = idx + 1;
    }
    proof {
        if idx < out@.len() {
            assert(plan_view(orig)[idx as int] == orig[idx as int]@);
            assert(!removal_le(plan_view(orig)[idx as int], x@));
        }
    }
    out.insert(idx, x);
    proof {
        assert(out@ == orig.insert(idx as int, x));
        orig.insert_ensures(idx as int, x);
        let pv = plan_view(out@);
        let po = plan_view(orig);
        assert forall|m: int| 0 <= m < pv.len() implies #[trigger] pv[m] == (if m < idx {
            po[m]
        } else if m == idx {
            x@
        } else {
            po[m - 1]
        }) by {
            assert(pv[m] == out@[m]@);
            if m < idx {
                assert(out@[m] == orig[m]);
                assert(po[m] == orig[m]@);
            } else if m == idx {
                assert(out@[m] == x);
            } else {
                assert(out@[m] == orig[m - 1]);
                assert(po[m - 1] == orig[m - 1]@);
            }
        }
        assert forall|i: int, j: int|
            0 <= i < j < pv.len() implies removal_le(#[trigger] pv[i], #[trigger] pv[j]) by {
            if i < idx && j == idx {
            } else if i == idx && j > idx {
                assert(!removal_le(po[idx as int], x@));
                assert(removal_le(x@, po[idx as int]));
                assert(removal_le(po[idx as int], po[j - 1]) || idx == j - 1);
            } else if i < idx && j > idx {
                assert(removal_le(po[i], po[j - 1]));
            } else if i > idx {
                assert(removal_le(po[i - 1], po[j - 1]));
            } else if j < idx {
                assert(removal_le(po[i], po[j]));
            }
        }
        assert(pv =~= po.insert(idx as int, x@));
        vstd::seq_lib::to_multiset_insert::<EntryV>(po, idx as int, x@);
    }
}

/// Reorders a plan into deletion order: files strictly before directories,
/// and within each group deeper paths strictly before shallower ones.  The
/// entries themselves are exactly those of the input.
pub fn order_for_removal(files: Vec<FileInfo>) -> (r: Vec<FileInfo>)
    ensures
        removal_sorted(plan_view(r@)),
        plan_view(r@).to_multiset() == plan_view(files@).to_multiset(),
        r@.len() == files@.len(),
{
    broadcast use vstd::seq_lib::group_to_multiset_ensures;

    let ghost whole = plan_view(files@);
    let mut input = files;
    let mut out: Vec<FileInfo> = Vec::new();
    while input.len() > 0
        invariant
            removal_sorted(plan_view(out@)),
            plan_view(out@).to_multiset().add(plan_view(input@).to_multiset())
                =~= whole.to_multiset(),
            out@.len() + input@.len() == whole.len(),
            whole == plan_view(files@),
            whole.len() == files@.len(),
        decreases input@.len(),
    {
        let ghost in_before = input@;
        let ghost out_before = out@;
        let x = input.remove(0);
        proof {
            assert(input@ == in_before.remove(0));
            assert(plan_view(input@) =~= plan_view(in_before).remove(0));
            vstd::seq_lib::to_multiset_remove::<EntryV>(plan_view(in_before), 0);
            assert(plan_view(in_before)[0] == in_before[0]@);
        }
        insert_removal_order(&mut out, x);
        proof {
            let e = x@;
            let a = plan_view(out_before).to_multiset();
            let b = plan_view(in_before).to_multiset();
            assert(plan_view(in_before).contains(e)) by {
                assert(plan_view(in_before)[0] == in_before[0]@);
            }
            vstd::seq_lib::to_multiset_contains::<EntryV>(plan_view(in_before), e);
            assert(b.count(e) > 0);
            assert(plan_view(out@).to_multiset().add(plan_view(input@).to_multiset()) =~= a.insert(
                e,
            ).add(b.remove(e)));
            assert(a.insert(e).add(b.remove(e)) =~= a.add(b));
        }
    }
    proof {
        assert(plan_view(input@).to_multiset() =~= Multiset::<EntryV>::empty());
        assert(plan_view(out@).to_multiset() =~= whole.to_multiset());
    }
    out
}

/// In a plan in deletion order no directory precedes any file, and among
/// directories a descendant always precedes its ancestors: parents are
/// removed only after their children.
pub proof fn lemma_removal_order(s: Seq<EntryV>)
    requires
        removal_sorted(s),
    ensures
        forall|i: int, j: int|
            0 <= i < j < s.len() ==> !((#[trigger] s[i]).is_dir && !(#[trigger] s[j]).is_dir),
        forall|i: int, j: int|
            0 <= i < j < s.len() && (#[trigger] s[i]).is_dir && (#[trigger] s[j]).is_dir
                ==> !(is_prefix_of(s[i].path, s[j].path) && s[i].path.len() < s[j].path.len()),
{
}

// ---------------------------------------------------------------------------
// Execution errors
// ---------------------------------------------------------------------------

/// Why deleting one entry failed.  Detection is best effort, so the kinds
/// mirror what the OS can actually distinguish.
pub enum DeletionError {
    /// The target is held open by another process.
    FileLocked { path: Vec<String> },
    /// A lock was positively detected but no holder could be identified;
    /// the engine does not guess.
    LockedUnidentifiable { path: Vec<String> },
    /// The holder search itself failed.
    HolderLookupFailed { path: Vec<String> },
    PermissionDenied { path: Vec<String> },
    NotFound { path: Vec<String> },
    DirectoryNotEmpty { path: Vec<String> },
    /// A symlink points into a protected system root.
    SystemCriticalLink { path: Vec<String> },
    /// A transient or unclassified I/O failure, possibly retryable.
    IoError { path: Vec<String>, message: String },
    Other { path: Vec<String>, message: String },
}

// ---------------------------------------------------------------------------
// Dry runs
// ---------------------------------------------------------------------------

/// How one planned entry fared.
pub enum RemovalStatus {
    /// The entry was deleted.
    Removed,
    /// A dry run: the entry would have been deleted, and nothing was
    /// touched.
    WouldRemove,
    Failed { error: DeletionError },
}

/// One per-entry result of an execution pass.
pub struct RemovalOutcome {
    pub entry: FileInfo,
    pub status: RemovalStatus,
}

/// The planned entries a result list speaks of, in order.
pub open spec fn outcome_entries(s: Seq<RemovalOutcome>) -> Seq<EntryV> {
    s.map_values(|o: RemovalOutcome| o.entry@)
}

/// A dry run of the removal: the full ordering logic runs, every planned
/// entry is reported as a hypothetical success, and — having no way to
/// touch the filesystem — the pass mutates nothing, so planning again
/// immediately afterwards finds the same entries.
pub fn dry_run_removal(files: Vec<FileInfo>) -> (r: Vec<RemovalOutcome>)
    ensures
        forall|i: int| 0 <= i < r@.len() ==> (#[trigger] r@[i]).status is WouldRemove,
        removal_sorted(outcome_entries(r@)),
        outcome_entries(r@).to_multiset() == plan_view(files@).to_multiset(),
        r@.len() == files@.len(),
{
    let ghost whole = plan_view(files@);
    let ordered = order_for_removal(files);
    let ghost ovs = plan_view(ordered@);
    let mut rest = ordered;
    let mut r: Vec<RemovalOutcome> = Vec::new();
    while rest.len() > 0
        invariant
            outcome_entries(r@) + plan_view(rest@) =~= ovs,
            forall|i: int| 0 <= i < r@.len() ==> (#[trigger] r@[i]).status is WouldRemove,
            removal_sorted(ovs),
            ovs.to_multiset() == whole.to_multiset(),
            ovs.len() == whole.len(),
            whole == plan_view(files@),
            whole.len() == files@.len(),
        decreases rest@.len(),
    {
        let ghost rest_before = rest@;
        let ghost r_before = r@;
        let x = rest.remove(0);
        let o = RemovalOutcome { entry: x, status: RemovalStatus::WouldRemove };
        r.push(o);
        proof {
            assert(plan_view(rest@) =~= plan_view(rest_before).remove(0));
            assert(outcome_entries(r@) =~= outcome_entries(r_before).push(x@)) by {
                assert forall|m: int|
                    0 <= m < outcome_entries(r@).len() implies #[trigger] outcome_entries(r@)[m]
                    == outcome_entries(r_before).push(x@)[m] by {
                    assert(outcome_entries(r@)[m] == r@[m].entry@);
                    if m < r_before.len() {
                        assert(r@[m] == r_before[m]);
                        assert(outcome_entries(r_before)[m] == r_before[m].entry@);
                    } else {
                        assert(r@[m] == o);
                    }
                }
            }
            assert(plan_view(rest_before)[0] == rest_before[0]@);
            assert(outcome_entries(r@) + plan_view(rest@) =~= ovs);
        }
    }
    proof {
        assert(outcome_entries(r@) =~= ovs);
    }
    r
}

// ---------------------------------------------------------------------------
// Per-entry execution decisions
// ---------------------------------------------------------------------------

/// What to do about a lock found on the current target.
pub enum LockDecision {
    /// Not locked (or the lock is stale): go ahead and delete.
    Proceed,
    /// Holders were identified: terminate them with bounded force, wait
    /// briefly for the handles to be released, then retry the delete.
    KillHoldersThenRetry,
    Fail { error: DeletionError },
}

pub open spec fn fails_locked(r: LockDecision, path: Seq<Seq<char>>) -> bool {
    r matches LockDecision::Fail { error } && (error matches DeletionError::FileLocked {
        path: p,
    } && p.deep_view() == path)
}

pub open spec fn fails_unidentifiable(r: LockDecision, path: Seq<Seq<char>>) -> bool {
    r matches LockDecision::Fail { error } && (error
        matches DeletionError::LockedUnidentifiable { path: p } && p.deep_view() == path)
}

pub open spec fn fails_lookup(r: LockDecision, path: Seq<Seq<char>>) -> bool {
    r matches LockDecision::Fail { error } && (error matches DeletionError::HolderLookupFailed {
        path: p,
    } && p.deep_view() == path)
}

/// The lock gate of one deletion attempt.  Without the force flag a locked
/// target fails immediately; with it, identified holders are terminated and
/// the delete retried, while a positive lock signal with no identifiable
/// holder is a distinct failure — the engine does not guess.  From the
/// second attempt on, stale lock signals no longer block the delete.
pub fn lock_gate(
    path: &Vec<String>,
    locked: bool,
    anyway: bool,
    holders: Option<&Vec<u32>>,
    attempt: u32,
) -> (r: LockDecision)
    requires
        attempt >= 1,
    ensures
        !locked ==> r is Proceed,
        locked && !anyway ==> fails_locked(r, path.deep_view()),
        locked && anyway && holders is None && attempt == 1 ==> fails_lookup(r, path.deep_view()),
        locked && anyway && holders is None && attempt > 1 ==> r is Proceed,
        holders matches Some(hs) ==> (locked && anyway && hs@.len() > 0
            ==> r is KillHoldersThenRetry),
        holders matches Some(hs) ==> (locked && anyway && hs@.len() == 0 && attempt == 1
            ==> fails_unidentifiable(r, path.deep_view())),
        holders matches Some(hs) ==> (locked && anyway && hs@.len() == 0 && attempt > 1
            ==> r is Proceed),
{
    if !locked {
        return LockDecision::Proceed;
    }
    if !anyway {
        return LockDecision::Fail {
            error: DeletionError::FileLocked { path: clone_path(path) },
        };
    }
    match holders {
        Some(hs) => {
            if hs.len() > 0 {
                LockDecision::KillHoldersThenRetry
            } else if attempt == 1 {
                LockDecision::Fail {
                    error: DeletionError::LockedUnidentifiable { path: clone_path(path) },
                }
            } else {
                LockDecision::Proceed
            }
        },
        None => {
            if attempt == 1 {
                LockDecision::Fail {
                    error: DeletionError::HolderLookupFailed { path: clone_path(path) },
                }
            } else {
                LockDecision::Proceed
            }
        },
    }
}

/// Refuses to delete a symlink whose resolved target is a protected system
/// root: only the link itself would go, but such a link is left alone
/// rather than touched at all.  A link whose target could not be read is
/// deleted normally.
pub fn symlink_target_gate(
    path: &Vec<String>,
    target: Option<&Vec<String>>,
    roots: &Vec<Vec<String>>,
) -> (r: Result<(), DeletionError>)
    ensures
        target is None ==> r is Ok,
        target matches Some(t) ==> (r is Err <==> spec_critical(t.deep_view(), roots.deep_view())),
        r matches Err(e) ==> (e matches DeletionError::SystemCriticalLink { path: p }
            && p.deep_view() == path.deep_view()),
{
    match target {
        None => Ok(()),
        Some(t) => {
            if is_system_critical_path(t, roots) {
                Err(DeletionError::SystemCriticalLink { path: clone_path(path) })
            } else {
                Ok(())
            }
        },
    }
}

/// The backoff schedule of per-entry deletion retries: linearly increasing
/// waits between at most three attempts, so a full retry cycle waits at
/// most 1000 + 2000 = 3000 ms in all.
pub fn retry_delay_ms(attempt: u32) -> (r: Option<u32>)
    requires
        attempt >= 1,
    ensures
        attempt < 3 ==> r == Some((1000 * attempt) as u32),
        attempt >= 3 ==> r is None,
        r matches Some(d) ==> d <= 2000,
{
    if attempt < 3 {
        Some(1000 * attempt)
    } else {
        None
    }
}

/// The classes of I/O failure the standard error reporting distinguishes.
#[derive(PartialEq, Eq, Structural, Clone, Copy, Debug)]
pub enum IoKind {
    PermissionDenied,
    NotFound,
    DirectoryNotEmpty,
    Other,
}

/// Classifies a failed deletion: the portable error kinds map directly,
/// and on the platform whose raw error codes distinguish sharing
/// violations, code 32 is a lock, 5 a permission failure and 145 a
/// non-empty directory; everything else is an unclassified I/O error.
pub fn classify_deletion_error(
    path: &Vec<String>,
    kind: IoKind,
    raw_os_error: Option<i32>,
    windows: bool,
    message: String,
) -> (r: DeletionError)
    ensures
        kind is PermissionDenied ==> (r matches DeletionError::PermissionDenied { path: p }
            && p.deep_view() == path.deep_view()),
        kind is NotFound ==> (r matches DeletionError::NotFound { path: p } && p.deep_view()
            == path.deep_view()),
        kind is DirectoryNotEmpty ==> (r matches DeletionError::DirectoryNotEmpty { path: p }
            && p.deep_view() == path.deep_view()),
        kind is Other && windows && raw_os_error == Some(32i32) ==> (r
            matches DeletionError::FileLocked { path: p } && p.deep_view() == path.deep_view()),
        kind is Other && windows && raw_os_error == Some(5i32) ==> (r
            matches DeletionError::PermissionDenied { path: p } && p.deep_view()
            == path.deep_view()),
        kind is Other && windows && raw_os_error == Some(145i32) ==> (r
            matches DeletionError::DirectoryNotEmpty { path: p } && p.deep_view()
            == path.deep_view()),
        kind is Other && (!windows || (raw_os_error != Some(32i32) && raw_os_error != Some(5i32)
            && raw_os_error != Some(145i32))) ==> (r matches DeletionError::IoError {
            path: p,
            message: m,
        } && p.deep_view() == path.deep_view() && m == message),
{
    match kind {
        IoKind::PermissionDenied => DeletionError::PermissionDenied { path: clone_path(path) },
        IoKind::NotFound => DeletionError::NotFound { path: clone_path(path) },
        IoKind::DirectoryNotEmpty => DeletionError::DirectoryNotEmpty { path: clone_path(path) },
        IoKind::Other => {
            if windows {
                match raw_os_error {
                    Some(32) => DeletionError::FileLocked { path: clone_path(path) },
                    Some(5) => DeletionError::PermissionDenied { path: clone_path(path) },
                    Some(145) => DeletionError::DirectoryNotEmpty { path: clone_path(path) },
                    _ => DeletionError::IoError { path: clone_path(path), message },
                }
            } else {
                DeletionError::IoError { path: clone_path(path), message }
            }
        },
    }
}

/// The human suggestion shown beside each failure kind in verbose output.
pub fn get_error_suggestion(error: &DeletionError) -> (r: &'static str)
    ensures
        error is FileLocked ==> r@ == "close the owning program, or re-run with --anyway"@,
        error is LockedUnidentifiable ==> r@
            == "the target is locked but no holder could be identified"@,
        error is HolderLookupFailed ==> r@
            == "the holder search failed; close the owning program by hand"@,
        error is PermissionDenied ==> r@ == "re-run elevated, or check the permissions"@,
        error is NotFound ==> r@ == "the target may already have been deleted or moved"@,
        error is DirectoryNotEmpty ==> r@
            == "re-run with -r/--recursive, or empty the directory first"@,
        error is SystemCriticalLink ==> r@
            == "do not delete symlinks that point at system-critical paths"@,
        error is IoError ==> r@ == "check the filesystem state and free disk space"@,
        error is Other ==> r@ == "read the full error and try removing the target by hand"@,
{
    match error {
        DeletionError::FileLocked { .. } => "close the owning program, or re-run with --anyway",
        DeletionError::LockedUnidentifiable { .. } => {
            "the target is locked but no holder could be identified"
        },
        DeletionError::HolderLookupFailed { .. } => {
            "the holder search failed; close the owning program by hand"
        },
        DeletionError::PermissionDenied { .. } => "re-run elevated, or check the permissions",
        DeletionError::NotFound { .. } => "the target may already have been deleted or moved",
        DeletionError::DirectoryNotEmpty { .. } => {
            "re-run with -r/--recursive, or empty the directory first"
        },
        DeletionError::SystemCriticalLink { .. } => {
            "do not delete symlinks that point at system-critical paths"
        },
        DeletionError::IoError { .. } => "check the filesystem state and free disk space",
        DeletionError::Other { .. } => "read the full error and try removing the target by hand",
    }
}

/// How a single entry is first deleted: directories through the directory
/// call, everything else — files and symlinks, symlinked directories
/// included — through the file call, which removes a link itself and never
/// its target.
#[derive(PartialEq, Eq, Structural, Clone, Copy, Debug)]
pub enum DeleteMethod {
    RemoveFile,
    RemoveDir,
}

pub fn first_delete_step(entry: &FileInfo) -> (r: DeleteMethod)
    ensures
        r is RemoveDir <==> (entry.is_dir && !entry.is_symlink),
{
    if entry.is_dir && !entry.is_symlink {
        DeleteMethod::RemoveDir
    } else {
        DeleteMethod::RemoveFile
    }
}

/// What listing a directory found just before deleting it.
#[derive(PartialEq, Eq, Structural, Clone, Copy, Debug)]
pub enum DirProbe {
    Entries { non_empty: bool },
    Unreadable,
}

/// The decision before deleting a directory.
pub enum DirPrecheck {
    /// Entries remain: deleting would fail, report it as non-empty.
    FailNonEmpty { error: DeletionError },
    /// The directory cannot be read any more — most likely already gone;
    /// report success rather than guessing.
    TreatAsRemoved,
    ProceedDelete,
}

pub fn dir_precheck(path: &Vec<String>, probe: DirProbe) -> (r: DirPrecheck)
    ensures
        probe == (DirProbe::Entries { non_empty: true }) ==> (r matches DirPrecheck::FailNonEmpty {
            error,
        } && (error matches DeletionError::DirectoryNotEmpty { path: p } && p.deep_view()
            == path.deep_view())),
        probe == (DirProbe::Entries { non_empty: false }) ==> r is ProceedDelete,
        probe is Unreadable ==> r is TreatAsRemoved,
{
    match probe {
        DirProbe::Entries { non_empty } => {
            if non_empty {
                DirPrecheck::FailNonEmpty {
                    error: DeletionError::DirectoryNotEmpty { path: clone_path(path) },
                }
            } else {
                DirPrecheck::ProceedDelete
            }
        },
        DirProbe::Unreadable => DirPrecheck::TreatAsRemoved,
    }
}

/// The next rung of the per-entry fallback chain after a failed delete.
#[derive(PartialEq, Eq, Structural, Clone, Copy, Debug)]
pub enum FallbackAction {
    /// Clear a read-only or immutable attribute, then retry the same call.
    ClearReadonlyThenRetry,
    /// Last resort for a directory that should already be empty: one
    /// native recursive-subtree removal.
    BulkRemoveTree,
    GiveUp,
}

pub fn after_delete_failure(is_dir: bool, error: &DeletionError, attr_cleared: bool) -> (r:
    FallbackAction)
    ensures
        !attr_cleared && error is PermissionDenied ==> r is ClearReadonlyThenRetry,
        !(!attr_cleared && error is PermissionDenied) && is_dir && error is DirectoryNotEmpty
            ==> r is BulkRemoveTree,
        !(!attr_cleared && error is PermissionDenied) && !(is_dir
            && error is DirectoryNotEmpty) ==> r is GiveUp,
{
    if !attr_cleared && matches!(error, DeletionError::PermissionDenied { .. }) {
        FallbackAction::ClearReadonlyThenRetry
    } else if is_dir && matches!(error, DeletionError::DirectoryNotEmpty { .. }) {
        FallbackAction::BulkRemoveTree
    } else {
        FallbackAction::GiveUp
    }
}

/// Whether the plan's entry `i` is a directory that no other entry is a
/// proper ancestor of: a root the caller named directly, eligible for one
/// native bulk subtree delete before falling back to the per-entry loop.
pub open spec fn bulk_root_at(s: Seq<EntryV>, i: int) -> bool {
    s[i].is_dir && forall|j: int|
        0 <= j < s.len() && j != i ==> !((#[trigger] s[j]).path != s[i].path && is_prefix_of(
            s[j].path,
            s[i].path,
        ))
}

/// Finds the first directly-requested directory root in the plan, if any.
pub fn find_bulk_root(files: &Vec<FileInfo>) -> (r: Option<usize>)
    ensures
        r matches Some(i) ==> i < files@.len() && bulk_root_at(plan_view(files@), i as int)
            && (forall|m: int| 0 <= m < i ==> !bulk_root_at(plan_view(files@), m)),
        r is None ==> forall|m: int|
            0 <= m < files@.len() ==> !bulk_root_at(plan_view(files@), m),
{
    let ghost pv = plan_view(files@);
    let mut i: usize = 0;
    while i < files.len()
        invariant
            0 <= i <= files@.len(),
            pv == plan_view(files@),
            pv.len() == files@.len(),
            forall|m: int| 0 <= m < i ==> !bulk_root_at(pv, m),
        decreases files@.len() - i,
    {
        proof {
            assert(pv[i as int] == files@[i as int]@);
        }
        if files[i].is_dir {
            let mut ok: bool = true;
            let mut j: usize = 0;
            while j < files.len()
                invariant
                    0 <= j <= files@.len(),
                    0 <= i < files@.len(),
                    pv == plan_view(files@),
                    pv.len() == files@.len(),
                    ok <==> (forall|m: int|
                        0 <= m < j && m != i ==> !((#[trigger] pv[m]).path != pv[i as int].path
                            && is_prefix_of(pv[m].path, pv[i as int].path))),
                decreases files@.len() - j,
            {
                proof {
                    assert(pv[j as int] == files@[j as int]@);
                }
                if j != i {
                    let proper = path_is_prefix(&files[j].path, &files[i].path) && !path_eq(
                        &files[j].path,
                        &files[i].path,
                    );
                    if proper {
                        ok = false;
                        proof {
                            assert(pv[j as int].path != pv[i as int].path && is_prefix_of(
                                pv[j as int].path,
                                pv[i as int].path,
                            ));
                        }
                        j = files.len();
                    } else {
                        j = j + 1;
                    }
                } else {
                    j = j + 1;
                }
            }
            if ok {
                proof {
                    assert(bulk_root_at(pv, i as int));
                }
                return Some(i);
            }
            proof {
                assert(!bulk_root_at(pv, i as int));
            }
        } else {
            proof {
                assert(!bulk_root_at(pv, i as int));
            }
        }
        i = i + 1;
    }
    None
}

// ---------------------------------------------------------------------------
// Size formatting
// ---------------------------------------------------------------------------

/// The unit a byte count is shown in: 0 for bytes up to 4 for terabytes.
pub open spec fn size_unit_index(size: nat) -> nat {
    if size < 1024 {
        0
    } else if size < 1048576 {
        1
    } else if size < 1073741824 {
        2
    } else if size < 1099511627776 {
        3
    } else {
        4
    }
}

pub open spec fn size_unit_divisor(idx: nat) -> nat {
    if idx == 0 {
        1
    } else if idx == 1 {
        1024
    } else if idx == 2 {
        1048576
    } else if idx == 3 {
        1073741824
    } else {
        1099511627776
    }
}

pub open spec fn size_unit_suffix(idx: nat) -> Seq<char> {
    if idx == 0 {
        " B"@
    } else if idx == 1 {
        " KB"@
    } else if idx == 2 {
        " MB"@
    } else if idx == 3 {
        " GB"@
    } else {
        " TB"@
    }
}

/// The rendering of a byte count: exact bytes below one kilobyte, else the
/// scaled value with one (truncated) decimal place and the unit.
pub open spec fn spec_format_size(size: nat) -> Seq<char> {
    let idx = size_unit_index(size);
    if idx == 0 {
        crate::text::dec_chars(size) + size_unit_suffix(0)
    } else {
        let p = size_unit_divisor(idx);
        crate::text::dec_chars(size / p) + "."@ + crate::text::dec_chars((size % p) * 10 / p)
            + size_unit_suffix(idx)
    }
}

/// Formats a byte count for display.
pub fn format_size(size: u64) -> (r: String)
    ensures
        r@ == spec_format_size(size as nat),
{
    let (idx, p): (u32, u64) = if size < 1024 {
        (0, 1)
    } else if size < 1048576 {
        (1, 1024)
    } else if size < 1073741824 {
        (2, 1048576)
    } else if size < 1099511627776 {
        (3, 1073741824)
    } else {
        (4, 1099511627776)
    };
    proof {
        assert(idx == size_unit_index(size as nat));
        assert(p == size_unit_divisor(idx as nat));
    }
    if idx == 0 {
        let mut s = crate::text::u64_to_dec(size);
        s.append(" B");
        s
    } else {
        let whole = size / p;
        let rem = size % p;
        proof {
            assert(rem < p);
        }
        let tenths = rem * 10 / p;
        let mut s = crate::text::u64_to_dec(whole);
        s.append(".");
        let t = crate::text::u64_to_dec(tenths);
        s.append(t.as_str());
        if idx == 1 {
            s.append(" KB");
        } else if idx == 2 {
            s.append(" MB");
        } else if idx == 3 {
            s.append(" GB");
        } else {
            s.append(" TB");
        }
        proof {
            assert(s@ =~= spec_format_size(size as nat));
        }
        s
    }
}

} // verus!
