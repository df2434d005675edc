//! The REPL controller: the session state is the scanned root tree, the
//! path of child indices from the root down to the current directory
//! (its proper prefixes are the back-stack), and the visited-set of
//! directory paths entered so far. `dispatch` applies one parsed command
//! and reports the effect the caller should perform.
use vstd::prelude::*;

use crate::commands::{Command, Commands};
use crate::filesystem_entry::FileSystemEntry;
use crate::filesystem_entry::filesystem_entry_type::FileSystemEntryType;
use crate::text::{ci_eq, str_eq_ci, vec_contains_string};

verus! {

/// The warnings the controller can raise without leaving the loop.
#[derive(Clone, Copy, PartialEq, Eq, Structural, Debug)]
pub enum Warning {
    MissingArgument,
    NoParent,
    NoMatch,
    TargetIsFile,
}

/// What the caller should do after one dispatched command.
#[derive(Clone, Copy, PartialEq, Eq, Structural, Debug)]
pub enum Effect {
    ShowHelp,
    Terminate,
    OpenCurrent,
    ShowCurrent,
    ShowCurrentWithPath,
    NoAction,
    Warn(Warning),
}

/// The node reached from `root` by following the child indices of `p`.
pub open spec fn node_at(root: FileSystemEntry, p: Seq<int>) -> FileSystemEntry
    decreases p.len(),
{
    if p.len() == 0 {
        root
    } else {
        node_at(root.children@[p[0]], p.drop_first())
    }
}

/// Every index of `p` selects an existing child that is a directory.
pub open spec fn path_valid(root: FileSystemEntry, p: Seq<int>) -> bool
    decreases p.len(),
{
    p.len() == 0 || (0 <= p[0] < root.children@.len() && root.children@[p[0]].entry_type
        is Directory && path_valid(root.children@[p[0]], p.drop_first()))
}

/// Extending a path by one child index reaches that child.
pub proof fn lemma_node_at_push(root: FileSystemEntry, p: Seq<int>, j: int)
    ensures
        node_at(root, p.push(j)) == node_at(root, p).children@[j],
    decreases p.len(),
{
    if p.len() == 0 {
        assert(p.push(j).drop_first() =~= Seq::<int>::empty());
        assert(p.push(j)[0] == j);
        assert(node_at(root, Seq::<int>::empty().push(j).drop_first()) == node_at(
            root,
            Seq::<int>::empty(),
        ));
        assert(node_at(root.children@[j], Seq::<int>::empty()) == root.children@[j]);
        assert(node_at(root, p.push(j)) == node_at(root.children@[j], p.push(j).drop_first()));
    } else {
        assert(p.push(j).drop_first() =~= p.drop_first().push(j));
        assert(p.push(j)[0] == p[0]);
        lemma_node_at_push(root.children@[p[0]], p.drop_first(), j);
        assert(node_at(root, p.push(j)) == node_at(root.children@[p[0]], p.drop_first().push(j)));
        assert(node_at(root, p) == node_at(root.children@[p[0]], p.drop_first()));
    }
}

/// A path stays valid when extended with an existing directory child.
pub proof fn lemma_path_valid_push(root: FileSystemEntry, p: Seq<int>, j: int)
    requires
        path_valid(root, p),
        0 <= j < node_at(root, p).children@.len(),
        node_at(root, p).children@[j].entry_type is Directory,
    ensures
        path_valid(root, p.push(j)),
    decreases p.len(),
{
    if p.len() == 0 {
        assert(p.push(j).drop_first() =~= Seq::<int>::empty());
        assert(p.push(j)[0] == j);
        assert(node_at(root, p) == root);
        assert(path_valid(root.children@[j], Seq::<int>::empty()));
    } else {
        assert(p.push(j).drop_first() =~= p.drop_first().push(j));
        assert(p.push(j)[0] == p[0]);
        assert(node_at(root, p) == node_at(root.children@[p[0]], p.drop_first()));
        lemma_path_valid_push(root.children@[p[0]], p.drop_first(), j);
    }
}

/// A prefix of a valid path is valid.
pub proof fn lemma_path_valid_drop_last(root: FileSystemEntry, p: Seq<int>)
    requires
        path_valid(root, p),
        p.len() > 0,
    ensures
        path_valid(root, p.drop_last()),
    decreases p.len(),
{
    if p.len() == 1 {
        assert(p.drop_last() =~= Seq::<int>::empty());
    } else {
        assert(p.drop_last().drop_first() =~= p.drop_first().drop_last());
        assert(p.drop_last()[0] == p[0]);
        lemma_path_valid_drop_last(root.children@[p[0]], p.drop_first());
    }
}

/// One navigation step: `cd` into the child at an index, or `cd ..`.
pub enum NavOp {
    Down(int),
    Up,
}

/// Apply one navigation operation to a path, `None` when the operation
/// is not allowed there.
pub open spec fn apply_op(root: FileSystemEntry, p: Option<Seq<int>>, op: NavOp) -> Option<
    Seq<int>,
> {
    match p {
        Option::None => Option::None,
        Option::Some(q) => match op {
            NavOp::Down(i) => if 0 <= i < node_at(root, q).children@.len() && node_at(
                root,
                q,
            ).children@[i].entry_type is Directory {
                Option::Some(q.push(i))
            } else {
                Option::None
            },
            NavOp::Up => if q.len() > 0 {
                Option::Some(q.drop_last())
            } else {
                Option::None
            },
        },
    }
}

/// The path reached from the root by a whole sequence of navigation
/// operations, applied in order.
pub open spec fn run_ops(root: FileSystemEntry, ops: Seq<NavOp>) -> Option<Seq<int>>
    decreases ops.len(),
{
    if ops.len() == 0 {
        Option::Some(Seq::<int>::empty())
    } else {
        apply_op(root, run_ops(root, ops.drop_last()), ops.last())
    }
}

/// Back-stack soundness: a sequence of navigation operations that never
/// pops past the root always leaves a valid path, so the current node it
/// denotes is the node reached by applying the operations to the root in
/// order.
pub proof fn lemma_run_ops_valid(root: FileSystemEntry, ops: Seq<NavOp>)
    requires
        run_ops(root, ops) is Some,
    ensures
        path_valid(root, run_ops(root, ops)->Some_0),
    decreases ops.len(),
{
    if ops.len() > 0 {
        let prev = run_ops(root, ops.drop_last());
        assert(prev is Some);
        lemma_run_ops_valid(root, ops.drop_last());
        let q = prev->Some_0;
        match ops.last() {
            NavOp::Down(i) => {
                lemma_path_valid_push(root, q, i);
            },
            NavOp::Up => {
                lemma_path_valid_drop_last(root, q);
            },
        }
    }
}

/// Back-stack correctness: descending into a child and popping the
/// back-stack returns to exactly the node held before, for any operation
/// sequence that reached it.
pub proof fn lemma_back_stack_round_trip(root: FileSystemEntry, ops: Seq<NavOp>, i: int)
    requires
        run_ops(root, ops) is Some,
        apply_op(root, run_ops(root, ops), NavOp::Down(i)) is Some,
    ensures
        run_ops(root, ops.push(NavOp::Down(i)).push(NavOp::Up)) == run_ops(root, ops),
{
    let with_down = ops.push(NavOp::Down(i));
    let with_both = with_down.push(NavOp::Up);
    assert(with_down.drop_last() =~= ops);
    assert(with_both.drop_last() =~= with_down);
    let q = run_ops(root, ops)->Some_0;
    assert(run_ops(root, with_down) == Option::Some(q.push(i)));
    assert(q.push(i).drop_last() =~= q);
}

/// Case-insensitive equality of two strings, as `cd` matches its target
/// against child identifiers.
pub fn icmp(a: &String, b: &String) -> (r: bool)
    ensures
        r == ci_eq(a@, b@),
{
    str_eq_ci(a.as_str(), b.as_str())
}

pub struct Session {
    pub root: FileSystemEntry,
    pub path: Vec<usize>,
    pub visited: Vec<String>,
}

/// The first child whose identifier equals the target up to ASCII case.
pub open spec fn is_first_match(
    kids: Seq<FileSystemEntry>,
    target: Seq<char>,
    i: int,
) -> bool {
    0 <= i < kids.len() && ci_eq(kids[i].identifier@, target) && forall|j: int|
        0 <= j < i ==> !ci_eq(#[trigger] kids[j].identifier@, target)
}

/// How one `cd` command changes the session and what it reports.
pub open spec fn spec_cd_post(
    pre: Session,
    post: Session,
    args: Seq<Seq<char>>,
    eff: Effect,
) -> bool {
    if args.len() == 0 {
        session_unchanged(pre, post) && eff == Effect::Warn(Warning::MissingArgument)
    } else {
        let t = args[0];
        if ci_eq(t, ".."@) {
            if pre.path@.len() == 0 {
                session_unchanged(pre, post) && eff == Effect::Warn(Warning::NoParent)
            } else {
                post.root == pre.root && post.visited.deep_view() == pre.visited.deep_view()
                    && post.path@ == pre.path@.drop_last() && eff == Effect::ShowCurrent
            }
        } else {
            let kids = pre.current_spec().children@;
            if forall|j: int| 0 <= j < kids.len() ==> !ci_eq(#[trigger] kids[j].identifier@, t) {
                session_unchanged(pre, post) && eff == Effect::Warn(Warning::NoMatch)
            } else {
                exists|i: int|
                    #[trigger] is_first_match(kids, t, i) && if kids[i].entry_type is File {
                        session_unchanged(pre, post) && eff == Effect::Warn(Warning::TargetIsFile)
                    } else {
                        post.root == pre.root && post.path@ == pre.path@.push(i as usize)
                            && post.current_spec() == kids[i] && eff == Effect::ShowCurrent
                            && post.visited.deep_view() == if pre.visited.deep_view().contains(
                            kids[i].path_string@,
                        ) {
                            pre.visited.deep_view()
                        } else {
                            pre.visited.deep_view().push(kids[i].path_string@)
                        }
                    }
            }
        }
    }
}

/// The session state is untouched.
pub open spec fn session_unchanged(pre: Session, post: Session) -> bool {
    post.root == pre.root && post.path@ == pre.path@ && post.visited.deep_view()
        == pre.visited.deep_view()
}

impl Session {
    /// The child-index path as a sequence of mathematical integers.
    pub open spec fn path_view(self) -> Seq<int> {
        self.path@.map_values(|u: usize| u as int)
    }

    /// The session is well formed: the root is a directory and the path
    /// selects existing directory children all the way down.
    pub open spec fn inv(self) -> bool {
        self.root.entry_type is Directory && path_valid(self.root, self.path_view())
    }

    /// The node the session currently stands on.
    pub open spec fn current_spec(self) -> FileSystemEntry {
        node_at(self.root, self.path_view())
    }

    pub fn new(root: FileSystemEntry) -> (s: Session)
        requires
            root.entry_type is Directory,
        ensures
            s.inv(),
            s.root == root,
            s.path@.len() == 0,
            s.visited@.len() == 0,
            s.current_spec() == root,
    {
        let s = Session { root, path: Vec::new(), visited: Vec::new() };
        proof {
            assert(s.path_view() =~= Seq::<int>::empty());
        }
        s
    }

    /// The number of entries on the back-stack.
    pub fn depth(&self) -> (r: usize)
        ensures
            r == self.path@.len(),
    {
        self.path.len()
    }

    /// A reference to the current node, found by walking the path from
    /// the root.
    pub fn current(&self) -> (r: &FileSystemEntry)
        requires
            self.inv(),
        ensures
            *r == self.current_spec(),
            r.entry_type is Directory,
    {
        let ghost pv = self.path_view();
        proof {
            assert(pv.skip(0) =~= pv);
        }
        let mut cur: &FileSystemEntry = &self.root;
        let mut i: usize = 0;
        while i < self.path.len()
            invariant
                self.inv(),
                pv == self.path_view(),
                0 <= i <= pv.len(),
                pv.len() == self.path@.len(),
                path_valid(*cur, pv.skip(i as int)),
                cur.entry_type is Directory,
                node_at(*cur, pv.skip(i as int)) == self.current_spec(),
            decreases pv.len() - i,
        {
            proof {
                assert(pv.skip(i as int)[0] == pv[i as int]);
                assert(pv.skip(i as int).drop_first() =~= pv.skip(i + 1));
            }
            let j = self.path[i];
            assert(j as int == pv[i as int]);
            cur = &cur.children[j];
            i = i + 1;
        }
        proof {
            assert(pv.skip(pv.len() as int) =~= Seq::<int>::empty());
        }
        cur
    }

    /// Apply one parsed command to the session. Navigation follows the
    /// command grammar; the visited-set only ever grows; a `cd` whose
    /// target is missing warns and leaves the session as it is.
    pub fn dispatch(&mut self, cmd: &Command) -> (eff: Effect)
        requires
            old(self).inv(),
        ensures
            final(self).inv(),
            final(self).root == old(self).root,
            old(self).visited.deep_view().is_prefix_of(final(self).visited.deep_view()),
            cmd.command is Help ==> session_unchanged(*old(self), *final(self)) && eff
                == Effect::ShowHelp,
            cmd.command is Quit ==> session_unchanged(*old(self), *final(self)) && eff
                == Effect::Terminate,
            cmd.command is Open ==> session_unchanged(*old(self), *final(self)) && eff
                == Effect::OpenCurrent,
            cmd.command is ListDirectory ==> session_unchanged(*old(self), *final(self)) && eff
                == Effect::ShowCurrentWithPath,
            cmd.command is Scan ==> session_unchanged(*old(self), *final(self)) && eff
                == Effect::NoAction,
            cmd.command is ChangeDirectory ==> spec_cd_post(
                *old(self),
                *final(self),
                cmd.args.deep_view(),
                eff,
            ),
    {
        match cmd.command {
            Commands::Help => Effect::ShowHelp,
            Commands::Quit => Effect::Terminate,
            Commands::Open => Effect::OpenCurrent,
            Commands::ListDirectory => Effect::ShowCurrentWithPath,
            Commands::Scan => Effect::NoAction,
            Commands::ChangeDirectory => {
                if cmd.args.len() < 1 {
                    return Effect::Warn(Warning::MissingArgument);
                }
                let target = &cmd.args[0];
                assert(target@ == cmd.args.deep_view()[0]);
                if str_eq_ci(target.as_str(), "..") {
                    if self.path.len() == 0 {
                        return Effect::Warn(Warning::NoParent);
                    }
                    let ghost pv = self.path_view();
                    self.path.pop();
                    proof {
                        assert(self.path_view() =~= pv.drop_last());
                        lemma_path_valid_drop_last(self.root, pv);
                    }
                    return Effect::ShowCurrent;
                }
                let mut found = false;
                let mut idx: usize = 0;
                let mut child_is_dir = false;
                let mut child_path = String::new();
                let ghost kids_spec = self.current_spec().children@;
                {
                    let cur = self.current();
                    let kids = &cur.children;
                    let mut j: usize = 0;
                    while j < kids.len() && !found
                        invariant
                            kids@ == kids_spec,
                            0 <= j <= kids@.len(),
                            !found ==> forall|k: int|
                                0 <= k < j ==> !ci_eq(#[trigger] kids@[k].identifier@, target@),
                            found ==> is_first_match(kids_spec, target@, idx as int)
                                && child_is_dir == (kids_spec[idx as int].entry_type is Directory)
                                && child_path@ == kids_spec[idx as int].path_string@,
                        decreases kids@.len() - j + (if found { 0int } else { 1int }),
                    {
                        if str_eq_ci(kids[j].identifier.as_str(), target.as_str()) {
                            found = true;
                            idx = j;
                            child_is_dir = match kids[j].entry_type {
                                FileSystemEntryType::Directory => true,
                                FileSystemEntryType::File => false,
                            };
                            child_path = kids[j].path_string.clone();
                        } else {
                            j = j + 1;
                        }
                    }
                }
                if !found {
                    return Effect::Warn(Warning::NoMatch);
                }
                if !child_is_dir {
                    return Effect::Warn(Warning::TargetIsFile);
                }
                assert(child_path@ == kids_spec[idx as int].path_string@);
                let ghost old_visited = self.visited.deep_view();
                if !vec_contains_string(&self.visited, child_path.as_str()) {
                    self.visited.push(child_path);
                    proof {
                        assert(self.visited.deep_view() =~= old_visited.push(
                            kids_spec[idx as int].path_string@,
                        ));
                        assert(old_visited.is_prefix_of(self.visited.deep_view()));
                    }
                } else {
                    proof {
                        assert(self.visited.deep_view() =~= old_visited);
                    }
                }
                let ghost pv = self.path_view();
                self.path.push(idx);
                proof {
                    assert(self.path_view() =~= pv.push(idx as int));
                    lemma_path_valid_push(self.root, pv, idx as int);
                    lemma_node_at_push(self.root, pv, idx as int);
                    assert(self.current_spec() == kids_spec[idx as int]);
                    assert(is_first_match(kids_spec, target@, idx as int));
                }
                Effect::ShowCurrent
            },
        }
    }
}

} // verus!
