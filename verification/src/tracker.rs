//! Reference counts of pending paths and, below every directory, how many
//! distinct pending paths it holds.
use vstd::prelude::*;

use crate::path_map::PathMap;
use crate::paths::{has_parent, is_ancestor, is_removable, lemma_within_reflexive, within, FsPath,
    Part};

verus! {

/// Counts how often each path is in use and, for every directory between a
/// path and the watch root, how many distinct paths in use lie there.
#[derive(Debug)]
pub struct PathTracker {
    watch_root: FsPath,
    refcounts: PathMap<usize>,
    below: PathMap<usize>,
}

/// How many paths of `paths` have `directory` as an ancestor.
pub open spec fn count_below(
    paths: Set<Seq<Part>>,
    watch_root: Seq<Part>,
    directory: Seq<Part>,
) -> nat {
    if within(directory, watch_root) {
        paths.filter(|p: Seq<Part>| is_ancestor(directory, p)).len()
    } else {
        0
    }
}

pub open spec fn count_in(counts: Map<Seq<Part>, usize>, key: Seq<Part>) -> nat {
    if counts.contains_key(key) {
        counts[key] as nat
    } else {
        0
    }
}

/// Reference counts after one more use of `path`.
pub open spec fn refs_tracked(refs: Map<Seq<Part>, usize>, path: Seq<Part>) -> Map<
    Seq<Part>,
    usize,
> {
    if refs.contains_key(path) {
        refs.insert(path, (refs[path] + 1) as usize)
    } else {
        refs.insert(path, 1usize)
    }
}

/// Reference counts after one use of `path` less.
pub open spec fn refs_untracked(refs: Map<Seq<Part>, usize>, path: Seq<Part>) -> Map<
    Seq<Part>,
    usize,
> {
    if refs.contains_key(path) && refs[path] > 1 {
        refs.insert(path, (refs[path] - 1) as usize)
    } else {
        refs.remove(path)
    }
}

pub proof fn lemma_count_below_insert(
    paths: Set<Seq<Part>>,
    watch_root: Seq<Part>,
    path: Seq<Part>,
    directory: Seq<Part>,
)
    requires
        paths.finite(),
        !paths.contains(path),
    ensures
        count_below(paths.insert(path), watch_root, directory) == count_below(
            paths,
            watch_root,
            directory,
        ) + (if within(directory, watch_root) && is_ancestor(directory, path) {
            1nat
        } else {
            0nat
        }),
{
    let f = |p: Seq<Part>| is_ancestor(directory, p);
    if is_ancestor(directory, path) {
        assert(paths.insert(path).filter(f) =~= paths.filter(f).insert(path));
    } else {
        assert(paths.insert(path).filter(f) =~= paths.filter(f));
    }
}

pub proof fn lemma_count_below_bound(
    paths: Set<Seq<Part>>,
    watch_root: Seq<Part>,
    directory: Seq<Part>,
)
    requires
        paths.finite(),
    ensures
        count_below(paths, watch_root, directory) <= paths.len(),
{
    vstd::set_lib::lemma_len_subset(
        paths.filter(|p: Seq<Part>| is_ancestor(directory, p)),
        paths,
    );
}

proof fn lemma_ancestor_step(path: Seq<Part>, n: int)
    requires
        0 < n <= path.len(),
        forall|i: int| n <= i < path.len() ==> is_removable(#[trigger] path[i]),
    ensures
        is_ancestor(path.take(n), path),
        has_parent(path.take(n)) ==> is_ancestor(path.take(n - 1), path),
        forall|d: Seq<Part>|
            #[trigger] is_ancestor(d, path) && d.len() < n ==> has_parent(path.take(n)),
{
    assert(path.take(n).take(n) =~= path.take(n));
    assert(path.take(n).last() == path[n - 1]);
    if has_parent(path.take(n)) {
        assert(path.take(n - 1).len() == n - 1);
    }
    assert forall|d: Seq<Part>| #[trigger] is_ancestor(d, path) && d.len() < n implies has_parent(
        path.take(n),
    ) by {
        assert(is_removable(path[n - 1]));
    }
}

impl PathTracker {
    /// The reference counts.
    pub closed spec fn refs(&self) -> Map<Seq<Part>, usize> {
        self.refcounts@
    }

    pub closed spec fn root(&self) -> Seq<Part> {
        self.watch_root@
    }

    /// The directory counts agree with the reference counts.
    pub closed spec fn wf(&self) -> bool {
        &&& self.refs().dom().finite()
        &&& forall|d: Seq<Part>| #[trigger]
            count_in(self.below@, d) == count_below(self.refs().dom(), self.root(), d)
        &&& forall|d: Seq<Part>| #[trigger] self.below@.contains_key(d) ==> self.below@[d] > 0
    }

    pub fn new(watch_root: FsPath) -> (r: PathTracker)
        ensures
            r.wf(),
            r.root() == watch_root@,
            r.refs() == Map::<Seq<Part>, usize>::empty(),
    {
        let r = PathTracker { watch_root, refcounts: PathMap::new(), below: PathMap::new() };
        proof {
            assert forall|d: Seq<Part>| #[trigger] count_in(r.below@, d) == count_below(
                r.refs().dom(),
                r.root(),
                d,
            ) by {
                assert(r.refs().dom().filter(|p: Seq<Part>| is_ancestor(d, p)) =~= Set::empty());
            }
        }
        r
    }

    /// Number of distinct paths in use.
    pub fn path_count(&self) -> (r: usize)
        ensures
            r as nat == self.refs().dom().len(),
            self.refs().dom().finite(),
    {
        self.refcounts.len()
    }

    /// Whether `path` is in use.
    pub fn is_tracked(&self, path: &FsPath) -> (r: bool)
        ensures
            r == self.refs().contains_key(path@),
    {
        self.refcounts.contains(path)
    }

    /// Number of distinct paths in use at or below `directory`.
    pub fn pending_below(&self, directory: &FsPath) -> (r: usize)
        requires
            self.wf(),
        ensures
            r as nat == count_below(self.refs().dom(), self.root(), directory@),
    {
        proof {
            assert(count_in(self.below@, directory@) == count_below(
                self.refs().dom(),
                self.root(),
                directory@,
            ));
        }
        match self.below.get(directory) {
            Some(count) => *count,
            None => 0,
        }
    }

    /// Notes one more use of `path`.
    pub fn track(&mut self, path: &FsPath)
        requires
            old(self).wf(),
            within(path@, old(self).root()),
            old(self).refs().contains_key(path@) ==> old(self).refs()[path@] < usize::MAX,
        ensures
            final(self).wf(),
            final(self).root() == old(self).root(),
            final(self).refs() == refs_tracked(old(self).refs(), path@),
    {
        let ghost before = *self;
        if let Some(count) = self.refcounts.get(path) {
            let next: usize = *count + 1;
            self.refcounts.insert(path.clone(), next);
            proof {
                assert(self.refs().dom() =~= before.refs().dom());
            }
            return;
        }
        self.refcounts.insert(path.clone(), 1);
        let total: usize = self.refcounts.len();
        let ghost dom0 = before.refs().dom();
        let ghost dom1 = self.refs().dom();
        let ghost p = path@;
        let ghost root = self.root();
        proof {
            assert(dom1 =~= dom0.insert(p));
            assert forall|d: Seq<Part>| #[trigger] count_below(dom1, root, d) == count_below(
                dom0,
                root,
                d,
            ) + (if within(d, root) && is_ancestor(d, p) {
                1nat
            } else {
                0nat
            }) by {
                lemma_count_below_insert(dom0, root, p, d);
            }
            lemma_within_reflexive(p);
            assert(p.take(p.len() as int) =~= p);
        }
        let mut n: usize = path.len();
        let mut more: bool = true;
        while more
            invariant
                p == path@,
                root == self.root(),
                root == before.root(),
                within(p, root),
                self.refs().dom() == dom1,
                self.refs() == refs_tracked(before.refs(), p),
                dom0.finite(),
                dom1.finite(),
                total as nat == dom1.len(),
                root.len() <= n <= p.len() || !more,
                n <= p.len(),
                more ==> is_ancestor(p.take(n as int), p),
                more ==> within(p.take(n as int), root),
                more ==> forall|d: Seq<Part>| #[trigger]
                    count_in(self.below@, d) == count_below(dom0, root, d) + (if within(d, root)
                        && is_ancestor(d, p) && d.len() > n {
                        1nat
                    } else {
                        0nat
                    }),
                !more ==> forall|d: Seq<Part>| #[trigger]
                    count_in(self.below@, d) == count_below(dom0, root, d) + (if within(d, root)
                        && is_ancestor(d, p) {
                        1nat
                    } else {
                        0nat
                    }),
                forall|d: Seq<Part>| #[trigger]
                    count_below(dom1, root, d) == count_below(dom0, root, d) + (if within(d, root)
                        && is_ancestor(d, p) {
                        1nat
                    } else {
                        0nat
                    }),
                forall|d: Seq<Part>| #[trigger] self.below@.contains_key(d) ==> self.below@[d] > 0,
            decreases (if more { n + 1 } else { 0 }),
        {
            let directory = path.prefix(n);
            let ghost here = directory@;
            let ghost below0 = self.below@;
            let count: usize = match self.below.get(&directory) {
                Some(count) => *count,
                None => 0,
            };
            proof {
                assert(count as nat == count_in(self.below@, here));
                lemma_count_below_bound(dom1, root, here);
                assert(count_below(dom1, root, here) == count + 1);
            }
            let at_root = directory.same(&self.watch_root);
            let parent_exists = directory.parent().is_some();
            self.below.insert(directory, count + 1);
            proof {
                assert forall|d: Seq<Part>| #[trigger] count_in(self.below@, d) == count_below(
                    dom0,
                    root,
                    d,
                ) + (if within(d, root) && is_ancestor(d, p) && d.len() > n - 1 {
                    1nat
                } else {
                    0nat
                }) by {
                    if d == here {
                    } else {
                        assert(count_in(self.below@, d) == count_in(below0, d));
                        if is_ancestor(d, p) && d.len() == n {
                            assert(d == p.take(n as int));
                        }
                    }
                }
                if n > 0 {
                    lemma_ancestor_step(p, n as int);
                    assert(here == p.take(n as int));
                }
                if at_root {
                    assert forall|d: Seq<Part>| within(d, root) && #[trigger] is_ancestor(d, p) implies d.len()
                        > n - 1 by {}
                } else {
                    assert(n > root.len()) by {
                        if n == root.len() {
                            assert(here.take(root.len() as int) =~= here);
                        }
                    }
                    if parent_exists {
                        assert(p.take(n - 1).take(root.len() as int) =~= p.take(
                            root.len() as int,
                        ));
                    } else {
                        assert forall|d: Seq<Part>| #[trigger] is_ancestor(d, p) implies d.len() > n
                            - 1 by {}
                    }
                }
            }
            if at_root || !parent_exists {
                more = false;
            } else {
                n = n - 1;
            }
        }
    }

    /// Notes one use of `path` less.
    pub fn untrack(&mut self, path: &FsPath)
        requires
            old(self).wf(),
            within(path@, old(self).root()),
        ensures
            final(self).wf(),
            final(self).root() == old(self).root(),
            final(self).refs() == refs_untracked(old(self).refs(), path@),
    {
        let ghost before = *self;
        match self.refcounts.get(path) {
            None => {
                assert(self.refs().remove(path@) =~= self.refs());
                return;
            },
            Some(count) => {
                if *count > 1 {
                    let next: usize = *count - 1;
                    self.refcounts.insert(path.clone(), next);
                    assert(self.refs().dom() =~= before.refs().dom());
                    return;
                }
            },
        }
        let _gone = self.refcounts.remove(path);
        let ghost dom0 = before.refs().dom();
        let ghost dom1 = self.refs().dom();
        let ghost p = path@;
        let ghost root = self.root();
        proof {
            assert(dom0 =~= dom1.insert(p));
            assert(dom1.finite());
            assert forall|d: Seq<Part>| #[trigger] count_below(dom0, root, d) == count_below(
                dom1,
                root,
                d,
            ) + (if within(d, root) && is_ancestor(d, p) {
                1nat
            } else {
                0nat
            }) by {
                lemma_count_below_insert(dom1, root, p, d);
            }
            lemma_within_reflexive(p);
            assert(p.take(p.len() as int) =~= p);
        }
        let mut n: usize = path.len();
        let mut more: bool = true;
        while more
            invariant
                p == path@,
                root == self.root(),
                root == before.root(),
                within(p, root),
                self.refs().dom() == dom1,
                self.refs() == refs_untracked(before.refs(), p),
                dom1.finite(),
                root.len() <= n <= p.len() || !more,
                n <= p.len(),
                more ==> is_ancestor(p.take(n as int), p),
                more ==> within(p.take(n as int), root),
                more ==> forall|d: Seq<Part>| #[trigger]
                    count_in(self.below@, d) == count_below(dom1, root, d) + (if within(d, root)
                        && is_ancestor(d, p) && d.len() <= n {
                        1nat
                    } else {
                        0nat
                    }),
                !more ==> forall|d: Seq<Part>| #[trigger]
                    count_in(self.below@, d) == count_below(dom1, root, d),
                forall|d: Seq<Part>| #[trigger] self.below@.contains_key(d) ==> self.below@[d] > 0,
            decreases (if more { n + 1 } else { 0 }),
        {
            let directory = path.prefix(n);
            let ghost here = directory@;
            let ghost below0 = self.below@;
            let count: usize = match self.below.get(&directory) {
                Some(count) => *count,
                None => 0,
            };
            assert(count as nat == count_in(self.below@, here));
            let at_root = directory.same(&self.watch_root);
            let parent_exists = directory.parent().is_some();
            if count > 1 {
                self.below.insert(directory, count - 1);
            } else {
                let _none = self.below.remove(&directory);
            }
            proof {
                assert forall|d: Seq<Part>| #[trigger] count_in(self.below@, d) == count_below(
                    dom1,
                    root,
                    d,
                ) + (if within(d, root) && is_ancestor(d, p) && d.len() <= n - 1 {
                    1nat
                } else {
                    0nat
                }) by {
                    if d == here {
                        assert(count_in(below0, here) == count_below(dom1, root, here) + 1);
                    } else {
                        assert(count_in(self.below@, d) == count_in(below0, d));
                        if is_ancestor(d, p) && d.len() == n {
                            assert(d == p.take(n as int));
                        }
                    }
                }
                if n > 0 {
                    lemma_ancestor_step(p, n as int);
                    assert(here == p.take(n as int));
                }
                if at_root {
                    assert forall|d: Seq<Part>| within(d, root) && #[trigger] is_ancestor(d, p) implies d.len()
                        > n - 1 by {}
                } else {
                    assert(n > root.len()) by {
                        if n == root.len() {
                            assert(here.take(root.len() as int) =~= here);
                        }
                    }
                    if parent_exists {
                        assert(p.take(n - 1).take(root.len() as int) =~= p.take(
                            root.len() as int,
                        ));
                    } else {
                        assert forall|d: Seq<Part>| #[trigger] is_ancestor(d, p) implies d.len() > n
                            - 1 by {}
                    }
                }
            }
            if at_root || !parent_exists {
                more = false;
            } else {
                n = n - 1;
            }
        }
    }
}

/// A path counts as long as it was tracked more often than untracked, once
/// however often, and no other path is touched.
pub proof fn law_a_path_counts_until_it_is_let_go(
    tracker: &mut PathTracker,
    later: &mut PathTracker,
    path: FsPath,
)
    requires
        call_ensures(PathTracker::track, (tracker, &path), ()),
        call_ensures(PathTracker::untrack, (later, &path), ()),
        old(later).refs() == final(tracker).refs(),
        old(tracker).refs().contains_key(path@) ==> 0 < old(tracker).refs()[path@] < usize::MAX,
    ensures
        final(tracker).refs().contains_key(path@),
        !old(tracker).refs().contains_key(path@) ==> final(tracker).refs()[path@] == 1,
        old(tracker).refs().contains_key(path@) ==> final(tracker).refs()[path@] == old(tracker).refs()[path@] + 1,
        forall|q: Seq<Part>|
            q != path@ ==> (#[trigger] final(tracker).refs().contains_key(q) <==> old(tracker).refs().contains_key(q)),
        final(later).refs() =~= old(tracker).refs(),
{
}

/// As many paths are pending below a directory of the root as are tracked in
/// it; with none tracked there are none.
pub proof fn law_nothing_is_pending_where_nothing_is_tracked(
    tracker: PathTracker,
    directory: FsPath,
    r: usize,
)
    requires
        call_ensures(PathTracker::pending_below, (&tracker, &directory), r),
        tracker.refs().dom().finite(),
    ensures
        r <= tracker.refs().dom().len(),
        (forall|p: Seq<Part>|
            #[trigger] tracker.refs().contains_key(p) ==> !is_ancestor(directory@, p)) ==> r == 0,
        forall|p: Seq<Part>|
            #[trigger] tracker.refs().contains_key(p) && directory@.len() >= tracker.root().len()
                && directory@.take(tracker.root().len() as int) == tracker.root() && is_ancestor(
                directory@,
                p,
            ) ==> r >= 1,
{
    let all = tracker.refs().dom();
    let keep = |p: Seq<Part>| is_ancestor(directory@, p);
    let some = all.filter(keep);
    vstd::set_lib::lemma_len_subset(some, all);
    if forall|p: Seq<Part>|
        #[trigger] tracker.refs().contains_key(p) ==> !is_ancestor(directory@, p) {
        assert(some =~= Set::empty());
    }
    assert forall|p: Seq<Part>|
        #[trigger] tracker.refs().contains_key(p) && is_ancestor(directory@, p) implies some.len()
        >= 1 by {
        assert(some.contains(p));
    }
}

} // verus!
