//! A depth-first, pre-order walk of a directory tree, driven from outside:
//! the walk names the next directory to list, and is handed its entries.
use crate::matcher::opt_view;
use vstd::prelude::*;
use vstd::string::*;

verus! {

/// What a directory entry is.
#[derive(Clone, Copy, Debug, PartialEq, Eq, Structural)]
pub enum EntryKind {
    Dir,
    File,
    /// Neither: an entry whose metadata could not be read, or a special file.
    Other,
}

/// One entry of a directory listing.
pub struct Entry {
    pub path: String,
    pub kind: EntryKind,
}

pub open spec fn entry_view(e: Entry) -> (Seq<char>, EntryKind) {
    (e.path@, e.kind)
}

/// Taking entries off `stack` (its last first) until a directory comes up:
/// the stack left, the files with those taken appended, and the directory.
pub open spec fn drain(stack: Seq<(Seq<char>, EntryKind)>, files: Seq<Seq<char>>) -> (
    Seq<(Seq<char>, EntryKind)>,
    Seq<Seq<char>>,
    Option<Seq<char>>,
)
    decreases stack.len(),
{
    if stack.len() == 0 {
        (stack, files, None)
    } else {
        let e = stack.last();
        match e.1 {
            EntryKind::File => drain(stack.drop_last(), files.push(e.0)),
            EntryKind::Dir => (stack.drop_last(), files, Some(e.0)),
            EntryKind::Other => drain(stack.drop_last(), files),
        }
    }
}

/// Taking one more entry keeps the account of files and directories: a file
/// is added to the files, a directory to those named for listing.
proof fn lemma_take_entry(
    taken: Seq<(Seq<char>, EntryKind)>,
    files: Seq<Seq<char>>,
    visited: Set<Seq<char>>,
    ev: (Seq<char>, EntryKind),
    files2: Seq<Seq<char>>,
    visited2: Set<Seq<char>>,
)
    requires
        forall|p| #[trigger] files.contains(p) ==> taken.contains((p, EntryKind::File)),
        forall|p| #[trigger] taken.contains((p, EntryKind::File)) ==> files.contains(p),
        forall|p| #[trigger] taken.contains((p, EntryKind::Dir)) ==> visited.contains(p),
        files2 == (if ev.1 == EntryKind::File { files.push(ev.0) } else { files }),
        visited2 == (if ev.1 == EntryKind::Dir { visited.insert(ev.0) } else { visited }),
    ensures
        forall|p| #[trigger] files2.contains(p) ==> taken.push(ev).contains((p, EntryKind::File)),
        forall|p| #[trigger] taken.push(ev).contains((p, EntryKind::File)) ==> files2.contains(p),
        forall|p| #[trigger] taken.push(ev).contains((p, EntryKind::Dir)) ==> visited2.contains(p),
{
    let t2 = taken.push(ev);
    assert forall|p| #[trigger] files2.contains(p) implies t2.contains((p, EntryKind::File)) by {
        let i = choose|i: int| 0 <= i < files2.len() && files2[i] == p;
        if i < files.len() {
            assert(files[i] == p);
            assert(files.contains(p));
            let j = choose|j: int| 0 <= j < taken.len() && taken[j] == (p, EntryKind::File);
            assert(t2[j] == (p, EntryKind::File));
        } else {
            assert(t2.last() == (p, EntryKind::File));
        }
    }
    assert forall|p| #[trigger] t2.contains((p, EntryKind::File)) implies files2.contains(p) by {
        let i = choose|i: int| 0 <= i < t2.len() && t2[i] == (p, EntryKind::File);
        if i < taken.len() {
            assert(taken[i] == (p, EntryKind::File));
            assert(taken.contains((p, EntryKind::File)));
            let j = choose|j: int| 0 <= j < files.len() && files[j] == p;
            assert(files2[j] == p);
        } else {
            assert(files2.last() == p);
        }
    }
    assert forall|p| #[trigger] t2.contains((p, EntryKind::Dir)) implies visited2.contains(p) by {
        let i = choose|i: int| 0 <= i < t2.len() && t2[i] == (p, EntryKind::Dir);
        if i < taken.len() {
            assert(taken[i] == (p, EntryKind::Dir));
            assert(taken.contains((p, EntryKind::Dir)));
        }
    }
}

/// The walk's state. Entries still to be taken wait on a stack whose top is
/// the next in pre-order.
pub struct Walk {
    root: String,
    pending: Vec<Entry>,
    files: Vec<String>,
    /// The root and every entry handed in by a listing.
    listed: Ghost<Seq<(Seq<char>, EntryKind)>>,
    /// Every entry taken off the stack.
    taken: Ghost<Seq<(Seq<char>, EntryKind)>>,
    /// Every directory named for listing.
    visited: Ghost<Set<Seq<char>>>,
}

impl Walk {
    pub closed spec fn root(&self) -> Seq<char> {
        self.root@
    }

    /// The root and every entry handed in so far.
    pub closed spec fn listed(&self) -> Seq<(Seq<char>, EntryKind)> {
        self.listed@
    }

    /// The files found so far, in pre-order.
    pub closed spec fn files(&self) -> Seq<Seq<char>> {
        self.files@.map_values(|s: String| s@)
    }

    /// The directories named for listing so far.
    pub closed spec fn visited(&self) -> Set<Seq<char>> {
        self.visited@
    }

    pub closed spec fn is_finished(&self) -> bool {
        self.pending@.len() == 0
    }

    /// The entries still to be taken; the last is taken first.
    pub closed spec fn stack(&self) -> Seq<(Seq<char>, EntryKind)> {
        self.pending@.map_values(|e: Entry| entry_view(e))
    }

    pub closed spec fn wf(&self) -> bool {
        &&& forall|e| #[trigger] self.listed@.contains(e) ==> self.taken@.contains(e)
            || self.stack().contains(e)
        &&& forall|e| #[trigger] self.taken@.contains(e) ==> self.listed@.contains(e)
        &&& forall|e| #[trigger] self.stack().contains(e) ==> self.listed@.contains(e)
        &&& forall|p| #[trigger] self.files().contains(p) ==> self.taken@.contains(
            (p, EntryKind::File),
        )
        &&& forall|p| #[trigger]
            self.taken@.contains((p, EntryKind::File)) ==> self.files().contains(p)
        &&& forall|p| #[trigger]
            self.taken@.contains((p, EntryKind::Dir)) ==> self.visited@.contains(p)
    }

    /// A walk that starts at `root`, which is listed first.
    pub fn new(root: &str) -> (w: Walk)
        ensures
            w.wf(),
            w.root() == root@,
            w.listed() == seq![(root@, EntryKind::Dir)],
            w.stack() == seq![(root@, EntryKind::Dir)],
            w.files() == Seq::<Seq<char>>::empty(),
            !w.is_finished(),
    {
        let mut pending: Vec<Entry> = Vec::new();
        pending.push(Entry { path: String::from_str(root), kind: EntryKind::Dir });
        let ghost first = seq![(root@, EntryKind::Dir)];
        let ghost none: Seq<(Seq<char>, EntryKind)> = seq![];
        let ghost no_dirs: Set<Seq<char>> = Set::empty();
        let w = Walk {
            root: String::from_str(root),
            pending,
            files: Vec::new(),
            listed: Ghost(first),
            taken: Ghost(none),
            visited: Ghost(no_dirs),
        };
        assert(w.stack() =~= seq![(root@, EntryKind::Dir)]);
        assert(w.files() =~= seq![]);
        assert forall|e| #[trigger] w.listed@.contains(e) implies w.stack().contains(e) by {
            assert(w.stack()[0] == e);
        }
        w
    }

    pub fn is_done(&self) -> (r: bool)
        ensures
            r == self.is_finished(),
    {
        self.pending.len() == 0
    }

    /// Takes entries off the stack, keeping the files, until a directory comes
    /// up, which is returned to be listed next; `None` once nothing is left.
    pub fn next_dir(&mut self) -> (r: Option<String>)
        requires
            old(self).wf(),
        ensures
            final(self).wf(),
            final(self).root() == old(self).root(),
            final(self).listed() == old(self).listed(),
            r is None ==> final(self).is_finished(),
            r matches Some(d) ==> final(self).visited().contains(d@),
            (final(self).stack(), final(self).files(), opt_view(r)) == drain(old(self).stack(), old(self).files()),
    {
        loop
            invariant
                self.wf(),
                drain(self.stack(), self.files()) == drain(old(self).stack(), old(self).files()),
                self.root() == old(self).root(),
                self.listed() == old(self).listed(),
            decreases self.pending@.len(),
        {
            let ghost before = *self;
            match self.pending.pop() {
                None => {
                    assert(self.pending@ == before.pending@);
                    assert(self.stack() == before.stack());
                    assert(self.files@ == before.files@);
                    assert(self.files() == before.files());
                    assert(self.taken@ == before.taken@);
                    assert(self.wf());
                    return None;
                },
                Some(e) => {
                    let ghost ev = entry_view(e);
                    proof {
                        assert(before.stack() =~= self.stack().push(ev));
                        assert(before.stack().drop_last() == self.stack());
                        assert(before.stack().last() == ev);
                        self.taken@ = self.taken@.push(ev);
                        assert forall|x| #[trigger] self.listed@.contains(x) implies self.taken@.contains(x)
                            || self.stack().contains(x) by {
                            if before.taken@.contains(x) {
                                let i = choose|i: int| 0 <= i < before.taken@.len() && before.taken@[i] == x;
                                assert(self.taken@[i] == x);
                            } else {
                                assert(before.stack().contains(x));
                                let i = choose|i: int| 0 <= i < before.stack().len() && before.stack()[i] == x;
                                if i == self.stack().len() {
                                    assert(self.taken@.last() == x);
                                } else {
                                    assert(self.stack()[i] == x);
                                }
                            }
                        }
                        assert forall|x| #[trigger] self.stack().contains(x) implies self.listed@.contains(x) by {
                            let i = choose|i: int| 0 <= i < self.stack().len() && self.stack()[i] == x;
                            assert(before.stack()[i] == x);
                            assert(before.stack().contains(x));
                        }
                        assert(before.stack().last() == ev);
                        assert(before.stack().contains(ev));
                        assert forall|x| #[trigger] self.taken@.contains(x) implies self.listed@.contains(x) by {
                            let i = choose|i: int| 0 <= i < self.taken@.len() && self.taken@[i] == x;
                            if i < before.taken@.len() {
                                assert(before.taken@[i] == x);
                                assert(before.taken@.contains(x));
                            }
                        }
                    }
                    let ghost mid = *self;
                    match e.kind {
                        EntryKind::File => {
                            self.files.push(e.path);
                            proof {
                                assert(self.pending@ == mid.pending@);
                                assert(self.stack() == mid.stack());
                                assert(self.files() =~= before.files().push(ev.0));
                                lemma_take_entry(before.taken@, before.files(), before.visited@, ev, self.files(), self.visited@);
                            }
                        },
                        EntryKind::Dir => {
                            proof {
                                self.visited@ = self.visited@.insert(ev.0);
                                assert(self.pending@ == mid.pending@);
                                assert(self.stack() == mid.stack());
                                assert(self.files@ == before.files@);
                                assert(self.files() == before.files());
                                lemma_take_entry(before.taken@, before.files(), before.visited@, ev, self.files(), self.visited@);
                            }
                            return Some(e.path);
                        },
                        EntryKind::Other => {
                            proof {
                                assert(self.files@ == before.files@);
                                assert(self.files() == before.files());
                                lemma_take_entry(before.taken@, before.files(), before.visited@, ev, self.files(), self.visited@);
                            }
                        },
                    }
                },
            }
        }
    }

    /// Hands in the entries of the directory last named by `next_dir`, in the
    /// order of the listing; the first of them is taken next.
    pub fn add_listing(&mut self, entries: Vec<Entry>)
        requires
            old(self).wf(),
        ensures
            final(self).wf(),
            final(self).root() == old(self).root(),
            final(self).listed() == old(self).listed() + entries@.map_values(|e: Entry| entry_view(e)),
            final(self).files() == old(self).files(),
            final(self).visited() == old(self).visited(),
            final(self).stack() == old(self).stack() + entries@.map_values(|e: Entry| entry_view(e)).reverse(),
    {
        let mut entries = entries;
        let ghost all = entries@.map_values(|e: Entry| entry_view(e));
        let ghost start = *self;
        proof {
            self.listed@ = self.listed@ + all;
            assert(self.pending@ == start.pending@);
            assert(self.stack() == start.stack());
            assert(self.stack().subrange(0, start.stack().len() as int) =~= start.stack());
            assert forall|x| #[trigger] self.stack().contains(x) implies self.listed@.contains(x) by {
                assert(start.stack().contains(x));
                assert(start.listed@.contains(x));
                let i = choose|i: int| 0 <= i < start.listed@.len() && start.listed@[i] == x;
                assert(self.listed@[i] == x);
            }
        }
        while entries.len() > 0
            invariant
                entries@.len() <= all.len(),
                forall|i: int| 0 <= i < entries@.len() ==> entry_view(#[trigger] entries@[i]) == all[i],
                self.listed@ == start.listed@ + all,
                self.taken@ == start.taken@,
                self.files@ == start.files@,
                self.visited@ == start.visited@,
                self.root@ == start.root@,
                start.wf(),
                self.stack() == start.stack() + all.subrange(entries@.len() as int, all.len() as int).reverse(),
                self.stack().len() >= start.stack().len(),
                self.stack().subrange(0, start.stack().len() as int) == start.stack(),
                forall|k: int| entries@.len() <= k < all.len() ==> self.stack().contains(#[trigger] all[k]),
                forall|x| #[trigger] self.stack().contains(x) ==> self.listed@.contains(x),
            decreases entries@.len(),
        {
            let ghost before = *self;
            let e = entries.pop().unwrap();
            let ghost k = entries@.len() as int;
            assert(entry_view(e) == all[k]);
            self.pending.push(e);
            proof {
                assert(self.stack() =~= before.stack().push(all[k]));
                assert(all.subrange(k, all.len() as int).reverse() =~= all.subrange(k + 1, all.len() as int).reverse().push(all[k]));
                assert(self.stack().subrange(0, start.stack().len() as int) =~= before.stack().subrange(0, start.stack().len() as int));
                assert forall|j: int| entries@.len() <= j < all.len() implies self.stack().contains(#[trigger] all[j]) by {
                    if j == k {
                        assert(self.stack().last() == all[k]);
                    } else {
                        assert(before.stack().contains(all[j]));
                        let i = choose|i: int| 0 <= i < before.stack().len() && before.stack()[i] == all[j];
                        assert(self.stack()[i] == all[j]);
                    }
                }
                assert forall|x| #[trigger] self.stack().contains(x) implies self.listed@.contains(x) by {
                    let i = choose|i: int| 0 <= i < self.stack().len() && self.stack()[i] == x;
                    if i < before.stack().len() {
                        assert(before.stack()[i] == x);
                        assert(before.stack().contains(x));
                    } else {
                        assert(self.listed@[start.listed@.len() + k] == x);
                    }
                }
            }
        }
        proof {
            assert(all.subrange(0, all.len() as int) == all);
            assert(self.files() == start.files());
            assert forall|x| #[trigger] self.listed@.contains(x) implies self.taken@.contains(x)
                || self.stack().contains(x) by {
                let i = choose|i: int| 0 <= i < self.listed@.len() && self.listed@[i] == x;
                if i < start.listed@.len() {
                    assert(start.listed@[i] == x);
                    assert(start.listed@.contains(x));
                    if start.stack().contains(x) {
                        let j = choose|j: int| 0 <= j < start.stack().len() && start.stack()[j] == x;
                        assert(self.stack().subrange(0, start.stack().len() as int)[j] == x);
                        assert(self.stack()[j] == x);
                    }
                } else {
                    assert(all[i - start.listed@.len()] == x);
                }
            }
            assert forall|x| #[trigger] self.taken@.contains(x) implies self.listed@.contains(x) by {
                assert(start.taken@.contains(x));
                assert(start.listed@.contains(x));
                let i = choose|i: int| 0 <= i < start.listed@.len() && start.listed@[i] == x;
                assert(self.listed@[i] == x);
            }
            assert forall|p| #[trigger] self.files().contains(p) implies self.taken@.contains((p, EntryKind::File)) by {
                assert(start.files().contains(p));
            }
            assert forall|p| #[trigger] self.taken@.contains((p, EntryKind::File)) implies self.files().contains(p) by {
                assert(start.taken@.contains((p, EntryKind::File)));
            }
            assert forall|p| #[trigger] self.taken@.contains((p, EntryKind::Dir)) implies self.visited@.contains(p) by {
                assert(start.taken@.contains((p, EntryKind::Dir)));
            }
        }
    }

    /// The files found, in pre-order.
    pub fn into_files(self) -> (r: Vec<String>)
        ensures
            r@.map_values(|s: String| s@) == self.files(),
    {
        self.files
    }
}

/// Once a walk is finished, the files it found are exactly the entries that
/// the listings reported as regular files (directories and other entries
/// left out), and every directory that they reported was listed in turn.
pub proof fn lemma_walk_finds_exactly_the_files(w: &Walk)
    requires
        w.wf(),
        w.is_finished(),
    ensures
        forall|p| #[trigger] w.files().contains(p) <==> w.listed().contains((p, EntryKind::File)),
        forall|p| w.listed().contains((p, EntryKind::Dir)) ==> #[trigger] w.visited().contains(p),
{
    assert(w.stack() =~= Seq::<(Seq<char>, EntryKind)>::empty());
    assert forall|p| #[trigger] w.files().contains(p) <==> w.listed().contains((p, EntryKind::File)) by {
        if w.listed().contains((p, EntryKind::File)) {
            assert(w.listed@.contains((p, EntryKind::File)));
        }
        if w.files().contains(p) {
            assert(w.taken@.contains((p, EntryKind::File)));
        }
    }
    assert forall|p| w.listed().contains((p, EntryKind::Dir)) implies #[trigger] w.visited().contains(p) by {
        assert(w.listed@.contains((p, EntryKind::Dir)));
    }
}

} // verus!
