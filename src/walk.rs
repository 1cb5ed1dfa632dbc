//! A walk over a directory tree that hands out every regular file in
//! ascending path order.
//!
//! The walk only decides; the caller does the filesystem work. It asks the
//! walk for the next path to inspect, looks at that path without following
//! links, and reports what it found. Directories are expanded into their
//! children, regular files are handed back, and everything else is dropped.

use vstd::prelude::*;
use crate::order::{compare_names, lemma_path_order_all, lemma_lex_extend, name_order, path_lt};

verus! {

/// A path below the walk's root, as the names of its components. The root
/// itself is the path with no components.
pub struct RelPath {
    pub names: Vec<Vec<u8>>,
}

impl View for RelPath {
    type V = Seq<Seq<u8>>;

    open spec fn view(&self) -> Seq<Seq<u8>> {
        self.names@.map_values(|n: Vec<u8>| n@)
    }
}

/// Copies a name.
fn copy_name(n: &Vec<u8>) -> (r: Vec<u8>)
    ensures
        r@ == n@,
{
    let mut r: Vec<u8> = Vec::new();
    let mut i: usize = 0;
    while i < n.len()
        invariant
            i <= n.len(),
            r@ == n@.take(i as int),
        decreases n.len() - i,
    {
        assert(n@.take(i + 1) =~= n@.take(i as int).push(n@[i as int]));
        r.push(n[i]);
        i = i + 1;
    }
    assert(n@.take(i as int) =~= n@);
    r
}

impl RelPath {
    /// The path of the walk's root.
    pub fn root() -> (r: RelPath)
        ensures
            r@ == Seq::<Seq<u8>>::empty(),
    {
        let r = RelPath { names: Vec::new() };
        assert(r@ =~= Seq::<Seq<u8>>::empty());
        r
    }

    /// Copies the path.
    pub fn copy(&self) -> (r: RelPath)
        ensures
            r@ == self@,
    {
        let mut names: Vec<Vec<u8>> = Vec::new();
        let mut i: usize = 0;
        while i < self.names.len()
            invariant
                i <= self.names.len(),
                names.len() == i,
                forall|j: int| 0 <= j < i ==> #[trigger] names@[j]@ == self.names@[j]@,
            decreases self.names.len() - i,
        {
            let n = copy_name(&self.names[i]);
            names.push(n);
            i = i + 1;
        }
        let r = RelPath { names };
        assert(r@ =~= self@);
        r
    }

    /// The path of the entry `name` inside this directory.
    pub fn child(&self, name: &Vec<u8>) -> (r: RelPath)
        ensures
            r@ == self@.push(name@),
    {
        let mut r = self.copy();
        let n = copy_name(name);
        r.names.push(n);
        assert(r@ =~= self@.push(name@));
        r
    }
}

/// Compares two paths component by component.
pub fn compare_paths(a: &RelPath, b: &RelPath) -> (r: core::cmp::Ordering)
    ensures
        (r == core::cmp::Ordering::Less) == path_lt(a@, b@),
        (r == core::cmp::Ordering::Equal) == (a@ == b@),
        (r == core::cmp::Ordering::Greater) == path_lt(b@, a@),
{
    proof {
        lemma_path_order_all();
    }
    assert(a@.skip(0) =~= a@);
    assert(b@.skip(0) =~= b@);
    let mut i: usize = 0;
    while i < a.names.len() && i < b.names.len()
        invariant
            i <= a@.len(),
            i <= b@.len(),
            a@.len() == a.names.len(),
            b@.len() == b.names.len(),
            a@.take(i as int) == b@.take(i as int),
            path_lt(a@, b@) == path_lt(a@.skip(i as int), b@.skip(i as int)),
            path_lt(b@, a@) == path_lt(b@.skip(i as int), a@.skip(i as int)),
        decreases a.names.len() - i,
    {
        let c = compare_names(&a.names[i], &b.names[i]);
        match c {
            core::cmp::Ordering::Equal => {},
            _ => {
                proof {
                    assert(a@[i as int] == a.names@[i as int]@);
                    assert(b@[i as int] == b.names@[i as int]@);
                    assert(a@.skip(i as int)[0] == a@[i as int]);
                    assert(b@.skip(i as int)[0] == b@[i as int]);
                    if a@ == b@ {
                        assert(a@[i as int] == b@[i as int]);
                    }
                }
                return c;
            },
        }
        assert(a@.skip(i as int).drop_first() =~= a@.skip(i + 1));
        assert(b@.skip(i as int).drop_first() =~= b@.skip(i + 1));
        assert(a@.take(i + 1) =~= a@.take(i as int).push(a@[i as int]));
        assert(b@.take(i + 1) =~= b@.take(i as int).push(b@[i as int]));
        i = i + 1;
    }
    if i == a.names.len() && i == b.names.len() {
        assert(a@ =~= a@.take(i as int));
        assert(b@ =~= b@.take(i as int));
        core::cmp::Ordering::Equal
    } else if i == a.names.len() {
        proof {
            if a@ == b@ {
                assert(a@.len() == b@.len());
            }
        }
        core::cmp::Ordering::Less
    } else {
        proof {
            if a@ == b@ {
                assert(a@.len() == b@.len());
            }
        }
        core::cmp::Ordering::Greater
    }
}

/// The views of a sequence of paths.
pub open spec fn paths_view(v: Seq<RelPath>) -> Seq<Seq<Seq<u8>>> {
    v.map_values(|p: RelPath| p@)
}

/// Each path sorts after the ones that follow it.
pub open spec fn sorted_desc(s: Seq<Seq<Seq<u8>>>) -> bool {
    forall|i: int, j: int| 0 <= i < j < s.len() ==> path_lt(#[trigger] s[j], #[trigger] s[i])
}

/// Inserts `p` into a vector sorted from the largest path down, unless it is
/// there already.
fn insert_sorted(v: &mut Vec<RelPath>, p: RelPath)
    requires
        sorted_desc(paths_view(old(v)@)),
    ensures
        sorted_desc(paths_view(final(v)@)),
        paths_view(final(v)@).to_set() == paths_view(old(v)@).to_set().insert(p@),
{
    proof {
        lemma_path_order_all();
    }
    let ghost pv = p@;
    let ghost ov = paths_view(v@);
    let mut i: usize = v.len();
    loop
        invariant
            v@ == old(v)@,
            ov == paths_view(v@),
            i <= v.len(),
            sorted_desc(ov),
            pv == p@,
            forall|k: int| i <= k < ov.len() ==> path_lt(#[trigger] ov[k], pv),
        ensures
            i == 0 || path_lt(pv, ov[i - 1]),
        decreases i,
    {
        if i == 0 {
            break;
        }
        let c = compare_paths(&v[i - 1], &p);
        match c {
            core::cmp::Ordering::Less => {
                i = i - 1;
            },
            core::cmp::Ordering::Equal => {
                assert(ov[i - 1] == pv);
                assert(ov.to_set().insert(pv) =~= ov.to_set());
                return;
            },
            core::cmp::Ordering::Greater => {
                break;
            },
        }
    }
    v.insert(i, p);
    let ghost nv = paths_view(v@);
    assert(nv =~= ov.insert(i as int, pv));
    assert forall|a: int, b: int| 0 <= a < b < nv.len() implies path_lt(
        #[trigger] nv[b],
        #[trigger] nv[a],
    ) by {
        if b < i {
        } else if b == i {
            assert(path_lt(pv, ov[i - 1]));
            if a < i - 1 {
                assert(path_lt(ov[i - 1], ov[a]));
            }
        } else if a < i {
            assert(path_lt(ov[b - 1], pv));
            assert(path_lt(pv, ov[i - 1]));
            if a < i - 1 {
                assert(path_lt(ov[i - 1], ov[a]));
            }
        } else if a == i {
        } else {
            assert(path_lt(ov[b - 1], ov[a - 1]));
        }
    }
    assert(nv.to_set() =~= ov.to_set().insert(pv)) by {
        assert forall|q: Seq<Seq<u8>>| nv.to_set().contains(q) implies ov.to_set().insert(pv).contains(q) by {
            let k = choose|k: int| 0 <= k < nv.len() && nv[k] == q;
            if k < i {
                assert(ov[k] == q);
            } else if k > i {
                assert(ov[k - 1] == q);
            }
        }
        assert forall|q: Seq<Seq<u8>>| ov.to_set().insert(pv).contains(q) implies nv.to_set().contains(q) by {
            if q == pv {
                assert(nv[i as int] == q);
            } else {
                let k = choose|k: int| 0 <= k < ov.len() && ov[k] == q;
                if k < i {
                    assert(nv[k] == q);
                } else {
                    assert(nv[k + 1] == q);
                }
            }
        }
    }
}

/// What the filesystem says about a path, looked at without following links.
pub enum EntryKind {
    /// Nothing could be learnt about the path.
    Unreadable,
    /// A symbolic link, to anything.
    Symlink,
    /// A directory, with the names of its entries, or `None` where it could
    /// not be listed.
    Directory(Option<Vec<Vec<u8>>>),
    /// A regular file.
    File,
    /// Anything else: a pipe, a socket, a device.
    Other,
}

/// The root directory of a walk could not be listed.
pub struct RootUnreadable;

/// The paths of the entries `names` inside the directory `dir`.
pub open spec fn children_of(dir: Seq<Seq<u8>>, names: Seq<Vec<u8>>) -> Set<Seq<Seq<u8>>> {
    Set::new(|p: Seq<Seq<u8>>| exists|i: int| 0 <= i < names.len() && p == dir.push(#[trigger] names[i]@))
}

/// The view of a path that may be absent.
pub open spec fn path_opt(r: Option<RelPath>) -> Option<Seq<Seq<u8>>> {
    match r {
        Some(p) => Some(p@),
        None => None,
    }
}

/// `after` is the walk `before` once it has handed out `r`: the smallest
/// pending path, which comes after every path handed out earlier and is now
/// the one to inspect; or nothing, once no path is pending.
pub open spec fn takes_smallest(before: SortedWalk, after: SortedWalk, r: Option<Seq<Seq<u8>>>) -> bool {
    &&& r is None == (before.pending() == Set::<Seq<Seq<u8>>>::empty())
    &&& r matches Some(p) ==> {
        &&& before.pending().contains(p)
        &&& forall|q: Seq<Seq<u8>>| #[trigger]
            before.pending().contains(q) && q != p ==> path_lt(p, q)
        &&& after.pending() == before.pending().remove(p)
        &&& after.current() == Some(p)
        &&& after.last_handed_out() == Some(p)
        &&& (before.last_handed_out() matches Some(l) ==> path_lt(l, p))
    }
    &&& r is None ==> {
        &&& after.pending() == before.pending()
        &&& after.current() is None
        &&& after.last_handed_out() == before.last_handed_out()
    }
}

/// `after` is the walk `before` once it has taken in `kind` for the path
/// under inspection: a directory's entries become pending, a regular file is
/// handed back as `r`, and anything else is dropped.
pub open spec fn takes_in(before: SortedWalk, after: SortedWalk, kind: EntryKind, r: Option<Seq<Seq<u8>>>) -> bool {
    &&& after.current() is None
    &&& after.last_handed_out() == before.last_handed_out()
    &&& r == (if kind is File { before.current() } else { None })
    &&& after.pending() == (match (before.current(), kind) {
        (Some(c), EntryKind::Directory(Some(names))) => before.pending().union(
            children_of(c, names@),
        ),
        _ => before.pending(),
    })
}

/// A walk in ascending path order. The pending paths are kept sorted from
/// the largest down, so that the smallest is always at the end.
pub struct SortedWalk {
    frontier: Vec<RelPath>,
    current: Option<RelPath>,
    last: Ghost<Option<Seq<Seq<u8>>>>,
}

impl SortedWalk {
    /// The paths not yet handed out.
    pub closed spec fn pending(&self) -> Set<Seq<Seq<u8>>> {
        paths_view(self.frontier@).to_set()
    }

    /// The path handed out for inspection and not yet visited.
    pub closed spec fn current(&self) -> Option<Seq<Seq<u8>>> {
        match self.current {
            Some(c) => Some(c@),
            None => None,
        }
    }

    /// The path handed out last.
    pub closed spec fn last_handed_out(&self) -> Option<Seq<Seq<u8>>> {
        self.last@
    }

    /// The pending paths are sorted and all come after the path handed out
    /// last.
    pub closed spec fn wf(&self) -> bool {
        &&& sorted_desc(paths_view(self.frontier@))
        &&& self.last@ matches Some(l) ==> forall|k: int|
            0 <= k < self.frontier@.len() ==> path_lt(l, #[trigger] paths_view(self.frontier@)[k])
        &&& self.current is Some ==> self.last@ == self.current()
    }

    /// Starts a walk at the root, provided the root could be listed.
    pub fn new(root_listable: bool) -> (r: Result<SortedWalk, RootUnreadable>)
        ensures
            r is Ok == root_listable,
            r matches Ok(w) ==> {
                &&& w.wf()
                &&& w.pending() == set![Seq::<Seq<u8>>::empty()]
                &&& w.current() is None
                &&& w.last_handed_out() is None
            },
    {
        if !root_listable {
            return Err(RootUnreadable);
        }
        let mut frontier: Vec<RelPath> = Vec::new();
        frontier.push(RelPath::root());
        let w = SortedWalk { frontier, current: None, last: Ghost(None) };
        assert(paths_view(w.frontier@) =~= seq![Seq::<Seq<u8>>::empty()]);
        assert(w.pending() =~= set![Seq::<Seq<u8>>::empty()]) by {
            assert(paths_view(w.frontier@)[0] == Seq::<Seq<u8>>::empty());
        }
        Ok(w)
    }

    /// Hands out the smallest pending path for the caller to inspect, or
    /// `None` when the walk is over. Each path handed out comes after the one
    /// handed out before it.
    pub fn next_to_probe(&mut self) -> (r: Option<RelPath>)
        requires
            old(self).wf(),
        ensures
            final(self).wf(),
            takes_smallest(*old(self), *final(self), path_opt(r)),
    {
        proof {
            lemma_path_order_all();
        }
        let ghost ov = paths_view(self.frontier@);
        match self.frontier.pop() {
            None => {
                assert(ov =~= Seq::<Seq<Seq<u8>>>::empty());
                assert(self.pending() =~= Set::<Seq<Seq<u8>>>::empty());
                self.current = None;
                None
            },
            Some(p) => {
                let ghost n: int = ov.len() - 1;
                let ghost nv = paths_view(self.frontier@);
                assert(nv =~= ov.take(n));
                assert(ov[n] == p@);
                assert(ov.to_set().contains(p@));
                assert forall|q: Seq<Seq<u8>>| #[trigger]
                    ov.to_set().contains(q) && q != p@ implies path_lt(p@, q) by {
                    let k = choose|k: int| 0 <= k < ov.len() && ov[k] == q;
                    assert(k < n);
                }
                assert(nv.to_set() =~= ov.to_set().remove(p@)) by {
                    assert forall|q: Seq<Seq<u8>>| ov.to_set().remove(p@).contains(q) implies nv.to_set().contains(q) by {
                        let k = choose|k: int| 0 <= k < ov.len() && ov[k] == q;
                        assert(nv[k] == q);
                    }
                    assert forall|q: Seq<Seq<u8>>| nv.to_set().contains(q) implies ov.to_set().remove(p@).contains(q) by {
                        let k = choose|k: int| 0 <= k < nv.len() && nv[k] == q;
                        assert(ov[k] == q);
                        assert(path_lt(ov[n], ov[k]));
                    }
                }
                proof {
                    if self.last@ is Some {
                        assert(path_lt(self.last@->Some_0, ov[n]));
                    }
                }
                let r = p.copy();
                self.current = Some(p);
                self.last = Ghost(Some(r@));
                assert forall|k: int| 0 <= k < self.frontier@.len() implies path_lt(
                    r@,
                    #[trigger] paths_view(self.frontier@)[k],
                ) by {
                    assert(paths_view(self.frontier@)[k] == ov[k]);
                }
                Some(r)
            },
        }
    }

    /// Takes in what the caller found at the path handed out last. A
    /// directory's entries become pending, a regular file is handed back, and
    /// anything else is dropped. Without a path handed out, nothing happens.
    pub fn visit(&mut self, kind: EntryKind) -> (r: Option<RelPath>)
        requires
            old(self).wf(),
        ensures
            final(self).wf(),
            takes_in(*old(self), *final(self), kind, path_opt(r)),
    {
        let current = self.current.take();
        match current {
            None => None,
            Some(c) => {
                match kind {
                    EntryKind::File => Some(c),
                    EntryKind::Directory(Some(names)) => {
                        self.expand(&c, &names);
                        None
                    },
                    _ => None,
                }
            },
        }
    }

    /// Adds the entries `names` of the directory `dir`, the path handed out
    /// last, to the pending paths.
    fn expand(&mut self, dir: &RelPath, names: &Vec<Vec<u8>>)
        requires
            old(self).wf(),
            old(self).current is None,
            old(self).last@ == Some(dir@),
        ensures
            final(self).wf(),
            final(self).current is None,
            final(self).last@ == old(self).last@,
            final(self).pending() == old(self).pending().union(children_of(dir@, names@)),
    {
        proof {
            lemma_path_order_all();
        }
        let mut i: usize = 0;
        while i < names.len()
            invariant
                self.wf(),
                self.current is None,
                self.last@ == Some(dir@),
                i <= names.len(),
                self.pending() == old(self).pending().union(children_of(dir@, names@.take(i as int))),
            decreases names.len() - i,
        {
            let child = dir.child(&names[i]);
            proof {
                lemma_lex_extend(dir@, names@[i as int]@, name_order());
            }
            let ghost before = paths_view(self.frontier@);
            insert_sorted(&mut self.frontier, child);
            proof {
                let after = paths_view(self.frontier@);
                assert forall|k: int| 0 <= k < self.frontier@.len() implies path_lt(
                    dir@,
                    #[trigger] paths_view(self.frontier@)[k],
                ) by {
                    assert(after.to_set().contains(after[k]));
                    if after[k] != child@ {
                        let j = choose|j: int| 0 <= j < before.len() && before[j] == after[k];
                    }
                }
                assert(children_of(dir@, names@.take(i + 1)) =~= children_of(
                    dir@,
                    names@.take(i as int),
                ).insert(child@)) by {
                    assert(names@.take(i + 1)[i as int] == names@[i as int]);
                    assert forall|q: Seq<Seq<u8>>| children_of(dir@, names@.take(i + 1)).contains(q) implies children_of(
                        dir@,
                        names@.take(i as int),
                    ).insert(child@).contains(q) by {
                        let j = choose|j: int| 0 <= j < i + 1 && q == dir@.push(#[trigger] names@.take(i + 1)[j]@);
                        if j < i {
                            assert(names@.take(i as int)[j] == names@.take(i + 1)[j]);
                        }
                    }
                    assert forall|q: Seq<Seq<u8>>| children_of(dir@, names@.take(i as int)).insert(child@).contains(q) implies children_of(
                        dir@,
                        names@.take(i + 1),
                    ).contains(q) by {
                        if q != child@ {
                            let j = choose|j: int| 0 <= j < i && q == dir@.push(#[trigger] names@.take(i as int)[j]@);
                            assert(names@.take(i as int)[j] == names@.take(i + 1)[j]);
                        }
                    }
                }
            }
            i = i + 1;
        }
        assert(names@.take(names@.len() as int) =~= names@);
    }
}

/// One move of a walk: handing out the smallest pending path (which yields
/// no file), or taking in what was found at the path under inspection.
pub open spec fn walk_move(before: SortedWalk, after: SortedWalk, yielded: Option<Seq<Seq<u8>>>) -> bool {
    ||| yielded is None && exists|h: Option<Seq<Seq<u8>>>| #[trigger] takes_smallest(before, after, h)
    ||| exists|kind: EntryKind| #[trigger] takes_in(before, after, kind, yielded)
}

/// Over any run of a walk, the files it hands back come in strictly
/// ascending path order: a file yielded at move `i` sorts before a file
/// yielded at a later move `j`. (Only regular files are ever yielded, and
/// each only once, by `takes_in`.)
pub proof fn lemma_yields_ascending(
    states: Seq<SortedWalk>,
    yields: Seq<Option<Seq<Seq<u8>>>>,
    i: int,
    j: int,
)
    requires
        states.len() == yields.len() + 1,
        forall|k: int| 0 <= k < states.len() ==> (#[trigger] states[k]).wf(),
        forall|k: int| 0 <= k < yields.len() ==> walk_move(states[k], states[k + 1], #[trigger] yields[k]),
        0 <= i < j < yields.len(),
        yields[i] is Some,
        yields[j] is Some,
    ensures
        path_lt(yields[i]->Some_0, yields[j]->Some_0),
{
    lemma_after_yield(states, yields, i, j);
    assert(walk_move(states[j], states[j + 1], yields[j]));
    assert(states[j].wf());
}

/// After a walk yields `y` at move `i`, the path handed out last stays `y` or
/// comes after it, and strictly after it once a path is under inspection.
proof fn lemma_after_yield(states: Seq<SortedWalk>, yields: Seq<Option<Seq<Seq<u8>>>>, i: int, k: int)
    requires
        states.len() == yields.len() + 1,
        forall|m: int| 0 <= m < states.len() ==> (#[trigger] states[m]).wf(),
        forall|m: int| 0 <= m < yields.len() ==> walk_move(states[m], states[m + 1], #[trigger] yields[m]),
        0 <= i < k < states.len(),
        yields[i] is Some,
    ensures
        ({
            let y = yields[i]->Some_0;
            let l = states[k].last_handed_out();
            &&& l is Some
            &&& l == Some(y) || path_lt(y, l->Some_0)
            &&& states[k].current() is Some ==> path_lt(y, l->Some_0)
        }),
    decreases k - i,
{
    if k == i + 1 {
        assert(walk_move(states[i], states[i + 1], yields[i]));
        assert(states[i].wf());
    } else {
        lemma_after_yield(states, yields, i, k - 1);
        lemma_path_order_all();
        assert(walk_move(states[k - 1], states[k], yields[k - 1]));
    }
}

/// The path that a walk hands out next is fixed by its pending paths.
pub proof fn lemma_next_path_determined(
    before1: SortedWalk,
    before2: SortedWalk,
    after1: SortedWalk,
    after2: SortedWalk,
    r1: Option<Seq<Seq<u8>>>,
    r2: Option<Seq<Seq<u8>>>,
)
    requires
        before1.pending() == before2.pending(),
        takes_smallest(before1, after1, r1),
        takes_smallest(before2, after2, r2),
    ensures
        r1 == r2,
        after1.pending() == after2.pending(),
        after1.current() == after2.current(),
{
    lemma_path_order_all();
    if r1 is Some && r2 is Some {
        let p1 = r1->Some_0;
        let p2 = r2->Some_0;
        if p1 != p2 {
            assert(path_lt(p1, p2));
            assert(path_lt(p2, p1));
        }
    }
}

} // verus!
