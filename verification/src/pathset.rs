//! Sets of paths, in the order in which they came.

use crate::path::{components, FilePath};
use vstd::prelude::*;

verus! {

/// The contents of a list of paths.
pub open spec fn path_texts(v: Seq<FilePath>) -> Seq<Seq<u8>> {
    v.map_values(|p: FilePath| p@)
}

/// Whether a list holds a path: one with the same components.
pub open spec fn holds(list: Seq<Seq<u8>>, p: Seq<u8>) -> bool {
    exists|i: int| 0 <= i < list.len() && components(#[trigger] list[i]) == components(p)
}

/// Whether no two paths of a list are the same.
pub open spec fn distinct(list: Seq<Seq<u8>>) -> bool {
    forall|i: int, j: int|
        0 <= i < j < list.len() ==> components(#[trigger] list[i]) != components(
            #[trigger] list[j],
        )
}

/// A list with a path behind it, unless it holds the path.
pub open spec fn with_path(list: Seq<Seq<u8>>, p: Seq<u8>) -> Seq<Seq<u8>> {
    if holds(list, p) {
        list
    } else {
        list.push(p)
    }
}

/// A copy of a list of paths.
pub fn clone_paths(v: &Vec<FilePath>) -> (r: Vec<FilePath>)
    ensures
        path_texts(r@) == path_texts(v@),
{
    let mut r: Vec<FilePath> = Vec::new();
    let mut i: usize = 0;
    let ghost all = path_texts(v@);
    while i < v.len()
        invariant
            i <= v@.len(),
            all == path_texts(v@),
            path_texts(r@) == all.take(i as int),
        decreases v@.len() - i,
    {
        let ghost before = path_texts(r@);
        r.push(v[i].clone());
        i = i + 1;
        assert(path_texts(r@) =~= before.push(all[i - 1]));
        assert(all.take(i as int) =~= all.take(i - 1).push(all[i - 1]));
    }
    assert(all.take(all.len() as int) =~= all);
    r
}

/// Whether a list holds a path.
pub fn list_holds(v: &Vec<FilePath>, p: &FilePath) -> (r: bool)
    ensures
        r == holds(path_texts(v@), p@),
{
    let mut i: usize = 0;
    let ghost all = path_texts(v@);
    while i < v.len()
        invariant
            i <= v@.len(),
            all == path_texts(v@),
            forall|j: int| 0 <= j < i ==> components(#[trigger] all[j]) != components(p@),
        decreases v@.len() - i,
    {
        if v[i].same_as(p) {
            assert(components(all[i as int]) == components(p@));
            return true;
        }
        assert(all[i as int] == v@[i as int]@);
        i = i + 1;
    }
    false
}

/// A set of paths.
pub struct PathSet {
    paths: Vec<FilePath>,
}

impl View for PathSet {
    type V = Seq<Seq<u8>>;

    closed spec fn view(&self) -> Seq<Seq<u8>> {
        path_texts(self.paths@)
    }
}

impl PathSet {
    /// Whether no path stands in the set twice.
    pub open spec fn wf(&self) -> bool {
        distinct(self@)
    }

    /// A set without paths.
    pub fn new() -> (r: PathSet)
        ensures
            r.wf(),
            r@ == Seq::<Seq<u8>>::empty(),
    {
        let r = PathSet { paths: Vec::new() };
        assert(r@ =~= Seq::<Seq<u8>>::empty());
        r
    }

    /// Whether the set holds a path.
    pub fn contains(&self, p: &FilePath) -> (r: bool)
        ensures
            r == holds(self@, p@),
    {
        list_holds(&self.paths, p)
    }

    /// How many paths the set holds.
    pub fn len(&self) -> (r: usize)
        ensures
            r == self@.len(),
    {
        assert(path_texts(self.paths@).len() == self.paths@.len());
        self.paths.len()
    }

    /// Takes all paths out.
    pub fn clear(&mut self)
        ensures
            final(self).wf(),
            final(self)@ == Seq::<Seq<u8>>::empty(),
    {
        self.paths.clear();
        assert(self@ =~= Seq::<Seq<u8>>::empty());
    }

    /// Puts a path in, and tells whether it is new.
    pub fn insert(&mut self, p: FilePath) -> (new: bool)
        requires
            old(self).wf(),
        ensures
            final(self).wf(),
            new == !holds(old(self)@, p@),
            final(self)@ == with_path(old(self)@, p@),
    {
        if self.contains(&p) {
            return false;
        }
        let ghost before = self@;
        self.paths.push(p);
        assert(self@ =~= before.push(p@));
        true
    }

    /// The paths, the first that came first.
    pub fn to_vec(&self) -> (r: Vec<FilePath>)
        ensures
            path_texts(r@) == self@,
    {
        clone_paths(&self.paths)
    }
}

/// The first of each group of equal paths, in order.
pub open spec fn firsts(list: Seq<Seq<u8>>) -> Seq<Seq<u8>>
    decreases list.len(),
{
    if list.len() == 0 {
        Seq::empty()
    } else {
        with_path(firsts(list.drop_last()), list.last())
    }
}

/// The first of each group of equal paths, in order.
pub fn distinct_paths(list: &Vec<FilePath>) -> (r: Vec<FilePath>)
    ensures
        path_texts(r@) == firsts(path_texts(list@)),
{
    let mut seen = PathSet::new();
    let mut i: usize = 0;
    let ghost all = path_texts(list@);
    while i < list.len()
        invariant
            i <= list@.len(),
            all == path_texts(list@),
            seen.wf(),
            seen@ == firsts(all.take(i as int)),
        decreases list@.len() - i,
    {
        let _ = seen.insert(list[i].clone());
        i = i + 1;
        assert(all.take(i as int).drop_last() =~= all.take(i - 1));
        assert(all.take(i as int).last() == list@[i - 1]@);
    }
    assert(all.take(all.len() as int) =~= all);
    seen.to_vec()
}

/// Every path of a list is among the first ones, once.
pub proof fn lemma_firsts(list: Seq<Seq<u8>>, p: Seq<u8>)
    ensures
        distinct(firsts(list)),
        holds(firsts(list), p) == holds(list, p),
        firsts(list).len() <= list.len(),
    decreases list.len(),
{
    if list.len() > 0 {
        let front = list.drop_last();
        lemma_firsts(front, p);
        lemma_firsts(front, list.last());
        lemma_holds_push(front, list.last(), p);
        assert(front.push(list.last()) =~= list);
        if !holds(firsts(front), list.last()) {
            lemma_holds_push(firsts(front), list.last(), p);
        } else {
            if components(list.last()) == components(p) {
                let i = choose|i: int|
                    0 <= i < firsts(front).len() && components(#[trigger] firsts(front)[i])
                        == components(list.last());
                assert(components(firsts(front)[i]) == components(p));
            }
        }
    }
}

/// What a list with one more path holds.
pub proof fn lemma_holds_push(list: Seq<Seq<u8>>, last: Seq<u8>, p: Seq<u8>)
    ensures
        holds(list.push(last), p) == (holds(list, p) || components(last) == components(p)),
{
    let longer = list.push(last);
    if holds(list, p) {
        let i = choose|i: int| 0 <= i < list.len() && components(#[trigger] list[i]) == components(p);
        assert(longer[i] == list[i]);
    }
    if components(last) == components(p) {
        assert(components(longer[list.len() as int]) == components(p));
    }
    if holds(longer, p) {
        let i = choose|i: int|
            0 <= i < longer.len() && components(#[trigger] longer[i]) == components(p);
        if i < list.len() {
            assert(components(list[i]) == components(p));
        }
    }
}

/// A path is added behind the others where none with the same components is there;
/// and then it is there, beside what was.
pub proof fn lemma_path_added_once(list: Seq<Seq<u8>>, p: Seq<u8>, q: Seq<u8>)
    ensures
        holds(with_path(list, p), p),
        holds(list, q) ==> holds(with_path(list, p), q),
        holds(with_path(list, p), q) ==> holds(list, q) || components(q) == components(p),
        list.is_prefix_of(with_path(list, p)),
        with_path(list, p).len() == list.len() + if (exists|i: int|
            0 <= i < list.len() && components(#[trigger] list[i]) == components(p)) {
            0int
        } else {
            1int
        },
        with_path(with_path(list, p), p) == with_path(list, p),
        distinct(list) ==> distinct(with_path(list, p)),
{
    lemma_holds_push(list, p, p);
    lemma_holds_push(list, p, q);
}

} // verus!
