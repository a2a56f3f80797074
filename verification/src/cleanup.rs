//! Removing source directories that a transfer has emptied.

use crate::order::{rearranges, sort_positions, Ranking};
use crate::path::{below, components, lemma_parent_components, parent_of, FilePath};
use crate::pathset::path_texts;
use crate::queue::path_view;
use vstd::prelude::*;

verus! {

/// Whether directories stand deepest first.
pub open spec fn deepest_first(dirs: Seq<Seq<u8>>) -> bool {
    forall|i: int, j: int|
        0 <= i <= j < dirs.len() ==> components(#[trigger] dirs[i]).len() >= components(
            #[trigger] dirs[j],
        ).len()
}

/// The paths at the positions of `order`.
pub open spec fn picked_paths(dirs: Seq<Seq<u8>>, order: Seq<usize>) -> Seq<Seq<u8>> {
    Seq::new(order.len(), |k: int| dirs[order[k] as int])
}

/// Whether `sorted` holds the directories of `dirs`, deepest first.
pub open spec fn sorted_by_depth(sorted: Seq<Seq<u8>>, dirs: Seq<Seq<u8>>) -> bool {
    &&& deepest_first(sorted)
    &&& exists|order: Seq<usize>|
        #[trigger] rearranges(order, dirs.len()) && sorted == picked_paths(dirs, order)
}

struct ByDepth<'a> {
    depths: &'a Vec<usize>,
}

impl<'a> Ranking for ByDepth<'a> {
    closed spec fn may_precede(&self, i: int, j: int) -> bool {
        self.depths@[i] >= self.depths@[j]
    }

    closed spec fn positions(&self) -> nat {
        self.depths@.len()
    }

    proof fn lemma_ordered(&self, i: int, j: int, k: int) {
    }

    fn precedes(&self, i: usize, j: usize) -> (r: bool) {
        self.depths[i] >= self.depths[j]
    }
}

/// The order in which directories are removed where they are empty: deepest
/// first.
pub fn removal_order(dirs: &Vec<FilePath>) -> (r: Vec<FilePath>)
    ensures
        sorted_by_depth(path_texts(r@), path_texts(dirs@)),
{
    let ghost all = path_texts(dirs@);
    let mut depths: Vec<usize> = Vec::new();
    let mut i: usize = 0;
    while i < dirs.len()
        invariant
            i <= dirs@.len(),
            all == path_texts(dirs@),
            depths@.len() == i,
            forall|k: int| 0 <= k < i ==> depths@[k] == components(all[k]).len(),
        decreases dirs@.len() - i,
    {
        depths.push(dirs[i].component_count());
        i = i + 1;
    }
    let ranking = ByDepth { depths: &depths };
    let order = sort_positions(dirs.len(), &ranking);
    let mut r: Vec<FilePath> = Vec::new();
    let mut k: usize = 0;
    while k < order.len()
        invariant
            k <= order@.len(),
            rearranges(order@, dirs@.len()),
            all == path_texts(dirs@),
            path_texts(r@) == picked_paths(all, order@).take(k as int),
        decreases order@.len() - k,
    {
        let ghost before = path_texts(r@);
        r.push(dirs[order[k]].clone());
        k = k + 1;
        assert(path_texts(r@) =~= before.push(all[order@[k - 1] as int]));
        assert(picked_paths(all, order@).take(k as int) =~= picked_paths(all, order@).take(
            k - 1,
        ).push(all[order@[k - 1] as int]));
    }
    proof {
        let sorted = path_texts(r@);
        assert(picked_paths(all, order@).take(order@.len() as int) =~= picked_paths(all, order@));
        assert(sorted == picked_paths(all, order@));
        assert(all.len() == dirs@.len());
        assert(rearranges(order@, all.len()));
        assert forall|a: int, b: int| 0 <= a <= b < sorted.len() implies components(
            #[trigger] sorted[a],
        ).len() >= components(#[trigger] sorted[b]).len() by {
            assert(ranking.may_precede(order@[a] as int, order@[b] as int));
        }
    }
    r
}

/// A directory comes before every directory that it stands in, so that it is
/// gone when those are looked at.
pub proof fn lemma_children_first(dirs: Seq<Seq<u8>>, child: int, parent: int)
    requires
        deepest_first(dirs),
        0 <= child < dirs.len(),
        0 <= parent < dirs.len(),
        below(dirs[child], dirs[parent]),
        components(dirs[child]) != components(dirs[parent]),
    ensures
        child < parent,
{
    let inner = components(dirs[child]);
    let outer = components(dirs[parent]);
    assert(outer.len() <= inner.len());
    if outer.len() == inner.len() {
        assert(inner =~= outer);
    }
    if parent <= child {
        assert(components(dirs[parent]).len() >= components(dirs[child]).len());
    }
}

/// A directory and those above it, up to `root`, the nearest first.
pub open spec fn upward(dir: Seq<u8>, root: Seq<u8>) -> Seq<Seq<u8>>
    decreases dir.len(),
{
    if !below(dir, root) {
        Seq::empty()
    } else if components(dir) == components(root) {
        seq![dir]
    } else {
        match parent_of(dir) {
            None => seq![dir],
            Some(parent) => {
                proof {
                    lemma_parent_components(dir);
                }
                seq![dir] + upward(parent, root)
            },
        }
    }
}

/// The directories that the removal of a file may leave empty: those it stands
/// in, within the directory that it was queued with.
pub open spec fn perhaps_emptied(file: Seq<u8>, root: Option<Seq<u8>>) -> Seq<Seq<u8>> {
    match (root, parent_of(file)) {
        (Some(dir), Some(parent)) => if below(file, dir) {
            upward(parent, dir)
        } else {
            Seq::empty()
        },
        _ => Seq::empty(),
    }
}

/// The directories that the removal of a file may leave empty, in the order in
/// which they are removed while they are.
pub fn remove_empty_source_directories(
    source_file: &FilePath,
    cleanup_root: &Option<FilePath>,
) -> (r: Vec<FilePath>)
    ensures
        path_texts(r@) == perhaps_emptied(source_file@, path_view(*cleanup_root)),
{
    let mut r: Vec<FilePath> = Vec::new();
    assert(path_texts(r@) =~= Seq::<Seq<u8>>::empty());
    let root = match cleanup_root {
        Some(root) => root,
        None => {
            return r;
        },
    };
    if !source_file.starts_with(root) {
        return r;
    }
    let mut current = match source_file.parent() {
        Some(parent) => parent,
        None => {
            return r;
        },
    };
    let ghost all = upward(current@, root@);
    assert(path_texts(r@) + all =~= all);
    loop
        invariant
            path_texts(r@) + upward(current@, root@) == all,
            all == perhaps_emptied(source_file@, path_view(*cleanup_root)),
        decreases current@.len(),
    {
        let ghost before = path_texts(r@);
        let ghost here = current@;
        if !current.starts_with(root) {
            assert(before + upward(here, root@) =~= before);
            return r;
        }
        let last = current.same_as(root);
        let parent = current.parent();
        r.push(current);
        assert(path_texts(r@) =~= before.push(here));
        match (last, parent) {
            (false, Some(parent)) => {
                proof {
                    lemma_parent_components(here);
                    assert(before + upward(here, root@) =~= before.push(here) + upward(
                        parent@,
                        root@,
                    ));
                }
                current = parent;
            },
            _ => {
                assert(before + upward(here, root@) =~= before.push(here));
                return r;
            },
        }
    }
}

/// Only directories within the one that a file was queued with are removed
/// after it.
pub proof fn lemma_stays_within_root(file: Seq<u8>, root: Seq<u8>, k: int)
    requires
        0 <= k < perhaps_emptied(file, Some(root)).len(),
    ensures
        below(perhaps_emptied(file, Some(root))[k], root),
{
    lemma_upward_below(parent_of(file)->0, root, k);
}

proof fn lemma_upward_below(dir: Seq<u8>, root: Seq<u8>, k: int)
    requires
        0 <= k < upward(dir, root).len(),
    ensures
        below(upward(dir, root)[k], root),
    decreases dir.len(),
{
    if k > 0 {
        let parent = parent_of(dir)->0;
        lemma_parent_components(dir);
        lemma_upward_below(parent, root, k - 1);
        assert(upward(dir, root)[k] == upward(parent, root)[k - 1]);
    }
}

/// The order of removal has every directory that was given, and no other.
pub proof fn lemma_removal_order_keeps_all(sorted: Seq<Seq<u8>>, dirs: Seq<Seq<u8>>, i: int)
    requires
        sorted_by_depth(sorted, dirs),
        0 <= i < dirs.len(),
    ensures
        sorted.len() == dirs.len(),
        sorted.contains(dirs[i]),
        dirs.contains(sorted[i]),
{
    let order = choose|order: Seq<usize>| #[trigger]
        rearranges(order, dirs.len()) && sorted == picked_paths(dirs, order);
    crate::queue::lemma_rearranges_covers(order, dirs.len(), i);
    let k = choose|k: int| 0 <= k < order.len() && order[k] == i;
    assert(sorted[k] == dirs[i]);
    assert(sorted[i] == dirs[order[i] as int]);
}

proof fn lemma_upward_each(dir: Seq<u8>, root: Seq<u8>)
    requires
        below(dir, root),
        components(root).len() > 0,
    ensures
        ({
            let list = upward(dir, root);
            &&& list.len() == components(dir).len() - components(root).len() + 1
            &&& forall|k: int|
                0 <= k < list.len() ==> components(#[trigger] list[k]) == components(dir).take(
                    components(dir).len() - k,
                )
        }),
    decreases dir.len(),
{
    let all = components(dir);
    assert(all.take(all.len() as int) =~= all);
    if components(root) != all {
        let n = components(root).len() as int;
        if n == all.len() {
            assert(components(root) =~= all);
        }
        if all.last() == crate::path::root_component() {
            if all.len() > 1 {
                crate::path::lemma_root_only_first(dir, all.len() - 1);
            }
        }
        crate::path::lemma_who_has_a_parent(dir);
        let parent = parent_of(dir)->0;
        lemma_parent_components(dir);
        assert(components(root).is_prefix_of(components(parent))) by {
            assert(all.drop_last().take(n) =~= all.take(n));
        }
        lemma_upward_each(parent, root);
        let list = upward(dir, root);
        let rest = upward(parent, root);
        assert forall|k: int| 0 <= k < list.len() implies components(#[trigger] list[k])
            == all.take(all.len() - k) by {
            if k > 0 {
                assert(list[k] == rest[k - 1]);
                assert(all.drop_last().take(all.len() - 1 - (k - 1)) =~= all.take(all.len() - k));
            }
        }
    }
}

/// After a file is removed every directory between it and the one that it was
/// queued with is looked at, that one too, the nearest first; and none where the
/// file was queued alone or does not stand there.
pub proof fn lemma_each_directory_above(file: Seq<u8>, root: Seq<u8>)
    requires
        components(root).len() > 0,
        below(file, root),
        components(root).len() < components(file).len(),
    ensures
        ({
            let list = perhaps_emptied(file, Some(root));
            let depth = components(file).len() as int;
            &&& list.len() == depth - components(root).len()
            &&& forall|k: int|
                0 <= k < list.len() ==> components(#[trigger] list[k]) == components(file).take(
                    depth - 1 - k,
                )
        }),
        perhaps_emptied(file, None).len() == 0,
        forall|other: Seq<u8>| !below(file, other) ==> #[trigger] perhaps_emptied(
            file,
            Some(other),
        ).len() == 0,
{
    let all = components(file);
    let n = components(root).len() as int;
    if all.last() == crate::path::root_component() {
        crate::path::lemma_root_only_first(file, all.len() - 1);
    }
    crate::path::lemma_who_has_a_parent(file);
    lemma_parent_components(file);
    let parent = parent_of(file)->0;
    assert(all.drop_last().take(n) =~= all.take(n));
    lemma_upward_each(parent, root);
    let list = perhaps_emptied(file, Some(root));
    assert forall|k: int| 0 <= k < list.len() implies components(#[trigger] list[k]) == all.take(
        all.len() - 1 - k,
    ) by {
        assert(all.drop_last().take(all.len() - 1 - k) =~= all.take(all.len() - 1 - k));
    }
}

} // verus!
