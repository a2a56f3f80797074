//! The alphabetical order of paths, and putting things in an order.

use crate::fields::texts;
use crate::path::{
    components, current_component, is_name, root_component, same_bytes, up_component, FilePath, DOT,
    SLASH,
};
use vstd::prelude::*;

verus! {

/// Byte strings in dictionary order.
pub open spec fn bytes_le(a: Seq<u8>, b: Seq<u8>) -> bool
    decreases a.len(),
{
    a.len() == 0 || (b.len() > 0 && (a[0] < b[0] || (a[0] == b[0] && bytes_le(
        a.skip(1),
        b.skip(1),
    ))))
}

/// The kinds of component in order: the root, `.`, `..`, names.
pub open spec fn component_rank(c: Seq<u8>) -> int {
    if c == root_component() {
        0
    } else if c == current_component() {
        1
    } else if c == up_component() {
        2
    } else {
        3
    }
}

/// Components by kind, names in dictionary order.
pub open spec fn component_le(a: Seq<u8>, b: Seq<u8>) -> bool {
    component_rank(a) < component_rank(b) || (component_rank(a) == component_rank(b) && bytes_le(
        a,
        b,
    ))
}

/// Lists of components in dictionary order.
pub open spec fn components_le(a: Seq<Seq<u8>>, b: Seq<Seq<u8>>) -> bool
    decreases a.len(),
{
    a.len() == 0 || (b.len() > 0 && if a[0] == b[0] {
        components_le(a.skip(1), b.skip(1))
    } else {
        component_le(a[0], b[0])
    })
}

/// The alphabetical order of paths: component by component.
pub open spec fn path_le(a: Seq<u8>, b: Seq<u8>) -> bool {
    components_le(components(a), components(b))
}

proof fn lemma_bytes_le_total(a: Seq<u8>, b: Seq<u8>)
    ensures
        bytes_le(a, b) || bytes_le(b, a),
        bytes_le(a, b) && bytes_le(b, a) ==> a == b,
    decreases a.len(),
{
    if a.len() > 0 && b.len() > 0 && a[0] == b[0] {
        lemma_bytes_le_total(a.skip(1), b.skip(1));
        if bytes_le(a, b) && bytes_le(b, a) {
            assert(a =~= seq![a[0]] + a.skip(1));
            assert(b =~= seq![b[0]] + b.skip(1));
        }
    } else if a.len() == 0 && b.len() == 0 {
        assert(a =~= b);
    }
}

proof fn lemma_bytes_le_transitive(a: Seq<u8>, b: Seq<u8>, c: Seq<u8>)
    requires
        bytes_le(a, b),
        bytes_le(b, c),
    ensures
        bytes_le(a, c),
    decreases a.len(),
{
    if a.len() > 0 && a[0] == b[0] && b[0] == c[0] {
        lemma_bytes_le_transitive(a.skip(1), b.skip(1), c.skip(1));
    }
}

proof fn lemma_component_le_order(a: Seq<u8>, b: Seq<u8>, c: Seq<u8>)
    ensures
        component_le(a, b) || component_le(b, a),
        component_le(a, b) && component_le(b, a) ==> a == b,
        component_le(a, b) && component_le(b, c) ==> component_le(a, c),
{
    lemma_bytes_le_total(a, b);
    if bytes_le(a, b) && bytes_le(b, c) {
        lemma_bytes_le_transitive(a, b, c);
    }
}

proof fn lemma_components_le_total(a: Seq<Seq<u8>>, b: Seq<Seq<u8>>)
    ensures
        components_le(a, b) || components_le(b, a),
        components_le(a, b) && components_le(b, a) ==> a == b,
    decreases a.len(),
{
    if a.len() > 0 && b.len() > 0 {
        lemma_component_le_order(a[0], b[0], a[0]);
        if a[0] == b[0] {
            lemma_components_le_total(a.skip(1), b.skip(1));
            if components_le(a, b) && components_le(b, a) {
                assert(a =~= seq![a[0]] + a.skip(1));
                assert(b =~= seq![b[0]] + b.skip(1));
            }
        }
    } else if a.len() == 0 && b.len() == 0 {
        assert(a =~= b);
    }
}

proof fn lemma_components_le_transitive(a: Seq<Seq<u8>>, b: Seq<Seq<u8>>, c: Seq<Seq<u8>>)
    requires
        components_le(a, b),
        components_le(b, c),
    ensures
        components_le(a, c),
    decreases a.len(),
{
    if a.len() > 0 {
        lemma_component_le_order(a[0], b[0], c[0]);
        lemma_component_le_order(b[0], c[0], a[0]);
        if a[0] == b[0] && b[0] == c[0] {
            lemma_components_le_transitive(a.skip(1), b.skip(1), c.skip(1));
        } else if a[0] == c[0] {
            assert(component_le(a[0], b[0]) && component_le(b[0], a[0]));
        }
    }
}

/// Paths are totally ordered: any two compare, and two that stand both ways
/// round are the same path.
pub proof fn lemma_path_le_total(a: Seq<u8>, b: Seq<u8>)
    ensures
        path_le(a, b) || path_le(b, a),
        path_le(a, b) && path_le(b, a) <==> components(a) == components(b),
{
    lemma_components_le_total(components(a), components(b));
}

/// The order of paths is transitive.
pub proof fn lemma_path_le_transitive(a: Seq<u8>, b: Seq<u8>, c: Seq<u8>)
    requires
        path_le(a, b),
        path_le(b, c),
    ensures
        path_le(a, c),
{
    lemma_components_le_transitive(components(a), components(b), components(c));
}

fn rank_of(c: &Vec<u8>) -> (r: u8)
    ensures
        r == component_rank(c@),
{
    if c.len() == 1 && c[0] == SLASH {
        assert(c@ =~= root_component());
        0
    } else if c.len() == 1 && c[0] == DOT {
        assert(c@ =~= current_component());
        assert(root_component()[0] == SLASH);
        1
    } else if c.len() == 2 && c[0] == DOT && c[1] == DOT {
        assert(c@ =~= up_component());
        2
    } else {
        assert(root_component()[0] == SLASH);
        assert(current_component()[0] == DOT);
        assert(up_component()[0] == DOT && up_component()[1] == DOT);
        3
    }
}

fn bytes_in_order(a: &Vec<u8>, b: &Vec<u8>) -> (r: bool)
    ensures
        r == bytes_le(a@, b@),
{
    let mut i: usize = 0;
    assert(a@.skip(0) =~= a@);
    assert(b@.skip(0) =~= b@);
    while i < a.len()
        invariant
            i <= a@.len(),
            i <= b@.len(),
            bytes_le(a@, b@) == bytes_le(a@.skip(i as int), b@.skip(i as int)),
        decreases a@.len() - i,
    {
        if i >= b.len() {
            return false;
        }
        if a[i] != b[i] {
            return a[i] < b[i];
        }
        assert(a@.skip(i as int).skip(1) =~= a@.skip(i + 1));
        assert(b@.skip(i as int).skip(1) =~= b@.skip(i + 1));
        i = i + 1;
    }
    true
}

/// Whether `a` comes no later than `b`.
pub fn paths_in_order(a: &FilePath, b: &FilePath) -> (r: bool)
    ensures
        r == path_le(a@, b@),
{
    let x = a.components();
    let y = b.components();
    let ghost s = texts(x@);
    let ghost t = texts(y@);
    let mut i: usize = 0;
    assert(s.skip(0) =~= s);
    assert(t.skip(0) =~= t);
    while i < x.len()
        invariant
            s == texts(x@),
            s == components(a@),
            t == texts(y@),
            t == components(b@),
            i <= x@.len(),
            i <= y@.len(),
            components_le(s, t) == components_le(s.skip(i as int), t.skip(i as int)),
        decreases x@.len() - i,
    {
        if i >= y.len() {
            return false;
        }
        assert(s.skip(i as int)[0] == x@[i as int]@);
        assert(t.skip(i as int)[0] == y@[i as int]@);
        if !same_bytes(&x[i], &y[i]) {
            let rx = rank_of(&x[i]);
            let ry = rank_of(&y[i]);
            return rx < ry || (rx == ry && bytes_in_order(&x[i], &y[i]));
        }
        assert(s.skip(i as int).skip(1) =~= s.skip(i + 1));
        assert(t.skip(i as int).skip(1) =~= t.skip(i + 1));
        i = i + 1;
    }
    true
}

/// A way to order the positions of a list.
pub trait Ranking {
    /// Whether position `i` may stand before position `j`.
    spec fn may_precede(&self, i: int, j: int) -> bool;

    /// How many positions there are.
    spec fn positions(&self) -> nat;

    /// Any two positions compare, and the comparison is transitive.
    proof fn lemma_ordered(&self, i: int, j: int, k: int)
        ensures
            self.may_precede(i, j) || self.may_precede(j, i),
            self.may_precede(i, j) && self.may_precede(j, k) ==> self.may_precede(i, k),
    ;

    /// Whether position `i` may stand before position `j`.
    fn precedes(&self, i: usize, j: usize) -> (r: bool)
        requires
            i < self.positions(),
            j < self.positions(),
        ensures
            r == self.may_precede(i as int, j as int),
    ;
}

/// Whether the positions in `order` stand in order.
pub open spec fn ranked<R: Ranking>(ranking: &R, order: Seq<usize>) -> bool {
    forall|a: int, b: int|
        0 <= a <= b < order.len() ==> ranking.may_precede(
            #[trigger] order[a] as int,
            #[trigger] order[b] as int,
        )
}

/// Whether `order` holds each position below `n` once.
pub open spec fn rearranges(order: Seq<usize>, n: nat) -> bool {
    &&& order.len() == n
    &&& order.no_duplicates()
    &&& forall|k: int| 0 <= k < order.len() ==> 0 <= #[trigger] order[k] < n
}

fn merge<R: Ranking>(ranking: &R, a: &Vec<usize>, b: &Vec<usize>) -> (r: Vec<usize>)
    requires
        ranked(ranking, a@),
        ranked(ranking, b@),
        forall|k: int| 0 <= k < a@.len() ==> #[trigger] a@[k] < ranking.positions(),
        forall|k: int| 0 <= k < b@.len() ==> #[trigger] b@[k] < ranking.positions(),
        a@.len() + b@.len() <= usize::MAX,
    ensures
        ranked(ranking, r@),
        r@.to_multiset() == a@.to_multiset().add(b@.to_multiset()),
        r@.len() == a@.len() + b@.len(),
{
    broadcast use {vstd::seq_lib::group_to_multiset_ensures, vstd::multiset::group_multiset_axioms};

    let mut r: Vec<usize> = Vec::new();
    let mut i: usize = 0;
    let mut j: usize = 0;
    assert(a@.take(0).to_multiset() =~= vstd::multiset::Multiset::<usize>::empty());
    assert(b@.take(0).to_multiset() =~= vstd::multiset::Multiset::<usize>::empty());
    while i < a.len() || j < b.len()
        invariant
            i <= a@.len(),
            j <= b@.len(),
            ranked(ranking, a@),
            ranked(ranking, b@),
            forall|k: int| 0 <= k < a@.len() ==> #[trigger] a@[k] < ranking.positions(),
            forall|k: int| 0 <= k < b@.len() ==> #[trigger] b@[k] < ranking.positions(),
            ranked(ranking, r@),
            r@.len() == i + j,
            a@.len() + b@.len() <= usize::MAX,
            r@.to_multiset() == a@.take(i as int).to_multiset().add(b@.take(j as int).to_multiset()),
            forall|k: int, m: int|
                0 <= k < r@.len() && i <= m < a@.len() ==> ranking.may_precede(
                    #[trigger] r@[k] as int,
                    #[trigger] a@[m] as int,
                ),
            forall|k: int, m: int|
                0 <= k < r@.len() && j <= m < b@.len() ==> ranking.may_precede(
                    #[trigger] r@[k] as int,
                    #[trigger] b@[m] as int,
                ),
        decreases a@.len() + b@.len() - i - j,
    {
        let from_a = if i >= a.len() {
            false
        } else if j >= b.len() {
            true
        } else {
            ranking.precedes(a[i], b[j])
        };
        let ghost before = r@;
        if from_a {
            let x = a[i];
            r.push(x);
            proof {
                assert(a@.take(i + 1) =~= a@.take(i as int).push(x));
                vstd::seq_lib::to_multiset_build(a@.take(i as int), x);
                vstd::seq_lib::to_multiset_build(before, x);
                assert(before.push(x).to_multiset() =~= a@.take(i + 1).to_multiset().add(
                    b@.take(j as int).to_multiset(),
                ));
                assert forall|m: int| j <= m < b@.len() implies ranking.may_precede(
                    x as int,
                    #[trigger] b@[m] as int,
                ) by {
                    ranking.lemma_ordered(x as int, b@[j as int] as int, b@[m] as int);
                }
            }
            i = i + 1;
        } else {
            let x = b[j];
            r.push(x);
            proof {
                assert(b@.take(j + 1) =~= b@.take(j as int).push(x));
                vstd::seq_lib::to_multiset_build(b@.take(j as int), x);
                vstd::seq_lib::to_multiset_build(before, x);
                assert(before.push(x).to_multiset() =~= a@.take(i as int).to_multiset().add(
                    b@.take(j + 1).to_multiset(),
                ));
                if i < a@.len() {
                    ranking.lemma_ordered(a@[i as int] as int, x as int, x as int);
                }
                assert forall|m: int| i <= m < a@.len() implies ranking.may_precede(
                    x as int,
                    #[trigger] a@[m] as int,
                ) by {
                    ranking.lemma_ordered(x as int, a@[i as int] as int, a@[m] as int);
                }
            }
            j = j + 1;
        }
        proof {
            let x = r@.last();
            assert(r@ =~= before.push(x));
            ranking.lemma_ordered(x as int, x as int, x as int);
        }
    }
    assert(a@.take(a@.len() as int) =~= a@);
    assert(b@.take(b@.len() as int) =~= b@);
    r
}

fn merge_sort<R: Ranking>(ranking: &R, v: &Vec<usize>) -> (r: Vec<usize>)
    requires
        forall|k: int| 0 <= k < v@.len() ==> #[trigger] v@[k] < ranking.positions(),
    ensures
        ranked(ranking, r@),
        r@.to_multiset() == v@.to_multiset(),
        r@.len() == v@.len(),
    decreases v@.len(),
{
    broadcast use vstd::seq_lib::group_to_multiset_ensures;

    let n = v.len();
    if n <= 1 {
        proof {
            if n == 1 {
                ranking.lemma_ordered(v@[0] as int, v@[0] as int, v@[0] as int);
            }
        }
        return v.clone();
    }
    let half = n / 2;
    let mut left: Vec<usize> = Vec::new();
    let mut right: Vec<usize> = Vec::new();
    let mut i: usize = 0;
    while i < n
        invariant
            n == v@.len(),
            0 < half < n,
            i <= n,
            left@ =~= v@.take(if i < half { i as int } else { half as int }),
            right@ =~= v@.subrange(half as int, if i < half { half as int } else { i as int }),
        decreases n - i,
    {
        if i < half {
            left.push(v[i]);
        } else {
            right.push(v[i]);
        }
        i = i + 1;
    }
    proof {
        assert(v@ =~= left@ + right@);
        vstd::seq_lib::lemma_multiset_commutative(left@, right@);
        assert forall|k: int| 0 <= k < left@.len() implies #[trigger] left@[k]
            < ranking.positions() by {
            assert(left@[k] == v@[k]);
        }
        assert forall|k: int| 0 <= k < right@.len() implies #[trigger] right@[k]
            < ranking.positions() by {
            assert(right@[k] == v@[half + k]);
        }
    }
    let sorted_left = merge_sort(ranking, &left);
    let sorted_right = merge_sort(ranking, &right);
    proof {
        lemma_same_contents(sorted_left@, left@, ranking.positions());
        lemma_same_contents(sorted_right@, right@, ranking.positions());
    }
    merge(ranking, &sorted_left, &sorted_right)
}

proof fn lemma_same_contents(a: Seq<usize>, b: Seq<usize>, bound: nat)
    requires
        a.to_multiset() == b.to_multiset(),
        forall|k: int| 0 <= k < b.len() ==> #[trigger] b[k] < bound,
    ensures
        forall|k: int| 0 <= k < a.len() ==> #[trigger] a[k] < bound,
{
    broadcast use vstd::seq_lib::group_to_multiset_ensures;

    assert forall|k: int| 0 <= k < a.len() implies #[trigger] a[k] < bound by {
        assert(a.contains(a[k]));
        assert(a.to_multiset().count(a[k]) > 0);
        assert(b.contains(a[k]));
    }
}

/// The positions below `n` in the order of `ranking`.
pub fn sort_positions<R: Ranking>(n: usize, ranking: &R) -> (order: Vec<usize>)
    requires
        n == ranking.positions(),
    ensures
        ranked(ranking, order@),
        rearranges(order@, n as nat),
{
    broadcast use vstd::seq_lib::group_to_multiset_ensures;

    let mut all: Vec<usize> = Vec::new();
    let mut i: usize = 0;
    while i < n
        invariant
            i <= n,
            all@.len() == i,
            forall|k: int| 0 <= k < i ==> all@[k] == k,
        decreases n - i,
    {
        all.push(i);
        i = i + 1;
    }
    let order = merge_sort(ranking, &all);
    proof {
        all@.lemma_multiset_has_no_duplicates();
        order@.lemma_multiset_has_no_duplicates_conv();
        lemma_same_contents(order@, all@, n as nat);
    }
    order
}

/// Names stand in the order of a dictionary: the first byte in which they differ
/// decides, and a name stands before those that it begins.
pub proof fn lemma_first_byte_decides(a: Seq<u8>, b: Seq<u8>, k: int)
    requires
        0 <= k <= a.len(),
        k <= b.len(),
        forall|i: int| 0 <= i < k ==> a[i] == b[i],
    ensures
        k == a.len() ==> bytes_le(a, b),
        k == a.len() && k < b.len() ==> !bytes_le(b, a),
        k < a.len() && k < b.len() && a[k] < b[k] ==> bytes_le(a, b) && !bytes_le(b, a),
    decreases k,
{
    if k > 0 {
        let (x, y) = (a.skip(1), b.skip(1));
        assert forall|i: int| 0 <= i < k - 1 implies x[i] == y[i] by {
            assert(a[i + 1] == b[i + 1]);
        }
        lemma_first_byte_decides(x, y, k - 1);
    }
}

proof fn lemma_first_component_decides(a: Seq<Seq<u8>>, b: Seq<Seq<u8>>, k: int)
    requires
        0 <= k <= a.len(),
        k <= b.len(),
        forall|i: int| 0 <= i < k ==> a[i] == b[i],
    ensures
        k == a.len() ==> components_le(a, b),
        k == a.len() && k < b.len() ==> !components_le(b, a),
        k < a.len() && k < b.len() && a[k] != b[k] ==> components_le(a, b) == component_le(
            a[k],
            b[k],
        ),
    decreases k,
{
    if k > 0 {
        let (x, y) = (a.skip(1), b.skip(1));
        assert forall|i: int| 0 <= i < k - 1 implies x[i] == y[i] by {
            assert(a[i + 1] == b[i + 1]);
        }
        lemma_first_component_decides(x, y, k - 1);
    }
}

/// The alphabetical order goes by components: of two paths that are the same up to
/// some component and have different names there, the names decide; and a directory
/// stands before all that is in it.
pub proof fn lemma_alphabetical(a: Seq<u8>, b: Seq<u8>, k: int)
    requires
        0 <= k <= components(a).len(),
        k <= components(b).len(),
        forall|i: int| 0 <= i < k ==> components(a)[i] == components(b)[i],
    ensures
        k == components(a).len() ==> path_le(a, b),
        k == components(a).len() && k < components(b).len() ==> !path_le(b, a),
        k < components(a).len() && k < components(b).len() && components(a)[k] != components(b)[k]
            && is_name(components(a)[k]) && is_name(components(b)[k]) ==> path_le(a, b)
            == bytes_le(components(a)[k], components(b)[k]),
{
    lemma_first_component_decides(components(a), components(b), k);
}

/// Two names that differ first in some byte put whole paths in that order.
pub proof fn lemma_alphabetical_by_bytes(a: Seq<u8>, b: Seq<u8>, k: int, j: int)
    requires
        0 <= k < components(a).len(),
        k < components(b).len(),
        forall|i: int| 0 <= i < k ==> components(a)[i] == components(b)[i],
        is_name(components(a)[k]),
        is_name(components(b)[k]),
        0 <= j <= components(a)[k].len(),
        j < components(b)[k].len(),
        forall|i: int| 0 <= i < j ==> components(a)[k][i] == components(b)[k][i],
        j < components(a)[k].len() ==> components(a)[k][j] < components(b)[k][j],
    ensures
        path_le(a, b),
        !path_le(b, a),
{
    let (x, y) = (components(a)[k], components(b)[k]);
    lemma_first_byte_decides(x, y, j);
    assert(x != y);
    lemma_alphabetical(a, b, k);
    lemma_alphabetical(b, a, k);
}

} // verus!
