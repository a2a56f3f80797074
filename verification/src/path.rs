//! Unix paths as the operating system stores them: bytes, cut at slashes.

use crate::fields::{
    find_last_field, last_field, lemma_last_field, lemma_last_field_unique, texts,
};
use vstd::prelude::*;
use vstd::utf8::encode_utf8;

verus! {

/// The separator.
pub const SLASH: u8 = 47;

/// The byte of `.`.
pub const DOT: u8 = 46;

/// A path. Its text is kept as given; two paths are the same when their
/// components are.
#[derive(Debug)]
pub struct FilePath {
    bytes: Vec<u8>,
}

impl View for FilePath {
    type V = Seq<u8>;

    closed spec fn view(&self) -> Seq<u8> {
        self.bytes@
    }
}

/// The component that an absolute path begins with.
pub open spec fn root_component() -> Seq<u8> {
    seq![SLASH]
}

/// The component `.`.
pub open spec fn current_component() -> Seq<u8> {
    seq![DOT]
}

/// The component `..`.
pub open spec fn up_component() -> Seq<u8> {
    seq![DOT, DOT]
}

/// Whether a field between slashes names something. Empty fields and `.` do not.
pub open spec fn names_something(field: Seq<u8>) -> bool {
    field.len() > 0 && field != current_component()
}

/// The components of a path: the root if it begins with a slash, then its
/// fields. An empty field is none, and neither is `.` behind a slash.
pub open spec fn components(p: Seq<u8>) -> Seq<Seq<u8>>
    decreases p.len(),
{
    let start = last_field(p, SLASH);
    if start == 0 {
        if p.len() == 0 {
            Seq::empty()
        } else {
            seq![p]
        }
    } else {
        proof {
            lemma_last_field(p, SLASH);
        }
        let before = if start == 1 {
            seq![root_component()]
        } else {
            components(p.take(start - 1))
        };
        if names_something(p.skip(start)) {
            before.push(p.skip(start))
        } else {
            before
        }
    }
}

/// Whether a path is absolute.
pub open spec fn absolute(p: Seq<u8>) -> bool {
    p.len() > 0 && p[0] == SLASH
}

/// `base` with `p` behind it: an absolute `p` stands alone, and a slash goes
/// between unless `base` is empty or ends in one.
pub open spec fn joined(base: Seq<u8>, p: Seq<u8>) -> Seq<u8> {
    if absolute(p) {
        p
    } else if base.len() == 0 || base.last() == SLASH {
        base + p
    } else {
        base.push(SLASH) + p
    }
}

/// Whether the components of `base` begin those of `p`.
pub open spec fn below(p: Seq<u8>, base: Seq<u8>) -> bool {
    components(base).is_prefix_of(components(p))
}

/// Where the last component of `p` ends: its length without what follows.
pub open spec fn trimmed(p: Seq<u8>) -> int
    decreases p.len(),
{
    let start = last_field(p, SLASH);
    if start == 0 || names_something(p.skip(start)) {
        p.len() as int
    } else if start == 1 {
        1
    } else {
        proof {
            lemma_last_field(p, SLASH);
        }
        trimmed(p.take(start - 1))
    }
}

/// Where component number `n` of `p` begins.
pub open spec fn component_start(p: Seq<u8>, n: int) -> int
    decreases p.len(),
{
    let start = last_field(p, SLASH);
    if start == 0 {
        0
    } else {
        proof {
            lemma_last_field(p, SLASH);
        }
        let before = if start == 1 {
            1
        } else {
            components(p.take(start - 1)).len() as int
        };
        if n >= before {
            start
        } else if start == 1 {
            0
        } else {
            component_start(p.take(start - 1), n)
        }
    }
}

/// The path that holds `p`: its text up to the end of the component before
/// the last. The root and the empty path have none.
pub open spec fn parent_of(p: Seq<u8>) -> Option<Seq<u8>> {
    let all = components(p);
    if all.len() == 0 || all.last() == root_component() {
        None
    } else {
        let name_start = last_field(p.take(trimmed(p)), SLASH);
        if name_start <= 1 {
            Some(p.take(name_start))
        } else {
            Some(p.take(trimmed(p.take(name_start - 1))))
        }
    }
}

/// The last component where it is a name: not the root, `.` or `..`.
pub open spec fn file_name_of(p: Seq<u8>) -> Option<Seq<u8>> {
    let all = components(p);
    if all.len() == 0 || !is_name(all.last()) {
        None
    } else {
        Some(all.last())
    }
}

/// Whether a component is a plain name.
pub open spec fn is_name(component: Seq<u8>) -> bool {
    component != root_component() && component != current_component() && component
        != up_component()
}

/// What is left of `p` behind the components of `base`.
pub open spec fn stripped(p: Seq<u8>, base: Seq<u8>) -> Option<Seq<u8>> {
    if !below(p, base) {
        None
    } else {
        let n = components(base).len();
        if n == components(p).len() {
            Some(Seq::empty())
        } else {
            Some(p.subrange(component_start(p, n as int), trimmed(p)))
        }
    }
}

/// The bytes `from..to` of `v`.
fn copy_range(v: &Vec<u8>, from: usize, to: usize) -> (r: Vec<u8>)
    requires
        from <= to <= v@.len(),
    ensures
        r@ == v@.subrange(from as int, to as int),
{
    let mut r: Vec<u8> = Vec::new();
    let mut i: usize = from;
    while i < to
        invariant
            from <= i <= to <= v@.len(),
            r@ == v@.subrange(from as int, i as int),
        decreases to - i,
    {
        r.push(v[i]);
        i = i + 1;
        assert(v@.subrange(from as int, i as int) =~= v@.subrange(from as int, i - 1).push(
            v@[i - 1],
        ));
    }
    r
}

/// Whether two byte strings are equal.
pub fn same_bytes(a: &Vec<u8>, b: &Vec<u8>) -> (r: bool)
    ensures
        r == (a@ == b@),
{
    if a.len() != b.len() {
        return false;
    }
    let mut i: usize = 0;
    while i < a.len()
        invariant
            i <= a@.len() == b@.len(),
            forall|j: int| 0 <= j < i ==> a@[j] == b@[j],
        decreases a@.len() - i,
    {
        if a[i] != b[i] {
            return false;
        }
        i = i + 1;
    }
    assert(a@ =~= b@);
    true
}

/// Whether the field `bytes[from..to]` names something.
fn field_names(bytes: &Vec<u8>, from: usize, to: usize) -> (r: bool)
    requires
        from <= to <= bytes@.len(),
    ensures
        r == names_something(bytes@.subrange(from as int, to as int)),
{
    let ghost field = bytes@.subrange(from as int, to as int);
    let r = to > from && !(to - from == 1 && bytes[from] == DOT);
    proof {
        if to - from == 1 && bytes@[from as int] == DOT {
            assert(field =~= current_component());
        } else if to > from {
            assert(field[0] == bytes@[from as int]);
            assert(field.len() != 1 || field[0] != DOT);
        }
    }
    r
}

/// The components of a path extended by one more field: `p` holds no slash at
/// or behind `start`, and one right before it.
proof fn lemma_components_step(p: Seq<u8>, start: int)
    requires
        0 <= start <= p.len(),
        start > 0 ==> p[start - 1] == SLASH,
        forall|i: int| start <= i < p.len() ==> p[i] != SLASH,
    ensures
        start == 0 && p.len() == 0 ==> components(p) == Seq::<Seq<u8>>::empty(),
        start == 0 && p.len() > 0 ==> components(p) == seq![p],
        start > 0 ==> components(p) == ({
            let before = if start == 1 {
                seq![root_component()]
            } else {
                components(p.take(start - 1))
            };
            if names_something(p.skip(start)) {
                before.push(p.skip(start))
            } else {
                before
            }
        }),
{
    lemma_last_field_unique(p, SLASH, start);
}

/// The last component of `p` ends at `trimmed(p)`, and what stands before it
/// are the components before it.
pub proof fn lemma_trimmed(p: Seq<u8>)
    ensures
        0 <= trimmed(p) <= p.len(),
        p.len() > 0 ==> trimmed(p) > 0,
        components(p.take(trimmed(p))) == components(p),
        ({
            let q = p.take(trimmed(p));
            let start = last_field(q, SLASH);
            &&& 0 <= start <= q.len()
            &&& p.len() == 0 ==> components(p) == Seq::<Seq<u8>>::empty()
            &&& p.len() > 0 && start == 0 ==> components(p) == seq![q]
            &&& p.len() > 0 && start == q.len() ==> {
                &&& start == 1
                &&& q[0] == SLASH
                &&& components(p) == seq![root_component()]
            }
            &&& p.len() > 0 && 0 < start < q.len() ==> {
                &&& names_something(q.skip(start))
                &&& components(p) == (if start == 1 {
                    seq![root_component()]
                } else {
                    components(p.take(start - 1))
                }).push(q.skip(start))
            }
        }),
    decreases p.len(),
{
    lemma_last_field(p, SLASH);
    let start = last_field(p, SLASH);
    if start == 0 || names_something(p.skip(start)) {
        assert(p.take(trimmed(p)) =~= p);
    } else if start == 1 {
        let q = p.take(1);
        assert(q.last() == SLASH);
        lemma_last_field_unique(q, SLASH, 1);
        assert(q.skip(1) =~= Seq::<u8>::empty());
    } else {
        let r = p.take(start - 1);
        lemma_trimmed(r);
        assert(p.take(trimmed(p)) =~= r.take(trimmed(r)));
        let q = p.take(trimmed(p));
        lemma_last_field(q, SLASH);
        let inner = last_field(q, SLASH);
        if 1 < inner {
            assert(r.take(inner - 1) =~= p.take(inner - 1));
        }
    }
}

/// A path has no component only where it is empty.
pub proof fn lemma_components_nonempty(p: Seq<u8>)
    ensures
        components(p).len() == 0 <==> p.len() == 0,
{
    lemma_trimmed(p);
}

/// Only the first component of a path can be `.`.
pub proof fn lemma_current_only_first(p: Seq<u8>, i: int)
    requires
        1 <= i < components(p).len(),
    ensures
        components(p)[i] != current_component(),
    decreases p.len(),
{
    lemma_last_field(p, SLASH);
    let start = last_field(p, SLASH);
    if start > 1 && i < components(p.take(start - 1)).len() {
        lemma_current_only_first(p.take(start - 1), i);
    }
}

/// The parent of a path has all of its components but the last.
pub proof fn lemma_parent_components(p: Seq<u8>)
    requires
        parent_of(p) is Some,
    ensures
        components(parent_of(p)->0) == components(p).drop_last(),
        parent_of(p)->0.len() < p.len(),
{
    lemma_trimmed(p);
    lemma_components_nonempty(p);
    let q = p.take(trimmed(p));
    let start = last_field(q, SLASH);
    if start == 0 {
        assert(p.take(0) =~= Seq::<u8>::empty());
        lemma_components_nonempty(p.take(0));
        assert(components(p.take(0)) =~= components(p).drop_last());
    } else if start == 1 {
        lemma_last_field(q, SLASH);
        assert(p.take(1).last() == SLASH);
        lemma_components_step(p.take(1), 1);
        assert(p.take(1).skip(1) =~= Seq::<u8>::empty());
        assert(components(p.take(1)) =~= components(p).drop_last());
    } else {
        let r = p.take(start - 1);
        lemma_trimmed(r);
        assert(p.take(trimmed(r)) =~= r.take(trimmed(r)));
        assert(components(r) =~= components(p).drop_last());
    }
}

/// Behind a relative path that does not begin with `.`, joining appends the
/// components.
pub proof fn lemma_joined_components(base: Seq<u8>, p: Seq<u8>)
    requires
        !absolute(p),
        p.len() > 0 ==> components(p)[0] != current_component(),
    ensures
        components(joined(base, p)) == components(base) + components(p),
    decreases p.len(),
{
    let whole = joined(base, p);
    lemma_last_field(p, SLASH);
    lemma_components_nonempty(p);
    let start = last_field(p, SLASH);
    let gap: int = if base.len() == 0 || base.last() == SLASH { 0 } else { 1 };
    let offset = base.len() + gap;
    assert(forall|i: int| 0 <= i < p.len() ==> whole[offset + i] == p[i]);
    if base.len() == 0 {
        assert(whole =~= p);
        lemma_components_nonempty(base);
        assert(components(base) + components(p) =~= components(p));
    } else if start == 0 {
        assert(whole[offset - 1] == SLASH);
        assert forall|i: int| offset <= i < whole.len() implies whole[i] != SLASH by {
            assert(whole[offset + (i - offset)] == p[i - offset]);
        }
        lemma_components_step(whole, offset);
        assert(whole.skip(offset) =~= p);
        if p.len() > 0 {
            assert(components(p) == seq![p]);
            assert(names_something(p));
        }
        if gap == 1 {
            assert(whole.take(offset - 1) =~= base);
        } else {
            lemma_components_step(base, base.len() as int);
            assert(base.skip(base.len() as int) =~= Seq::<u8>::empty());
            assert(whole.take(offset - 1) =~= base.take(offset - 1));
        }
        assert(components(whole) =~= components(base) + components(p));
    } else {
        assert(start > 1);
        let head = p.take(start - 1);
        assert(!absolute(head)) by {
            assert(head[0] == p[0]);
        }
        lemma_components_nonempty(head);
        assert(components(head)[0] == components(p)[0]);
        lemma_joined_components(base, head);
        assert forall|i: int| offset + start <= i < whole.len() implies whole[i] != SLASH by {
            assert(whole[offset + (i - offset)] == p[i - offset]);
        }
        assert(whole[offset + (start - 1)] == SLASH);
        lemma_components_step(whole, offset + start);
        assert(whole.skip(offset + start) =~= p.skip(start));
        assert(whole.take(offset + start - 1) =~= joined(base, head));
        assert(components(whole) =~= components(base) + components(p));
    }
}

/// The text from component number `n` on has the components from `n` on.
proof fn lemma_rest_components(p: Seq<u8>, n: int)
    requires
        0 <= n < components(p).len(),
    ensures
        0 <= component_start(p, n) < p.len(),
        n > 0 ==> component_start(p, n) > 0 && p[component_start(p, n)] != SLASH,
        components(p.skip(component_start(p, n))) == components(p).skip(n),
    decreases p.len(),
{
    lemma_components_nonempty(p);
    lemma_last_field(p, SLASH);
    let start = last_field(p, SLASH);
    let cs = component_start(p, n);
    if start == 0 {
        assert(p.skip(0) =~= p);
        assert(components(p).skip(0) =~= components(p));
    } else {
        let before = if start == 1 {
            seq![root_component()]
        } else {
            components(p.take(start - 1))
        };
        if n >= before.len() {
            let rest = p.skip(start);
            assert(names_something(rest));
            assert(forall|i: int| 0 <= i < rest.len() ==> rest[i] == p[start + i]);
            lemma_components_step(rest, 0);
            assert(components(p).skip(n) =~= seq![rest]);
        } else if start == 1 {
            assert(n == 0);
            assert(p.skip(0) =~= p);
            assert(components(p).skip(0) =~= components(p));
        } else {
            let r = p.take(start - 1);
            lemma_rest_components(r, n);
            let rest = p.skip(cs);
            let inner = start - cs;
            assert(forall|i: int| 0 <= i < rest.len() ==> rest[i] == p[cs + i]);
            lemma_components_step(rest, inner);
            assert(rest.skip(inner) =~= p.skip(start));
            assert(rest.take(inner - 1) =~= r.skip(cs));
            assert(components(rest) =~= components(p).skip(n));
        }
    }
}

/// Text behind the last component moves no component.
proof fn lemma_component_start_trimmed(p: Seq<u8>, n: int)
    requires
        0 <= n < components(p).len(),
    ensures
        component_start(p.take(trimmed(p)), n) == component_start(p, n),
    decreases p.len(),
{
    lemma_components_nonempty(p);
    lemma_last_field(p, SLASH);
    let start = last_field(p, SLASH);
    if start == 0 || names_something(p.skip(start)) {
        assert(p.take(trimmed(p)) =~= p);
    } else if start == 1 {
        lemma_last_field_unique(p.take(1), SLASH, 1);
    } else {
        let r = p.take(start - 1);
        lemma_component_start_trimmed(r, n);
        lemma_trimmed(r);
        assert(p.take(trimmed(p)) =~= r.take(trimmed(r)));
    }
}

/// What is stripped of a path has the components behind those of the base.
pub proof fn lemma_stripped_components(p: Seq<u8>, base: Seq<u8>)
    requires
        below(p, base),
    ensures
        stripped(p, base) is Some,
        components(stripped(p, base)->0) == components(p).skip(components(base).len() as int),
        base.len() > 0 ==> !absolute(stripped(p, base)->0),
        !absolute(p) ==> !absolute(stripped(p, base)->0),
{
    let n = components(base).len() as int;
    let rest = stripped(p, base)->0;
    lemma_components_nonempty(base);
    if n == components(p).len() {
        lemma_components_nonempty(rest);
        assert(components(rest) =~= components(p).skip(n));
    } else {
        lemma_trimmed(p);
        let q = p.take(trimmed(p));
        lemma_component_start_trimmed(p, n);
        lemma_rest_components(q, n);
        let cs = component_start(p, n);
        assert(q.skip(cs) =~= rest);
        assert(rest[0] == p[cs]);
        if !absolute(p) && n == 0 {
            lemma_first_start(q);
        }
    }
}

/// The first component begins at the beginning.
proof fn lemma_first_start(p: Seq<u8>)
    requires
        p.len() > 0,
    ensures
        component_start(p, 0) == 0,
    decreases p.len(),
{
    lemma_last_field(p, SLASH);
    let start = last_field(p, SLASH);
    if start > 1 {
        lemma_components_nonempty(p.take(start - 1));
        lemma_first_start(p.take(start - 1));
    }
}

impl FilePath {
    /// The path with this text.
    pub fn from_bytes(bytes: Vec<u8>) -> (r: FilePath)
        ensures
            r@ == bytes@,
    {
        FilePath { bytes }
    }

    /// The path with this text.
    pub fn from_text(text: &str) -> (r: FilePath)
        ensures
            r@ == encode_utf8(text@),
    {
        FilePath { bytes: text.as_bytes_vec() }
    }

    /// The text of the path.
    pub fn as_bytes(&self) -> (r: &Vec<u8>)
        ensures
            r@ == self@,
    {
        &self.bytes
    }

    /// Whether the path is absolute.
    pub fn is_absolute(&self) -> (r: bool)
        ensures
            r == absolute(self@),
    {
        self.bytes.len() > 0 && self.bytes[0] == SLASH
    }

    /// The path `other` as seen from this one.
    pub fn join(&self, other: &FilePath) -> (r: FilePath)
        ensures
            r@ == joined(self@, other@),
    {
        if other.is_absolute() {
            return other.clone();
        }
        let mut bytes = self.bytes.clone();
        if bytes.len() > 0 && bytes[bytes.len() - 1] != SLASH {
            bytes.push(SLASH);
        }
        let mut rest = other.bytes.clone();
        bytes.append(&mut rest);
        FilePath { bytes }
    }

    /// The components of the path.
    pub fn components(&self) -> (r: Vec<Vec<u8>>)
        ensures
            texts(r@) == components(self@),
    {
        let ghost p = self@;
        let mut out: Vec<Vec<u8>> = Vec::new();
        let mut start: usize = 0;
        let mut i: usize = 0;
        assert(texts(out@) =~= Seq::<Seq<u8>>::empty());
        while i < self.bytes.len()
            invariant
                p == self.bytes@,
                0 <= start <= i <= p.len(),
                start > 0 ==> p[start - 1] == SLASH,
                forall|j: int| start <= j < i ==> p[j] != SLASH,
                start == 0 ==> texts(out@) == Seq::<Seq<u8>>::empty(),
                start == 1 ==> texts(out@) == seq![root_component()],
                start > 1 ==> texts(out@) == components(p.take(start - 1)),
            decreases p.len() - i,
        {
            if self.bytes[i] == SLASH {
                let ghost before = texts(out@);
                let ghost q = p.take(i as int);
                let field = copy_range(&self.bytes, start, i);
                proof {
                    lemma_components_step(q, start as int);
                    assert(q.skip(start as int) =~= field@);
                    if start > 1 {
                        assert(q.take(start - 1) =~= p.take(start - 1));
                    }
                    if start == 0 {
                        assert(field@ =~= q);
                    }
                }
                if i == 0 {
                    let mut root: Vec<u8> = Vec::new();
                    root.push(SLASH);
                    out.push(root);
                    assert(texts(out@) =~= seq![root_component()]) by {
                        assert(root@ =~= root_component());
                    }
                } else if start == 0 || field_names(&self.bytes, start, i) {
                    out.push(field);
                    assert(texts(out@) =~= before.push(field@));
                }
                start = i + 1;
            }
            i = i + 1;
        }
        let field = copy_range(&self.bytes, start, i);
        let ghost before = texts(out@);
        proof {
            lemma_components_step(p, start as int);
            assert(p.skip(start as int) =~= field@);
            if start == 0 {
                assert(field@ =~= p);
            }
        }
        if (start == 0 && i > 0) || (start > 0 && field_names(&self.bytes, start, i)) {
            out.push(field);
            assert(texts(out@) =~= before.push(field@));
        }
        assert(texts(out@) =~= components(p));
        out
    }

    /// How many components the path has.
    pub fn component_count(&self) -> (r: usize)
        ensures
            r == components(self@).len(),
    {
        let all = self.components();
        assert(texts(all@).len() == all@.len());
        all.len()
    }

    /// Whether the two paths have the same components.
    pub fn same_as(&self, other: &FilePath) -> (r: bool)
        ensures
            r == (components(self@) == components(other@)),
    {
        let mine = self.components();
        let theirs = other.components();
        let r = mine.len() == theirs.len() && begins_with(&mine, &theirs);
        proof {
            if r {
                assert(texts(mine@).len() == texts(theirs@).len());
                assert(texts(mine@) =~= texts(theirs@));
            }
            assert(texts(mine@).len() == mine@.len());
            assert(texts(theirs@).len() == theirs@.len());
        }
        r
    }

    /// Whether the components of `base` begin those of this path.
    pub fn starts_with(&self, base: &FilePath) -> (r: bool)
        ensures
            r == below(self@, base@),
    {
        let mine = self.components();
        let first = base.components();
        begins_with(&mine, &first)
    }

    /// Where the last component of `bytes[..len]` ends.
    fn trimmed_len(&self, len: usize) -> (r: usize)
        requires
            len <= self@.len(),
        ensures
            r == trimmed(self@.take(len as int)),
            r <= len,
    {
        let ghost p = self@;
        let mut end: usize = len;
        loop
            invariant
                p == self.bytes@,
                end <= len <= p.len(),
                trimmed(p.take(end as int)) == trimmed(p.take(len as int)),
            decreases end,
        {
            let start = find_last_field(&self.bytes, end, SLASH);
            let ghost q = p.take(end as int);
            assert(q.skip(start as int) =~= p.subrange(start as int, end as int));
            if start == 0 || field_names(&self.bytes, start, end) {
                return end;
            }
            if start == 1 {
                return 1;
            }
            proof {
                assert(q.take(start - 1) =~= p.take(start - 1));
                lemma_last_field(q, SLASH);
            }
            end = start - 1;
        }
    }

    /// The path that holds this one.
    pub fn parent(&self) -> (r: Option<FilePath>)
        ensures
            r is Some <==> parent_of(self@) is Some,
            r is Some ==> r->0@ == parent_of(self@)->0,
    {
        let ghost p = self@;
        let len = self.bytes.len();
        proof {
            lemma_trimmed(p);
            assert(p.take(len as int) =~= p);
        }
        if len == 0 {
            return None;
        }
        let end = self.trimmed_len(len);
        let start = find_last_field(&self.bytes, end, SLASH);
        let ghost q = p.take(end as int);
        if start == end {
            return None;
        }
        proof {
            lemma_last_field(q, SLASH);
            if start == 0 {
                assert(q.skip(0) =~= q);
            }
            assert(components(p).last() == q.skip(start as int));
            assert(q.skip(start as int) != root_component()) by {
                assert(q.skip(start as int)[0] == q[start as int]);
            }
        }
        let cut = if start <= 1 {
            start
        } else {
            assert(p.take(start - 1) == p.take((start - 1) as int));
            self.trimmed_len(start - 1)
        };
        let bytes = copy_range(&self.bytes, 0, cut);
        assert(bytes@ =~= p.take(cut as int));
        Some(FilePath { bytes })
    }

    /// The last component, where it is a name.
    pub fn file_name(&self) -> (r: Option<Vec<u8>>)
        ensures
            r is Some <==> file_name_of(self@) is Some,
            r is Some ==> r->0@ == file_name_of(self@)->0,
    {
        let mut all = self.components();
        let ghost listed = all@;
        assert(texts(listed).len() == listed.len());
        if all.len() == 0 {
            return None;
        }
        let last = match all.pop() {
            Some(last) => last,
            None => {
                return None;
            },
        };
        assert(texts(listed)[listed.len() - 1] == last@);
        let special = (last.len() == 1 && (last[0] == SLASH || last[0] == DOT)) || (last.len() == 2
            && last[0] == DOT && last[1] == DOT);
        proof {
            if last@.len() == 1 && last@[0] == SLASH {
                assert(last@ =~= root_component());
            } else if last@.len() == 1 && last@[0] == DOT {
                assert(last@ =~= current_component());
            } else if special {
                assert(last@ =~= up_component());
            } else {
                assert(last@.len() != 1 || (last@[0] != SLASH && last@[0] != DOT));
                assert(last@.len() != 2 || last@[0] != DOT || last@[1] != DOT);
                assert(root_component()[0] == SLASH);
                assert(current_component()[0] == DOT);
                assert(up_component()[0] == DOT && up_component()[1] == DOT);
            }
        }
        if special {
            None
        } else {
            Some(last)
        }
    }

    /// Where component number `n` begins.
    fn start_of_component(&self, n: usize) -> (r: usize)
        requires
            n < components(self@).len(),
        ensures
            r == component_start(self@, n as int),
    {
        let ghost p = self@;
        let mut end: usize = self.bytes.len();
        assert(p.take(end as int) =~= p);
        loop
            invariant
                p == self.bytes@,
                p == self@,
                end <= p.len(),
                component_start(p.take(end as int), n as int) == component_start(p, n as int),
            decreases end,
        {
            let start = find_last_field(&self.bytes, end, SLASH);
            let ghost q = p.take(end as int);
            if start == 0 {
                return 0;
            }
            proof {
                lemma_last_field(q, SLASH);
            }
            if start == 1 {
                return if n >= 1 {
                    1
                } else {
                    0
                };
            }
            let head = FilePath { bytes: copy_range(&self.bytes, 0, start - 1) };
            proof {
                assert(head@ =~= q.take(start - 1));
                assert(q.take(start - 1) =~= p.take(start - 1));
            }
            if n >= head.component_count() {
                return start;
            }
            end = start - 1;
        }
    }

    /// What is left of the path behind the components of `base`.
    pub fn strip_prefix(&self, base: &FilePath) -> (r: Option<FilePath>)
        ensures
            r is Some <==> stripped(self@, base@) is Some,
            r is Some ==> r->0@ == stripped(self@, base@)->0,
    {
        if !self.starts_with(base) {
            return None;
        }
        let n = base.component_count();
        if n == self.component_count() {
            let bytes: Vec<u8> = Vec::new();
            assert(bytes@ =~= Seq::<u8>::empty());
            return Some(FilePath { bytes });
        }
        let start = self.start_of_component(n);
        let end = self.trimmed_len(self.bytes.len());
        proof {
            assert(self@.take(self@.len() as int) =~= self@);
            lemma_trimmed(self@);
            lemma_component_start_trimmed(self@, n as int);
            lemma_rest_components(self@.take(trimmed(self@)), n as int);
        }
        Some(FilePath { bytes: copy_range(&self.bytes, start, end) })
    }
}

/// Whether the list `all` begins with the texts of `first`.
fn begins_with(all: &Vec<Vec<u8>>, first: &Vec<Vec<u8>>) -> (r: bool)
    ensures
        r == texts(first@).is_prefix_of(texts(all@)),
{
    assert(texts(all@).len() == all@.len());
    assert(texts(first@).len() == first@.len());
    if first.len() > all.len() {
        return false;
    }
    let mut i: usize = 0;
    while i < first.len()
        invariant
            i <= first@.len() <= all@.len(),
            forall|j: int| 0 <= j < i ==> first@[j]@ == all@[j]@,
        decreases first@.len() - i,
    {
        if !same_bytes(&all[i], &first[i]) {
            proof {
                assert(texts(first@)[i as int] != texts(all@)[i as int]);
                if texts(first@).is_prefix_of(texts(all@)) {
                    assert(texts(first@)[i as int] == texts(all@).subrange(
                        0,
                        first@.len() as int,
                    )[i as int]);
                }
            }
            return false;
        }
        i = i + 1;
    }
    assert(texts(first@) =~= texts(all@).subrange(0, first@.len() as int));
    true
}

impl Clone for FilePath {
    fn clone(&self) -> (r: FilePath)
        ensures
            r@ == self@,
    {
        FilePath { bytes: self.bytes.clone() }
    }
}

/// A name without a slash is a path of one component.
pub proof fn lemma_name_alone(name: Seq<u8>)
    requires
        name.len() > 0,
        forall|j: int| 0 <= j < name.len() ==> name[j] != SLASH,
    ensures
        components(name) == seq![name],
        !absolute(name),
        is_name(name) ==> file_name_of(name) == Some(name),
{
    lemma_last_field_unique(name, SLASH, 0);
}

/// A component other than the root holds no slash, and is not empty.
pub proof fn lemma_component_plain(p: Seq<u8>, i: int)
    requires
        0 <= i < components(p).len(),
        components(p)[i] != root_component(),
    ensures
        components(p)[i].len() > 0,
        forall|j: int| 0 <= j < components(p)[i].len() ==> components(p)[i][j] != SLASH,
    decreases p.len(),
{
    lemma_last_field(p, SLASH);
    let start = last_field(p, SLASH);
    if start > 0 {
        let before = if start == 1 {
            seq![root_component()]
        } else {
            components(p.take(start - 1))
        };
        if i < before.len() {
            if start > 1 {
                lemma_component_plain(p.take(start - 1), i);
            }
        } else {
            assert(components(p)[i] == p.skip(start));
        }
    } else {
        assert(components(p)[i] == p);
    }
}

/// How a path is cut: each field behind a slash is one more component, unless it is
/// empty or `.`; the first slash is the root; and nothing has no component.
pub proof fn lemma_cut_at_slashes(p: Seq<u8>, field: Seq<u8>)
    requires
        forall|j: int| 0 <= j < field.len() ==> field[j] != SLASH,
    ensures
        components(Seq::<u8>::empty()) == Seq::<Seq<u8>>::empty(),
        components(seq![SLASH]) == seq![seq![SLASH]],
        field.len() > 0 ==> components(field) == seq![field],
        p.len() > 0 ==> components(p.push(SLASH) + field) == if field.len() == 0 || field
            == seq![DOT] {
            components(p)
        } else {
            components(p).push(field)
        },
        components(seq![SLASH] + field) == if field.len() == 0 || field == seq![DOT] {
            seq![seq![SLASH]]
        } else {
            seq![seq![SLASH], field]
        },
{
    let root = seq![SLASH];
    lemma_last_field_unique(Seq::<u8>::empty(), SLASH, 0);
    lemma_last_field_unique(root, SLASH, 1);
    assert(root.skip(1) =~= Seq::<u8>::empty());
    lemma_last_field_unique(field, SLASH, 0);
    let longer = p.push(SLASH) + field;
    let start = p.len() + 1int;
    assert forall|i: int| start <= i < longer.len() implies longer[i] != SLASH by {
        assert(longer[i] == field[i - start]);
    }
    lemma_last_field_unique(longer, SLASH, start);
    assert(longer.take(start - 1) =~= p);
    assert(longer.skip(start) =~= field);
    let short = root + field;
    assert forall|i: int| 1 <= i < short.len() implies short[i] != SLASH by {
        assert(short[i] == field[i - 1]);
    }
    lemma_last_field_unique(short, SLASH, 1);
    assert(short.skip(1) =~= field);
    assert(seq![root].push(field) =~= seq![root, field]);
}

/// A path has a parent exactly where it has a component that is not the root, and
/// the parent's text begins the path's.
pub proof fn lemma_who_has_a_parent(p: Seq<u8>)
    ensures
        parent_of(p) is Some <==> components(p).len() > 0 && components(p).last() != seq![SLASH],
        parent_of(p) matches Some(parent) ==> parent.is_prefix_of(p) && parent.len() < p.len(),
{
    if parent_of(p) is Some {
        lemma_parent_components(p);
        lemma_trimmed(p);
        let name_start = last_field(p.take(trimmed(p)), SLASH);
        lemma_last_field(p.take(trimmed(p)), SLASH);
        if name_start > 1 {
            lemma_trimmed(p.take(name_start - 1));
            assert(p.take(name_start - 1).take(trimmed(p.take(name_start - 1))) =~= p.take(
                trimmed(p.take(name_start - 1)),
            ));
        }
    }
}

/// A path has a file name exactly where its last component is neither the root nor
/// `.` nor `..`, and it is that component.
pub proof fn lemma_who_has_a_name(p: Seq<u8>, base: Seq<u8>, name: Seq<u8>)
    ensures
        file_name_of(p) == Some(name) <==> components(p).len() > 0 && name == components(p).last()
            && name != seq![SLASH] && name != seq![DOT] && name != seq![DOT, DOT],
        file_name_of(p) is None <==> components(p).len() == 0 || components(p).last()
            == seq![SLASH] || components(p).last() == seq![DOT] || components(p).last()
            == seq![DOT, DOT],
        file_name_of(p) == Some(name) ==> components(joined(base, name)) == components(base).push(
            name,
        ) && file_name_of(joined(base, name)) == Some(name),
{
    if file_name_of(p) == Some(name) {
        lemma_component_plain(p, components(p).len() - 1);
        lemma_name_alone(name);
        lemma_joined_components(base, name);
        assert(components(base) + seq![name] =~= components(base).push(name));
    }
}

/// Joining keeps both texts: a relative path stands behind the base, with at most a
/// slash between, and an absolute one stands alone.
pub proof fn lemma_joining(base: Seq<u8>, p: Seq<u8>)
    ensures
        p.len() > 0 && p[0] == SLASH ==> joined(base, p) == p,
        !(p.len() > 0 && p[0] == SLASH) ==> {
            let r = joined(base, p);
            &&& base.is_prefix_of(r)
            &&& r.skip(r.len() - p.len()) == p
            &&& r.len() - p.len() == base.len() || (r.len() - p.len() == base.len() + 1
                && r[base.len() as int] == SLASH && base.len() > 0 && base.last() != SLASH)
        },
        base.len() > 0 && base.last() != SLASH && !absolute(p) ==> joined(base, p).len()
            == base.len() + 1 + p.len(),
{
    let r = joined(base, p);
    if !absolute(p) {
        assert(r.skip(r.len() - p.len()) =~= p);
    }
}

/// What is below a base begins with its components, one for one, and every path is
/// below itself and below its parent.
pub proof fn lemma_below(p: Seq<u8>, base: Seq<u8>)
    ensures
        below(p, base) <==> components(base).len() <= components(p).len() && forall|i: int|
            0 <= i < components(base).len() ==> #[trigger] components(base)[i] == components(
                p,
            )[i],
        below(p, p),
        parent_of(p) is Some ==> below(p, parent_of(p)->0),
        stripped(p, base) is Some <==> below(p, base),
{
    let a = components(base);
    let b = components(p);
    if a.len() <= b.len() && forall|i: int| 0 <= i < a.len() ==> #[trigger] a[i] == b[i] {
        assert(a =~= b.take(a.len() as int));
    }
    if a.is_prefix_of(b) {
        assert forall|i: int| 0 <= i < a.len() implies #[trigger] a[i] == b[i] by {
            assert(a[i] == b.take(a.len() as int)[i]);
        }
    }
    if parent_of(p) is Some {
        lemma_parent_components(p);
    }
}

/// Only the first component of a path can be the root.
pub proof fn lemma_root_only_first(p: Seq<u8>, i: int)
    requires
        1 <= i < components(p).len(),
    ensures
        components(p)[i] != root_component(),
    decreases p.len(),
{
    lemma_last_field(p, SLASH);
    let start = last_field(p, SLASH);
    if start > 0 {
        let before = if start == 1 {
            seq![root_component()]
        } else {
            components(p.take(start - 1))
        };
        if i < before.len() {
            lemma_root_only_first(p.take(start - 1), i);
        } else {
            let field = p.skip(start);
            assert(components(p)[i] == field);
            if field == root_component() {
                assert(field[0] == p[start]);
                assert(field[0] == SLASH);
            }
        }
    }
}

} // verus!
