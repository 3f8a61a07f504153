//! The entity layer of the hypergraph: vertex identity, child patterns and
//! parent back-references.
//!
//! A vertex is either an atomic token (width 1) or a composite node.  A
//! composite vertex carries one or more alternative decompositions
//! ("patterns"), each an ordered sequence of [`Child`] references, and every
//! vertex records the composites that contain it as [`Parent`]
//! back-references.

use vstd::prelude::*;
use crate::assoc::{lookup_assoc, has_key, keys_unique, lemma_lookup_skip, lemma_lookup_none,
    lemma_lookup_push, lemma_lookup_update};

verus! {

/// A process-lifetime-unique integer handle to a vertex; the sole way graph
/// elements reference each other.
pub type VertexIndex = usize;

/// A token offset, or a token width (a count of atomic tokens).
pub type TokenPosition = usize;

/// A position within the child sequence of a pattern.
pub type IndexPosition = usize;

/// The identifier of one decomposition attached to a vertex.
pub type PatternId = usize;

/// One decomposition of a composite vertex: an ordered sequence of children.
pub type Pattern = Vec<Child>;

/// The parent back-references of a vertex, keyed by the parent's index.
pub type VertexParents = Vec<(VertexIndex, Parent)>;

/// The decompositions of a vertex, keyed by pattern id, in insertion order.
pub type ChildPatterns = Vec<(PatternId, Pattern)>;

/// An atomic token stored at a leaf vertex.
#[derive(Debug, PartialEq, Eq, Structural, Clone, Copy, Hash)]
pub enum Token {
    Element(char),
}

/// The unique key of a vertex: a token for leaves, a numeric id for
/// composite pattern vertices.
#[derive(Debug, PartialEq, Eq, Structural, Clone, Copy, Hash)]
pub enum VertexKey {
    Token(Token),
    Pattern(PatternId),
}

/// A back-reference from a child vertex to one composite vertex containing
/// it: the containing vertex's token width, and the set of
/// `(pattern id, position)` occurrences of the child within it.
#[derive(Debug, Clone)]
pub struct Parent {
    /// The token width of the referencing composite vertex.
    pub width: TokenPosition,
    /// Every `(pattern id, position)` at which the child occurs, without
    /// duplicates.
    pub pattern_indices: Vec<(PatternId, IndexPosition)>,
}

impl Parent {
    /// The occurrence list holds no duplicate pairs.
    pub open spec fn indices_unique(self) -> bool {
        forall|i: int, j: int|
            0 <= i < j < self.pattern_indices@.len()
                ==> self.pattern_indices@[i] != self.pattern_indices@[j]
    }

    /// Whether `(pattern, index)` is recorded as an occurrence.
    pub open spec fn contains_occurrence(self, pattern: PatternId, index: IndexPosition) -> bool {
        self.pattern_indices@.contains((pattern, index))
    }

    pub fn new(width: TokenPosition) -> (r: Self)
        ensures
            r.width == width,
            r.pattern_indices@ =~= Seq::<(PatternId, IndexPosition)>::empty(),
    {
        Self { width, pattern_indices: Vec::new() }
    }

    pub fn get_width(&self) -> (r: TokenPosition)
        ensures
            r == self.width,
    {
        self.width
    }

    /// Records the occurrence `(pattern, index)`; a pair already present is
    /// not duplicated.
    pub fn add_pattern_index(&mut self, pattern: PatternId, index: IndexPosition)
        ensures
            final(self).width == old(self).width,
            forall|p: (PatternId, IndexPosition)|
                final(self).pattern_indices@.contains(p)
                    <==> (old(self).pattern_indices@.contains(p) || p == (pattern, index)),
            old(self).indices_unique() ==> final(self).indices_unique(),
    {
        let n = self.pattern_indices.len();
        let mut i: usize = 0;
        while i < n
            invariant
                n == self.pattern_indices@.len(),
                i <= n,
                forall|j: int| 0 <= j < i ==> self.pattern_indices@[j] != (pattern, index),
            decreases n - i,
        {
            let p = self.pattern_indices[i];
            if p.0 == pattern && p.1 == index {
                assert(self.pattern_indices@.contains((pattern, index)));
                return;
            }
            i += 1;
        }
        self.pattern_indices.push((pattern, index));
        proof {
            broadcast use vstd::seq_lib::lemma_seq_contains_after_push;

            let s0 = old(self).pattern_indices@;
            let t = s0.push((pattern, index));
            assert(final(self).pattern_indices@ == t);
            if old(self).indices_unique() {
                assert forall|a: int, b: int| 0 <= a < b < t.len() implies t[a] != t[b] by {
                    if b < s0.len() {
                        assert(t[a] == s0[a] && t[b] == s0[b]);
                    } else {
                        assert(t[b] == (pattern, index));
                        assert(t[a] == s0[a]);
                    }
                }
            }
        }
    }

    /// Removes every record of the occurrence `(pattern, index)`.
    pub fn remove_pattern_index(&mut self, pattern: PatternId, index: IndexPosition)
        ensures
            final(self).width == old(self).width,
            forall|p: (PatternId, IndexPosition)|
                final(self).pattern_indices@.contains(p)
                    <==> (old(self).pattern_indices@.contains(p) && p != (pattern, index)),
            old(self).indices_unique() ==> final(self).indices_unique(),
    {
        let mut i: usize = 0;
        while i < self.pattern_indices.len()
            invariant
                i <= self.pattern_indices@.len(),
                self.width == old(self).width,
                forall|j: int| 0 <= j < i ==> self.pattern_indices@[j] != (pattern, index),
                forall|p: (PatternId, IndexPosition)|
                    p != (pattern, index)
                        ==> (self.pattern_indices@.contains(p)
                            <==> old(self).pattern_indices@.contains(p)),
                old(self).indices_unique()
                    ==> forall|a: int, b: int|
                        0 <= a < b < self.pattern_indices@.len()
                            ==> self.pattern_indices@[a] != self.pattern_indices@[b],
            decreases self.pattern_indices@.len() - i,
        {
            let p = self.pattern_indices[i];
            if p.0 == pattern && p.1 == index {
                let ghost s0 = self.pattern_indices@;
                self.pattern_indices.remove(i);
                proof {
                    let s1 = self.pattern_indices@;
                    assert(s1 =~= s0.remove(i as int));
                    s0.remove_ensures(i as int);
                    assert(forall|j: int| 0 <= j < i ==> s1[j] == s0[j]);
                    assert(forall|j: int| i <= j < s1.len() ==> s1[j] == s0[j + 1]);
                    assert forall|q: (PatternId, IndexPosition)| s1.contains(q)
                        implies s0.contains(q) by {
                        let j = choose|j: int| 0 <= j < s1.len() && s1[j] == q;
                        if j < i as int {
                            assert(s0[j] == q);
                        } else {
                            assert(s0[j + 1] == q);
                        }
                    }
                    assert forall|q: (PatternId, IndexPosition)|
                        q != (pattern, index) && s0.contains(q) implies s1.contains(q) by {
                        let m = choose|m: int| 0 <= m < s0.len() && s0[m] == q;
                        if m < i as int {
                            assert(s1[m] == q);
                        } else {
                            assert(s0[i as int] == (pattern, index));
                            assert(m > i as int);
                            assert(s1[m - 1] == q);
                        }
                    }
                }
            } else {
                i += 1;
            }
        }
        assert(forall|p: (PatternId, IndexPosition)|
            !(final(self).pattern_indices@.contains(p) && p == (pattern, index)));
    }

    /// Whether any recorded occurrence sits at child-sequence position `p`.
    pub fn exists_at_pos(&self, p: PatternId) -> (r: bool)
        ensures
            r == exists|j: int|
                0 <= j < self.pattern_indices@.len() && self.pattern_indices@[j].1 == p,
    {
        let n = self.pattern_indices.len();
        let mut i: usize = 0;
        while i < n
            invariant
                n == self.pattern_indices@.len(),
                i <= n,
                forall|j: int| 0 <= j < i ==> self.pattern_indices@[j].1 != p,
            decreases n - i,
        {
            if self.pattern_indices[i].1 == p {
                return true;
            }
            i += 1;
        }
        false
    }
}

/// A reference to a vertex inside a pattern, together with that vertex's
/// cached token width.  Two `Child` values with equal index denote the same
/// reference regardless of the cached width.
#[derive(Debug, Eq, Clone, Copy, Hash)]
pub struct Child {
    /// The referenced vertex.
    pub index: VertexIndex,
    /// The referenced vertex's token width, cached to avoid repeated
    /// lookups.
    pub width: TokenPosition,
}

impl Child {
    pub fn new(index: VertexIndex, width: TokenPosition) -> (r: Self)
        ensures
            r.index == index,
            r.width == width,
    {
        Self { index, width }
    }

    pub fn get_width(&self) -> (r: TokenPosition)
        ensures
            r == self.width,
    {
        self.width
    }

    pub fn get_index(&self) -> (r: VertexIndex)
        ensures
            r == self.index,
    {
        self.index
    }
}

impl PartialEq for Child {
    /// Equality is defined by index only.
    fn eq(&self, other: &Self) -> (r: bool) {
        self.index == other.index
    }
}

impl vstd::std_specs::cmp::PartialEqSpecImpl for Child {
    open spec fn obeys_eq_spec() -> bool {
        true
    }

    open spec fn eq_spec(&self, other: &Self) -> bool {
        self.index == other.index
    }
}

/// Copies a pattern element by element.
pub fn clone_pattern(pat: &Pattern) -> (r: Pattern)
    ensures
        r@ == pat@,
{
    let mut r: Pattern = Vec::new();
    let mut i: usize = 0;
    while i < pat.len()
        invariant
            i <= pat@.len(),
            r@ =~= pat@.take(i as int),
        decreases pat@.len() - i,
    {
        r.push(pat[i]);
        i += 1;
    }
    assert(pat@.take(pat@.len() as int) =~= pat@);
    r
}

/// Concatenates two patterns.
pub(crate) fn concat_patterns(a: &Pattern, b: &Pattern) -> (r: Pattern)
    ensures
        r@ == a@ + b@,
{
    let mut r = clone_pattern(a);
    let mut i: usize = 0;
    while i < b.len()
        invariant
            i <= b@.len(),
            r@ =~= a@ + b@.take(i as int),
        decreases b@.len() - i,
    {
        r.push(b[i]);
        proof {
            assert(r@ =~= a@ + b@.take(i + 1));
        }
        i += 1;
    }
    proof {
        assert(b@.take(b@.len() as int) =~= b@);
    }
    r
}

/// The slice `[from, to)` of a pattern.
pub(crate) fn pattern_slice(p: &Pattern, from: usize, to: usize) -> (r: Pattern)
    requires
        from <= to <= p@.len(),
    ensures
        r@ == p@.subrange(from as int, to as int),
{
    let mut r: Pattern = Vec::new();
    let mut i: usize = from;
    while i < to
        invariant
            from <= i <= to <= p@.len(),
            r@ =~= p@.subrange(from as int, i as int),
        decreases to - i,
    {
        r.push(p[i]);
        proof {
            assert(r@ =~= p@.subrange(from as int, i + 1));
        }
        i += 1;
    }
    r
}

/// The data stored at one vertex: its token width, its alternative
/// decompositions, and its parent back-references.
#[derive(Debug, Clone)]
pub struct VertexData {
    /// The total token span of this vertex.
    pub width: TokenPosition,
    /// Back-references to every composite vertex containing this one.
    pub parents: VertexParents,
    /// The alternative decompositions of this vertex, in insertion order.
    pub children: ChildPatterns,
}

impl VertexData {
    /// The decomposition registered under `id`, if any.
    pub open spec fn child_pattern(self, id: PatternId) -> Option<Pattern> {
        lookup_assoc(self.children@, id)
    }

    /// The back-reference for the containing vertex `v`, if any.
    pub open spec fn parent(self, v: VertexIndex) -> Option<Parent> {
        lookup_assoc(self.parents@, v)
    }

    /// Whether a decomposition is registered under `id`.
    pub open spec fn has_child_pattern(self, id: PatternId) -> bool {
        has_key(self.children@, id)
    }

    /// Whether a back-reference for the containing vertex `v` exists.
    pub open spec fn has_parent(self, v: VertexIndex) -> bool {
        has_key(self.parents@, v)
    }

    pub fn with_width(width: TokenPosition) -> (r: Self)
        ensures
            r.width == width,
            r.parents@ =~= Seq::<(VertexIndex, Parent)>::empty(),
            r.children@ =~= Seq::<(PatternId, Pattern)>::empty(),
    {
        Self { width, parents: Vec::new(), children: Vec::new() }
    }

    pub fn get_width(&self) -> (r: TokenPosition)
        ensures
            r == self.width,
    {
        self.width
    }

    /// The position of the first back-reference entry for `index`, if any.
    fn find_parent_pos(&self, index: VertexIndex) -> (r: Option<usize>)
        ensures
            r matches Some(i) ==> i < self.parents@.len() && self.parents@[i as int].0 == index
                && forall|j: int| 0 <= j < i ==> self.parents@[j].0 != index,
            r is None ==> forall|j: int| 0 <= j < self.parents@.len()
                ==> self.parents@[j].0 != index,
    {
        let n = self.parents.len();
        let mut i: usize = 0;
        while i < n
            invariant
                n == self.parents@.len(),
                i <= n,
                forall|j: int| 0 <= j < i ==> self.parents@[j].0 != index,
            decreases n - i,
        {
            if self.parents[i].0 == index {
                return Some(i);
            }
            i += 1;
        }
        None
    }

    /// The position of the decomposition entry for `id`, if any.
    fn find_child_pos(&self, id: PatternId) -> (r: Option<usize>)
        ensures
            r matches Some(i) ==> i < self.children@.len() && self.children@[i as int].0 == id
                && forall|j: int| 0 <= j < i ==> self.children@[j].0 != id,
            r is None ==> forall|j: int| 0 <= j < self.children@.len()
                ==> self.children@[j].0 != id,
    {
        let n = self.children.len();
        let mut i: usize = 0;
        while i < n
            invariant
                n == self.children@.len(),
                i <= n,
                forall|j: int| 0 <= j < i ==> self.children@[j].0 != id,
            decreases n - i,
        {
            if self.children[i].0 == id {
                return Some(i);
            }
            i += 1;
        }
        None
    }

    pub fn get_parent(&self, index: VertexIndex) -> (r: Option<&Parent>)
        ensures
            r matches Some(p) ==> self.parent(index) == Some(*p),
            r is None ==> self.parent(index) is None,
    {
        match self.find_parent_pos(index) {
            Some(i) => {
                proof {
                    lemma_lookup_skip(self.parents@, index, i as int);
                    assert(self.parents@.skip(i as int)[0] == self.parents@[i as int]);
                }
                Some(&self.parents[i].1)
            },
            None => {
                proof {
                    lemma_lookup_none(self.parents@, index);
                }
                None
            },
        }
    }

    pub fn get_parents(&self) -> (r: &VertexParents)
        ensures
            r == &self.parents,
    {
        &self.parents
    }

    pub fn get_child_pattern(&self, id: PatternId) -> (r: Option<&Pattern>)
        ensures
            r matches Some(p) ==> self.child_pattern(id) == Some(*p),
            r is None ==> self.child_pattern(id) is None,
    {
        match self.find_child_pos(id) {
            Some(i) => {
                proof {
                    lemma_lookup_skip(self.children@, id, i as int);
                    assert(self.children@.skip(i as int)[0] == self.children@[i as int]);
                }
                Some(&self.children[i].1)
            },
            None => {
                proof {
                    lemma_lookup_none(self.children@, id);
                }
                None
            },
        }
    }

    /// The slice `[start, end)` of the decomposition registered under `id`,
    /// or `None` when the pattern is absent or the bounds do not fit.
    pub fn get_child_pattern_range(&self, id: PatternId, start: usize, end: usize) -> (r: Option<
        Pattern,
    >)
        ensures
            r matches Some(s) ==> self.child_pattern(id) matches Some(p) && start <= end
                <= p@.len() && s@ == p@.subrange(start as int, end as int),
            r is None ==> (self.child_pattern(id) is None || !(start <= end
                <= self.child_pattern(id).unwrap()@.len())),
    {
        match self.get_child_pattern(id) {
            Some(p) => {
                if start <= end && end <= p.len() {
                    let mut s: Pattern = Vec::new();
                    let mut i: usize = start;
                    while i < end
                        invariant
                            start <= i <= end <= p@.len(),
                            s@ =~= p@.subrange(start as int, i as int),
                        decreases end - i,
                    {
                        s.push(p[i]);
                        proof {
                            assert(s@ =~= p@.subrange(start as int, i + 1));
                        }
                        i += 1;
                    }
                    Some(s)
                } else {
                    None
                }
            },
            None => None,
        }
    }

    /// The child at position `pos` of the decomposition registered under
    /// `id`, if both exist.
    pub fn get_child_pattern_position(&self, id: PatternId, pos: IndexPosition) -> (r: Option<
        Child,
    >)
        ensures
            r matches Some(c) ==> self.child_pattern(id) matches Some(p) && pos < p@.len()
                && c == p@[pos as int],
            r is None ==> (self.child_pattern(id) is None || pos
                >= self.child_pattern(id).unwrap()@.len()),
    {
        match self.get_child_pattern(id) {
            Some(p) => {
                if pos < p.len() {
                    Some(p[pos])
                } else {
                    None
                }
            },
            None => None,
        }
    }

    /// The first registered decomposition.
    pub fn expect_any_pattern(&self) -> (r: &Pattern)
        requires
            self.children@.len() > 0,
        ensures
            r == &self.children@[0].1,
    {
        &self.children[0].1
    }

    /// The decomposition registered under `id`.
    pub fn expect_child_pattern(&self, id: PatternId) -> (r: &Pattern)
        requires
            self.has_child_pattern(id),
        ensures
            self.child_pattern(id) == Some(*r),
    {
        proof {
            crate::assoc::lemma_haskey_lookup(self.children@, id);
        }
        match self.get_child_pattern(id) {
            Some(p) => p,
            None => {
                proof {
                    assert(false);
                }
                &self.children[0].1
            },
        }
    }

    pub fn get_children(&self) -> (r: &ChildPatterns)
        ensures
            r == &self.children,
    {
        &self.children
    }

    /// Registers `pat` as an additional decomposition under the fresh id
    /// `id`, handed out by the owning graph, and returns that id.
    pub fn add_pattern(&mut self, pat: &Pattern, id: PatternId) -> (r: PatternId)
        ensures
            r == id,
            final(self).width == old(self).width,
            final(self).parents@ == old(self).parents@,
            final(self).children@.len() == old(self).children@.len() + 1,
            forall|j: int|
                0 <= j < old(self).children@.len() ==> final(self).children@[j] == old(
                    self,
                ).children@[j],
            final(self).children@.last().0 == id,
            final(self).children@.last().1@ == pat@,
    {
        let copy = clone_pattern(pat);
        self.children.push((id, copy));
        id
    }

    /// Installs the back-reference `(pattern, index)` for the containing
    /// vertex `vertex` of width `width`, creating the entry if needed.
    pub fn add_parent(
        &mut self,
        vertex: VertexIndex,
        width: TokenPosition,
        pattern: PatternId,
        index: IndexPosition,
    )
        ensures
            final(self).width == old(self).width,
            final(self).children@ == old(self).children@,
            forall|v: VertexIndex|
                final(self).has_parent(v) <==> (old(self).has_parent(v) || v == vertex),
            keys_unique(old(self).parents@) ==> {
                &&& keys_unique(final(self).parents@)
                &&& forall|v: VertexIndex|
                    v != vertex ==> final(self).parent(v) == old(self).parent(v)
                &&& final(self).parent(vertex) matches Some(p1) && (old(self).parent(vertex)
                    matches Some(p0) ==> {
                    &&& p1.width == p0.width
                    &&& forall|q: (PatternId, IndexPosition)|
                        p1.pattern_indices@.contains(q) <==> (p0.pattern_indices@.contains(q) || q
                            == (pattern, index))
                    &&& p0.indices_unique() ==> p1.indices_unique()
                }) && (old(self).parent(vertex) is None ==> {
                    &&& p1.width == width
                    &&& forall|q: (PatternId, IndexPosition)|
                        p1.pattern_indices@.contains(q) <==> q == (pattern, index)
                    &&& p1.indices_unique()
                })
            },
    {
        match self.find_parent_pos(vertex) {
            Some(i) => {
                let ghost s0 = self.parents@;
                let entry = &mut self.parents[i];
                entry.1.add_pattern_index(pattern, index);
                proof {
                    let s1 = self.parents@;
                    let p0 = s0[i as int].1;
                    let p1 = s1[i as int].1;
                    assert(s1 =~= s0.update(i as int, (s0[i as int].0, p1)));
                    assert(s1[i as int].0 == vertex);
                    assert(forall|a: int| 0 <= a < s1.len() ==> s1[a].0 == s0[a].0);
                    assert forall|v: VertexIndex|
                        has_key(s1, v) <==> (has_key(s0, v) || v == vertex) by {
                        if has_key(s1, v) {
                            let a = choose|a: int| 0 <= a < s1.len() && s1[a].0 == v;
                            assert(s0[a].0 == v);
                        }
                        if has_key(s0, v) {
                            let a = choose|a: int| 0 <= a < s0.len() && s0[a].0 == v;
                            assert(s1[a].0 == v);
                        }
                        assert(s1[i as int].0 == vertex);
                    }
                    if keys_unique(s0) {
                        lemma_lookup_update(s0, i as int, p1);
                        crate::assoc::lemma_lookup_unique(s0, vertex, i as int);
                        assert(old(self).parent(vertex) == Some(p0));
                        assert(final(self).parent(vertex) == Some(p1));
                    }
                }
            },
            None => {
                let mut p = Parent::new(width);
                p.add_pattern_index(pattern, index);
                let ghost s0 = self.parents@;
                let ghost pg = p;
                self.parents.push((vertex, p));
                proof {
                    let s1 = self.parents@;
                    assert(s1 == s0.push((vertex, pg)));
                    assert(forall|q: (PatternId, IndexPosition)|
                        !Seq::<(PatternId, IndexPosition)>::empty().contains(q));
                    assert(forall|q: (PatternId, IndexPosition)|
                        pg.pattern_indices@.contains(q) <==> q == (pattern, index));
                    assert(!has_key(s0, vertex));
                    assert forall|v: VertexIndex|
                        has_key(s1, v) <==> (has_key(s0, v) || v == vertex) by {
                        if has_key(s1, v) {
                            let a = choose|a: int| 0 <= a < s1.len() && s1[a].0 == v;
                            if a < s0.len() {
                                assert(s0[a].0 == v);
                            }
                        }
                        if has_key(s0, v) {
                            let a = choose|a: int| 0 <= a < s0.len() && s0[a].0 == v;
                            assert(s1[a].0 == v);
                        }
                        assert(s1[s0.len() as int].0 == vertex);
                    }
                    if keys_unique(s0) {
                        assert forall|a: int, b: int| 0 <= a < b < s1.len() implies s1[a].0
                            != s1[b].0 by {
                            if b < s0.len() {
                                assert(s0[a].0 != s0[b].0);
                            } else {
                                assert(s1[b].0 == vertex);
                                assert(s1[a].0 == s0[a].0);
                            }
                        }
                        lemma_lookup_push(s0, vertex, pg);
                        lemma_lookup_none(s0, vertex);
                        assert(final(self).parent(vertex) == Some(pg));
                    }
                }
            },
        }
    }

    /// Removes the occurrence `(pattern, index)` from the back-reference
    /// for `vertex`; a back-reference left with no occurrences is removed
    /// entirely, so that no empty entry leaks.
    pub fn remove_parent(&mut self, vertex: VertexIndex, pattern: PatternId, index: IndexPosition)
        ensures
            final(self).width == old(self).width,
            final(self).children@ == old(self).children@,
            old(self).parent(vertex) is None ==> final(self).parents@ == old(self).parents@,
            keys_unique(old(self).parents@) ==> {
                &&& keys_unique(final(self).parents@)
                &&& forall|v: VertexIndex|
                    v != vertex ==> final(self).parent(v) == old(self).parent(v)
                        && (final(self).has_parent(v) <==> old(self).has_parent(v))
                &&& (old(self).parent(vertex) matches Some(p0) ==> {
                    if forall|q: (PatternId, IndexPosition)|
                        p0.pattern_indices@.contains(q) ==> q == (pattern, index) {
                        !final(self).has_parent(vertex)
                    } else {
                        final(self).parent(vertex) matches Some(p1) && {
                            &&& p1.width == p0.width
                            &&& forall|q: (PatternId, IndexPosition)|
                                p1.pattern_indices@.contains(q) <==> (p0.pattern_indices@.contains(
                                    q,
                                ) && q != (pattern, index))
                            &&& p0.indices_unique() ==> p1.indices_unique()
                        }
                    }
                })
            },
    {
        let pos = self.find_parent_pos(vertex);
        proof {
            if pos is None {
                lemma_lookup_none(self.parents@, vertex);
            }
        }
        if let Some(i) = pos {
            let ghost s0 = self.parents@;
            proof {
                lemma_lookup_skip(s0, vertex, i as int);
                assert(s0.skip(i as int)[0] == s0[i as int]);
                assert(old(self).parent(vertex) == Some(s0[i as int].1));
            }
            let entry = &mut self.parents[i];
            entry.1.remove_pattern_index(pattern, index);
            let empty_now = self.parents[i].1.pattern_indices.len() == 0;
            proof {
                let s1 = self.parents@;
                let p1 = s1[i as int].1;
                assert(s1 =~= s0.update(i as int, (s0[i as int].0, p1)));
                if keys_unique(s0) {
                    lemma_lookup_update(s0, i as int, p1);
                    crate::assoc::lemma_lookup_unique(s0, vertex, i as int);
                    assert forall|v: VertexIndex|
                        has_key(s1, v) <==> has_key(s0, v) by {
                        assert(forall|a: int| 0 <= a < s1.len() ==> s1[a].0 == s0[a].0);
                        if has_key(s1, v) {
                            let a = choose|a: int| 0 <= a < s1.len() && s1[a].0 == v;
                            assert(s0[a].0 == v);
                        }
                        if has_key(s0, v) {
                            let a = choose|a: int| 0 <= a < s0.len() && s0[a].0 == v;
                            assert(s1[a].0 == v);
                        }
                    }
                    if p1.pattern_indices@.len() == 0 {
                        assert(forall|q: (PatternId, IndexPosition)|
                            !p1.pattern_indices@.contains(q));
                    } else {
                        assert(p1.pattern_indices@.contains(p1.pattern_indices@[0]));
                    }
                }
            }
            if empty_now {
                let ghost s1 = self.parents@;
                self.parents.remove(i);
                proof {
                    if keys_unique(s1) {
                        crate::assoc::lemma_lookup_remove(s1, i as int);
                        assert(self.parents@ =~= s1.remove(i as int));
                    }
                }
            }
        }
    }
}

} // verus!
