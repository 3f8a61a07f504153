//! The hypergraph itself: an append-only arena of vertices keyed by
//! [`VertexKey`], owned exclusively by the graph.  All relations between
//! vertices are plain index lookups into this arena.
//!
//! The two central invariants are stated by [`Hypergraph::wf`]:
//! width conservation (every decomposition of a vertex spans exactly the
//! vertex's width) and referential symmetry (child references and parent
//! back-references mirror each other exactly).

use vstd::prelude::*;
use crate::assoc::{has_key, keys_unique, lemma_lookup_finds_pair};
use crate::vertex::{Child, Parent, Pattern, PatternId, Token, TokenPosition, VertexData,
    VertexIndex, VertexKey};

verus! {

/// The total token width of a pattern: the sum of its cached child widths.
pub open spec fn pattern_width_spec(p: Seq<Child>) -> int
    decreases p.len(),
{
    if p.len() == 0 {
        0
    } else {
        pattern_width_spec(p.drop_last()) + p.last().width
    }
}

/// A pattern's width is the width of any prefix plus the widths that
/// follow it.
pub proof fn lemma_pattern_width_take(p: Seq<Child>, i: int)
    requires
        0 <= i < p.len(),
    ensures
        pattern_width_spec(p.take(i + 1)) == pattern_width_spec(p.take(i)) + p[i].width,
{
    assert(p.take(i + 1).drop_last() =~= p.take(i));
    assert(p.take(i + 1).last() == p[i]);
}

/// Pattern widths are never negative.
pub proof fn lemma_pattern_width_nonneg(p: Seq<Child>)
    ensures
        pattern_width_spec(p) >= 0,
    decreases p.len(),
{
    if p.len() > 0 {
        lemma_pattern_width_nonneg(p.drop_last());
    }
}

/// Every element's width is bounded by the whole pattern's width.
pub proof fn lemma_pattern_width_element(p: Seq<Child>, i: int)
    requires
        0 <= i < p.len(),
    ensures
        p[i].width <= pattern_width_spec(p),
    decreases p.len(),
{
    lemma_pattern_width_nonneg(p.drop_last());
    if i + 1 == p.len() {
    } else {
        assert(p.drop_last()[i] == p[i]);
        lemma_pattern_width_element(p.drop_last(), i);
    }
}

/// The computed total width of a pattern.  The sum is required to fit in
/// `usize`; the cached widths themselves are machine integers.
pub fn pattern_width(pat: &Pattern) -> (r: TokenPosition)
    requires
        pattern_width_spec(pat@) <= usize::MAX,
    ensures
        r == pattern_width_spec(pat@),
{
    let mut acc: usize = 0;
    let mut i: usize = 0;
    proof {
        assert(pat@.take(0) =~= Seq::<Child>::empty());
    }
    while i < pat.len()
        invariant
            i <= pat@.len(),
            acc == pattern_width_spec(pat@.take(i as int)),
            pattern_width_spec(pat@) <= usize::MAX,
        decreases pat@.len() - i,
    {
        proof {
            lemma_pattern_width_take(pat@, i as int);
            lemma_width_take_le(pat@, i + 1);
        }
        acc = acc + pat[i].width;
        i += 1;
    }
    proof {
        assert(pat@.take(pat@.len() as int) =~= pat@);
    }
    acc
}

/// The width of a prefix never exceeds the width of the whole pattern.
pub proof fn lemma_width_take_le(p: Seq<Child>, i: int)
    requires
        0 <= i <= p.len(),
    ensures
        pattern_width_spec(p.take(i)) <= pattern_width_spec(p),
    decreases p.len() - i,
{
    if i == p.len() {
        assert(p.take(i) =~= p);
    } else {
        lemma_pattern_width_take(p, i);
        lemma_width_take_le(p, i + 1);
    }
}

/// Concatenation sums pattern widths.
pub proof fn lemma_pattern_width_concat(a: Seq<Child>, b: Seq<Child>)
    ensures
        pattern_width_spec(a + b) == pattern_width_spec(a) + pattern_width_spec(b),
    decreases b.len(),
{
    if b.len() == 0 {
        assert(a + b =~= a);
    } else {
        assert((a + b).drop_last() =~= a + b.drop_last());
        assert((a + b).last() == b.last());
        lemma_pattern_width_concat(a, b.drop_last());
    }
}

/// A pattern's width is the sum of the widths of any front and back part.
pub proof fn lemma_pattern_width_split(p: Seq<Child>, i: int)
    requires
        0 <= i <= p.len(),
    ensures
        pattern_width_spec(p) == pattern_width_spec(p.take(i)) + pattern_width_spec(p.skip(i)),
{
    assert(p.take(i) + p.skip(i) =~= p);
    lemma_pattern_width_concat(p.take(i), p.skip(i));
}

/// The hierarchical sequence index: the owning arena of all vertices,
/// together with the instance-scoped counter that mints pattern ids.
///
/// A vertex's [`VertexIndex`] is its position in the arena; composite
/// vertices use that same number as their unique `VertexKey::Pattern` id.
///
/// The representation is public so that the contracts can speak of it
/// directly; the insertion operations are what establish and preserve
/// [`Hypergraph::wf`], and writing the fields by hand can break it.
#[derive(Debug)]
pub struct Hypergraph {
    /// The arena: every vertex ever created, in creation order.
    pub vertices: Vec<(VertexKey, VertexData)>,
    /// The next unissued decomposition id; ids are never reused.
    pub next_pattern_id: PatternId,
}

impl Hypergraph {
    /// Whether `i` names a vertex of this graph.
    pub open spec fn valid_index(self, i: VertexIndex) -> bool {
        i < self.vertices@.len()
    }

    /// The key of the vertex at `i`.
    pub open spec fn key_at(self, i: VertexIndex) -> VertexKey {
        self.vertices@[i as int].0
    }

    /// The data of the vertex at `i`.
    pub open spec fn data_at(self, i: VertexIndex) -> VertexData {
        self.vertices@[i as int].1
    }

    /// The token width of the vertex at `i`.
    pub open spec fn width_at(self, i: VertexIndex) -> TokenPosition {
        self.data_at(i).width
    }

    /// The sum of the widths of the named vertices; an index outside the
    /// graph contributes nothing.
    pub open spec fn widths_sum(self, s: Seq<VertexIndex>) -> int
        decreases s.len(),
    {
        if s.len() == 0 {
            0
        } else {
            self.widths_sum(s.drop_last()) + if self.valid_index(s.last()) {
                self.width_at(s.last()) as int
            } else {
                0
            }
        }
    }

    /// A prefix of a width sum grows by the width of the element added.
    pub proof fn lemma_widths_sum_take(self, s: Seq<VertexIndex>, i: int)
        requires
            0 <= i < s.len(),
        ensures
            self.widths_sum(s.take(i + 1)) == self.widths_sum(s.take(i)) + if self.valid_index(
                s[i],
            ) {
                self.width_at(s[i]) as int
            } else {
                0
            },
    {
        assert(s.take(i + 1).drop_last() =~= s.take(i));
        assert(s.take(i + 1).last() == s[i]);
    }

    /// Width sums are never negative.
    pub proof fn lemma_widths_sum_nonneg(self, s: Seq<VertexIndex>)
        ensures
            self.widths_sum(s) >= 0,
        decreases s.len(),
    {
        if s.len() > 0 {
            self.lemma_widths_sum_nonneg(s.drop_last());
        }
    }

    /// A prefix's width sum never exceeds the whole sum.
    pub proof fn lemma_widths_sum_take_le(self, s: Seq<VertexIndex>, i: int)
        requires
            0 <= i <= s.len(),
        ensures
            self.widths_sum(s.take(i)) <= self.widths_sum(s),
        decreases s.len() - i,
    {
        if i == s.len() {
            assert(s.take(i) =~= s);
        } else {
            self.lemma_widths_sum_take(s, i);
            self.lemma_widths_sum_take_le(s, i + 1);
        }
    }

    /// A pattern whose children name the vertices of `s` with their exact
    /// widths spans exactly the sum of those widths.
    pub proof fn lemma_widths_sum_matches_pattern(self, s: Seq<VertexIndex>, pat: Seq<Child>)
        requires
            pat.len() == s.len(),
            forall|k: int|
                0 <= k < s.len() ==> self.valid_index(#[trigger] s[k]) && pat[k].index == s[k]
                    && pat[k].width == self.width_at(s[k]),
        ensures
            pattern_width_spec(pat) == self.widths_sum(s),
        decreases s.len(),
    {
        if s.len() > 0 {
            assert(forall|k: int|
                0 <= k < s.len() - 1 ==> #[trigger] s.drop_last()[k] == s[k]
                    && pat.drop_last()[k] == pat[k]);
            self.lemma_widths_sum_matches_pattern(s.drop_last(), pat.drop_last());
        }
    }

    /// Parent maps carry unique keys and duplicate-free occurrence lists.
    /// This fragment of well-formedness is what insertion needs of the
    /// graph it starts from.
    pub open spec fn parents_clean(self) -> bool {
        forall|i: VertexIndex|
            self.valid_index(i) ==> {
                &&& keys_unique(self.data_at(i).parents@)
                &&& forall|j: int|
                    0 <= j < self.data_at(i).parents@.len()
                        ==> (#[trigger] self.data_at(i).parents@[j]).1.indices_unique()
            }
    }

    /// A well-formed graph has clean parent maps.
    pub proof fn lemma_wf_parents_clean(self)
        requires
            self.wf(),
        ensures
            self.parents_clean(),
    {
        assert forall|i: VertexIndex| self.valid_index(i) implies {
            &&& keys_unique(self.data_at(i).parents@)
            &&& forall|j: int|
                0 <= j < self.data_at(i).parents@.len()
                    ==> (#[trigger] self.data_at(i).parents@[j]).1.indices_unique()
        } by {
            assert(self.wf_vertex(i));
            let ps = self.data_at(i).parents@;
            assert forall|j: int| 0 <= j < ps.len() implies (#[trigger] ps[j]).1.indices_unique()
                by {
                assert(has_key(ps, ps[j].0));
                assert(self.data_at(i).has_parent(ps[j].0));
                assert(self.wf_parent_of(i, ps[j].0));
                crate::assoc::lemma_lookup_unique(ps, ps[j].0, j);
            }
        }
    }

    /// Well-formedness of the decomposition registered under `pid` on the
    /// vertex at `vi`: the pattern is nonempty, carries an issued id, spans
    /// exactly the vertex's width, and every child is a valid vertex whose
    /// cached width is exact and which holds the matching back-reference.
    pub open spec fn wf_pattern_of(self, vi: VertexIndex, pid: PatternId) -> bool {
        let pat = self.data_at(vi).child_pattern(pid).unwrap()@;
        &&& pat.len() >= 1
        &&& pid < self.next_pattern_id
        &&& pattern_width_spec(pat) == self.width_at(vi)
        &&& forall|k: int|
            0 <= k < pat.len() ==> {
                &&& self.valid_index(#[trigger] pat[k].index)
                &&& pat[k].width == self.width_at(pat[k].index)
                &&& self.data_at(pat[k].index).parent(vi) matches Some(pr)
                    && pr.pattern_indices@.contains((pid, k as usize))
            }
    }

    /// Well-formedness of the parent back-reference of the vertex at `vi`
    /// for the containing vertex `pv`: it names a valid vertex, caches that
    /// vertex's width, and every recorded occurrence names a real child
    /// slot holding `vi`.
    pub open spec fn wf_parent_of(self, vi: VertexIndex, pv: VertexIndex) -> bool {
        let pr = self.data_at(vi).parent(pv).unwrap();
        &&& self.valid_index(pv)
        &&& pr.width == self.width_at(pv)
        &&& pr.indices_unique()
        &&& pr.pattern_indices@.len() >= 1
        &&& forall|k: int|
            0 <= k < pr.pattern_indices@.len() ==> {
                let pid = #[trigger] pr.pattern_indices@[k].0;
                let pos = pr.pattern_indices@[k].1;
                &&& self.data_at(pv).child_pattern(pid) matches Some(pat) && pos < pat@.len()
                    && pat@[pos as int].index == vi
            }
    }

    /// Well-formedness of one vertex.
    pub open spec fn wf_vertex(self, vi: VertexIndex) -> bool {
        let key = self.key_at(vi);
        let d = self.data_at(vi);
        &&& d.width >= 1
        &&& keys_unique(d.children@)
        &&& keys_unique(d.parents@)
        &&& (key is Token ==> d.width == 1 && d.children@.len() == 0)
        &&& (key matches VertexKey::Pattern(id) ==> id == vi && d.children@.len() >= 1)
        &&& forall|pid: PatternId| d.has_child_pattern(pid) ==> self.wf_pattern_of(vi, pid)
        &&& forall|pv: VertexIndex| d.has_parent(pv) ==> self.wf_parent_of(vi, pv)
    }

    /// Well-formedness of the graph: keys are unique and every vertex is
    /// well-formed.  This implies width conservation and referential
    /// symmetry for the whole graph.
    pub open spec fn wf(self) -> bool {
        &&& forall|i: VertexIndex, j: VertexIndex|
            self.valid_index(i) && self.valid_index(j) && i != j ==> self.key_at(i) != self.key_at(
                j,
            )
        &&& forall|i: VertexIndex| self.valid_index(i) ==> self.wf_vertex(i)
    }

    /// Creates an empty graph.
    pub fn new() -> (r: Self)
        ensures
            r.vertices@.len() == 0,
            r.next_pattern_id == 0,
            r.wf(),
    {
        Self { vertices: Vec::new(), next_pattern_id: 0 }
    }

    /// The number of vertices ever created.
    pub fn vertex_count(&self) -> (r: usize)
        ensures
            r == self.vertices@.len(),
    {
        self.vertices.len()
    }

    /// The vertex stored at `index`, if any.
    pub fn get_vertex(&self, index: VertexIndex) -> (r: Option<&(VertexKey, VertexData)>)
        ensures
            r matches Some(v) ==> self.valid_index(index) && *v == self.vertices@[index as int],
            r is None ==> !self.valid_index(index),
    {
        if index < self.vertices.len() {
            Some(&self.vertices[index])
        } else {
            None
        }
    }

    /// The data of the vertex at `index`, if any.
    pub fn get_vertex_data(&self, index: VertexIndex) -> (r: Option<&VertexData>)
        ensures
            r matches Some(d) ==> self.valid_index(index) && *d == self.data_at(index),
            r is None ==> !self.valid_index(index),
    {
        match self.get_vertex(index) {
            Some(v) => Some(&v.1),
            None => None,
        }
    }

    /// The data of the vertex at `index`, which must exist.
    pub fn expect_vertex_data(&self, index: VertexIndex) -> (r: &VertexData)
        requires
            self.valid_index(index),
        ensures
            *r == self.data_at(index),
    {
        &self.vertices[index].1
    }

    /// The key and data of the vertex at `index`, which must exist.
    pub fn expect_vertex(&self, index: VertexIndex) -> (r: &(VertexKey, VertexData))
        requires
            self.valid_index(index),
        ensures
            *r == self.vertices@[index as int],
    {
        &self.vertices[index]
    }

    /// The token width of the vertex at `index`, which must exist.
    pub fn index_width(&self, index: VertexIndex) -> (r: TokenPosition)
        requires
            self.valid_index(index),
        ensures
            r == self.width_at(index),
    {
        self.vertices[index].1.width
    }

    /// The index of the vertex stored under `key`, if any.
    pub fn find_index_by_key(&self, key: &VertexKey) -> (r: Option<VertexIndex>)
        ensures
            r matches Some(i) ==> self.valid_index(i) && self.key_at(i) == *key,
            r is None ==> forall|i: VertexIndex|
                self.valid_index(i) ==> self.key_at(i) != *key,
    {
        let n = self.vertices.len();
        let mut i: usize = 0;
        while i < n
            invariant
                n == self.vertices@.len(),
                i <= n,
                forall|j: VertexIndex| j < i ==> self.vertices@[j as int].0 != *key,
            decreases n - i,
        {
            if self.vertices[i].0 == *key {
                return Some(i);
            }
            i += 1;
        }
        None
    }

    /// The total token span of a pattern, measured by the graph's own
    /// vertex widths rather than the cached ones; an index outside the
    /// graph contributes nothing.
    pub open spec fn children_widths(self, s: Seq<Child>) -> int
        decreases s.len(),
    {
        if s.len() == 0 {
            0
        } else {
            (if self.valid_index(s[0].index) {
                self.width_at(s[0].index) as int
            } else {
                0
            }) + self.children_widths(s.drop_first())
        }
    }

    /// Concatenation sums graph-measured widths.
    pub proof fn lemma_children_widths_concat(self, a: Seq<Child>, b: Seq<Child>)
        ensures
            self.children_widths(a + b) == self.children_widths(a) + self.children_widths(b),
        decreases a.len(),
    {
        if a.len() == 0 {
            assert(a + b =~= b);
        } else {
            assert((a + b).drop_first() =~= a.drop_first() + b);
            assert((a + b)[0] == a[0]);
            self.lemma_children_widths_concat(a.drop_first(), b);
        }
    }

    /// A pattern splits into any front part and the rest.
    pub proof fn lemma_children_widths_split(self, s: Seq<Child>, i: int)
        requires
            0 <= i <= s.len(),
        ensures
            self.children_widths(s) == self.children_widths(s.take(i)) + self.children_widths(
                s.skip(i),
            ),
    {
        assert(s.take(i) + s.skip(i) =~= s);
        self.lemma_children_widths_concat(s.take(i), s.skip(i));
    }

    /// On a pattern whose cached widths are exact, the graph-measured
    /// width and the cached width agree.
    pub proof fn lemma_children_widths_cached(self, s: Seq<Child>)
        requires
            forall|k: int|
                0 <= k < s.len() ==> self.valid_index((#[trigger] s[k]).index) && s[k].width
                    == self.width_at(s[k].index),
        ensures
            self.children_widths(s) == pattern_width_spec(s),
        decreases s.len(),
    {
        if s.len() > 0 {
            assert(self.valid_index(s[0].index) && s[0].width == self.width_at(s[0].index));
            assert(forall|k: int|
                0 <= k < s.drop_first().len() ==> self.valid_index(
                    (#[trigger] s.drop_first()[k]).index,
                ) && s.drop_first()[k].width == self.width_at(s.drop_first()[k].index));
            self.lemma_children_widths_cached(s.drop_first());
            lemma_pattern_width_split(s, 1);
            assert(pattern_width_spec(s.take(1)) == s[0].width) by {
                assert(s.take(1).len() == 1);
                assert(s.take(1).drop_last() =~= Seq::<Child>::empty());
                assert(pattern_width_spec(Seq::<Child>::empty()) == 0);
                assert(s.take(1).last() == s[0]);
            }
            assert(s.skip(1) =~= s.drop_first());
        }
    }

    /// Graph-measured widths are never negative.
    pub proof fn lemma_children_widths_nonneg(self, s: Seq<Child>)
        ensures
            self.children_widths(s) >= 0,
        decreases s.len(),
    {
        if s.len() > 0 {
            self.lemma_children_widths_nonneg(s.drop_first());
        }
    }

    /// A prefix of a graph-measured width sum grows by the named vertex's
    /// width.
    pub proof fn lemma_children_widths_take_step(self, s: Seq<Child>, i: int)
        requires
            0 <= i < s.len(),
        ensures
            self.children_widths(s.take(i + 1)) == self.children_widths(s.take(i)) + if self
                .valid_index(s[i].index) {
                self.width_at(s[i].index) as int
            } else {
                0
            },
    {
        assert(s.take(i + 1) =~= s.take(i) + seq![s[i]]);
        self.lemma_children_widths_concat(s.take(i), seq![s[i]]);
        assert(seq![s[i]][0] == s[i]);
        assert(seq![s[i]].drop_first() =~= Seq::<Child>::empty());
        assert(self.children_widths(Seq::<Child>::empty()) == 0);
    }

    /// The graph-measured width of a pattern depends only on the vertices
    /// its children name.
    pub proof fn lemma_children_widths_indices(self, a: Seq<Child>, b: Seq<Child>)
        requires
            a.len() == b.len(),
            forall|k: int| 0 <= k < a.len() ==> (#[trigger] a[k]).index == b[k].index,
        ensures
            self.children_widths(a) == self.children_widths(b),
        decreases a.len(),
    {
        if a.len() > 0 {
            assert(a[0].index == b[0].index);
            assert(forall|k: int|
                0 <= k < a.drop_first().len() ==> (#[trigger] a.drop_first()[k]).index
                    == a[k + 1].index && b.drop_first()[k].index == b[k + 1].index);
            self.lemma_children_widths_indices(a.drop_first(), b.drop_first());
        }
    }

    /// In a well-formed graph, the decomposition stored at position `j` of
    /// a vertex's pattern list spans the vertex's width, measured either
    /// way, and each of its children caches its vertex's exact width.
    pub proof fn lemma_stored_pattern_widths(self, root: VertexIndex, j: int)
        requires
            self.wf(),
            self.valid_index(root),
            0 <= j < self.data_at(root).children@.len(),
        ensures
            pattern_width_spec(self.data_at(root).children@[j].1@) == self.width_at(root),
            self.children_widths(self.data_at(root).children@[j].1@) == self.width_at(root),
            forall|k: int|
                0 <= k < self.data_at(root).children@[j].1@.len() ==> {
                    let c = #[trigger] self.data_at(root).children@[j].1@[k];
                    &&& self.valid_index(c.index)
                    &&& c.width == self.width_at(c.index)
                    &&& c.width >= 1
                },
    {
        assert(self.wf_vertex(root));
        let d = self.data_at(root);
        let pid = d.children@[j].0;
        assert(has_key(d.children@, pid));
        assert(d.has_child_pattern(pid));
        assert(self.wf_pattern_of(root, pid));
        crate::assoc::lemma_lookup_unique(d.children@, pid, j);
        assert(d.child_pattern(pid) == Some(d.children@[j].1));
        assert forall|k: int| 0 <= k < d.children@[j].1@.len() implies {
            let c = #[trigger] self.data_at(root).children@[j].1@[k];
            &&& self.valid_index(c.index)
            &&& c.width == self.width_at(c.index)
            &&& c.width >= 1
        } by {
            let c = d.children@[j].1@[k];
            assert(self.valid_index(c.index) && c.width == self.width_at(c.index));
            assert(self.wf_vertex(c.index));
        }
        self.lemma_children_widths_cached(d.children@[j].1@);
    }

    /// Exports the graph as a plain edge list for tooling: one
    /// `(containing vertex, child vertex)` pair for every parent
    /// back-reference, in vertex order.  Every listed edge is a real
    /// back-reference and every back-reference is listed.
    pub fn edge_list(&self) -> (r: Vec<(VertexIndex, VertexIndex)>)
        ensures
            forall|m: int|
                0 <= m < r@.len() ==> self.valid_index((#[trigger] r@[m]).1) && self.data_at(
                    r@[m].1,
                ).has_parent(r@[m].0),
            forall|i: VertexIndex, j: int|
                self.valid_index(i) && 0 <= j < self.data_at(i).parents@.len() ==> r@.contains(
                    ((#[trigger] self.data_at(i).parents@[j]).0, i),
                ),
    {
        let mut r: Vec<(VertexIndex, VertexIndex)> = Vec::new();
        let n = self.vertices.len();
        let mut i: usize = 0;
        while i < n
            invariant
                n == self.vertices@.len(),
                i <= n,
                forall|m: int|
                    0 <= m < r@.len() ==> self.valid_index((#[trigger] r@[m]).1) && self.data_at(
                        r@[m].1,
                    ).has_parent(r@[m].0),
                forall|i2: VertexIndex, j: int|
                    i2 < i && 0 <= j < self.data_at(i2).parents@.len() ==> r@.contains(
                        ((#[trigger] self.data_at(i2).parents@[j]).0, i2),
                    ),
            decreases n - i,
        {
            let plen = self.vertices[i].1.parents.len();
            let mut j: usize = 0;
            while j < plen
                invariant
                    n == self.vertices@.len(),
                    i < n,
                    plen == self.data_at(i).parents@.len(),
                    j <= plen,
                    forall|m: int|
                        0 <= m < r@.len() ==> self.valid_index((#[trigger] r@[m]).1)
                            && self.data_at(r@[m].1).has_parent(r@[m].0),
                    forall|i2: VertexIndex, j2: int|
                        i2 < i && 0 <= j2 < self.data_at(i2).parents@.len() ==> r@.contains(
                            ((#[trigger] self.data_at(i2).parents@[j2]).0, i2),
                        ),
                    forall|j2: int|
                        0 <= j2 < j ==> r@.contains(
                            ((#[trigger] self.data_at(i).parents@[j2]).0, i),
                        ),
                decreases plen - j,
            {
                let pv = self.vertices[i].1.parents[j].0;
                let ghost r0 = r@;
                r.push((pv, i));
                proof {
                    broadcast use vstd::seq_lib::lemma_seq_contains_after_push;

                    assert(has_key(self.data_at(i).parents@, pv)) by {
                        assert(self.data_at(i).parents@[j as int].0 == pv);
                    }
                    assert(r@ == r0.push((pv, i)));
                }
                j += 1;
            }
            i += 1;
        }
        r
    }

    /// Width conservation: every decomposition registered on a vertex of a
    /// well-formed graph spans exactly that vertex's width.
    pub proof fn lemma_width_conservation(self, vi: VertexIndex, pid: PatternId)
        requires
            self.wf(),
            self.valid_index(vi),
            self.data_at(vi).child_pattern(pid) is Some,
        ensures
            pattern_width_spec(self.data_at(vi).child_pattern(pid).unwrap()@) == self.width_at(vi),
    {
        let d = self.data_at(vi);
        lemma_lookup_finds_pair(d.children@, pid);
        assert(d.has_child_pattern(pid));
        assert(self.wf_pattern_of(vi, pid));
    }

    /// Referential symmetry, forward direction: every child occurrence in
    /// a decomposition is mirrored by a parent back-reference on the child,
    /// which also caches the containing vertex's width.
    pub proof fn lemma_child_has_parent(self, vi: VertexIndex, pid: PatternId, pos: usize)
        requires
            self.wf(),
            self.valid_index(vi),
            self.data_at(vi).child_pattern(pid) is Some,
            pos < self.data_at(vi).child_pattern(pid).unwrap()@.len(),
        ensures
            self.valid_index(self.data_at(vi).child_pattern(pid).unwrap()@[pos as int].index),
            self.data_at(self.data_at(vi).child_pattern(pid).unwrap()@[pos as int].index).parent(
                vi,
            ) matches Some(pr) && pr.pattern_indices@.contains((pid, pos)) && pr.width
                == self.width_at(vi),
    {
        let d = self.data_at(vi);
        lemma_lookup_finds_pair(d.children@, pid);
        assert(d.has_child_pattern(pid));
        assert(self.wf_pattern_of(vi, pid));
        let pat = d.child_pattern(pid).unwrap()@;
        let c = pat[pos as int];
        assert(self.valid_index(c.index) && self.data_at(c.index).parent(vi) is Some);
        lemma_lookup_finds_pair(self.data_at(c.index).parents@, vi);
        assert(self.data_at(c.index).has_parent(vi));
        assert(self.wf_parent_of(c.index, vi));
    }

    /// Referential symmetry, backward direction: no parent back-reference
    /// dangles; each recorded occurrence names a real child slot holding
    /// the referencing vertex.
    pub proof fn lemma_parent_has_child(
        self,
        c: VertexIndex,
        v: VertexIndex,
        pid: PatternId,
        pos: usize,
    )
        requires
            self.wf(),
            self.valid_index(c),
            self.data_at(c).parent(v) is Some,
            self.data_at(c).parent(v).unwrap().pattern_indices@.contains((pid, pos)),
        ensures
            self.valid_index(v),
            self.data_at(v).child_pattern(pid) matches Some(pat) && pos < pat@.len()
                && pat@[pos as int].index == c,
            self.data_at(c).parent(v).unwrap().width == self.width_at(v),
    {
        let d = self.data_at(c);
        lemma_lookup_finds_pair(d.parents@, v);
        assert(d.has_parent(v));
        assert(self.wf_parent_of(c, v));
        let pr = d.parent(v).unwrap();
        let k = choose|k: int|
            0 <= k < pr.pattern_indices@.len() && pr.pattern_indices@[k] == (pid, pos);
        assert(self.data_at(v).child_pattern(pr.pattern_indices@[k].0) matches Some(pat)
            && pr.pattern_indices@[k].1 < pat@.len() && pat@[pr.pattern_indices@[k].1 as int].index
            == c);
    }
}

} // verus!
