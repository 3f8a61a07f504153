//! Insertion: building new composite vertices from existing ones and
//! wiring the parent back-references.
//!
//! All operations are append-only: a vertex, once created, is never
//! removed, and indices and pattern ids are never reused.  Every operation
//! states how it changes the graph and that it preserves well-formedness
//! on the inputs the data model allows.

use vstd::prelude::*;
use crate::assoc::{has_key, keys_unique, lemma_lookup_finds_pair, lemma_haskey_lookup};
use crate::error::HypergraphError;
use crate::graph::{Hypergraph, pattern_width_spec, lemma_pattern_width_element};
use crate::vertex::{Child, Pattern, PatternId, Token, TokenPosition, VertexData, VertexIndex,
    VertexKey};

verus! {

/// Appending a vertex to a well-formed graph leaves every existing vertex
/// well-formed: nothing an existing vertex refers to has changed.
proof fn lemma_wf_append(g0: Hypergraph, g1: Hypergraph)
    requires
        g0.wf(),
        g0.vertices@.len() < g1.vertices@.len(),
        forall|j: int| 0 <= j < g0.vertices@.len() ==> g1.vertices@[j] == g0.vertices@[j],
        g1.next_pattern_id >= g0.next_pattern_id,
    ensures
        forall|i: VertexIndex| i < g0.vertices@.len() ==> g1.wf_vertex(i),
{
    let n0 = g0.vertices@.len();
    assert forall|i: VertexIndex| i < n0 implies g1.wf_vertex(i) by {
        assert(g0.wf_vertex(i));
        assert(g1.data_at(i) == g0.data_at(i));
        assert(g1.key_at(i) == g0.key_at(i));
        let d = g1.data_at(i);
        assert forall|pid: PatternId| d.has_child_pattern(pid) implies g1.wf_pattern_of(i, pid)
            by {
            assert(g0.wf_pattern_of(i, pid));
            let pat = g0.data_at(i).child_pattern(pid).unwrap()@;
            assert forall|k: int| 0 <= k < pat.len() implies {
                &&& g1.valid_index(#[trigger] pat[k].index)
                &&& pat[k].width == g1.width_at(pat[k].index)
                &&& g1.data_at(pat[k].index).parent(i) matches Some(pr)
                    && pr.pattern_indices@.contains((pid, k as usize))
            } by {
                assert(g0.valid_index(pat[k].index));
                assert(g1.data_at(pat[k].index) == g0.data_at(pat[k].index));
            }
        }
        assert forall|pv: VertexIndex| d.has_parent(pv) implies g1.wf_parent_of(i, pv) by {
            assert(g0.wf_parent_of(i, pv));
            assert(g0.valid_index(pv));
            assert(g1.data_at(pv) == g0.data_at(pv));
        }
    }
}

impl Hypergraph {
    /// Raw insertion of a vertex under a key.  Keys are expected unique: a
    /// key already present returns the existing vertex's index and leaves
    /// the graph unchanged instead of overwriting it.
    pub fn insert_vertex(&mut self, key: VertexKey, data: VertexData) -> (r: VertexIndex)
        ensures
            final(self).next_pattern_id == old(self).next_pattern_id,
            (exists|i: VertexIndex| old(self).valid_index(i) && old(self).key_at(i) == key) ==> {
                &&& final(self).vertices@ == old(self).vertices@
                &&& old(self).valid_index(r) && old(self).key_at(r) == key
            },
            !(exists|i: VertexIndex| old(self).valid_index(i) && old(self).key_at(i) == key) ==> {
                &&& final(self).vertices@ == old(self).vertices@.push((key, data))
                &&& r == old(self).vertices@.len()
            },
    {
        match self.find_index_by_key(&key) {
            Some(i) => i,
            None => {
                let r = self.vertices.len();
                self.vertices.push((key, data));
                r
            },
        }
    }

    /// Creates (or finds) the leaf vertex for a single token.  Leaves have
    /// width 1 and no children.
    pub fn insert_token(&mut self, token: Token) -> (r: VertexIndex)
        ensures
            final(self).next_pattern_id == old(self).next_pattern_id,
            old(self).wf() ==> final(self).wf(),
            final(self).valid_index(r),
            final(self).key_at(r) == VertexKey::Token(token),
            old(self).vertices@.len() <= final(self).vertices@.len() <= old(self).vertices@.len()
                + 1,
            forall|j: int|
                0 <= j < old(self).vertices@.len()
                    ==> final(self).vertices@[j] == old(self).vertices@[j],
            (exists|i: VertexIndex|
                old(self).valid_index(i) && old(self).key_at(i) == VertexKey::Token(token))
                ==> final(self).vertices@ == old(self).vertices@,
            !(exists|i: VertexIndex|
                old(self).valid_index(i) && old(self).key_at(i) == VertexKey::Token(token)) ==> {
                &&& final(self).vertices@.len() == old(self).vertices@.len() + 1
                &&& r == old(self).vertices@.len()
                &&& final(self).width_at(r) == 1
                &&& final(self).data_at(r).children@.len() == 0
                &&& final(self).data_at(r).parents@.len() == 0
            },
            old(self).wf() ==> final(self).width_at(r) == 1
                && final(self).data_at(r).children@.len() == 0,
    {
        let ghost g0 = *self;
        let data = VertexData::with_width(1);
        let r = self.insert_vertex(VertexKey::Token(token), data);
        proof {
            if g0.wf() {
                if exists|i: VertexIndex| g0.valid_index(i) && g0.key_at(i) == VertexKey::Token(
                    token,
                ) {
                    assert(final(self).vertices@ == g0.vertices@);
                    assert(self.wf()) by {
                        assert forall|i: VertexIndex, j: VertexIndex|
                            self.valid_index(i) && self.valid_index(j) && i != j implies self
                            .key_at(i) != self.key_at(j) by {
                            assert(g0.key_at(i) != g0.key_at(j));
                        }
                        assert forall|i: VertexIndex| self.valid_index(i) implies self.wf_vertex(
                            i,
                        ) by {
                            assert(g0.wf_vertex(i));
                            lemma_wf_same(g0, *self, i);
                        }
                    }
                    assert(g0.wf_vertex(r));
                } else {
                    let n0 = g0.vertices@.len();
                    assert(self.vertices@ == g0.vertices@.push(
                        (VertexKey::Token(token), data),
                    ));
                    lemma_wf_append(g0, *self);
                    assert(self.wf_vertex(r)) by {
                        assert(self.data_at(r).children@.len() == 0);
                        assert(self.data_at(r).parents@.len() == 0);
                        assert(forall|pid: PatternId| !has_key(self.data_at(r).children@, pid));
                        assert(forall|pv: VertexIndex| !has_key(self.data_at(r).parents@, pv));
                    }
                    assert forall|i: VertexIndex, j: VertexIndex|
                        self.valid_index(i) && self.valid_index(j) && i != j implies self.key_at(i)
                        != self.key_at(j) by {
                        if i < n0 && j < n0 {
                            assert(g0.key_at(i) != g0.key_at(j));
                        }
                    }
                }
            }
        }
        r
    }

    /// Creates (or finds) leaf vertices for each of the given tokens, in
    /// order.
    pub fn insert_tokens(&mut self, tokens: &Vec<Token>) -> (r: Vec<VertexIndex>)
        ensures
            r@.len() == tokens@.len(),
            final(self).next_pattern_id == old(self).next_pattern_id,
            old(self).wf() ==> final(self).wf(),
            old(self).vertices@.len() <= final(self).vertices@.len(),
            forall|j: int|
                0 <= j < old(self).vertices@.len()
                    ==> final(self).vertices@[j] == old(self).vertices@[j],
            forall|k: int|
                0 <= k < r@.len() ==> final(self).valid_index(#[trigger] r@[k])
                    && final(self).key_at(r@[k]) == VertexKey::Token(tokens@[k]),
            old(self).wf() ==> forall|k: int|
                0 <= k < r@.len() ==> final(self).width_at(#[trigger] r@[k]) == 1,
    {
        let ghost g0 = *self;
        let mut r: Vec<VertexIndex> = Vec::new();
        let mut i: usize = 0;
        while i < tokens.len()
            invariant
                i <= tokens@.len(),
                r@.len() == i,
                self.next_pattern_id == g0.next_pattern_id,
                g0.wf() ==> self.wf(),
                g0.vertices@.len() <= self.vertices@.len(),
                forall|j: int|
                    0 <= j < g0.vertices@.len() ==> self.vertices@[j] == g0.vertices@[j],
                forall|k: int|
                    0 <= k < i ==> self.valid_index(#[trigger] r@[k]) && self.key_at(r@[k])
                        == VertexKey::Token(tokens@[k]),
                g0.wf() ==> forall|k: int|
                    0 <= k < i ==> self.width_at(#[trigger] r@[k]) == 1,
            decreases tokens@.len() - i,
        {
            let ghost gpre = *self;
            let idx = self.insert_token(tokens[i]);
            r.push(idx);
            proof {
                assert(forall|k: int|
                    0 <= k < i ==> r@[k] == r@.drop_last()[k]);
                assert forall|k: int| 0 <= k < i + 1 implies self.valid_index(#[trigger] r@[k])
                    && self.key_at(r@[k]) == VertexKey::Token(tokens@[k]) by {
                    if k < i {
                        assert(gpre.valid_index(r@[k]));
                        assert(self.vertices@[r@[k] as int] == gpre.vertices@[r@[k] as int]);
                    }
                }
                if g0.wf() {
                    assert forall|k: int| 0 <= k < i + 1 implies self.width_at(#[trigger] r@[k])
                        == 1 by {
                        if k < i {
                            assert(gpre.width_at(r@[k]) == 1);
                            assert(self.vertices@[r@[k] as int] == gpre.vertices@[r@[k] as int]);
                        }
                    }
                }
            }
            i += 1;
        }
        r
    }
}

impl Hypergraph {
    /// Computes the total width of the prospective pattern and the child
    /// entries that cache each named vertex's current width, or the first
    /// index that names no vertex.
    fn to_width_children(&self, indices: &Vec<VertexIndex>) -> (r: Result<
        (TokenPosition, Pattern),
        HypergraphError,
    >)
        requires
            self.widths_sum(indices@) <= usize::MAX,
        ensures
            r is Ok <==> (forall|k: int|
                0 <= k < indices@.len() ==> self.valid_index(#[trigger] indices@[k])),
            r matches Ok(p) ==> {
                &&& p.0 == self.widths_sum(indices@)
                &&& p.1@.len() == indices@.len()
                &&& forall|k: int|
                    0 <= k < indices@.len() ==> (#[trigger] p.1@[k]).index == indices@[k]
                        && p.1@[k].width == self.width_at(indices@[k])
            },
            r matches Err(e) ==> e matches HypergraphError::VertexNotFound(x)
                && !self.valid_index(x) && indices@.contains(x),
    {
        let n = indices.len();
        let mut children: Pattern = Vec::new();
        let mut acc: usize = 0;
        let mut k: usize = 0;
        proof {
            assert(indices@.take(0) =~= Seq::<VertexIndex>::empty());
        }
        while k < n
            invariant
                n == indices@.len(),
                k <= n,
                self.widths_sum(indices@) <= usize::MAX,
                acc == self.widths_sum(indices@.take(k as int)),
                children@.len() == k,
                forall|m: int|
                    0 <= m < k ==> self.valid_index(#[trigger] indices@[m]),
                forall|m: int|
                    0 <= m < k ==> (#[trigger] children@[m]).index == indices@[m]
                        && children@[m].width == self.width_at(indices@[m]),
            decreases n - k,
        {
            let idx = indices[k];
            if idx >= self.vertices.len() {
                proof {
                    assert(indices@.contains(indices@[k as int]));
                }
                return Err(HypergraphError::VertexNotFound(idx));
            }
            let w = self.vertices[idx].1.width;
            proof {
                self.lemma_widths_sum_take(indices@, k as int);
                self.lemma_widths_sum_take_le(indices@, k + 1);
            }
            acc = acc + w;
            children.push(Child::new(idx, w));
            k += 1;
        }
        proof {
            assert(indices@.take(n as int) =~= indices@);
        }
        Ok((acc, children))
    }

    /// Installs the back-reference `(pattern_id, position)` on every vertex
    /// named by `indices`, pointing at the containing vertex
    /// `parent_index` of width `width`.
    fn add_parents_to_pattern_nodes(
        &mut self,
        indices: &Vec<VertexIndex>,
        parent_index: VertexIndex,
        width: TokenPosition,
        pattern_id: PatternId,
    )
        requires
            forall|k: int|
                0 <= k < indices@.len()
                    ==> (#[trigger] indices@[k]) < old(self).vertices@.len(),
        ensures
            final(self).vertices@.len() == old(self).vertices@.len(),
            final(self).next_pattern_id == old(self).next_pattern_id,
            forall|i: VertexIndex|
                i < final(self).vertices@.len() ==> (#[trigger] final(self).key_at(i))
                    == old(self).key_at(i) && final(self).width_at(i) == old(self).width_at(i)
                    && final(self).data_at(i).children@ == old(self).data_at(i).children@,
            forall|i: VertexIndex|
                i < final(self).vertices@.len() && !indices@.contains(i)
                    ==> (#[trigger] final(self).data_at(i)).parents@
                    == old(self).data_at(i).parents@,
            old(self).parents_clean() ==> {
                &&& forall|i: VertexIndex|
                    i < final(self).vertices@.len() ==> keys_unique(
                        (#[trigger] final(self).data_at(i)).parents@,
                    )
                &&& forall|i: VertexIndex|
                    i < final(self).vertices@.len() && indices@.contains(i)
                        ==> parent_wiring_of(*old(self), *final(self), indices@, parent_index,
                        width, pattern_id, i)
            },
    {
        let ghost g0 = *self;
        let n = indices.len();
        let mut k: usize = 0;
        proof {
            assert(indices@.take(0) =~= Seq::<VertexIndex>::empty());
            if g0.parents_clean() {
                assert forall|i: VertexIndex| i < self.vertices@.len() implies keys_unique(
                    (#[trigger] self.data_at(i)).parents@) by {
                    assert(g0.valid_index(i));
                    assert(keys_unique(g0.data_at(i).parents@));
                }
            }
        }
        while k < n
            invariant
                n == indices@.len(),
                k <= n,
                forall|m: int| 0 <= m < n ==> (#[trigger] indices@[m]) < g0.vertices@.len(),
                self.vertices@.len() == g0.vertices@.len(),
                self.next_pattern_id == g0.next_pattern_id,
                forall|i: VertexIndex|
                    i < self.vertices@.len() ==> (#[trigger] self.key_at(i)) == g0.key_at(i)
                        && self.width_at(i) == g0.width_at(i) && self.data_at(i).children@
                        == g0.data_at(i).children@,
                forall|i: VertexIndex|
                    i < self.vertices@.len() && !indices@.take(k as int).contains(i)
                        ==> (#[trigger] self.data_at(i)).parents@ == g0.data_at(i).parents@,
                g0.parents_clean() ==> {
                    &&& forall|i: VertexIndex|
                        i < self.vertices@.len() ==> keys_unique(
                            (#[trigger] self.data_at(i)).parents@,
                        )
                    &&& forall|i: VertexIndex|
                        i < self.vertices@.len() && indices@.take(k as int).contains(i)
                            ==> parent_wiring_of(g0, *self, indices@.take(k as int),
                            parent_index, width, pattern_id, i)
                },
            decreases n - k,
        {
            let c = indices[k];
            let ghost gpre = *self;
            let entry = &mut self.vertices[c];
            entry.1.add_parent(parent_index, width, pattern_id, k);
            proof {
                broadcast use vstd::seq_lib::lemma_seq_contains_after_push;

                let tk = indices@.take(k as int);
                let tk1 = indices@.take(k + 1);
                assert(tk1 =~= tk.push(indices@[k as int]));
                assert(self.vertices@.len() == gpre.vertices@.len());
                assert(forall|i: VertexIndex|
                    i < self.vertices@.len() && i != c ==> self.vertices@[i as int]
                        == gpre.vertices@[i as int]);
                assert(self.vertices@[c as int].0 == gpre.vertices@[c as int].0);
                assert(add_parent_post(gpre.data_at(c), self.data_at(c), parent_index, width,
                    pattern_id, k));
                assert forall|i: VertexIndex| i < self.vertices@.len() implies (
                #[trigger] self.key_at(i)) == g0.key_at(i) && self.width_at(i) == g0.width_at(i)
                    && self.data_at(i).children@ == g0.data_at(i).children@ by {
                    assert(gpre.key_at(i) == g0.key_at(i) && gpre.width_at(i) == g0.width_at(i)
                        && gpre.data_at(i).children@ == g0.data_at(i).children@);
                    if i != c {
                        assert(self.vertices@[i as int] == gpre.vertices@[i as int]);
                    }
                }
                assert forall|i: VertexIndex|
                    i < self.vertices@.len() && !tk1.contains(i) implies (
                #[trigger] self.data_at(i)).parents@ == g0.data_at(i).parents@ by {
                    assert(!tk.contains(i));
                    assert(gpre.data_at(i).parents@ == g0.data_at(i).parents@);
                    assert(i != c) by {
                        if i == c {
                            assert(tk1[k as int] == c);
                        }
                    }
                    assert(self.vertices@[i as int] == gpre.vertices@[i as int]);
                }
                if g0.parents_clean() {
                    assert(keys_unique(gpre.data_at(c).parents@));
                    assert forall|i: VertexIndex|
                        i < self.vertices@.len() implies keys_unique(
                        (#[trigger] self.data_at(i)).parents@) by {
                        if i != c {
                            assert(self.vertices@[i as int] == gpre.vertices@[i as int]);
                            assert(keys_unique(gpre.data_at(i).parents@));
                        }
                    }
                    if tk.contains(c) {
                        assert(parent_wiring_of(g0, gpre, tk, parent_index, width, pattern_id,
                            c));
                    } else {
                        assert(gpre.data_at(c).parents@ == g0.data_at(c).parents@);
                    }
                    assert forall|i: VertexIndex|
                        i < self.vertices@.len() && tk1.contains(i) implies parent_wiring_of(
                        g0, *self, tk1, parent_index, width, pattern_id, i) by {
                        if i == c {
                            lemma_wiring_step(g0, gpre, *self, indices@, parent_index, width,
                                pattern_id, k as int);
                        } else {
                            assert(tk.contains(i));
                            assert(parent_wiring_of(g0, gpre, tk, parent_index, width,
                                pattern_id, i));
                            assert(self.data_at(i) == gpre.data_at(i));
                            assert(parent_wiring_of(g0, *self, tk, parent_index, width,
                                pattern_id, i));
                            lemma_wiring_grow(g0, *self, indices@, parent_index, width,
                                pattern_id, i, k as int);
                        }
                    }
                }
            }
            k += 1;
        }
        proof {
            assert(indices@.take(n as int) =~= indices@);
        }
    }
}

/// The state of the parent back-references of vertex `i` after the
/// occurrences of `i` among `processed` have been wired to
/// `parent_index`: the entry for `parent_index` exists and holds exactly
/// the old occurrences plus one `(pattern_id, m)` pair for every position
/// `m` of `processed` holding `i`; everything else is untouched.
pub open spec fn parent_wiring_of(
    g0: Hypergraph,
    g1: Hypergraph,
    processed: Seq<VertexIndex>,
    parent_index: VertexIndex,
    width: TokenPosition,
    pattern_id: PatternId,
    i: VertexIndex,
) -> bool {
    &&& forall|v: VertexIndex|
        v != parent_index ==> g1.data_at(i).parent(v) == g0.data_at(i).parent(v)
    &&& forall|v: VertexIndex|
        g1.data_at(i).has_parent(v) <==> (g0.data_at(i).has_parent(v) || v == parent_index)
    &&& g1.data_at(i).parent(parent_index) is Some
    &&& {
        let pr = g1.data_at(i).parent(parent_index).unwrap();
        &&& pr.indices_unique()
        &&& pr.width == if g0.data_at(i).has_parent(parent_index) {
            g0.data_at(i).parent(parent_index).unwrap().width
        } else {
            width
        }
        &&& forall|q: (PatternId, usize)|
            pr.pattern_indices@.contains(q) <==> ((g0.data_at(i).parent(parent_index) is Some
                && g0.data_at(i).parent(parent_index).unwrap().pattern_indices@.contains(q)) || (
            q.0 == pattern_id && q.1 < processed.len() && processed[q.1 as int] == i))
    }
}

/// The wiring description only reads the old state's parent maps, so it
/// carries over to any earlier state with the same parent map.
proof fn lemma_wiring_transfer(
    g0: Hypergraph,
    g1: Hypergraph,
    g2: Hypergraph,
    indices: Seq<VertexIndex>,
    target: VertexIndex,
    width: TokenPosition,
    pid: PatternId,
    i: VertexIndex,
)
    requires
        i < g0.vertices@.len(),
        i < g1.vertices@.len(),
        g1.data_at(i).parents@ == g0.data_at(i).parents@,
        parent_wiring_of(g1, g2, indices, target, width, pid, i),
    ensures
        parent_wiring_of(g0, g2, indices, target, width, pid, i),
{
    assert(forall|v: VertexIndex|
        #[trigger] g0.data_at(i).parent(v) == g1.data_at(i).parent(v));
    assert(forall|v: VertexIndex|
        #[trigger] g0.data_at(i).has_parent(v) == g1.data_at(i).has_parent(v));
}

/// A vertex other than the one touched at step `k` keeps its wiring
/// description when the processed prefix grows by one position.
proof fn lemma_wiring_grow(
    g0: Hypergraph,
    g1: Hypergraph,
    indices: Seq<VertexIndex>,
    parent_index: VertexIndex,
    width: TokenPosition,
    pattern_id: PatternId,
    i: VertexIndex,
    k: int,
)
    requires
        0 <= k < indices.len() <= usize::MAX,
        indices[k] != i,
        parent_wiring_of(g0, g1, indices.take(k), parent_index, width, pattern_id, i),
    ensures
        parent_wiring_of(g0, g1, indices.take(k + 1), parent_index, width, pattern_id, i),
{
    let tk = indices.take(k);
    let tk1 = indices.take(k + 1);
    assert(forall|m: int| 0 <= m < k ==> tk1[m] == tk[m]);
    assert(tk1[k] == indices[k]);
    let pr = g1.data_at(i).parent(parent_index).unwrap();
    assert forall|q: (PatternId, usize)|
        pr.pattern_indices@.contains(q) <==> ((g0.data_at(i).parent(parent_index) matches Some(p0)
            && p0.pattern_indices@.contains(q)) || (q.0 == pattern_id && q.1 < tk1.len()
            && tk1[q.1 as int] == i)) by {
        if q.0 == pattern_id && q.1 < tk1.len() && tk1[q.1 as int] == i {
            assert(q.1 != k);
            assert(tk[q.1 as int] == i);
        }
        if q.0 == pattern_id && q.1 < tk.len() && tk[q.1 as int] == i {
            assert(tk1[q.1 as int] == i);
        }
    }
}

/// One `add_parent` call extends the wiring description of the touched
/// vertex from the prefix of length `k` to the prefix of length `k + 1`.
proof fn lemma_wiring_step(
    g0: Hypergraph,
    gpre: Hypergraph,
    g1: Hypergraph,
    indices: Seq<VertexIndex>,
    parent_index: VertexIndex,
    width: TokenPosition,
    pattern_id: PatternId,
    k: int,
)
    requires
        0 <= k < indices.len() <= usize::MAX,
        indices[k] < g0.vertices@.len(),
        g0.vertices@.len() == gpre.vertices@.len() == g1.vertices@.len(),
        g0.parents_clean(),
        keys_unique(gpre.data_at(indices[k]).parents@),
        indices.take(k).contains(indices[k]) ==> parent_wiring_of(g0, gpre, indices.take(k),
            parent_index, width, pattern_id, indices[k]),
        !indices.take(k).contains(indices[k]) ==> gpre.data_at(indices[k]).parents@ == g0.data_at(
            indices[k],
        ).parents@,
        add_parent_post(gpre.data_at(indices[k]), g1.data_at(indices[k]), parent_index, width,
            pattern_id, k as usize),
    ensures
        parent_wiring_of(g0, g1, indices.take(k + 1), parent_index, width, pattern_id,
            indices[k]),
{
    let c = indices[k];
    let tk = indices.take(k);
    let tk1 = indices.take(k + 1);
    assert(forall|m: int| 0 <= m < k ==> tk1[m] == tk[m]);
    assert(tk1[k] == c);
    let dpre = gpre.data_at(c);
    let d0 = g0.data_at(c);
    let d1 = g1.data_at(c);
    assert(d1.parent(parent_index) is Some);
    let pr = d1.parent(parent_index).unwrap();
    // What the single call changed, from `add_parent_post`:
    assert(dpre.parent(parent_index) is Some ==> forall|q: (PatternId, usize)|
        pr.pattern_indices@.contains(q) <==> (dpre.parent(
            parent_index,
        ).unwrap().pattern_indices@.contains(q) || q == (pattern_id, k as usize)));
    assert(dpre.parent(parent_index) is None ==> forall|q: (PatternId, usize)|
        pr.pattern_indices@.contains(q) <==> q == (pattern_id, k as usize));
    // What the earlier calls left, either from the wiring so far or from
    // the untouched initial state:
    if tk.contains(c) {
        assert(dpre.parent(parent_index) is Some);
        let prpre = dpre.parent(parent_index).unwrap();
        assert(forall|q: (PatternId, usize)|
            prpre.pattern_indices@.contains(q) <==> ((d0.parent(parent_index) is Some
                && d0.parent(parent_index).unwrap().pattern_indices@.contains(q)) || (q.0
                == pattern_id && q.1 < tk.len() && tk[q.1 as int] == c)));
        assert forall|q: (PatternId, usize)|
            pr.pattern_indices@.contains(q) <==> ((d0.parent(parent_index) is Some && d0.parent(
                parent_index,
            ).unwrap().pattern_indices@.contains(q)) || (q.0 == pattern_id && q.1 < tk1.len()
                && tk1[q.1 as int] == c)) by {
            if pr.pattern_indices@.contains(q) {
                if prpre.pattern_indices@.contains(q) {
                    if !(d0.parent(parent_index) is Some && d0.parent(
                        parent_index,
                    ).unwrap().pattern_indices@.contains(q)) {
                        assert(q.0 == pattern_id && q.1 < tk.len() && tk[q.1 as int] == c);
                        assert(tk1[q.1 as int] == c);
                    }
                } else {
                    assert(q == (pattern_id, k as usize));
                    assert(q.1 < tk1.len() && tk1[q.1 as int] == c);
                }
            }
            if q.0 == pattern_id && q.1 < tk1.len() && tk1[q.1 as int] == c {
                if q.1 < k {
                    assert(tk[q.1 as int] == c);
                    assert(prpre.pattern_indices@.contains(q));
                } else {
                    assert(q.1 == k);
                    assert(q == (pattern_id, k as usize));
                }
                assert(pr.pattern_indices@.contains(q));
            }
            if d0.parent(parent_index) is Some && d0.parent(
                parent_index,
            ).unwrap().pattern_indices@.contains(q) {
                assert(prpre.pattern_indices@.contains(q));
                assert(pr.pattern_indices@.contains(q));
            }
        }
        assert forall|v: VertexIndex| v != parent_index implies g1.data_at(c).parent(v)
            == g0.data_at(c).parent(v) by {
            assert(dpre.parent(v) == d0.parent(v));
        }
        assert forall|v: VertexIndex|
            g1.data_at(c).has_parent(v) <==> (g0.data_at(c).has_parent(v) || v == parent_index)
            by {
            assert(d1.has_parent(v) <==> (dpre.has_parent(v) || v == parent_index));
            assert(dpre.has_parent(v) <==> (d0.has_parent(v) || v == parent_index));
        }
        assert(pr.indices_unique()) by {
            assert(prpre.indices_unique());
        }
        assert(pr.width == if d0.has_parent(parent_index) {
            d0.parent(parent_index).unwrap().width
        } else {
            width
        }) by {
            assert(pr.width == prpre.width);
        }
    } else {
        assert(dpre.parents@ == d0.parents@);
        assert(dpre.parent(parent_index) == d0.parent(parent_index));
        assert(forall|v: VertexIndex| dpre.parent(v) == d0.parent(v));
        assert(forall|v: VertexIndex| dpre.has_parent(v) == d0.has_parent(v));
        assert(forall|m: int| 0 <= m < k ==> tk[m] != c);
        if dpre.parent(parent_index) is Some {
            let p0 = dpre.parent(parent_index).unwrap();
            assert(d0.has_parent(parent_index)) by {
                lemma_lookup_finds_pair(d0.parents@, parent_index);
            }
            assert(p0.indices_unique()) by {
                assert(g0.valid_index(c));
                lemma_lookup_finds_pair(d0.parents@, parent_index);
                let j = choose|j: int|
                    0 <= j < d0.parents@.len() && d0.parents@[j].0 == parent_index
                        && d0.parents@[j].1 == d0.parent(parent_index).unwrap();
                assert(d0.parents@[j].1.indices_unique());
            }
            assert forall|q: (PatternId, usize)|
                pr.pattern_indices@.contains(q) <==> ((d0.parent(parent_index) is Some
                    && d0.parent(parent_index).unwrap().pattern_indices@.contains(q)) || (q.0
                    == pattern_id && q.1 < tk1.len() && tk1[q.1 as int] == c)) by {
                if q.0 == pattern_id && q.1 < tk1.len() && tk1[q.1 as int] == c {
                    assert(q.1 == k) by {
                        if q.1 < k {
                            assert(tk[q.1 as int] == c);
                        }
                    }
                    assert(q == (pattern_id, k as usize));
                }
            }
        } else {
            assert(!d0.has_parent(parent_index)) by {
                if d0.has_parent(parent_index) {
                    lemma_haskey_lookup(d0.parents@, parent_index);
                }
            }
            assert forall|q: (PatternId, usize)|
                pr.pattern_indices@.contains(q) <==> ((d0.parent(parent_index) is Some
                    && d0.parent(parent_index).unwrap().pattern_indices@.contains(q)) || (q.0
                    == pattern_id && q.1 < tk1.len() && tk1[q.1 as int] == c)) by {
                if q.0 == pattern_id && q.1 < tk1.len() && tk1[q.1 as int] == c {
                    assert(q.1 == k) by {
                        if q.1 < k {
                            assert(tk[q.1 as int] == c);
                        }
                    }
                    assert(q == (pattern_id, k as usize));
                }
            }
        }
    }
    assert(g1.data_at(c).parent(parent_index) is Some);
    assert(forall|v: VertexIndex|
        v != parent_index ==> g1.data_at(c).parent(v) == g0.data_at(c).parent(v));
    assert(forall|v: VertexIndex|
        g1.data_at(c).has_parent(v) <==> (g0.data_at(c).has_parent(v) || v == parent_index));
    assert(pr.indices_unique());
    assert(pr.width == if g0.data_at(c).has_parent(parent_index) {
        g0.data_at(c).parent(parent_index).unwrap().width
    } else {
        width
    });
    assert(forall|q: (PatternId, usize)|
        pr.pattern_indices@.contains(q) <==> ((g0.data_at(c).parent(parent_index) is Some
            && g0.data_at(c).parent(parent_index).unwrap().pattern_indices@.contains(q)) || (q.0
            == pattern_id && q.1 < tk1.len() && tk1[q.1 as int] == c)));
    assert(parent_wiring_of(g0, g1, tk1, parent_index, width, pattern_id, c));
}

/// What `VertexData::add_parent` guarantees of the touched vertex, under
/// unique parent keys, restated as a relation between the data before and
/// after the call.
pub open spec fn add_parent_post(
    dpre: VertexData,
    d1: VertexData,
    vertex: VertexIndex,
    width: TokenPosition,
    pattern: PatternId,
    index: usize,
) -> bool {
    &&& d1.width == dpre.width
    &&& d1.children@ == dpre.children@
    &&& forall|v: VertexIndex| d1.has_parent(v) <==> (dpre.has_parent(v) || v == vertex)
    &&& keys_unique(dpre.parents@) ==> {
        &&& keys_unique(d1.parents@)
        &&& forall|v: VertexIndex| v != vertex ==> d1.parent(v) == dpre.parent(v)
        &&& d1.parent(vertex) matches Some(p1) && (dpre.parent(vertex) matches Some(p0) ==> {
            &&& p1.width == p0.width
            &&& forall|q: (PatternId, usize)|
                p1.pattern_indices@.contains(q) <==> (p0.pattern_indices@.contains(q) || q == (
                pattern,
                index,
                ))
            &&& p0.indices_unique() ==> p1.indices_unique()
        }) && (dpre.parent(vertex) is None ==> {
            &&& p1.width == width
            &&& forall|q: (PatternId, usize)| p1.pattern_indices@.contains(q) <==> q == (
                pattern,
                index,
            )
            &&& p1.indices_unique()
        })
    }
}

impl Hypergraph {
    /// Creates a new composite vertex decomposing into the given existing
    /// vertices, and installs the matching back-reference on every child.
    ///
    /// Fails with `EmptyPattern` on zero indices and with `VertexNotFound`
    /// on an index that names no vertex; the graph is then unchanged.
    pub fn insert_pattern(&mut self, indices: &Vec<VertexIndex>) -> (r: Result<
        VertexIndex,
        HypergraphError,
    >)
        requires
            old(self).widths_sum(indices@) <= usize::MAX,
            old(self).next_pattern_id < usize::MAX,
        ensures
            r is Err ==> final(self).vertices@ == old(self).vertices@ && final(self).next_pattern_id == old(self).next_pattern_id,
            r is Ok <==> (indices@.len() > 0 && forall|k: int|
                0 <= k < indices@.len() ==> old(self).valid_index(#[trigger] indices@[k])),
            r == Err::<VertexIndex, HypergraphError>(HypergraphError::EmptyPattern) <==> indices@.len() == 0,
            r matches Err(HypergraphError::VertexNotFound(x)) ==> !old(self).valid_index(x)
                && indices@.contains(x),
            r matches Ok(vi) ==> {
                &&& vi == old(self).vertices@.len()
                &&& final(self).vertices@.len() == old(self).vertices@.len() + 1
                &&& final(self).next_pattern_id == old(self).next_pattern_id + 1
                &&& forall|i: VertexIndex|
                    i < old(self).vertices@.len() ==> (#[trigger] final(self).key_at(i)) == old(self).key_at(i) && final(self).width_at(i) == old(self).width_at(i) && final(self).data_at(i).children@ == old(self).data_at(i).children@
                &&& forall|i: VertexIndex|
                    i < old(self).vertices@.len() && !indices@.contains(i) ==> (#[trigger] final(self).data_at(i)).parents@ == old(self).data_at(i).parents@
                &&& final(self).key_at(vi) == VertexKey::Pattern(vi)
                &&& final(self).width_at(vi) == old(self).widths_sum(indices@)
                &&& final(self).data_at(vi).children@.len() == 1
                &&& final(self).data_at(vi).children@[0].0 == old(self).next_pattern_id
                &&& final(self).data_at(vi).children@[0].1@.len() == indices@.len()
                &&& forall|k: int|
                    0 <= k < indices@.len() ==> (#[trigger] final(self).data_at(
                        vi,
                    ).children@[0].1@[k]).index == indices@[k] && final(self).data_at(
                        vi,
                    ).children@[0].1@[k].width == old(self).width_at(indices@[k])
                &&& final(self).data_at(vi).parents@.len() == 0
                &&& (old(self).parents_clean() ==> forall|i: VertexIndex|
                    i < old(self).vertices@.len() && indices@.contains(i)
                        ==> parent_wiring_of(*old(self), *final(self), indices@, vi, old(self).widths_sum(indices@) as usize, old(self).next_pattern_id, i))
                &&& (old(self).wf() ==> final(self).wf())
            },
    {
        let ghost g0 = *self;
        if indices.len() == 0 {
            return Err(HypergraphError::EmptyPattern);
        }
        let (w, children) = match self.to_width_children(indices) {
            Ok(p) => p,
            Err(e) => {
                return Err(e);
            },
        };
        let pid = self.next_pattern_id;
        self.next_pattern_id = pid + 1;
        let mut data = VertexData::with_width(w);
        data.add_pattern(&children, pid);
        let vi = self.vertices.len();
        let ghost datag = data;
        self.vertices.push((VertexKey::Pattern(vi), data));
        let ghost g1 = *self;
        proof {
            assert(g1.data_at(vi) == datag);
            assert(g1.data_at(vi).children@.len() == 1);
            assert(g1.data_at(vi).children@[0].0 == pid);
            assert(g1.data_at(vi).children@[0].1@.len() == indices@.len());
            assert(g1.data_at(vi).parents@.len() == 0);
            assert(g1.data_at(vi).child_pattern(pid) == Some(g1.data_at(vi).children@[0].1));
            assert(forall|k: int|
                0 <= k < indices@.len() ==> !(#[trigger] indices@[k] == vi));
            assert(!indices@.contains(vi)) by {
                if indices@.contains(vi) {
                    let m = choose|m: int| 0 <= m < indices@.len() && indices@[m] == vi;
                }
            }
        }
        self.add_parents_to_pattern_nodes(indices, vi, w, pid);
        proof {
            let g2 = *self;
            assert(g2.key_at(vi) == g1.key_at(vi) && g2.width_at(vi) == g1.width_at(vi)
                && g2.data_at(vi).children@ == g1.data_at(vi).children@);
            assert(g2.data_at(vi).parents@ == g1.data_at(vi).parents@);
            if g0.parents_clean() {
                assert(g1.parents_clean()) by {
                    assert forall|i: VertexIndex| g1.valid_index(i) implies {
                        &&& keys_unique(g1.data_at(i).parents@)
                        &&& forall|j: int|
                            0 <= j < g1.data_at(i).parents@.len()
                                ==> (#[trigger] g1.data_at(i).parents@[j]).1.indices_unique()
                    } by {
                        if i < g0.vertices@.len() {
                            assert(g1.data_at(i) == g0.data_at(i));
                            assert(g0.valid_index(i));
                            assert(keys_unique(g0.data_at(i).parents@));
                        } else {
                            assert(g1.data_at(i).parents@.len() == 0);
                        }
                    }
                }
                assert forall|i: VertexIndex|
                    i < g0.vertices@.len() && indices@.contains(i) implies parent_wiring_of(
                    g0, g2, indices@, vi, w, pid, i) by {
                    assert(parent_wiring_of(g1, g2, indices@, vi, w, pid, i));
                    assert(g1.data_at(i) == g0.data_at(i));
                    lemma_wiring_transfer(g0, g1, g2, indices@, vi, w, pid, i);
                }
            }
            if g0.wf() {
                g0.lemma_wf_parents_clean();
                assert(g1.parents_clean()) by {
                    assert forall|i: VertexIndex| g1.valid_index(i) implies {
                        &&& keys_unique(g1.data_at(i).parents@)
                        &&& forall|j: int|
                            0 <= j < g1.data_at(i).parents@.len()
                                ==> (#[trigger] g1.data_at(i).parents@[j]).1.indices_unique()
                    } by {
                        if i < g0.vertices@.len() {
                            assert(g1.data_at(i) == g0.data_at(i));
                            assert(g0.valid_index(i));
                            assert(keys_unique(g0.data_at(i).parents@));
                        } else {
                            assert(g1.data_at(i).parents@.len() == 0);
                        }
                    }
                }
                lemma_wf_append(g0, g1);
                let pat = g1.data_at(vi).child_pattern(pid).unwrap()@;
                assert(pattern_width_spec(pat) == g0.widths_sum(indices@)) by {
                    g0.lemma_widths_sum_matches_pattern(indices@, pat);
                }
                assert(w >= 1) by {
                    lemma_pattern_width_element(pat, 0);
                    assert(g0.wf_vertex(indices@[0]));
                    assert(pat[0].width == g0.width_at(indices@[0]));
                }
                assert forall|i: VertexIndex, j: VertexIndex|
                    i < g1.vertices@.len() && j < g1.vertices@.len() && i != j implies g1.key_at(
                    i) != g1.key_at(j) by {
                    let n0 = g0.vertices@.len();
                    if i < n0 && j < n0 {
                        assert(g0.key_at(i) != g0.key_at(j));
                    } else if i < n0 {
                        assert(g1.key_at(j) == VertexKey::Pattern(vi));
                        assert(g0.wf_vertex(i));
                        match g0.key_at(i) {
                            VertexKey::Pattern(id) => {
                                assert(id == i && id < n0);
                            },
                            VertexKey::Token(t) => {},
                        }
                    } else {
                        assert(g1.key_at(i) == VertexKey::Pattern(vi));
                        assert(g0.wf_vertex(j));
                        match g0.key_at(j) {
                            VertexKey::Pattern(id) => {
                                assert(id == j && id < n0);
                            },
                            VertexKey::Token(t) => {},
                        }
                    }
                }
                assert forall|i: VertexIndex|
                    i < g1.vertices@.len() implies {
                    &&& (#[trigger] g1.data_at(i)).width >= 1
                    &&& keys_unique(g1.data_at(i).children@)
                    &&& keys_unique(g1.data_at(i).parents@)
                    &&& (g1.key_at(i) is Token ==> g1.data_at(i).width == 1 && g1.data_at(
                        i,
                    ).children@.len() == 0)
                    &&& (g1.key_at(i) matches VertexKey::Pattern(id) ==> id == i && g1.data_at(
                        i,
                    ).children@.len() >= 1)
                } by {
                    if i < g0.vertices@.len() {
                        assert(g1.wf_vertex(i));
                    } else {
                        assert(g1.data_at(i) == datag);
                    }
                }
                assert forall|i: VertexIndex, pid2: PatternId|
                    i < g1.vertices@.len() && (#[trigger] g1.data_at(i).has_child_pattern(pid2))
                        && !(i == vi && pid2 == pid) implies g1.wf_pattern_of(i, pid2) by {
                    if i < g0.vertices@.len() {
                        assert(g1.wf_vertex(i));
                    } else {
                        assert(has_key(g1.data_at(i).children@, pid2));
                        let j = choose|j: int|
                            0 <= j < g1.data_at(i).children@.len() && g1.data_at(
                                i,
                            ).children@[j].0 == pid2;
                        assert(j == 0 && pid2 == pid);
                    }
                }
                assert forall|i: VertexIndex, pv: VertexIndex|
                    i < g1.vertices@.len() && (#[trigger] g1.data_at(i).has_parent(pv)) implies
                    g1.wf_parent_of(i, pv) by {
                    if i < g0.vertices@.len() {
                        assert(g1.wf_vertex(i));
                    } else {
                        assert(has_key(g1.data_at(i).parents@, pv));
                        let j = choose|j: int|
                            0 <= j < g1.data_at(i).parents@.len() && g1.data_at(i).parents@[j].0
                                == pv;
                    }
                }
                lemma_wf_after_wiring(g1, g2, indices@, vi, w, pid);
            }
        }
        Ok(vi)
    }
}

impl Hypergraph {
    /// Attaches an additional alternative decomposition to the existing
    /// vertex at `index` and installs the matching back-reference on every
    /// child.  The caller asserts that the new decomposition denotes the
    /// same token sequence; a total width differing from the vertex's own
    /// is a caller error that this core does not detect.
    pub fn add_pattern_to_node(&mut self, index: VertexIndex, indices: &Vec<VertexIndex>) -> (r:
        Result<PatternId, HypergraphError>)
        requires
            old(self).widths_sum(indices@) <= usize::MAX,
            old(self).next_pattern_id < usize::MAX,
        ensures
            r is Err ==> final(self).vertices@ == old(self).vertices@ && final(self).next_pattern_id == old(self).next_pattern_id,
            r is Ok <==> (old(self).valid_index(index) && indices@.len() > 0 && forall|k: int|
                0 <= k < indices@.len() ==> old(self).valid_index(#[trigger] indices@[k])),
            r == Err::<PatternId, HypergraphError>(HypergraphError::EmptyPattern) <==> (old(self).valid_index(index) && indices@.len() == 0),
            r matches Err(HypergraphError::VertexNotFound(x)) ==> !old(self).valid_index(x) && (x
                == index || indices@.contains(x)),
            r matches Ok(pid) ==> {
                &&& pid == old(self).next_pattern_id
                &&& final(self).next_pattern_id == old(self).next_pattern_id + 1
                &&& final(self).vertices@.len() == old(self).vertices@.len()
                &&& forall|i: VertexIndex|
                    i < old(self).vertices@.len() ==> (#[trigger] final(self).key_at(i)) == old(self).key_at(i) && final(self).width_at(i) == old(self).width_at(i)
                &&& forall|i: VertexIndex|
                    i < old(self).vertices@.len() && i != index ==> (#[trigger] final(self).data_at(i)).children@ == old(self).data_at(i).children@
                &&& forall|i: VertexIndex|
                    i < old(self).vertices@.len() && !indices@.contains(i) ==> (#[trigger] final(self).data_at(i)).parents@ == old(self).data_at(i).parents@
                &&& final(self).data_at(index).children@.len() == old(self).data_at(
                    index,
                ).children@.len() + 1
                &&& forall|j: int|
                    0 <= j < old(self).data_at(index).children@.len() ==> final(self).data_at(
                        index,
                    ).children@[j] == old(self).data_at(index).children@[j]
                &&& final(self).data_at(index).children@.last().0 == pid
                &&& final(self).data_at(index).children@.last().1@.len() == indices@.len()
                &&& forall|k: int|
                    0 <= k < indices@.len() ==> (#[trigger] final(self).data_at(
                        index,
                    ).children@.last().1@[k]).index == indices@[k] && final(self).data_at(
                        index,
                    ).children@.last().1@[k].width == old(self).width_at(indices@[k])
                &&& (old(self).parents_clean() ==> forall|i: VertexIndex|
                    i < old(self).vertices@.len() && indices@.contains(i)
                        ==> parent_wiring_of(*old(self), *final(self), indices@, index, old(self).widths_sum(indices@) as usize, old(self).next_pattern_id, i))
                &&& (old(self).wf() && old(self).widths_sum(indices@) == old(self).width_at(index)
                    && !indices@.contains(index) && old(self).key_at(index) is Pattern ==> final(self).wf())
            },
    {
        let ghost g0 = *self;
        if index >= self.vertices.len() {
            return Err(HypergraphError::VertexNotFound(index));
        }
        if indices.len() == 0 {
            return Err(HypergraphError::EmptyPattern);
        }
        let (w, children) = match self.to_width_children(indices) {
            Ok(p) => p,
            Err(e) => {
                return Err(e);
            },
        };
        let pid = self.next_pattern_id;
        self.next_pattern_id = pid + 1;
        let entry = &mut self.vertices[index];
        entry.1.add_pattern(&children, pid);
        let ghost g1 = *self;
        proof {
            assert(g1.data_at(index).children@.last().0 == pid);
            assert(g1.data_at(index).children@.last().1@ == children@);
            if g0.wf() && g0.widths_sum(indices@) == g0.width_at(index) && !indices@.contains(
                index,
            ) && g0.key_at(index) is Pattern {
                lemma_almost_wf_add_child(g0, g1, index, pid);
            }
        }
        self.add_parents_to_pattern_nodes(indices, index, w, pid);
        proof {
            let g2 = *self;
            assert(g2.key_at(index) == g1.key_at(index) && g2.width_at(index) == g1.width_at(
                index,
            ) && g2.data_at(index).children@ == g1.data_at(index).children@);
            if g0.parents_clean() {
                assert(g1.parents_clean()) by {
                    assert forall|i: VertexIndex| g1.valid_index(i) implies {
                        &&& keys_unique(g1.data_at(i).parents@)
                        &&& forall|j: int|
                            0 <= j < g1.data_at(i).parents@.len()
                                ==> (#[trigger] g1.data_at(i).parents@[j]).1.indices_unique()
                    } by {
                        assert(g0.valid_index(i));
                        assert(g1.data_at(i).parents@ == g0.data_at(i).parents@);
                        assert(keys_unique(g0.data_at(i).parents@));
                        assert(forall|j: int|
                            0 <= j < g0.data_at(i).parents@.len()
                                ==> (#[trigger] g0.data_at(i).parents@[j]).1.indices_unique());
                    }
                }
                assert forall|i: VertexIndex|
                    i < g0.vertices@.len() && indices@.contains(i) implies parent_wiring_of(
                    g0, g2, indices@, index, w, pid, i) by {
                    assert(parent_wiring_of(g1, g2, indices@, index, w, pid, i));
                    assert(g1.data_at(i).parents@ == g0.data_at(i).parents@);
                    lemma_wiring_transfer(g0, g1, g2, indices@, index, w, pid, i);
                }
            }
            if g0.wf() && g0.widths_sum(indices@) == g0.width_at(index) && !indices@.contains(
                index,
            ) && g0.key_at(index) is Pattern {
                lemma_almost_wf_add_child(g0, g1, index, pid);
                let pat = g1.data_at(index).child_pattern(pid).unwrap()@;
                assert(pat == children@);
                assert(pattern_width_spec(pat) == g0.widths_sum(indices@)) by {
                    g0.lemma_widths_sum_matches_pattern(indices@, pat);
                }
                lemma_wf_after_wiring(g1, g2, indices@, index, w, pid);
            }
            assert(g2.data_at(index).children@.len() == g0.data_at(index).children@.len() + 1);
            assert(forall|j: int|
                0 <= j < g0.data_at(index).children@.len() ==> g2.data_at(index).children@[j]
                    == g0.data_at(index).children@[j]);
            assert(g2.data_at(index).children@.last().0 == pid);
            assert(g2.data_at(index).children@.last().1@.len() == indices@.len());
            assert forall|i: VertexIndex|
                i < g0.vertices@.len() implies (#[trigger] g2.key_at(i)) == g0.key_at(i)
                && g2.width_at(i) == g0.width_at(i) by {
                assert(g2.key_at(i) == g1.key_at(i) && g2.width_at(i) == g1.width_at(i)
                    && g2.data_at(i).children@ == g1.data_at(i).children@);
                assert(g1.key_at(i) == g0.key_at(i) && g1.width_at(i) == g0.width_at(i));
            }
            assert forall|i: VertexIndex|
                i < g0.vertices@.len() && i != index implies (#[trigger] g2.data_at(
                i)).children@ == g0.data_at(i).children@ by {
                assert(g2.key_at(i) == g1.key_at(i) && g2.width_at(i) == g1.width_at(i)
                    && g2.data_at(i).children@ == g1.data_at(i).children@);
                assert(g1.data_at(i) == g0.data_at(i));
            }
            assert forall|i: VertexIndex|
                i < g0.vertices@.len() && !indices@.contains(i) implies (#[trigger] g2.data_at(
                i)).parents@ == g0.data_at(i).parents@ by {
                assert(g2.data_at(i).parents@ == g1.data_at(i).parents@);
                assert(g1.data_at(i).parents@ == g0.data_at(i).parents@);
            }
        }
        Ok(pid)
    }

    /// Creates one vertex carrying every one of the given alternative
    /// decompositions: the structural-sharing entry point.  The caller
    /// asserts that all sequences denote the same logical sequence.  The
    /// inputs are validated up front, so an error leaves the graph
    /// unchanged.
    pub fn insert_patterns(&mut self, patterns: &Vec<Vec<VertexIndex>>) -> (r: Result<
        VertexIndex,
        HypergraphError,
    >)
        requires
            forall|p: int|
                0 <= p < patterns@.len() ==> old(self).widths_sum(#[trigger] patterns@[p]@)
                    <= usize::MAX,
            old(self).next_pattern_id + patterns@.len() <= usize::MAX,
            forall|p: int|
                1 <= p < patterns@.len() ==> !(#[trigger] patterns@[p]@).contains(
                    old(self).vertices@.len() as usize,
                ),
        ensures
            r is Err ==> final(self).vertices@ == old(self).vertices@ && final(self).next_pattern_id == old(self).next_pattern_id,
            patterns@.len() == 0 ==> r == Err::<VertexIndex, HypergraphError>(
                HypergraphError::EmptyPattern,
            ),
            r == Err::<VertexIndex, HypergraphError>(HypergraphError::EmptyPattern) ==> (
            patterns@.len() == 0 || exists|p: int|
                0 <= p < patterns@.len() && (#[trigger] patterns@[p]@).len() == 0),
            r matches Err(HypergraphError::VertexNotFound(x)) ==> !old(self).valid_index(x)
                && exists|p: int|
                0 <= p < patterns@.len() && (#[trigger] patterns@[p]@).contains(x),
            r is Ok <==> (patterns@.len() > 0 && (forall|p: int|
                0 <= p < patterns@.len() ==> (#[trigger] patterns@[p]@).len() > 0) && (forall|
                p: int,
                k: int,
            |
                0 <= p < patterns@.len() && 0 <= k < patterns@[p]@.len() ==> old(self).valid_index(#[trigger] patterns@[p]@[k]))),
            r matches Ok(vi) ==> {
                &&& vi == old(self).vertices@.len()
                &&& final(self).vertices@.len() == old(self).vertices@.len() + 1
                &&& final(self).key_at(vi) == VertexKey::Pattern(vi)
                &&& final(self).width_at(vi) == old(self).widths_sum(patterns@[0]@)
                &&& final(self).next_pattern_id == old(self).next_pattern_id + patterns@.len()
                &&& final(self).data_at(vi).children@.len() == patterns@.len()
                &&& forall|p: int|
                    0 <= p < patterns@.len() ==> {
                        let entry = #[trigger] final(self).data_at(vi).children@[p];
                        &&& entry.0 == old(self).next_pattern_id + p
                        &&& entry.1@.len() == patterns@[p]@.len()
                        &&& forall|k: int|
                            0 <= k < patterns@[p]@.len() ==> (#[trigger] entry.1@[k]).index
                                == patterns@[p]@[k] && entry.1@[k].width == old(self).width_at(
                                patterns@[p]@[k],
                            )
                    }
                &&& forall|i: VertexIndex|
                    i < old(self).vertices@.len() ==> (#[trigger] final(self).key_at(i)) == old(self).key_at(i) && final(self).width_at(i) == old(self).width_at(i)
                &&& (old(self).wf() && (forall|p: int|
                    0 <= p < patterns@.len() ==> old(self).widths_sum(#[trigger] patterns@[p]@)
                        == old(self).widths_sum(patterns@[0]@)) ==> final(self).wf())
            },
    {
        let ghost g0 = *self;
        if patterns.len() == 0 {
            return Err(HypergraphError::EmptyPattern);
        }
        // validate every sequence before touching the graph
        let mut p: usize = 0;
        while p < patterns.len()
            invariant
                g0 == *self,
                g0 == *old(self),
                p <= patterns@.len(),
                forall|q: int| 0 <= q < p ==> (#[trigger] patterns@[q]@).len() > 0,
                forall|q: int, k: int|
                    0 <= q < p && 0 <= k < patterns@[q]@.len() ==> g0.valid_index(
                        #[trigger] patterns@[q]@[k],
                    ),
            decreases patterns@.len() - p,
        {
            if patterns[p].len() == 0 {
                return Err(HypergraphError::EmptyPattern);
            }
            let mut k: usize = 0;
            while k < patterns[p].len()
                invariant
                    g0 == *self,
                    g0 == *old(self),
                    p < patterns@.len(),
                    k <= patterns@[p as int]@.len(),
                    forall|k2: int|
                        0 <= k2 < k ==> g0.valid_index(#[trigger] patterns@[p as int]@[k2]),
                decreases patterns@[p as int]@.len() - k,
            {
                let idx = patterns[p][k];
                if idx >= self.vertices.len() {
                    proof {
                        assert(patterns@[p as int]@.contains(idx));
                    }
                    return Err(HypergraphError::VertexNotFound(idx));
                }
                k += 1;
            }
            p += 1;
        }
        let node = match self.insert_pattern(&patterns[0]) {
            Ok(vi) => vi,
            Err(e) => {
                proof {
                    assert(false);
                }
                return Err(e);
            },
        };
        let ghost w0 = g0.widths_sum(patterns@[0]@);
        let mut p: usize = 1;
        while p < patterns.len()
            invariant
                g0 == *old(self),
                1 <= p <= patterns@.len(),
                patterns@.len() > 0,
                forall|q: int|
                    0 <= q < patterns@.len() ==> g0.widths_sum(#[trigger] patterns@[q]@)
                        <= usize::MAX,
                g0.next_pattern_id + patterns@.len() <= usize::MAX,
                forall|q: int| 0 <= q < patterns@.len() ==> (#[trigger] patterns@[q]@).len() > 0,
                forall|q: int, k: int|
                    0 <= q < patterns@.len() && 0 <= k < patterns@[q]@.len() ==> g0.valid_index(
                        #[trigger] patterns@[q]@[k],
                    ),
                forall|q: int|
                    1 <= q < patterns@.len() ==> !(#[trigger] patterns@[q]@).contains(node),
                node == g0.vertices@.len(),
                self.vertices@.len() == g0.vertices@.len() + 1,
                self.next_pattern_id == g0.next_pattern_id + p,
                self.key_at(node) == VertexKey::Pattern(node),
                self.width_at(node) == w0,
                self.data_at(node).children@.len() == p,
                forall|q: int|
                    0 <= q < p ==> {
                        let entry = #[trigger] self.data_at(node).children@[q];
                        &&& entry.0 == g0.next_pattern_id + q
                        &&& entry.1@.len() == patterns@[q]@.len()
                        &&& forall|k: int|
                            0 <= k < patterns@[q]@.len() ==> (#[trigger] entry.1@[k]).index
                                == patterns@[q]@[k] && entry.1@[k].width == g0.width_at(
                                patterns@[q]@[k],
                            )
                    },
                forall|i: VertexIndex|
                    i < g0.vertices@.len() ==> (#[trigger] self.key_at(i)) == g0.key_at(i)
                        && self.width_at(i) == g0.width_at(i),
                g0.wf() && (forall|q: int|
                    0 <= q < patterns@.len() ==> g0.widths_sum(#[trigger] patterns@[q]@) == w0)
                    ==> self.wf(),
            decreases patterns@.len() - p,
        {
            let ghost gpre = *self;
            proof {
                assert(gpre.widths_sum(patterns@[p as int]@) == g0.widths_sum(
                    patterns@[p as int]@,
                )) by {
                    assert forall|k: int|
                        0 <= k < patterns@[p as int]@.len() implies (#[trigger] patterns@[
                    p as int]@[k]) != node by {
                        if patterns@[p as int]@[k] == node {
                            assert(patterns@[p as int]@.contains(node));
                        }
                    }
                    assert forall|i: VertexIndex|
                        i < g0.vertices@.len() implies (#[trigger] gpre.width_at(i))
                        == g0.width_at(i) by {
                        assert(gpre.key_at(i) == g0.key_at(i) && gpre.width_at(i)
                            == g0.width_at(i));
                    }
                    lemma_widths_sum_frame(g0, gpre, patterns@[p as int]@, node);
                }
            }
            let res = self.add_pattern_to_node(node, &patterns[p]);
            match res {
                Ok(_) => {},
                Err(e) => {
                    proof {
                        assert(gpre.valid_index(node));
                        assert(forall|k: int|
                            0 <= k < patterns@[p as int]@.len() ==> gpre.valid_index(
                                #[trigger] patterns@[p as int]@[k],
                            ));
                        assert(false);
                    }
                    return Err(e);
                },
            }
            proof {
                let gpost = *self;
                assert forall|i: VertexIndex|
                    i < g0.vertices@.len() implies (#[trigger] gpost.key_at(i)) == g0.key_at(i)
                    && gpost.width_at(i) == g0.width_at(i) by {
                    assert(gpre.key_at(i) == g0.key_at(i) && gpre.width_at(i) == g0.width_at(i));
                }
                assert(gpost.key_at(node) == gpre.key_at(node) && gpost.width_at(node)
                    == gpre.width_at(node));
                assert forall|q: int| 0 <= q < p + 1 implies {
                    let entry = #[trigger] gpost.data_at(node).children@[q];
                    &&& entry.0 == g0.next_pattern_id + q
                    &&& entry.1@.len() == patterns@[q]@.len()
                    &&& forall|k: int|
                        0 <= k < patterns@[q]@.len() ==> (#[trigger] entry.1@[k]).index
                            == patterns@[q]@[k] && entry.1@[k].width == g0.width_at(
                            patterns@[q]@[k],
                        )
                } by {
                    if q < p as int {
                        assert(gpost.data_at(node).children@[q] == gpre.data_at(
                            node,
                        ).children@[q]);
                        assert({
                            let entry = gpre.data_at(node).children@[q];
                            &&& entry.0 == g0.next_pattern_id + q
                            &&& entry.1@.len() == patterns@[q]@.len()
                            &&& forall|k: int|
                                0 <= k < patterns@[q]@.len() ==> (#[trigger] entry.1@[k]).index
                                    == patterns@[q]@[k] && entry.1@[k].width == g0.width_at(
                                    patterns@[q]@[k],
                                )
                        });
                    } else {
                        assert(gpost.data_at(node).children@[q] == gpost.data_at(
                            node,
                        ).children@.last());
                        assert forall|k: int|
                            0 <= k < patterns@[q]@.len() implies (#[trigger] gpost.data_at(
                            node).children@[q].1@[k]).index == patterns@[q]@[k]
                            && gpost.data_at(node).children@[q].1@[k].width == g0.width_at(
                            patterns@[q]@[k]) by {
                            assert(g0.valid_index(patterns@[p as int]@[k]));
                            assert(gpre.key_at(patterns@[p as int]@[k]) == g0.key_at(
                                patterns@[p as int]@[k]) && gpre.width_at(
                                patterns@[p as int]@[k]) == g0.width_at(
                                patterns@[p as int]@[k]));
                        }
                    }
                }
                if g0.wf() && (forall|q: int|
                    0 <= q < patterns@.len() ==> g0.widths_sum(#[trigger] patterns@[q]@) == w0) {
                    assert(gpre.wf());
                    assert(gpre.widths_sum(patterns@[p as int]@) == g0.widths_sum(
                        patterns@[p as int]@,
                    ));
                    assert(!patterns@[p as int]@.contains(node)) by {
                        if patterns@[p as int]@.contains(node) {
                            let m = choose|m: int|
                                0 <= m < patterns@[p as int]@.len() && patterns@[p as int]@[m]
                                    == node;
                            assert(g0.valid_index(patterns@[p as int]@[m]));
                        }
                    }
                    assert(self.wf());
                }
            }
            p += 1;
        }
        Ok(node)
    }
}

/// Appending one vertex changes no width sum over indices that avoid the
/// fresh slot.
proof fn lemma_widths_sum_frame(
    g0: Hypergraph,
    g1: Hypergraph,
    s: Seq<VertexIndex>,
    fresh: VertexIndex,
)
    requires
        g1.vertices@.len() == g0.vertices@.len() + 1,
        fresh == g0.vertices@.len(),
        forall|i: VertexIndex|
            i < g0.vertices@.len() ==> (#[trigger] g1.width_at(i)) == g0.width_at(i),
        forall|k: int| 0 <= k < s.len() ==> (#[trigger] s[k]) != fresh,
    ensures
        g1.widths_sum(s) == g0.widths_sum(s),
    decreases s.len(),
{
    if s.len() > 0 {
        assert(forall|k: int| 0 <= k < s.len() - 1 ==> #[trigger] s.drop_last()[k] == s[k]);
        assert(s[s.len() - 1] != fresh);
        lemma_widths_sum_frame(g0, g1, s.drop_last(), fresh);
    }
}

/// Registering a fresh decomposition id on one vertex of a well-formed
/// graph leaves every previously registered decomposition and every
/// back-reference intact.
proof fn lemma_almost_wf_add_child(g0: Hypergraph, g1: Hypergraph, t: VertexIndex, pid: PatternId)
    requires
        g0.wf(),
        g0.valid_index(t),
        g0.key_at(t) is Pattern,
        pid == g0.next_pattern_id,
        g1.vertices@.len() == g0.vertices@.len(),
        g1.next_pattern_id == g0.next_pattern_id + 1,
        forall|i: int|
            0 <= i < g0.vertices@.len() && i != t ==> g1.vertices@[i] == g0.vertices@[i],
        g1.key_at(t) == g0.key_at(t),
        g1.data_at(t).width == g0.data_at(t).width,
        g1.data_at(t).parents@ == g0.data_at(t).parents@,
        g1.data_at(t).children@.len() == g0.data_at(t).children@.len() + 1,
        forall|j: int|
            0 <= j < g0.data_at(t).children@.len() ==> g1.data_at(t).children@[j] == g0.data_at(
                t,
            ).children@[j],
        g1.data_at(t).children@.last().0 == pid,
    ensures
        forall|i: VertexIndex, j: VertexIndex|
            i < g1.vertices@.len() && j < g1.vertices@.len() && i != j ==> g1.key_at(i)
                != g1.key_at(j),
        forall|i: VertexIndex|
            i < g1.vertices@.len() ==> {
                &&& (#[trigger] g1.data_at(i)).width >= 1
                &&& keys_unique(g1.data_at(i).children@)
                &&& keys_unique(g1.data_at(i).parents@)
                &&& (g1.key_at(i) is Token ==> g1.data_at(i).width == 1 && g1.data_at(
                    i,
                ).children@.len() == 0)
                &&& (g1.key_at(i) matches VertexKey::Pattern(id) ==> id == i && g1.data_at(
                    i,
                ).children@.len() >= 1)
            },
        forall|i: VertexIndex, pid2: PatternId|
            i < g1.vertices@.len() && (#[trigger] g1.data_at(i).has_child_pattern(pid2)) && !(i
                == t && pid2 == pid) ==> g1.wf_pattern_of(i, pid2),
        forall|i: VertexIndex, pv: VertexIndex|
            i < g1.vertices@.len() && (#[trigger] g1.data_at(i).has_parent(pv))
                ==> g1.wf_parent_of(i, pv),
        g1.parents_clean(),
        !has_key(g0.data_at(t).children@, pid),
        g1.data_at(t).child_pattern(pid) == Some(g1.data_at(t).children@.last().1),
        forall|pid2: PatternId|
            pid2 != pid ==> g1.data_at(t).child_pattern(pid2) == g0.data_at(t).child_pattern(
                pid2,
            ),
{
    let n = g0.vertices@.len();
    assert(g0.wf_vertex(t));
    assert(!has_key(g0.data_at(t).children@, pid)) by {
        if has_key(g0.data_at(t).children@, pid) {
            assert(g0.data_at(t).has_child_pattern(pid));
            assert(g0.wf_pattern_of(t, pid));
        }
    }
    assert(g1.data_at(t).children@ =~= g0.data_at(t).children@.push(
        g1.data_at(t).children@.last(),
    ));
    crate::assoc::lemma_lookup_push(g0.data_at(t).children@, pid,
        g1.data_at(t).children@.last().1);
    assert(keys_unique(g1.data_at(t).children@)) by {
        let s0 = g0.data_at(t).children@;
        let s1 = g1.data_at(t).children@;
        assert forall|a: int, b: int| 0 <= a < b < s1.len() implies s1[a].0 != s1[b].0 by {
            if b < s0.len() {
                assert(s0[a].0 != s0[b].0);
            } else {
                assert(s1[b].0 == pid);
                assert(s1[a].0 == s0[a].0);
                assert(has_key(s0, s0[a].0));
                assert(g0.data_at(t).has_child_pattern(s0[a].0));
                assert(g0.wf_pattern_of(t, s0[a].0));
            }
        }
    }
    assert forall|i: VertexIndex, j: VertexIndex|
        i < n && j < n && i != j implies g1.key_at(i) != g1.key_at(j) by {
        assert(g1.key_at(i) == g0.key_at(i) && g1.key_at(j) == g0.key_at(j));
    }
    assert forall|i: VertexIndex| i < n implies {
        &&& (#[trigger] g1.data_at(i)).width >= 1
        &&& keys_unique(g1.data_at(i).children@)
        &&& keys_unique(g1.data_at(i).parents@)
        &&& (g1.key_at(i) is Token ==> g1.data_at(i).width == 1 && g1.data_at(i).children@.len()
            == 0)
        &&& (g1.key_at(i) matches VertexKey::Pattern(id) ==> id == i && g1.data_at(
            i,
        ).children@.len() >= 1)
    } by {
        assert(g0.wf_vertex(i));
        if i != t {
            assert(g1.data_at(i) == g0.data_at(i));
        }
    }
    assert forall|i: VertexIndex, pid2: PatternId|
        i < n && (#[trigger] g1.data_at(i).has_child_pattern(pid2)) && !(i == t && pid2 == pid)
        implies g1.wf_pattern_of(i, pid2) by {
        if i != t {
            assert(g1.data_at(i) == g0.data_at(i));
            assert(g0.wf_vertex(i));
            assert(g0.data_at(i).has_child_pattern(pid2));
            assert(g0.wf_pattern_of(i, pid2));
            let pat = g0.data_at(i).child_pattern(pid2).unwrap()@;
            assert forall|k: int| 0 <= k < pat.len() implies {
                &&& g1.valid_index(#[trigger] pat[k].index)
                &&& pat[k].width == g1.width_at(pat[k].index)
                &&& g1.data_at(pat[k].index).parent(i) matches Some(pr)
                    && pr.pattern_indices@.contains((pid2, k as usize))
            } by {
                let c = pat[k].index;
                assert(g0.valid_index(c));
                if c != t {
                    assert(g1.data_at(c) == g0.data_at(c));
                } else {
                    assert(g1.data_at(c).parents@ == g0.data_at(c).parents@);
                    assert(g1.data_at(c).width == g0.data_at(c).width);
                    assert(forall|v: VertexIndex|
                        g1.data_at(c).parent(v) == g0.data_at(c).parent(v));
                }
            }
        } else {
            assert(pid2 != pid);
            assert(g1.data_at(t).child_pattern(pid2) == g0.data_at(t).child_pattern(pid2));
            assert(g0.data_at(t).has_child_pattern(pid2)) by {
                assert(has_key(g1.data_at(t).children@, pid2));
                let j = choose|j: int|
                    0 <= j < g1.data_at(t).children@.len() && g1.data_at(t).children@[j].0
                        == pid2;
                assert(j < g0.data_at(t).children@.len()) by {
                    if j == g0.data_at(t).children@.len() {
                        assert(g1.data_at(t).children@[j].0 == pid);
                    }
                }
                assert(g0.data_at(t).children@[j].0 == pid2);
            }
            assert(g0.wf_pattern_of(t, pid2));
            let pat = g0.data_at(t).child_pattern(pid2).unwrap()@;
            assert forall|k: int| 0 <= k < pat.len() implies {
                &&& g1.valid_index(#[trigger] pat[k].index)
                &&& pat[k].width == g1.width_at(pat[k].index)
                &&& g1.data_at(pat[k].index).parent(t) matches Some(pr)
                    && pr.pattern_indices@.contains((pid2, k as usize))
            } by {
                let c = pat[k].index;
                assert(g0.valid_index(c));
                if c != t {
                    assert(g1.data_at(c) == g0.data_at(c));
                } else {
                    assert(g1.data_at(c).parents@ == g0.data_at(c).parents@);
                    assert(g1.data_at(c).width == g0.data_at(c).width);
                    assert(forall|v: VertexIndex|
                        g1.data_at(c).parent(v) == g0.data_at(c).parent(v));
                }
            }
        }
    }
    assert forall|i: VertexIndex, pv: VertexIndex|
        i < n && (#[trigger] g1.data_at(i).has_parent(pv)) implies g1.wf_parent_of(i, pv) by {
        assert(g1.data_at(i).parents@ == g0.data_at(i).parents@);
        assert(g0.wf_vertex(i));
        assert(g0.data_at(i).has_parent(pv));
        assert(g0.wf_parent_of(i, pv));
        assert(g1.data_at(i).parent(pv) == g0.data_at(i).parent(pv));
        let pr = g0.data_at(i).parent(pv).unwrap();
        assert forall|k: int| 0 <= k < pr.pattern_indices@.len() implies {
            let pid3 = #[trigger] pr.pattern_indices@[k].0;
            let pos3 = pr.pattern_indices@[k].1;
            &&& g1.data_at(pv).child_pattern(pid3) matches Some(pat3) && pos3 < pat3@.len()
                && pat3@[pos3 as int].index == i
        } by {
            assert(g0.data_at(pv).child_pattern(pr.pattern_indices@[k].0) matches Some(pat1)
                && pr.pattern_indices@[k].1 < pat1@.len());
            if pv != t {
                assert(g1.data_at(pv) == g0.data_at(pv));
            } else {
                assert(pr.pattern_indices@[k].0 != pid) by {
                    assert(g0.data_at(t).child_pattern(pr.pattern_indices@[k].0) is Some);
                    if pr.pattern_indices@[k].0 == pid {
                        lemma_lookup_finds_pair(g0.data_at(t).children@, pid);
                    }
                }
            }
        }
    }
    assert(g1.parents_clean()) by {
        g0.lemma_wf_parents_clean();
        assert forall|i: VertexIndex| g1.valid_index(i) implies {
            &&& keys_unique(g1.data_at(i).parents@)
            &&& forall|j: int|
                0 <= j < g1.data_at(i).parents@.len()
                    ==> (#[trigger] g1.data_at(i).parents@[j]).1.indices_unique()
        } by {
            assert(g0.valid_index(i));
            assert(g1.data_at(i).parents@ == g0.data_at(i).parents@);
            assert(keys_unique(g0.data_at(i).parents@));
            assert(forall|j: int|
                0 <= j < g0.data_at(i).parents@.len()
                    ==> (#[trigger] g0.data_at(i).parents@[j]).1.indices_unique());
        }
    }
}

/// After a new decomposition `pid` of `target` has been registered
/// (state `g1`) and the wiring pass has installed the matching
/// back-references on its children (state `g2`), the graph is again
/// well-formed.
proof fn lemma_wf_after_wiring(
    g1: Hypergraph,
    g2: Hypergraph,
    indices: Seq<VertexIndex>,
    target: VertexIndex,
    w: TokenPosition,
    pid: PatternId,
)
    requires
        // shape of the wiring pass, as `add_parents_to_pattern_nodes` ensures:
        g2.vertices@.len() == g1.vertices@.len(),
        g2.next_pattern_id == g1.next_pattern_id,
        forall|i: VertexIndex|
            i < g2.vertices@.len() ==> (#[trigger] g2.key_at(i)) == g1.key_at(i) && g2.width_at(i)
                == g1.width_at(i) && g2.data_at(i).children@ == g1.data_at(i).children@,
        forall|i: VertexIndex|
            i < g2.vertices@.len() && !indices.contains(i) ==> (#[trigger] g2.data_at(
                i,
            )).parents@ == g1.data_at(i).parents@,
        forall|i: VertexIndex|
            i < g2.vertices@.len() ==> keys_unique((#[trigger] g2.data_at(i)).parents@),
        forall|i: VertexIndex|
            i < g2.vertices@.len() && indices.contains(i) ==> parent_wiring_of(g1, g2, indices,
                target, w, pid, i),
        // the graph before wiring is well-formed except for the one new
        // decomposition, whose back-references are not yet installed:
        forall|i: VertexIndex, j: VertexIndex|
            i < g1.vertices@.len() && j < g1.vertices@.len() && i != j ==> g1.key_at(i)
                != g1.key_at(j),
        forall|i: VertexIndex|
            i < g1.vertices@.len() ==> {
                &&& (#[trigger] g1.data_at(i)).width >= 1
                &&& keys_unique(g1.data_at(i).children@)
                &&& keys_unique(g1.data_at(i).parents@)
                &&& (g1.key_at(i) is Token ==> g1.data_at(i).width == 1 && g1.data_at(
                    i,
                ).children@.len() == 0)
                &&& (g1.key_at(i) matches VertexKey::Pattern(id) ==> id == i && g1.data_at(
                    i,
                ).children@.len() >= 1)
            },
        forall|i: VertexIndex, pid2: PatternId|
            i < g1.vertices@.len() && (#[trigger] g1.data_at(i).has_child_pattern(pid2)) && !(i
                == target && pid2 == pid) ==> g1.wf_pattern_of(i, pid2),
        forall|i: VertexIndex, pv: VertexIndex|
            i < g1.vertices@.len() && (#[trigger] g1.data_at(i).has_parent(pv))
                ==> g1.wf_parent_of(i, pv),
        // the new decomposition itself:
        target < g1.vertices@.len(),
        1 <= indices.len() <= usize::MAX,
        !indices.contains(target),
        pid < g1.next_pattern_id,
        w == g1.width_at(target),
        g1.data_at(target).child_pattern(pid) is Some,
        g1.data_at(target).child_pattern(pid).unwrap()@.len() == indices.len(),
        pattern_width_spec(g1.data_at(target).child_pattern(pid).unwrap()@) == w,
        forall|k: int|
            0 <= k < indices.len() ==> (#[trigger] indices[k]) < g1.vertices@.len()
                && g1.data_at(target).child_pattern(pid).unwrap()@[k].index == indices[k]
                && g1.data_at(target).child_pattern(pid).unwrap()@[k].width == g1.width_at(
                indices[k],
            ),
        // no vertex already holds a parent entry for `target` unless it
        // really occurs in one of target's decompositions (given by the
        // almost-well-formedness above), which keeps merged entries sound.
    ensures
        g2.wf(),
{
    let n = g1.vertices@.len();
    let pat = g1.data_at(target).child_pattern(pid).unwrap()@;
    assert forall|i: VertexIndex, j: VertexIndex|
        g2.valid_index(i) && g2.valid_index(j) && i != j implies g2.key_at(i) != g2.key_at(j) by {
        assert(g1.key_at(i) != g1.key_at(j));
    }
    assert forall|i: VertexIndex| g2.valid_index(i) implies g2.wf_vertex(i) by {
        assert(g2.key_at(i) == g1.key_at(i) && g2.width_at(i) == g1.width_at(i) && g2.data_at(
            i,
        ).children@ == g1.data_at(i).children@);
        assert(g2.data_at(i).width == g1.data_at(i).width);
        // children-side obligations
        assert forall|pid2: PatternId| g2.data_at(i).has_child_pattern(pid2) implies
            g2.wf_pattern_of(i, pid2) by {
            assert(g1.data_at(i).has_child_pattern(pid2));
            lemma_haskey_lookup(g1.data_at(i).children@, pid2);
            let pat2 = g1.data_at(i).child_pattern(pid2).unwrap()@;
            assert(g2.data_at(i).child_pattern(pid2) == g1.data_at(i).child_pattern(pid2));
            if i == target && pid2 == pid {
                assert forall|k: int| 0 <= k < pat.len() implies {
                    &&& g2.valid_index(#[trigger] pat[k].index)
                    &&& pat[k].width == g2.width_at(pat[k].index)
                    &&& g2.data_at(pat[k].index).parent(i) matches Some(pr)
                        && pr.pattern_indices@.contains((pid, k as usize))
                } by {
                    let c = indices[k];
                    assert(pat[k].index == c);
                    assert(indices.contains(c));
                    assert(g2.key_at(c) == g1.key_at(c) && g2.width_at(c) == g1.width_at(c)
                        && g2.data_at(c).children@ == g1.data_at(c).children@);
                    assert(parent_wiring_of(g1, g2, indices, target, w, pid, c));
                    let pr = g2.data_at(c).parent(target).unwrap();
                    assert(pr.pattern_indices@.contains((pid, k as usize)));
                }
            } else {
                assert(g1.wf_pattern_of(i, pid2));
                assert forall|k: int| 0 <= k < pat2.len() implies {
                    &&& g2.valid_index(#[trigger] pat2[k].index)
                    &&& pat2[k].width == g2.width_at(pat2[k].index)
                    &&& g2.data_at(pat2[k].index).parent(i) matches Some(pr)
                        && pr.pattern_indices@.contains((pid2, k as usize))
                } by {
                    let c = pat2[k].index;
                    assert(g1.valid_index(c));
                    assert(g2.key_at(c) == g1.key_at(c) && g2.width_at(c) == g1.width_at(c)
                        && g2.data_at(c).children@ == g1.data_at(c).children@);
                    assert(g1.data_at(c).parent(i) is Some);
                    let pr1 = g1.data_at(c).parent(i).unwrap();
                    assert(pr1.pattern_indices@.contains((pid2, k as usize)));
                    if indices.contains(c) {
                        assert(parent_wiring_of(g1, g2, indices, target, w, pid, c));
                        if i == target {
                            assert(g1.data_at(c).has_parent(target)) by {
                                lemma_lookup_finds_pair(g1.data_at(c).parents@, target);
                            }
                            let pr2 = g2.data_at(c).parent(target).unwrap();
                            assert(pr2.pattern_indices@.contains((pid2, k as usize)));
                        } else {
                            assert(g2.data_at(c).parent(i) == g1.data_at(c).parent(i));
                        }
                    } else {
                        assert(g2.data_at(c).parents@ == g1.data_at(c).parents@);
                    }
                }
            }
        }
        // parent-side obligations
        assert forall|pv: VertexIndex| g2.data_at(i).has_parent(pv) implies g2.wf_parent_of(
            i, pv) by {
            if indices.contains(i) {
                assert(parent_wiring_of(g1, g2, indices, target, w, pid, i));
                if pv == target {
                    let pr = g2.data_at(i).parent(target).unwrap();
                    assert(pr.width == w) by {
                        if g1.data_at(i).has_parent(target) {
                            lemma_haskey_lookup(g1.data_at(i).parents@, target);
                            assert(g1.wf_parent_of(i, target));
                        }
                    }
                    assert(pr.pattern_indices@.len() >= 1) by {
                        let m = choose|m: int| 0 <= m < indices.len() && indices[m] == i;
                        assert(pr.pattern_indices@.contains((pid, m as usize)));
                    }
                    assert forall|k: int| 0 <= k < pr.pattern_indices@.len() implies {
                        let pid3 = #[trigger] pr.pattern_indices@[k].0;
                        let pos3 = pr.pattern_indices@[k].1;
                        &&& g2.data_at(target).child_pattern(pid3) matches Some(pat3) && pos3
                            < pat3@.len() && pat3@[pos3 as int].index == i
                    } by {
                        let q = pr.pattern_indices@[k];
                        assert(pr.pattern_indices@.contains(q));
                        assert(g2.key_at(target) == g1.key_at(target) && g2.data_at(
                            target,
                        ).children@ == g1.data_at(target).children@);
                        assert(g2.data_at(target).child_pattern(q.0) == g1.data_at(
                            target,
                        ).child_pattern(q.0));
                        if g1.data_at(i).parent(target) is Some && g1.data_at(i).parent(
                            target,
                        ).unwrap().pattern_indices@.contains(q) {
                            assert(g1.data_at(i).has_parent(target)) by {
                                lemma_lookup_finds_pair(g1.data_at(i).parents@, target);
                            }
                            assert(g1.wf_parent_of(i, target));
                            let pr1 = g1.data_at(i).parent(target).unwrap();
                            let k1 = choose|k1: int|
                                0 <= k1 < pr1.pattern_indices@.len() && pr1.pattern_indices@[k1]
                                    == q;
                            assert(g1.data_at(target).child_pattern(
                                pr1.pattern_indices@[k1].0) matches Some(pat1)
                                && pr1.pattern_indices@[k1].1 < pat1@.len());
                        } else {
                            assert(q.0 == pid && q.1 < indices.len() && indices[q.1 as int] == i);
                            assert(g1.data_at(target).child_pattern(pid).unwrap()@[
                                q.1 as int].index == indices[q.1 as int]);
                        }
                    }
                    assert(g2.valid_index(target));
                    assert(pr.indices_unique());
                } else {
                    assert(g2.data_at(i).parent(pv) == g1.data_at(i).parent(pv));
                    assert(g1.data_at(i).has_parent(pv));
                    assert(g1.wf_parent_of(i, pv));
                    let pr1 = g1.data_at(i).parent(pv).unwrap();
                    assert(g1.valid_index(pv));
                    assert(g2.key_at(pv) == g1.key_at(pv) && g2.data_at(pv).children@
                        == g1.data_at(pv).children@);
                    assert forall|k: int| 0 <= k < pr1.pattern_indices@.len() implies {
                        let pid3 = #[trigger] pr1.pattern_indices@[k].0;
                        let pos3 = pr1.pattern_indices@[k].1;
                        &&& g2.data_at(pv).child_pattern(pid3) matches Some(pat3) && pos3
                            < pat3@.len() && pat3@[pos3 as int].index == i
                    } by {
                        assert(g1.data_at(pv).child_pattern(
                            pr1.pattern_indices@[k].0) matches Some(pat1)
                            && pr1.pattern_indices@[k].1 < pat1@.len());
                        assert(g2.data_at(pv).child_pattern(pr1.pattern_indices@[k].0)
                            == g1.data_at(pv).child_pattern(pr1.pattern_indices@[k].0));
                    }
                }
            } else {
                assert(g2.data_at(i).parents@ == g1.data_at(i).parents@);
                assert(g1.data_at(i).has_parent(pv));
                assert(g1.wf_parent_of(i, pv));
                let pr1 = g1.data_at(i).parent(pv).unwrap();
                assert(g1.valid_index(pv));
                assert(g2.key_at(pv) == g1.key_at(pv) && g2.data_at(pv).children@ == g1.data_at(
                    pv,
                ).children@);
                assert forall|k: int| 0 <= k < pr1.pattern_indices@.len() implies {
                    let pid3 = #[trigger] pr1.pattern_indices@[k].0;
                    let pos3 = pr1.pattern_indices@[k].1;
                    &&& g2.data_at(pv).child_pattern(pid3) matches Some(pat3) && pos3
                        < pat3@.len() && pat3@[pos3 as int].index == i
                } by {
                    assert(g1.data_at(pv).child_pattern(pr1.pattern_indices@[k].0) matches Some(
                        pat1) && pr1.pattern_indices@[k].1 < pat1@.len());
                    assert(g2.data_at(pv).child_pattern(pr1.pattern_indices@[k].0) == g1.data_at(
                        pv,
                    ).child_pattern(pr1.pattern_indices@[k].0));
                }
            }
        }
    }
}

/// An unchanged graph keeps each vertex well-formed.
proof fn lemma_wf_same(g0: Hypergraph, g1: Hypergraph, i: VertexIndex)
    requires
        g0.wf_vertex(i),
        g0.valid_index(i),
        g1.vertices@ == g0.vertices@,
        g1.next_pattern_id >= g0.next_pattern_id,
    ensures
        g1.wf_vertex(i),
{
    assert(g1.data_at(i) == g0.data_at(i));
    let d = g1.data_at(i);
    assert forall|pid: PatternId| d.has_child_pattern(pid) implies g1.wf_pattern_of(i, pid) by {
        assert(g0.wf_pattern_of(i, pid));
        let pat = g0.data_at(i).child_pattern(pid).unwrap()@;
        assert(forall|k: int|
            0 <= k < pat.len() ==> g1.data_at(#[trigger] pat[k].index) == g0.data_at(
                pat[k].index,
            ));
    }
    assert forall|pv: VertexIndex| d.has_parent(pv) implies g1.wf_parent_of(i, pv) by {
        assert(g0.wf_parent_of(i, pv));
        assert(g1.data_at(pv) == g0.data_at(pv));
    }
}

} // verus!
