//! Search: matching a query sub-sequence against the graph by climbing
//! the anchor's parent patterns.
//!
//! The first query element is the anchor; the rest must be matched by the
//! content that follows the anchor inside one of its parents.  A parent
//! that is consumed entirely while query content remains becomes the new
//! anchor, and the climb continues with the unmatched remainder.

use vstd::prelude::*;
use vstd::string::StrSliceExecFns;
use crate::graph::{Hypergraph, pattern_width_spec};
use crate::vertex::{Child, Pattern, PatternId, Token, VertexIndex, VertexKey, clone_pattern,
    concat_patterns, pattern_slice};

verus! {

/// Classifies how a matched vertex's span relates to the query.
///
/// `Prefix(rem)` records that the matched vertex covers only a leading
/// part of the query and `rem` is the query's unmatched remainder, which
/// the search resolves by climbing further.  `Postfix(pre)` records
/// unmatched leading content `pre` of the matched vertex, and
/// `Infix(pre, rem)` both at once; neither is climbed further, since the
/// unmatched content precedes the matched span.
#[derive(Debug, PartialEq, Eq, Clone)]
pub enum FoundRange {
    /// The query covers the matched vertex exactly.
    Complete,
    Prefix(Pattern),
    Postfix(Pattern),
    Infix(Pattern, Pattern),
}

impl FoundRange {
    /// Accumulates content discovered during climbing onto the front of
    /// the range: each climb step only inspects content to the right of
    /// previously consumed material, so newly discovered fragments are
    /// concatenated ahead of existing ones.
    pub fn prepend_prefix(self, pattern: Pattern) -> (r: Self)
        ensures
            pattern@.len() == 0 ==> r == self,
            pattern@.len() > 0 ==> {
                &&& (self matches FoundRange::Complete ==> r matches FoundRange::Prefix(q) && q@
                    == pattern@)
                &&& (self matches FoundRange::Prefix(post) ==> r matches FoundRange::Infix(
                    q1,
                    q2,
                ) && q1@ == pattern@ && q2@ == post@)
                &&& (self matches FoundRange::Infix(pre, post) ==> r matches FoundRange::Infix(
                    q1,
                    q2,
                ) && q1@ == pattern@ + pre@ && q2@ == post@)
                &&& (self matches FoundRange::Postfix(pre) ==> r matches FoundRange::Postfix(q)
                    && q@ == pattern@ + pre@)
            },
    {
        if pattern.len() == 0 {
            return self;
        }
        match self {
            FoundRange::Complete => FoundRange::Prefix(pattern),
            FoundRange::Prefix(post) => FoundRange::Infix(pattern, post),
            FoundRange::Infix(pre, post) => FoundRange::Infix(concat_patterns(&pattern, &pre),
                post),
            FoundRange::Postfix(pre) => FoundRange::Postfix(concat_patterns(&pattern, &pre)),
        }
    }

    /// True exactly for a complete match.
    pub fn is_matching(&self) -> (r: bool)
        ensures
            r == (self is Complete),
    {
        matches!(self, FoundRange::Complete)
    }

    /// Swaps the leading and trailing roles, for matching attempted
    /// leftward.
    pub fn reverse(self) -> (r: Self)
        ensures
            self matches FoundRange::Complete ==> r is Complete,
            self matches FoundRange::Prefix(p) ==> r matches FoundRange::Postfix(q) && q == p,
            self matches FoundRange::Postfix(p) ==> r matches FoundRange::Prefix(q) && q == p,
            self matches FoundRange::Infix(a, b) ==> r matches FoundRange::Infix(c, d) && c == b
                && d == a,
    {
        match self {
            FoundRange::Complete => FoundRange::Complete,
            FoundRange::Prefix(post) => FoundRange::Postfix(post),
            FoundRange::Postfix(pre) => FoundRange::Prefix(pre),
            FoundRange::Infix(pre, post) => FoundRange::Infix(post, pre),
        }
    }
}

/// A search hit: the found range of the query within the vertex at the
/// index, which was entered through the given pattern.
#[derive(Debug, PartialEq, Eq, Clone)]
pub struct SearchFound(pub FoundRange, pub VertexIndex, pub PatternId);

impl SearchFound {
    /// Prepends discovered leading content to the hit's range, leaving the
    /// vertex and pattern id untouched.
    pub fn prepend_prefix(self, pattern: Pattern) -> (r: Self)
        ensures
            r.1 == self.1,
            r.2 == self.2,
            pattern@.len() == 0 ==> r.0 == self.0,
            pattern@.len() > 0 ==> {
                &&& (self.0 matches FoundRange::Complete ==> r.0 matches FoundRange::Prefix(q)
                    && q@ == pattern@)
                &&& (self.0 matches FoundRange::Prefix(post) ==> r.0 matches FoundRange::Infix(
                    q1,
                    q2,
                ) && q1@ == pattern@ && q2@ == post@)
                &&& (self.0 matches FoundRange::Infix(pre, post) ==> r.0 matches FoundRange::Infix(
                    q1,
                    q2,
                ) && q1@ == pattern@ + pre@ && q2@ == post@)
                &&& (self.0 matches FoundRange::Postfix(pre) ==> r.0 matches FoundRange::Postfix(
                    q,
                ) && q@ == pattern@ + pre@)
            },
    {
        SearchFound(self.0.prepend_prefix(pattern), self.1, self.2)
    }
}

/// Structural validity of a search result against the graph: the matched
/// vertex exists, the reported width is its real width, and the reported
/// `(pattern id, position)` occurrence names a real slot of one of its
/// decompositions.
pub open spec fn found_in_graph(
    g: Hypergraph,
    c: Child,
    pid: PatternId,
    pos: usize,
) -> bool {
    &&& g.valid_index(c.index)
    &&& c.width == g.width_at(c.index)
    &&& g.data_at(c.index).child_pattern(pid) matches Some(pat) && pos < pat@.len()
}

/// The vertex indices a pattern's children name, in order.
pub open spec fn pattern_indices_of(p: Seq<Child>) -> Seq<VertexIndex> {
    p.map_values(|c: Child| c.index)
}

impl Hypergraph {
    /// Whether the occurrence `oi` of parent entry `pi` of `anchor` is a
    /// direct hit for the query rest `rest`: the anchor leads one of that
    /// parent's decompositions, and the content after it names exactly
    /// the vertices of `rest`.
    pub open spec fn direct_hit_at(
        self,
        anchor: VertexIndex,
        rest: Seq<VertexIndex>,
        pi: int,
        oi: int,
    ) -> bool {
        let parents = self.data_at(anchor).parents@;
        &&& rest.len() >= 1
        &&& 0 <= pi < parents.len()
        &&& self.valid_index(parents[pi].0)
        &&& 0 <= oi < parents[pi].1.pattern_indices@.len()
        &&& parents[pi].1.pattern_indices@[oi].1 == 0
        &&& self.data_at(parents[pi].0).child_pattern(parents[pi].1.pattern_indices@[oi].0)
            matches Some(pat) && pat@.len() == rest.len() + 1 && (forall|k: int|
            0 <= k < rest.len() ==> pat@[k + 1].index == rest[k])
    }

    /// Whether some registered parent of `anchor` consists of the anchor
    /// followed exactly by the vertices of `rest`.  On such a graph the
    /// search is owed a complete hit.
    pub open spec fn direct_parent_hit(self, anchor: VertexIndex, rest: Seq<VertexIndex>) -> bool {
        exists|pi: int, oi: int| self.direct_hit_at(anchor, rest, pi, oi)
    }

    /// A direct hit's parent spans the anchor plus the query rest.
    proof fn lemma_direct_hit_width(
        self,
        anchor: VertexIndex,
        postfix: Seq<Child>,
        pi: int,
        oi: int,
    )
        requires
            self.wf(),
            self.valid_index(anchor),
            self.direct_hit_at(anchor, pattern_indices_of(postfix), pi, oi),
        ensures
            self.width_at(self.data_at(anchor).parents@[pi].0) as int == self.width_at(anchor)
                + self.children_widths(postfix),
    {
        let idxs = pattern_indices_of(postfix);
        let parent = self.data_at(anchor).parents@[pi].0;
        let occ = self.data_at(anchor).parents@[pi].1.pattern_indices@[oi];
        let pat = self.data_at(parent).child_pattern(occ.0).unwrap()@;
        self.lemma_occurrence_widths(anchor, pi, oi, pat, pat.take(occ.1 as int), pat.skip(
            occ.1 as int + 1));
        assert(pat.take(0) =~= Seq::<Child>::empty());
        assert(self.children_widths(Seq::<Child>::empty()) == 0);
        assert(pat.skip(1).len() == postfix.len());
        assert forall|k: int| 0 <= k < pat.skip(1).len() implies (#[trigger] pat.skip(1)[k]).index
            == postfix[k].index by {
            assert(pat[k + 1].index == idxs[k]);
            assert(idxs[k] == postfix[k].index);
        }
        self.lemma_children_widths_indices(pat.skip(1), postfix);
    }

    /// In a well-formed graph, an occurrence `(pattern id, position)`
    /// recorded on the anchor names a slot holding the anchor, and the
    /// containing vertex's width splits into the content before the
    /// anchor, the anchor itself, and the content after it.
    proof fn lemma_occurrence_widths(
        self,
        anchor: VertexIndex,
        pi: int,
        oi: int,
        pat: Seq<Child>,
        pre: Seq<Child>,
        rest: Seq<Child>,
    )
        requires
            self.wf(),
            self.valid_index(anchor),
            0 <= pi < self.data_at(anchor).parents@.len(),
            0 <= oi < self.data_at(anchor).parents@[pi].1.pattern_indices@.len(),
            self.data_at(self.data_at(anchor).parents@[pi].0).child_pattern(
                self.data_at(anchor).parents@[pi].1.pattern_indices@[oi].0,
            ) matches Some(p) && pat == p@,
            pre == pat.take(self.data_at(anchor).parents@[pi].1.pattern_indices@[oi].1 as int),
            rest == pat.skip(
                self.data_at(anchor).parents@[pi].1.pattern_indices@[oi].1 as int + 1,
            ),
        ensures
            self.data_at(anchor).parents@[pi].1.pattern_indices@[oi].1 < pat.len(),
            pat[self.data_at(anchor).parents@[pi].1.pattern_indices@[oi].1 as int].index
                == anchor,
            self.valid_index(self.data_at(anchor).parents@[pi].0),
            self.width_at(self.data_at(anchor).parents@[pi].0) as int == self.children_widths(
                pre,
            ) + self.width_at(anchor) + self.children_widths(rest),
    {
        let parent = self.data_at(anchor).parents@[pi].0;
        let q = self.data_at(anchor).parents@[pi].1.pattern_indices@[oi];
        let pid = q.0;
        let pos = q.1 as int;
        assert(self.wf_vertex(anchor));
        let s0 = self.data_at(anchor).parents@;
        crate::assoc::lemma_lookup_unique(s0, parent, pi);
        assert(self.data_at(anchor).parent(parent) == Some(s0[pi].1));
        assert(self.data_at(anchor).has_parent(parent)) by {
            assert(s0[pi].0 == parent);
        }
        assert(self.wf_parent_of(anchor, parent));
        assert(self.data_at(parent).child_pattern(pid) matches Some(px) && pos < px@.len()
            && px@[pos].index == anchor) by {
            assert(s0[pi].1.pattern_indices@[oi] == q);
        }
        assert(self.wf_vertex(parent));
        assert(self.data_at(parent).has_child_pattern(pid)) by {
            crate::assoc::lemma_lookup_finds_pair(self.data_at(parent).children@, pid);
        }
        assert(self.wf_pattern_of(parent, pid));
        assert(forall|k: int|
            0 <= k < pat.len() ==> self.valid_index((#[trigger] pat[k]).index) && pat[k].width
                == self.width_at(pat[k].index));
        self.lemma_children_widths_cached(pat);
        assert(pattern_width_spec(pat) == self.width_at(parent));
        self.lemma_children_widths_split(pat, pos);
        assert(pat.skip(pos)[0] == pat[pos]);
        assert(pat.skip(pos).drop_first() =~= pat.skip(pos + 1));
        assert(self.children_widths(pat.skip(pos)) == self.width_at(anchor) as int
            + self.children_widths(rest));
    }

    /// Matches `rest[ri..]` against a leading part of `query[qi..]`,
    /// expanding whichever side's head is wider through the graph's
    /// decompositions.  Returns the query's unmatched remainder when the
    /// rest is consumed entirely, `None` on a mismatch or when the fuel
    /// runs out.
    fn match_queue(
        &self,
        query: &Pattern,
        qi: usize,
        rest: &Pattern,
        ri: usize,
        fuel: usize,
    ) -> (r: Option<Pattern>)
        requires
            qi <= query@.len(),
            ri <= rest@.len(),
        ensures
            r matches Some(rem) ==> (self.wf() ==> self.children_widths(rest@.skip(ri as int))
                + self.children_widths(rem@) == self.children_widths(query@.skip(qi as int))),
            (rest@.len() - ri == query@.len() - qi && fuel >= rest@.len() - ri && forall|k: int|
                0 <= k < rest@.len() - ri ==> (#[trigger] rest@[ri + k]).index == query@[qi
                + k].index) ==> (r matches Some(rem) && rem@.len() == 0),
        decreases fuel,
    {
        if ri >= rest.len() {
            let rem = pattern_slice(query, qi, query.len());
            proof {
                assert(rest@.skip(ri as int) =~= Seq::<Child>::empty());
                assert(rem@ =~= query@.skip(qi as int));
            }
            return Some(rem);
        }
        if fuel == 0 {
            return None;
        }
        if qi >= query.len() {
            proof {
                assert(rest@.len() - ri != query@.len() - qi);
            }
            return None;
        }
        let qc = query[qi];
        let rc = rest[ri];
        if qc.index == rc.index {
            let rr = self.match_queue(query, qi + 1, rest, ri + 1, fuel - 1);
            proof {
                if self.wf() && rr is Some {
                    assert(rest@.skip(ri as int).drop_first() =~= rest@.skip(ri + 1));
                    assert(query@.skip(qi as int).drop_first() =~= query@.skip(qi + 1));
                    assert(rest@.skip(ri as int)[0] == rc);
                    assert(query@.skip(qi as int)[0] == qc);
                }
                if rest@.len() - ri == query@.len() - qi && fuel >= rest@.len() - ri && forall|
                    k: int,
                |
                    0 <= k < rest@.len() - ri ==> (#[trigger] rest@[ri + k]).index == query@[qi
                    + k].index {
                    assert forall|k: int|
                        0 <= k < rest@.len() - (ri + 1) implies (#[trigger] rest@[ri + 1
                        + k]).index == query@[qi + 1 + k].index by {
                        assert(rest@[ri + (k + 1)].index == query@[qi + (k + 1)].index);
                    }
                }
            }
            return rr;
        }
        proof {
            if rest@.len() - ri == query@.len() - qi && forall|k: int|
                0 <= k < rest@.len() - ri ==> (#[trigger] rest@[ri + k]).index == query@[qi
                + k].index {
                assert(rest@[ri + 0].index == query@[qi + 0].index);
                assert(false);
            }
        }
        let qw = match self.get_vertex_data(qc.index) {
            Some(d) => d.get_width(),
            None => {
                return None;
            },
        };
        let rw = match self.get_vertex_data(rc.index) {
            Some(d) => d.get_width(),
            None => {
                return None;
            },
        };
        if rw == qw {
            return None;
        }
        if rw > qw {
            // expand the rest's head into each of its decompositions
            let tail = pattern_slice(rest, ri + 1, rest.len());
            let n = self.expect_vertex_data(rc.index).children.len();
            let mut j: usize = 0;
            while j < n
                invariant
                    n == self.data_at(rc.index).children@.len(),
                    self.valid_index(rc.index),
                    rw == self.width_at(rc.index),
                    j <= n,
                    qi <= query@.len(),
                    ri < rest@.len(),
                    qi < query@.len(),
                    rc == rest@[ri as int],
                    qc == query@[qi as int],
                    qc.index != rc.index,
                    tail@ == rest@.subrange(ri + 1, rest@.len() as int),
                    fuel >= 1,
                decreases n - j,
            {
                let d = &self.expect_vertex_data(rc.index).children[j].1;
                let new_rest = concat_patterns(d, &tail);
                match self.match_queue(query, qi, &new_rest, 0, fuel - 1) {
                    Some(rem) => {
                        proof {
                            if rest@.len() - ri == query@.len() - qi && forall|k: int|
                                0 <= k < rest@.len() - ri ==> (#[trigger] rest@[ri + k]).index
                                    == query@[qi + k].index {
                                assert(rest@[ri + 0].index == query@[qi + 0].index);
                            }
                            if self.wf() {
                                self.lemma_stored_pattern_widths(rc.index, j as int);
                                self.lemma_children_widths_concat(d@, tail@);
                                assert(new_rest@.skip(0) =~= new_rest@);
                                assert(rest@.skip(ri as int).drop_first() =~= rest@.skip(
                                    ri + 1));
                                assert(rest@.skip(ri as int)[0] == rc);
                                assert(tail@ =~= rest@.skip(ri + 1));
                            }
                        }
                        return Some(rem);
                    },
                    None => {},
                }
                j += 1;
            }
            None
        } else {
            // expand the query's head into each of its decompositions
            let tail = pattern_slice(query, qi + 1, query.len());
            let n = self.expect_vertex_data(qc.index).children.len();
            let mut j: usize = 0;
            while j < n
                invariant
                    n == self.data_at(qc.index).children@.len(),
                    self.valid_index(qc.index),
                    qw == self.width_at(qc.index),
                    j <= n,
                    ri <= rest@.len(),
                    qi < query@.len(),
                    ri < rest@.len(),
                    qc == query@[qi as int],
                    rc == rest@[ri as int],
                    qc.index != rc.index,
                    tail@ == query@.subrange(qi + 1, query@.len() as int),
                    fuel >= 1,
                decreases n - j,
            {
                let d = &self.expect_vertex_data(qc.index).children[j].1;
                let new_query = concat_patterns(d, &tail);
                match self.match_queue(&new_query, 0, rest, ri, fuel - 1) {
                    Some(rem) => {
                        proof {
                            if rest@.len() - ri == query@.len() - qi && forall|k: int|
                                0 <= k < rest@.len() - ri ==> (#[trigger] rest@[ri + k]).index
                                    == query@[qi + k].index {
                                assert(rest@[ri + 0].index == query@[qi + 0].index);
                            }
                            if self.wf() {
                                self.lemma_stored_pattern_widths(qc.index, j as int);
                                self.lemma_children_widths_concat(d@, tail@);
                                assert(new_query@.skip(0) =~= new_query@);
                                assert(query@.skip(qi as int).drop_first() =~= query@.skip(
                                    qi + 1));
                                assert(query@.skip(qi as int)[0] == qc);
                                assert(tail@ =~= query@.skip(qi + 1));
                            }
                        }
                        return Some(rem);
                    },
                    None => {},
                }
                j += 1;
            }
            None
        }
    }

    /// The fuel handed to the matcher: generous enough for any match whose
    /// token span fits the widths involved.
    fn match_fuel(&self, anchor: VertexIndex, postfix: &Pattern) -> (r: usize)
        ensures
            self.wf() ==> r >= postfix@.len(),
    {
        let mut w: usize = match self.get_vertex_data(anchor) {
            Some(d) => d.get_width(),
            None => 0,
        };
        let mut i: usize = 0;
        while i < postfix.len()
            invariant
                i <= postfix@.len(),
                self.wf() ==> w >= i,
            decreases postfix@.len() - i,
        {
            let cw = match self.get_vertex_data(postfix[i].index) {
                Some(d) => d.get_width(),
                None => 1,
            };
            proof {
                if self.wf() && self.valid_index(postfix@[i as int].index) {
                    assert(self.wf_vertex(postfix@[i as int].index));
                }
            }
            w = w.saturating_add(cw);
            i += 1;
        }
        w.saturating_add(w).saturating_add(w).saturating_add(w).saturating_add(16)
    }

    /// Searches the anchor's registered parents for the one whose content
    /// immediately following the anchor best matches `postfix`, bounded by
    /// the width the match may span.  A returned `Prefix` carries the
    /// query's unmatched remainder and asks the caller to climb on.
    pub(crate) fn find_parent_matching_context(
        &self,
        postfix: &Pattern,
        anchor: VertexIndex,
    ) -> (r: Option<(Child, (PatternId, usize), FoundRange)>)
        requires
            self.valid_index(anchor),
        ensures
            r matches Some(t) ==> found_in_graph(*self, t.0, t.1.0, t.1.1),
            r matches Some(t) ==> (t.2 is Complete && self.wf() ==> self.width_at(
                t.0.index,
            ) as int == self.width_at(anchor) + self.children_widths(postfix@)),
            r matches Some(t) ==> (t.2 matches FoundRange::Prefix(rem) ==> (self.wf()
                ==> self.width_at(t.0.index) + self.children_widths(rem@) == self.width_at(
                anchor,
            ) + self.children_widths(postfix@))),
            self.wf() && self.direct_parent_hit(anchor, pattern_indices_of(postfix@)) ==> (r
                matches Some(t) && t.2 is Complete),
    {
        let ghost idxs = pattern_indices_of(postfix@);
        let anchor_width = self.expect_vertex_data(anchor).get_width();
        let postfix_width = {
            let mut w: usize = 0;
            let mut i: usize = 0;
            proof {
                assert(postfix@.take(0) =~= Seq::<Child>::empty());
            }
            while i < postfix.len()
                invariant
                    i <= postfix@.len(),
                    w as int == if self.children_widths(postfix@.take(i as int)) <= usize::MAX
                        as int {
                        self.children_widths(postfix@.take(i as int))
                    } else {
                        usize::MAX as int
                    },
                decreases postfix@.len() - i,
            {
                let cw = match self.get_vertex_data(postfix[i].index) {
                    Some(d) => d.get_width(),
                    None => 0,
                };
                proof {
                    self.lemma_children_widths_take_step(postfix@, i as int);
                    self.lemma_children_widths_nonneg(postfix@.take(i as int));
                }
                w = w.saturating_add(cw);
                i += 1;
            }
            proof {
                assert(postfix@.take(postfix@.len() as int) =~= postfix@);
            }
            w
        };
        let bound = anchor_width.saturating_add(postfix_width);
        let fuel = self.match_fuel(anchor, postfix);

        let mut climb: Option<(Child, (PatternId, usize), Pattern)> = None;
        let mut partial: Option<(Child, (PatternId, usize), FoundRange)> = None;

        let parents_len = self.expect_vertex_data(anchor).parents.len();
        let mut pi: usize = 0;
        while pi < parents_len
            invariant
                self.valid_index(anchor),
                parents_len == self.data_at(anchor).parents@.len(),
                pi <= parents_len,
                climb matches Some(t) ==> found_in_graph(*self, t.0, t.1.0, t.1.1),
                partial matches Some(t) ==> found_in_graph(*self, t.0, t.1.0, t.1.1),
                partial matches Some(t) ==> !(t.2 is Complete) && !(t.2 is Prefix),
                climb matches Some(t) ==> (self.wf() ==> self.width_at(t.0.index)
                    + self.children_widths(t.2@) == self.width_at(anchor)
                    + self.children_widths(postfix@)),
                anchor_width == self.width_at(anchor),
                postfix_width as int == if self.children_widths(postfix@) <= usize::MAX as int {
                    self.children_widths(postfix@)
                } else {
                    usize::MAX as int
                },
                bound as int == if anchor_width + postfix_width <= usize::MAX as int {
                    anchor_width + postfix_width
                } else {
                    usize::MAX as int
                },
                self.wf() ==> fuel >= postfix@.len(),
                idxs == pattern_indices_of(postfix@),
                self.wf() ==> forall|pi2: int, oi2: int|
                    0 <= pi2 < pi ==> !self.direct_hit_at(anchor, idxs, pi2, oi2),
            decreases parents_len - pi,
        {
            let parent_index = self.expect_vertex_data(anchor).parents[pi].0;
            if parent_index < self.vertex_count() {
                let parent_width = self.expect_vertex_data(parent_index).get_width();
                if parent_width <= bound {
                    let occ_len =
                        self.expect_vertex_data(anchor).parents[pi].1.pattern_indices.len();
                    let mut oi: usize = 0;
                    while oi < occ_len
                        invariant
                            self.valid_index(anchor),
                            pi < self.data_at(anchor).parents@.len(),
                            self.valid_index(parent_index),
                            parent_index == self.data_at(anchor).parents@[pi as int].0,
                            parent_width == self.width_at(parent_index),
                            occ_len == self.data_at(anchor).parents@[
                                pi as int].1.pattern_indices@.len(),
                            oi <= occ_len,
                            climb matches Some(t) ==> found_in_graph(*self, t.0, t.1.0, t.1.1),
                            partial matches Some(t) ==> found_in_graph(*self, t.0, t.1.0,
                                t.1.1),
                            partial matches Some(t) ==> !(t.2 is Complete) && !(t.2 is Prefix),
                            climb matches Some(t) ==> (self.wf() ==> self.width_at(t.0.index)
                                + self.children_widths(t.2@) == self.width_at(anchor)
                                + self.children_widths(postfix@)),
                            anchor_width == self.width_at(anchor),
                            self.wf() ==> fuel >= postfix@.len(),
                            idxs == pattern_indices_of(postfix@),
                            self.wf() ==> forall|pi2: int, oi2: int|
                                0 <= pi2 < pi ==> !self.direct_hit_at(anchor, idxs, pi2, oi2),
                            self.wf() ==> forall|oi2: int|
                                0 <= oi2 < oi ==> !self.direct_hit_at(anchor, idxs, pi as int,
                                    oi2),
                        decreases occ_len - oi,
                    {
                        let occ =
                            self.expect_vertex_data(anchor).parents[pi].1.pattern_indices[oi];
                        let pid = occ.0;
                        let pos = occ.1;
                        match self.expect_vertex_data(parent_index).get_child_pattern(pid) {
                            Some(pat) => {
                                if pos < pat.len() && pos + 1 <= pat.len() {
                                    let rest = pattern_slice(pat, pos + 1, pat.len());
                                    if rest.len() > 0 {
                                        let pre = pattern_slice(pat, 0, pos);
                                        proof {
                                            if self.wf() && self.direct_hit_at(anchor, idxs,
                                                pi as int, oi as int) {
                                                let occs = self.data_at(anchor).parents@[
                                                pi as int].1.pattern_indices@;
                                                assert(occ == occs[oi as int]);
                                                assert(pos == 0);
                                                assert(self.data_at(parent_index).child_pattern(
                                                    pid) == Some(*pat));
                                                assert(pat@.len() == idxs.len() + 1);
                                                assert(rest@ == pat@.subrange(1,
                                                    pat@.len() as int));
                                                assert(rest@.len() == postfix@.len());
                                                assert forall|k: int|
                                                    0 <= k < rest@.len() - 0 implies (
                                                #[trigger] rest@[0 + k]).index == postfix@[0
                                                    + k].index by {
                                                    assert(rest@[k] == pat@[k + 1]);
                                                    assert(pat@[k + 1].index == idxs[k]);
                                                    assert(idxs[k] == postfix@[k].index);
                                                }
                                                assert(fuel >= rest@.len() - 0);
                                            }
                                        }
                                        match self.match_queue(postfix, 0, &rest, 0, fuel) {
                                            Some(rem) => {
                                                proof {
                                                    if self.wf() {
                                                        self.lemma_occurrence_widths(anchor,
                                                            pi as int, oi as int, pat@, pre@,
                                                            rest@);
                                                        assert(rest@.skip(0) =~= rest@);
                                                        assert(postfix@.skip(0) =~= postfix@);
                                                    }
                                                }
                                                let c = Child::new(parent_index, parent_width);
                                                if rem.len() == 0 && pre.len() == 0 {
                                                    proof {
                                                        if self.wf() {
                                                            assert(rem@ =~= Seq::<
                                                                Child,
                                                            >::empty());
                                                            assert(pre@ =~= Seq::<
                                                                Child,
                                                            >::empty());
                                                        }
                                                    }
                                                    return Some(
                                                        (c, (pid, pos), FoundRange::Complete),
                                                    );
                                                } else if rem.len() == 0 {
                                                    if partial.is_none() {
                                                        partial = Some(
                                                            (
                                                                c,
                                                                (pid, pos),
                                                                FoundRange::Postfix(pre),
                                                            ),
                                                        );
                                                    }
                                                } else if pre.len() == 0 {
                                                    let better = match &climb {
                                                        Some(t) => parent_width < t.0.width,
                                                        None => true,
                                                    };
                                                    if better {
                                                        climb = Some((c, (pid, pos), rem));
                                                    }
                                                } else {
                                                    if partial.is_none() {
                                                        partial = Some(
                                                            (
                                                                c,
                                                                (pid, pos),
                                                                FoundRange::Infix(pre, rem),
                                                            ),
                                                        );
                                                    }
                                                }
                                            },
                                            None => {
                                                proof {
                                                    if self.wf() && self.direct_hit_at(anchor,
                                                        idxs, pi as int, oi as int) {
                                                        assert(false);
                                                    }
                                                }
                                            },
                                        }
                                    }
                                }
                            },
                            None => {},
                        }
                        proof {
                            if self.wf() && self.direct_hit_at(anchor, idxs, pi as int,
                                oi as int) {
                                assert(occ == self.data_at(anchor).parents@[
                                pi as int].1.pattern_indices@[oi as int]);
                                assert(false);
                            }
                        }
                        oi += 1;
                    }
                }
            }
            proof {
                if self.wf() {
                    assert forall|oi2: int| !self.direct_hit_at(anchor, idxs, pi as int, oi2)
                        by {
                        if self.direct_hit_at(anchor, idxs, pi as int, oi2) {
                            assert(self.valid_index(self.data_at(anchor).parents@[
                            pi as int].0));
                            self.lemma_direct_hit_width(anchor, postfix@, pi as int, oi2);
                            self.lemma_children_widths_nonneg(postfix@);
                            assert(false);
                        }
                    }
                }
            }
            pi += 1;
        }
        proof {
            if self.wf() && self.direct_parent_hit(anchor, idxs) {
                let (pi2, oi2) = choose|pi2: int, oi2: int|
                    self.direct_hit_at(anchor, idxs, pi2, oi2);
                assert(0 <= pi2 < parents_len);
                assert(false);
            }
        }
        match climb {
            Some((c, occ2, rem)) => Some((c, occ2, FoundRange::Prefix(rem))),
            None => partial,
        }
    }

    /// Climbs from `index` until the whole remaining query is accounted
    /// for, following the parent whose content consumed the most.
    pub(crate) fn find_postfix_for(&self, index: VertexIndex, postfix: &Pattern) -> (r: Option<
        (Child, (PatternId, usize), FoundRange),
    >)
        requires
            self.valid_index(index),
        ensures
            r matches Some(t) ==> found_in_graph(*self, t.0, t.1.0, t.1.1),
            postfix@.len() == 0 ==> r is None,
            r matches Some(t) ==> (t.2 is Complete && self.wf() ==> self.width_at(t.0.index)
                as int == self.width_at(index) + self.children_widths(postfix@)),
            r matches Some(t) ==> !(t.2 is Prefix),
            self.wf() && self.direct_parent_hit(index, pattern_indices_of(postfix@)) ==> (r
                matches Some(t) && t.2 is Complete),
    {
        if postfix.len() == 0 {
            return None;
        }
        let mut anchor = index;
        let mut query = clone_pattern(postfix);
        let mut fuel = self.vertex_count().saturating_add(1);
        while fuel > 0
            invariant
                self.valid_index(anchor),
                self.valid_index(index),
                postfix@.len() > 0,
                self.wf() ==> self.width_at(anchor) as int + self.children_widths(query@)
                    == self.width_at(index) + self.children_widths(postfix@),
                self.wf() && self.direct_parent_hit(index, pattern_indices_of(postfix@))
                    ==> anchor == index && query@ == postfix@ && fuel >= 1,
            decreases fuel,
        {
            match self.find_parent_matching_context(&query, anchor) {
                None => {
                    proof {
                        if self.wf() && self.direct_parent_hit(index, pattern_indices_of(
                            postfix@,
                        )) {
                            assert(pattern_indices_of(query@) == pattern_indices_of(postfix@));
                            assert(false);
                        }
                    }
                    return None;
                },
                Some((c, occ, found_range)) => {
                    match found_range {
                        FoundRange::Complete => {
                            return Some((c, occ, FoundRange::Complete));
                        },
                        FoundRange::Prefix(rem) => {
                            proof {
                                if self.wf() && self.direct_parent_hit(index,
                                    pattern_indices_of(postfix@)) {
                                    assert(pattern_indices_of(query@) == pattern_indices_of(
                                        postfix@,
                                    ));
                                    assert(false);
                                }
                            }
                            anchor = c.index;
                            query = rem;
                            fuel = fuel - 1;
                        },
                        other => {
                            proof {
                                if self.wf() && self.direct_parent_hit(index,
                                    pattern_indices_of(postfix@)) {
                                    assert(pattern_indices_of(query@) == pattern_indices_of(
                                        postfix@,
                                    ));
                                    assert(false);
                                }
                            }
                            return Some((c, occ, other));
                        },
                    }
                },
            }
        }
        proof {
            if self.wf() && self.direct_parent_hit(index, pattern_indices_of(postfix@)) {
                assert(false);
            }
        }
        None
    }

    /// Matches a query pattern against the graph.  A pattern of length one
    /// is never found: a lone element is not a pattern occurrence.
    pub fn find_pattern(&self, pattern: &Pattern) -> (r: Option<
        (Child, (PatternId, usize), FoundRange),
    >)
        ensures
            pattern@.len() <= 1 ==> r is None,
            r matches Some(t) ==> found_in_graph(*self, t.0, t.1.0, t.1.1),
            r matches Some(t) ==> (t.2 is Complete && self.wf() ==> t.0.width as int
                == self.children_widths(pattern@)),
            r matches Some(t) ==> !(t.2 is Prefix),
            self.wf() && pattern@.len() >= 2 && self.valid_index(pattern@[0].index)
                && self.direct_parent_hit(pattern@[0].index, pattern_indices_of(
                pattern@.skip(1),
            )) ==> (r matches Some(t) && t.2 is Complete),
    {
        if pattern.len() <= 1 {
            return None;
        }
        let index = pattern[0].get_index();
        if index >= self.vertex_count() {
            return None;
        }
        let postfix = pattern_slice(pattern, 1, pattern.len());
        proof {
            assert(postfix@ =~= pattern@.skip(1));
        }
        let r = self.find_postfix_for(index, &postfix);
        proof {
            if self.wf() {
                assert(pattern@.drop_first() =~= pattern@.skip(1));
                assert(pattern@[0].index == index);
            }
        }
        r
    }

    /// Whether a leaf vertex for the token `c` was previously inserted.
    pub open spec fn has_leaf(self, c: char) -> bool {
        exists|i: VertexIndex|
            self.valid_index(i) && self.key_at(i) == VertexKey::Token(Token::Element(c))
    }

    /// The leaf vertex holding the token `c`; in a well-formed graph keys
    /// are unique, so there is at most one.
    pub open spec fn leaf_of(self, c: char) -> VertexIndex {
        choose|i: VertexIndex|
            self.valid_index(i) && self.key_at(i) == VertexKey::Token(Token::Element(c))
    }

    /// The leaf vertices a character sequence resolves to, in order.
    pub open spec fn leaf_indices(self, s: Seq<char>) -> Seq<VertexIndex> {
        Seq::new(s.len(), |k: int| self.leaf_of(s[k]))
    }

    /// Tokenizes a raw character sequence, resolves every token to its
    /// previously inserted leaf vertex, and matches the resulting pattern.
    /// Any token never indexed makes the whole search miss.
    pub fn find_sequence(&self, s: &str) -> (r: Option<
        (Child, (PatternId, usize), FoundRange),
    >)
        ensures
            s@.len() <= 1 ==> r is None,
            r matches Some(t) ==> found_in_graph(*self, t.0, t.1.0, t.1.1),
            r matches Some(t) ==> (t.2 is Complete && self.wf() ==> t.0.width == s@.len()),
            r matches Some(t) ==> !(t.2 is Prefix),
            (exists|k: int| 0 <= k < s@.len() && !self.has_leaf(s@[k])) ==> r is None,
            self.wf() && s@.len() >= 2 && (forall|k: int|
                0 <= k < s@.len() ==> self.has_leaf(s@[k])) && self.direct_parent_hit(
                self.leaf_of(s@[0]),
                self.leaf_indices(s@).skip(1),
            ) ==> (r matches Some(t) && t.2 is Complete),
    {
        let n = s.unicode_len();
        let mut pattern: Pattern = Vec::new();
        let mut i: usize = 0;
        while i < n
            invariant
                n == s@.len(),
                i <= n,
                pattern@.len() == i,
                self.wf() ==> self.children_widths(pattern@) == i,
                forall|k: int| 0 <= k < i ==> self.has_leaf(s@[k]),
                self.wf() ==> forall|k: int|
                    0 <= k < i ==> (#[trigger] pattern@[k]).index == self.leaf_of(s@[k]),
            decreases n - i,
        {
            let ch = s.get_char(i);
            let key = VertexKey::Token(Token::Element(ch));
            match self.find_index_by_key(&key) {
                Some(idx) => {
                    let w = self.expect_vertex_data(idx).get_width();
                    let ghost pat0 = pattern@;
                    pattern.push(Child::new(idx, w));
                    proof {
                        assert(self.has_leaf(s@[i as int]));
                        if self.wf() {
                            assert(self.wf_vertex(idx));
                            assert(self.width_at(idx) == 1);
                            assert(idx == self.leaf_of(s@[i as int])) by {
                                let other = self.leaf_of(s@[i as int]);
                                assert(self.valid_index(other) && self.key_at(other)
                                    == VertexKey::Token(Token::Element(s@[i as int])));
                                if other != idx {
                                    assert(self.key_at(other) != self.key_at(idx));
                                }
                            }
                            let c = Child { index: idx, width: w };
                            assert(pattern@ =~= pat0 + seq![c]);
                            self.lemma_children_widths_concat(pat0, seq![c]);
                            assert(self.children_widths(seq![c]) == 1) by {
                                assert(seq![c].len() == 1);
                                assert(seq![c][0] == c);
                                assert(self.valid_index(c.index));
                                assert(self.width_at(c.index) == 1);
                                assert(seq![c].drop_first() =~= Seq::<Child>::empty());
                                assert(self.children_widths(Seq::<Child>::empty()) == 0);
                            }
                        }
                        assert(forall|k: int| 0 <= k < i ==> pattern@[k] == pat0[k]);
                    }
                },
                None => {
                    proof {
                        assert(!self.has_leaf(s@[i as int]));
                    }
                    return None;
                },
            }
            i += 1;
        }
        proof {
            if self.wf() {
                assert(self.children_widths(pattern@) == n);
                if n >= 2 && self.direct_parent_hit(self.leaf_of(s@[0]), self.leaf_indices(
                    s@,
                ).skip(1)) {
                    assert(pattern@[0].index == self.leaf_of(s@[0]));
                    assert(self.valid_index(pattern@[0].index));
                    assert(pattern_indices_of(pattern@.skip(1)) =~= self.leaf_indices(s@).skip(
                        1,
                    )) by {
                        assert forall|k: int|
                            0 <= k < n - 1 implies pattern_indices_of(pattern@.skip(1))[k]
                            == self.leaf_indices(s@).skip(1)[k] by {
                            assert(pattern@.skip(1)[k] == pattern@[k + 1]);
                            assert(pattern@[k + 1].index == self.leaf_of(s@[k + 1]));
                            assert(self.leaf_indices(s@)[k + 1] == self.leaf_of(s@[k + 1]));
                        }
                    }
                }
            }
        }
        self.find_pattern(&pattern)
    }
}

} // verus!
