//! Splitting: decomposing a vertex at a token offset into left and right
//! sub-patterns, one pair per alternative decomposition.
//!
//! An offset that falls exactly on a boundary between two children of a
//! decomposition gives a perfect split: the literal slices of that
//! decomposition.  An offset falling inside a child asks for recursion:
//! the surrounding context is kept, the child is split at the residual
//! offset, and the inner halves are spliced back into the gap.

use vstd::prelude::*;
use crate::error::HypergraphError;
use crate::graph::{Hypergraph, pattern_width_spec, lemma_pattern_width_take,
    lemma_pattern_width_concat, lemma_pattern_width_split, lemma_pattern_width_nonneg,
    lemma_width_take_le};
use crate::vertex::{Child, ChildPatterns, IndexPosition, Pattern, PatternId, TokenPosition,
    VertexIndex, concat_patterns, pattern_slice};

verus! {

/// A left/right pair of patterns produced by a split.
pub type Split = (Pattern, Pattern);

/// Where a token offset lands within one decomposition: the child
/// containing the offset, its position in the child sequence, and the
/// residual offset inside that child (zero means the offset falls exactly
/// on the boundary before the child).
#[derive(Debug, PartialEq, Eq, Clone, Copy)]
pub struct SplitIndex {
    /// The residual token offset inside the child.
    pub pos: TokenPosition,
    /// The vertex the child refers to.
    pub index: VertexIndex,
    /// The child's position within the decomposition.
    pub index_pos: IndexPosition,
}

/// Names the vertex an imperfect split must recurse into, and the
/// (nonzero) residual offset at which to split it.
#[derive(Debug, PartialEq, Eq, Clone, Copy)]
pub struct SplitKey {
    /// The vertex to split next.
    pub index: VertexIndex,
    /// The residual token offset, strictly inside that vertex.
    pub pos: TokenPosition,
}

/// One decomposition awaiting recursion: the surrounding context with the
/// matched child taken out, plus the key identifying the inner split.
#[derive(Debug, PartialEq, Eq, Clone)]
pub struct SplitContext {
    /// The children strictly before the matched child.
    pub prefix: Pattern,
    /// The children strictly after the matched child.
    pub postfix: Pattern,
    /// The inner split still to be resolved.
    pub key: SplitKey,
}

/// Whether `si` correctly locates the token offset `pos` within the
/// child sequence `p`, going by the children's cached widths.
pub open spec fn is_split_index_of(p: Seq<Child>, pos: int, si: SplitIndex) -> bool {
    &&& 0 <= si.index_pos < p.len()
    &&& pattern_width_spec(p.take(si.index_pos as int)) <= pos
    &&& pos < pattern_width_spec(p.take(si.index_pos + 1))
    &&& si.pos == pos - pattern_width_spec(p.take(si.index_pos as int))
    &&& si.index == p[si.index_pos as int].index
}

/// A perfect split of some decomposition of `root` at offset `pos`: the
/// two sides are the literal slices of that decomposition at a boundary,
/// and the left side spans exactly `pos` tokens.
pub open spec fn perfect_split_of(
    g: Hypergraph,
    root: VertexIndex,
    pos: int,
    l: Seq<Child>,
    rr: Seq<Child>,
) -> bool {
    exists|j: int, ip: int|
        {
            &&& 0 <= j < g.data_at(root).children@.len()
            &&& 0 <= ip <= g.data_at(root).children@[j].1@.len()
            &&& l == #[trigger] g.data_at(root).children@[j].1@.take(ip)
            &&& rr == g.data_at(root).children@[j].1@.skip(ip)
            &&& pattern_width_spec(l) == pos
        }
}

/// A recursion context cut from some decomposition of `root` at offset
/// `pos`: prefix and postfix surround the matched child, and the key
/// names that child with a residual offset strictly inside it.
pub open spec fn context_of(g: Hypergraph, root: VertexIndex, pos: int, ctx: SplitContext) -> bool {
    exists|j: int, ip: int|
        {
            &&& 0 <= j < g.data_at(root).children@.len()
            &&& 0 <= ip < g.data_at(root).children@[j].1@.len()
            &&& ctx.prefix@ == #[trigger] g.data_at(root).children@[j].1@.take(ip)
            &&& ctx.postfix@ == g.data_at(root).children@[j].1@.skip(ip + 1)
            &&& ctx.key.index == g.data_at(root).children@[j].1@[ip].index
            &&& ctx.key.pos == pos - pattern_width_spec(g.data_at(root).children@[j].1@.take(ip))
            &&& 1 <= ctx.key.pos
            &&& pos < pattern_width_spec(g.data_at(root).children@[j].1@.take(ip + 1))
        }
}

/// Whether `e` records a real split hit: some pattern of `patterns`
/// carries `e`'s id and locates the offset `pos` at `e`'s split index.
pub open spec fn split_entry_of(
    patterns: Seq<(PatternId, Pattern)>,
    pos: int,
    e: (PatternId, SplitIndex),
) -> bool {
    exists|j: int|
        0 <= j < patterns.len() && e.0 == (#[trigger] patterns[j]).0 && is_split_index_of(
            patterns[j].1@,
            pos,
            e.1,
        )
}

/// The split hits of `patterns` at offset `pos`, one per pattern wide
/// enough to contain the offset, in input order.
pub open spec fn split_hits(patterns: Seq<(PatternId, Pattern)>, pos: int) -> Seq<
    (PatternId, SplitIndex),
>
    decreases patterns.len(),
{
    if patterns.len() == 0 {
        Seq::empty()
    } else if exists|si: SplitIndex| is_split_index_of(patterns.last().1@, pos, si) {
        split_hits(patterns.drop_last(), pos).push(
            (patterns.last().0, choose|si: SplitIndex| is_split_index_of(patterns.last().1@, pos, si)),
        )
    } else {
        split_hits(patterns.drop_last(), pos)
    }
}

/// Whether decomposition `j` of `root` has a boundary exactly at `pos`.
pub open spec fn perfect_at(g: Hypergraph, root: VertexIndex, pos: int, j: int) -> bool {
    exists|si: SplitIndex|
        #[trigger] is_split_index_of(g.data_at(root).children@[j].1@, pos, si) && si.pos == 0
}

/// Whether `pos` falls strictly inside a child of decomposition `j`.
pub open spec fn imperfect_at(g: Hypergraph, root: VertexIndex, pos: int, j: int) -> bool {
    exists|si: SplitIndex|
        #[trigger] is_split_index_of(g.data_at(root).children@[j].1@, pos, si) && si.pos != 0
}

/// The recursion context cut from decomposition `j` of `root` at `pos`.
pub open spec fn context_of_at(
    g: Hypergraph,
    root: VertexIndex,
    pos: int,
    ctx: SplitContext,
    j: int,
) -> bool {
    exists|ip: int|
        {
            &&& 0 <= j < g.data_at(root).children@.len()
            &&& 0 <= ip < g.data_at(root).children@[j].1@.len()
            &&& ctx.prefix@ == #[trigger] g.data_at(root).children@[j].1@.take(ip)
            &&& ctx.postfix@ == g.data_at(root).children@[j].1@.skip(ip + 1)
            &&& ctx.key.index == g.data_at(root).children@[j].1@[ip].index
            &&& ctx.key.pos == pos - pattern_width_spec(g.data_at(root).children@[j].1@.take(ip))
            &&& 1 <= ctx.key.pos
            &&& pos < pattern_width_spec(g.data_at(root).children@[j].1@.take(ip + 1))
        }
}

/// How an imperfect split of the vertex at `index` at offset `pos`
/// resolves: some recursion context of one of its decompositions, with the
/// two halves of the matched child's own split spliced into the gap.  In a
/// well-formed graph the spliced halves span exactly the residual offset
/// and the child's remainder.
/// Marks one candidate assembly of a splice: the recursion context and
/// the two inner halves.
pub open spec fn splice_parts(ctx: SplitContext, il: Seq<Child>, ir: Seq<Child>) -> bool {
    true
}

#[verifier::opaque]
pub open spec fn splice_of(
    g: Hypergraph,
    index: VertexIndex,
    pos: int,
    l: Seq<Child>,
    rr: Seq<Child>,
) -> bool {
    exists|ctx: SplitContext, il: Seq<Child>, ir: Seq<Child>|
        {
            &&& #[trigger] splice_parts(ctx, il, ir)
            &&& context_of(g, index, pos, ctx)
            &&& l == ctx.prefix@ + il
            &&& rr == ir + ctx.postfix@
            &&& (g.wf() && g.valid_index(index) && pos < g.width_at(index)
                ==> pattern_width_spec(il) == ctx.key.pos && pattern_width_spec(ir)
                    == g.width_at(ctx.key.index) - ctx.key.pos)
        }
}

/// Prefix widths grow with the prefix.
proof fn lemma_width_take_mono(p: Seq<Child>, a: int, b: int)
    requires
        0 <= a <= b <= p.len(),
    ensures
        pattern_width_spec(p.take(a)) <= pattern_width_spec(p.take(b)),
{
    assert(p.take(b).take(a) =~= p.take(a));
    lemma_width_take_le(p.take(b), a);
}

/// A pattern locates each offset at most one way.
proof fn lemma_split_index_unique(p: Seq<Child>, pos: int, si1: SplitIndex, si2: SplitIndex)
    requires
        is_split_index_of(p, pos, si1),
        is_split_index_of(p, pos, si2),
    ensures
        si1 == si2,
{
    if (si1.index_pos as int) < si2.index_pos as int {
        lemma_width_take_mono(p, si1.index_pos as int + 1, si2.index_pos as int);
        assert(false);
    }
    if (si2.index_pos as int) < si1.index_pos as int {
        lemma_width_take_mono(p, si2.index_pos as int + 1, si1.index_pos as int);
        assert(false);
    }
}

/// A pattern wider than the offset locates it somewhere.
proof fn lemma_split_index_exists(p: Seq<Child>, pos: int, i: int)
    requires
        p.len() <= usize::MAX,
        1 <= pos < pattern_width_spec(p),
        0 <= i <= p.len(),
        pattern_width_spec(p.take(i)) <= pos,
    ensures
        exists|si: SplitIndex| is_split_index_of(p, pos, si),
    decreases p.len() - i,
{
    if i == p.len() {
        assert(p.take(i) =~= p);
        assert(false);
    } else {
        lemma_pattern_width_take(p, i);
        if pos < pattern_width_spec(p.take(i + 1)) {
            lemma_pattern_width_nonneg(p.take(i));
            let si = SplitIndex {
                pos: (pos - pattern_width_spec(p.take(i))) as usize,
                index: p[i].index,
                index_pos: i as usize,
            };
            assert(0 <= pos - pattern_width_spec(p.take(i)) <= p[i].width);
            assert(is_split_index_of(p, pos, si));
        } else {
            lemma_split_index_exists(p, pos, i + 1);
        }
    }
}

/// A located offset lies strictly inside the pattern's span.
proof fn lemma_split_index_bounds(p: Seq<Child>, pos: int, si: SplitIndex)
    requires
        is_split_index_of(p, pos, si),
    ensures
        pos < pattern_width_spec(p),
{
    lemma_width_take_le(p, si.index_pos as int + 1);
}

/// A pattern of children each at least one token wide spans at least its
/// own length.
proof fn lemma_pattern_width_min_len(p: Seq<Child>)
    requires
        forall|k: int| 0 <= k < p.len() ==> (#[trigger] p[k]).width >= 1,
    ensures
        pattern_width_spec(p) >= p.len(),
    decreases p.len(),
{
    if p.len() > 0 {
        assert(forall|k: int|
            0 <= k < p.drop_last().len() ==> (#[trigger] p.drop_last()[k]).width >= 1);
        lemma_pattern_width_min_len(p.drop_last());
        assert(p.last().width >= 1);
    }
}

/// In a pattern of two or more children, each at least one token wide,
/// every child leaves at least one token to the others.
proof fn lemma_pattern_width_slack(p: Seq<Child>, i: int)
    requires
        p.len() >= 2,
        0 <= i < p.len(),
        forall|k: int| 0 <= k < p.len() ==> (#[trigger] p[k]).width >= 1,
    ensures
        p[i].width + 1 <= pattern_width_spec(p),
{
    lemma_pattern_width_split(p, i);
    lemma_pattern_width_take(p, i);
    lemma_pattern_width_split(p, i + 1);
    assert(forall|k: int|
        0 <= k < p.take(i).len() ==> (#[trigger] p.take(i)[k]).width >= 1);
    assert(forall|k: int|
        0 <= k < p.skip(i + 1).len() ==> (#[trigger] p.skip(i + 1)[k]).width >= 1);
    lemma_pattern_width_min_len(p.take(i));
    lemma_pattern_width_min_len(p.skip(i + 1));
}

impl Hypergraph {
    /// Whether every decomposition in the graph has at least two children.
    /// Splitting strictly inside such a graph always descends to a
    /// strictly narrower vertex, so it always resolves.
    pub open spec fn branching(self) -> bool {
        forall|v: VertexIndex, j: int|
            self.valid_index(v) && 0 <= j < self.data_at(v).children@.len() ==> (
            #[trigger] self.data_at(v).children@[j]).1@.len() >= 2
    }

    /// A stored decomposition fits in memory.
    proof fn lemma_stored_pattern_len(self, root: VertexIndex, j: int)
        requires
            self.valid_index(root),
            0 <= j < self.data_at(root).children@.len(),
        ensures
            self.data_at(root).children@[j].1@.len() <= usize::MAX,
    {
        broadcast use vstd::std_specs::vec::axiom_spec_len;

        assert(vstd::std_specs::vec::spec_vec_len(&self.data_at(root).children@[j].1)
            <= usize::MAX);
    }

    /// Under well-formedness and branching, the child a context descends
    /// into is strictly narrower than the vertex it was cut from.
    proof fn lemma_context_descends(self, root: VertexIndex, pos: int, ctx: SplitContext)
        requires
            self.wf(),
            self.branching(),
            self.valid_index(root),
            context_of(self, root, pos, ctx),
            pos < self.width_at(root),
        ensures
            self.valid_index(ctx.key.index),
            1 <= ctx.key.pos < self.width_at(ctx.key.index),
            self.width_at(ctx.key.index) < self.width_at(root),
    {
        self.lemma_context_width(root, pos, ctx);
        let (j, ip) = choose|j: int, ip: int|
            {
                &&& 0 <= j < self.data_at(root).children@.len()
                &&& 0 <= ip < self.data_at(root).children@[j].1@.len()
                &&& ctx.prefix@ == #[trigger] self.data_at(root).children@[j].1@.take(ip)
                &&& ctx.postfix@ == self.data_at(root).children@[j].1@.skip(ip + 1)
                &&& ctx.key.index == self.data_at(root).children@[j].1@[ip].index
                &&& ctx.key.pos == pos - pattern_width_spec(self.data_at(root).children@[
                j].1@.take(ip))
                &&& 1 <= ctx.key.pos
                &&& pos < pattern_width_spec(self.data_at(root).children@[j].1@.take(ip + 1))
            };
        let pat = self.data_at(root).children@[j].1@;
        self.lemma_stored_pattern_widths(root, j);
        assert(pat.len() >= 2);
        lemma_pattern_width_slack(pat, ip);
        assert(pat[ip].width == self.width_at(ctx.key.index));
    }

    /// Splits a pattern literally before the child at `index`.
    pub fn split_pattern_at_index(pattern: &Pattern, index: IndexPosition) -> (r: Split)
        requires
            index <= pattern@.len(),
        ensures
            r.0@ == pattern@.take(index as int),
            r.1@ == pattern@.skip(index as int),
    {
        let l = pattern_slice(pattern, 0, index);
        let rr = pattern_slice(pattern, index, pattern.len());
        proof {
            assert(pattern@.subrange(0, index as int) =~= pattern@.take(index as int));
            assert(pattern@.subrange(index as int, pattern@.len() as int) =~= pattern@.skip(
                index as int,
            ));
        }
        (l, rr)
    }

    /// Splits a pattern around the child at `index`, excluding that child
    /// entirely: it is the part the caller will decompose recursively.
    pub fn split_context(pattern: &Pattern, index: IndexPosition) -> (r: Split)
        requires
            index < pattern@.len(),
        ensures
            r.0@ == pattern@.take(index as int),
            r.1@ == pattern@.skip(index as int + 1),
    {
        let n = pattern.len();
        let l = pattern_slice(pattern, 0, index);
        let rr = pattern_slice(pattern, index + 1, n);
        proof {
            assert(pattern@.subrange(0, index as int) =~= pattern@.take(index as int));
            assert(pattern@.subrange(index as int + 1, pattern@.len() as int) =~= pattern@.skip(
                index as int + 1,
            ));
        }
        (l, rr)
    }

    /// Walks a decomposition's children, accumulating consumed width,
    /// until the child containing the offset `pos` is found.  Returns
    /// `None` when the whole pattern spans no more than `pos` tokens.
    pub fn find_pattern_split_index(pattern: &Pattern, pos: TokenPosition) -> (r: Option<
        SplitIndex,
    >)
        requires
            1 <= pos,
        ensures
            r is None <==> pattern_width_spec(pattern@) <= pos,
            r matches Some(si) ==> is_split_index_of(pattern@, pos as int, si),
    {
        let n = pattern.len();
        let mut skipped: usize = 0;
        let mut i: usize = 0;
        proof {
            assert(pattern@.take(0) =~= Seq::<Child>::empty());
        }
        while i < n
            invariant
                n == pattern@.len(),
                i <= n,
                skipped == pattern_width_spec(pattern@.take(i as int)),
                skipped <= pos,
            decreases n - i,
        {
            let w = pattern[i].width;
            proof {
                lemma_pattern_width_take(pattern@, i as int);
            }
            if w <= pos - skipped {
                skipped = skipped + w;
                i += 1;
            } else {
                proof {
                    lemma_width_take_le(pattern@, i + 1);
                }
                return Some(SplitIndex { pos: pos - skipped, index: pattern[i].index, index_pos: i });
            }
        }
        proof {
            assert(pattern@.take(n as int) =~= pattern@);
        }
        None
    }

    /// Runs [`Hypergraph::find_pattern_split_index`] for every
    /// decomposition in turn, keeping each hit beside its pattern id.
    pub fn find_child_pattern_split_indices(patterns: &ChildPatterns, pos: TokenPosition) -> (r:
        Vec<(PatternId, SplitIndex)>)
        requires
            1 <= pos,
        ensures
            forall|m: int| 0 <= m < r@.len() ==> split_entry_of(patterns@, pos as int, #[trigger] r@[m]),
            r@ == split_hits(patterns@, pos as int),
    {
        let mut r: Vec<(PatternId, SplitIndex)> = Vec::new();
        let mut j: usize = 0;
        proof {
            assert(patterns@.take(0) =~= Seq::<(PatternId, Pattern)>::empty());
        }
        while j < patterns.len()
            invariant
                j <= patterns@.len(),
                1 <= pos,
                forall|m: int|
                    0 <= m < r@.len() ==> split_entry_of(patterns@, pos as int,
                        #[trigger] r@[m]),
                r@ == split_hits(patterns@.take(j as int), pos as int),
            decreases patterns@.len() - j,
        {
            proof {
                assert(patterns@.take(j + 1).drop_last() =~= patterns@.take(j as int));
                assert(patterns@.take(j + 1).last() == patterns@[j as int]);
            }
            match Self::find_pattern_split_index(&patterns[j].1, pos) {
                Some(si) => {
                    let ghost r0 = r@;
                    r.push((patterns[j].0, si));
                    proof {
                        assert(forall|m: int| 0 <= m < r0.len() ==> r@[m] == r0[m]);
                        assert(r@[r@.len() - 1] == (patterns@[j as int].0, si));
                        assert forall|m: int| 0 <= m < r@.len() implies split_entry_of(
                            patterns@, pos as int, #[trigger] r@[m]) by {
                            if m < r0.len() {
                                assert(r@[m] == r0[m]);
                            } else {
                                let jj = j as int;
                                assert(0 <= jj < patterns@.len() && r@[m].0 == patterns@[jj].0
                                    && is_split_index_of(patterns@[jj].1@, pos as int,
                                    r@[m].1));
                            }
                        }
                        let patv = patterns@[j as int].1@;
                        assert(is_split_index_of(patv, pos as int, si));
                        let sic = choose|si2: SplitIndex| is_split_index_of(patv, pos as int,
                            si2);
                        lemma_split_index_unique(patv, pos as int, si, sic);
                        assert(r@ =~= split_hits(patterns@.take(j + 1), pos as int));
                    }
                },
                None => {
                    proof {
                        let patv = patterns@[j as int].1@;
                        assert forall|si2: SplitIndex|
                            !is_split_index_of(patv, pos as int, si2) by {
                            if is_split_index_of(patv, pos as int, si2) {
                                lemma_split_index_bounds(patv, pos as int, si2);
                            }
                        }
                        assert(r@ =~= split_hits(patterns@.take(j + 1), pos as int));
                    }
                },
            }
            j += 1;
        }
        proof {
            assert(patterns@.take(patterns@.len() as int) =~= patterns@);
        }
        r
    }

    /// Classifies every decomposition of `root` at offset `pos`: at most
    /// one perfect split (the first found, in insertion order) and one
    /// recursion context for every decomposition whose boundary does not
    /// meet the offset.
    pub fn separate_perfect_split(&self, root: VertexIndex, pos: TokenPosition) -> (r: (
        Option<Split>,
        Vec<SplitContext>,
    ))
        requires
            self.valid_index(root),
            1 <= pos,
        ensures
            r.0 matches Some(p) ==> perfect_split_of(*self, root, pos as int, p.0@, p.1@),
            forall|m: int|
                0 <= m < r.1@.len() ==> context_of(*self, root, pos as int, #[trigger] r.1@[m]),
            r.0 is None && r.1@.len() == 0 ==> forall|j: int|
                0 <= j < self.data_at(root).children@.len() ==> pattern_width_spec(
                    (#[trigger] self.data_at(root).children@[j]).1@,
                ) <= pos,
            r.0 is None ==> forall|j: int|
                0 <= j < self.data_at(root).children@.len() ==> !perfect_at(*self, root,
                    pos as int, j),
            forall|j: int|
                0 <= j < self.data_at(root).children@.len() && #[trigger] imperfect_at(*self,
                    root, pos as int, j) ==> exists|m: int|
                    0 <= m < r.1@.len() && #[trigger] context_of_at(*self, root, pos as int,
                        r.1@[m], j),
    {
        let mut perfect: Option<Split> = None;
        let mut contexts: Vec<SplitContext> = Vec::new();
        let n = self.expect_vertex_data(root).children.len();
        let mut j: usize = 0;
        while j < n
            invariant
                self.valid_index(root),
                n == self.data_at(root).children@.len(),
                j <= n,
                1 <= pos,
                perfect matches Some(p) ==> perfect_split_of(*self, root, pos as int, p.0@,
                    p.1@),
                forall|m: int|
                    0 <= m < contexts@.len() ==> context_of(*self, root, pos as int,
                        #[trigger] contexts@[m]),
                perfect is None && contexts@.len() == 0 ==> forall|j2: int|
                    0 <= j2 < j ==> pattern_width_spec(
                        (#[trigger] self.data_at(root).children@[j2]).1@,
                    ) <= pos,
                perfect is None ==> forall|j2: int|
                    0 <= j2 < j ==> !perfect_at(*self, root, pos as int, j2),
                forall|j2: int|
                    0 <= j2 < j && #[trigger] imperfect_at(*self, root, pos as int, j2)
                        ==> exists|m: int|
                        0 <= m < contexts@.len() && #[trigger] context_of_at(*self, root,
                            pos as int, contexts@[m], j2),
            decreases n - j,
        {
            let pat = &self.expect_vertex_data(root).children[j].1;
            match Self::find_pattern_split_index(pat, pos) {
                Some(si) => {
                    proof {
                        let patv = self.data_at(root).children@[j as int].1@;
                        assert forall|si2: SplitIndex|
                            #[trigger] is_split_index_of(patv, pos as int, si2) implies si2
                            == si by {
                            lemma_split_index_unique(patv, pos as int, si, si2);
                        }
                        if si.pos == 0 {
                            assert(perfect_at(*self, root, pos as int, j as int));
                            assert(!imperfect_at(*self, root, pos as int, j as int));
                        } else {
                            assert(imperfect_at(*self, root, pos as int, j as int));
                            assert(!perfect_at(*self, root, pos as int, j as int));
                        }
                    }
                    if si.pos == 0 {
                        if perfect.is_none() {
                            let p = Self::split_pattern_at_index(pat, si.index_pos);
                            proof {
                                let patv = self.data_at(root).children@[j as int].1@;
                                let jj = j as int;
                                let ipp = si.index_pos as int;
                                assert(self.data_at(root).children@[jj].1@ == patv);
                                assert(pattern_width_spec(p.0@) == pos);
                                assert(0 <= jj < self.data_at(root).children@.len());
                                assert(0 <= ipp <= patv.len());
                                assert(p.0@ == patv.take(ipp));
                                assert(p.1@ == patv.skip(ipp));
                                assert(perfect_split_of(*self, root, pos as int, p.0@, p.1@));
                            }
                            perfect = Some(p);
                        }
                    } else {
                        let c = Self::split_context(pat, si.index_pos);
                        let ctx = SplitContext {
                            prefix: c.0,
                            postfix: c.1,
                            key: SplitKey { index: si.index, pos: si.pos },
                        };
                        let ghost ctxs0 = contexts@;
                        contexts.push(ctx);
                        proof {
                            let patv = self.data_at(root).children@[j as int].1@;
                            let jj = j as int;
                            let ipp = si.index_pos as int;
                            assert(forall|m: int| 0 <= m < ctxs0.len() ==> contexts@[m]
                                == ctxs0[m]);
                            assert(contexts@[contexts@.len() - 1] == ctx);
                            assert(self.data_at(root).children@[jj].1@ == patv);
                            assert(0 <= jj < self.data_at(root).children@.len());
                            assert(0 <= ipp < patv.len());
                            assert(ctx.prefix@ == patv.take(ipp));
                            assert(ctx.postfix@ == patv.skip(ipp + 1));
                            assert(ctx.key.index == patv[ipp].index);
                            assert(ctx.key.pos == pos - pattern_width_spec(patv.take(ipp)));
                            assert(1 <= ctx.key.pos);
                            assert(pos < pattern_width_spec(patv.take(ipp + 1)));
                            assert(context_of(*self, root, pos as int, ctx));
                            assert(context_of_at(*self, root, pos as int, ctx, jj));
                            assert forall|j2: int|
                                0 <= j2 < j + 1 && #[trigger] imperfect_at(*self, root,
                                    pos as int, j2) implies exists|m: int|
                                0 <= m < contexts@.len() && #[trigger] context_of_at(*self,
                                    root, pos as int, contexts@[m], j2) by {
                                if j2 < j as int {
                                    let m0 = choose|m: int|
                                        0 <= m < ctxs0.len() && #[trigger] context_of_at(*self,
                                            root, pos as int, ctxs0[m], j2);
                                    assert(contexts@[m0] == ctxs0[m0]);
                                    assert(context_of_at(*self, root, pos as int,
                                        contexts@[m0], j2));
                                } else {
                                    assert(contexts@[contexts@.len() - 1] == ctx);
                                    assert(context_of_at(*self, root, pos as int, contexts@[
                                        contexts@.len() - 1], j2));
                                }
                            }
                        }
                    }
                },
                None => {
                    proof {
                        let patv = self.data_at(root).children@[j as int].1@;
                        assert forall|si2: SplitIndex|
                            !(#[trigger] is_split_index_of(patv, pos as int, si2)) by {
                            if is_split_index_of(patv, pos as int, si2) {
                                lemma_split_index_bounds(patv, pos as int, si2);
                            }
                        }
                        assert(!perfect_at(*self, root, pos as int, j as int));
                        assert(!imperfect_at(*self, root, pos as int, j as int));
                    }
                },
            }
            j += 1;
        }
        let result = (perfect, contexts);
        proof {
            assert(result.1@ == contexts@);
        }
        result
    }

    /// Returns the first perfect split only when every decomposition of
    /// `root` splits perfectly at `pos`; otherwise hands back the
    /// recursion contexts of the imperfect decompositions.
    pub fn try_perfect_split(&self, root: VertexIndex, pos: TokenPosition) -> (r: Result<
        Split,
        Vec<SplitContext>,
    >)
        requires
            self.valid_index(root),
            1 <= pos,
        ensures
            r matches Ok(p) ==> perfect_split_of(*self, root, pos as int, p.0@, p.1@),
            r matches Err(cs) ==> forall|m: int|
                0 <= m < cs@.len() ==> context_of(*self, root, pos as int, #[trigger] cs@[m]),
            self.wf() && pos < self.width_at(root) ==> (r is Ok <==> forall|j: int|
                0 <= j < self.data_at(root).children@.len() ==> perfect_at(*self, root,
                    pos as int, j)),
    {
        let (perfect, contexts) = self.separate_perfect_split(root, pos);
        proof {
            if self.wf() && pos < self.width_at(root) {
                assert forall|j: int|
                    0 <= j < self.data_at(root).children@.len() implies (perfect_at(*self, root,
                    pos as int, j) || imperfect_at(*self, root, pos as int, j)) by {
                    self.lemma_stored_pattern_widths(root, j);
                    self.lemma_stored_pattern_len(root, j);
                    let p = self.data_at(root).children@[j].1@;
                    assert(p.take(0) =~= Seq::<Child>::empty());
                    lemma_split_index_exists(p, pos as int, 0);
                    let si = choose|si: SplitIndex| is_split_index_of(p, pos as int, si);
                    if si.pos == 0 {
                        assert(perfect_at(*self, root, pos as int, j));
                    } else {
                        assert(imperfect_at(*self, root, pos as int, j));
                    }
                }
                assert(self.data_at(root).children@.len() >= 1) by {
                    assert(self.wf_vertex(root));
                    if self.key_at(root) is Token {
                        assert(self.width_at(root) == 1);
                    }
                }
                if perfect is Some && contexts@.len() == 0 {
                    assert forall|j: int|
                        0 <= j < self.data_at(root).children@.len() implies perfect_at(*self,
                        root, pos as int, j) by {
                        if imperfect_at(*self, root, pos as int, j) {
                            let m = choose|m: int|
                                0 <= m < contexts@.len() && #[trigger] context_of_at(*self,
                                    root, pos as int, contexts@[m], j);
                            assert(false);
                        }
                    }
                } else {
                    assert(!(forall|j: int|
                        0 <= j < self.data_at(root).children@.len() ==> perfect_at(*self, root,
                            pos as int, j))) by {
                        if forall|j: int|
                            0 <= j < self.data_at(root).children@.len() ==> perfect_at(*self,
                                root, pos as int, j) {
                            assert(perfect_at(*self, root, pos as int, 0));
                            assert(perfect is Some);
                            assert(contexts@.len() > 0);
                            assert(context_of(*self, root, pos as int, contexts@[0]));
                            let (j0, ip0) = choose|j0: int, ip0: int|
                                {
                                    &&& 0 <= j0 < self.data_at(root).children@.len()
                                    &&& 0 <= ip0 < self.data_at(root).children@[j0].1@.len()
                                    &&& contexts@[0].prefix@ == #[trigger] self.data_at(
                                        root,
                                    ).children@[j0].1@.take(ip0)
                                    &&& contexts@[0].postfix@ == self.data_at(root).children@[
                                    j0].1@.skip(ip0 + 1)
                                    &&& contexts@[0].key.index == self.data_at(root).children@[
                                    j0].1@[ip0].index
                                    &&& contexts@[0].key.pos == pos - pattern_width_spec(
                                        self.data_at(root).children@[j0].1@.take(ip0),
                                    )
                                    &&& 1 <= contexts@[0].key.pos
                                    &&& pos < pattern_width_spec(self.data_at(root).children@[
                                    j0].1@.take(ip0 + 1))
                                };
                            let pj = self.data_at(root).children@[j0].1@;
                            let si0 = SplitIndex {
                                pos: contexts@[0].key.pos,
                                index: contexts@[0].key.index,
                                index_pos: ip0 as usize,
                            };
                            self.lemma_stored_pattern_len(root, j0);
                            assert(is_split_index_of(pj, pos as int, si0));
                            assert(imperfect_at(*self, root, pos as int, j0));
                            assert(perfect_at(*self, root, pos as int, j0));
                            let sip = choose|si: SplitIndex|
                                #[trigger] is_split_index_of(pj, pos as int, si) && si.pos == 0;
                            lemma_split_index_unique(pj, pos as int, si0, sip);
                            assert(false);
                        }
                    }
                }
            }
        }
        match perfect {
            Some(p) => {
                if contexts.len() == 0 {
                    Ok(p)
                } else {
                    Err(contexts)
                }
            },
            None => Err(contexts),
        }
    }

    /// Resolves the split of the vertex at `index` at the offset `pos` to
    /// a single left/right pair, preferring a perfect split and otherwise
    /// recursing through the first imperfect decomposition.
    fn resolve_split(&self, index: VertexIndex, pos: TokenPosition, fuel: usize) -> (r: Option<
        Split,
    >)
        requires
            self.valid_index(index),
            1 <= pos,
        ensures
            r matches Some(p) ==> (self.wf() && pos < self.width_at(index)
                ==> pattern_width_spec(p.0@) == pos && pattern_width_spec(p.1@) == self.width_at(
                index,
            ) - pos),
            r matches Some(p) ==> perfect_split_of(*self, index, pos as int, p.0@, p.1@)
                || splice_of(*self, index, pos as int, p.0@, p.1@),
            self.wf() && self.branching() && pos < self.width_at(index) && fuel
                >= self.width_at(index) ==> r is Some,
        decreases fuel,
    {
        if fuel == 0 {
            proof {
                if self.wf() && self.branching() && pos < self.width_at(index) {
                    assert(self.width_at(index) >= 2);
                }
            }
            return None;
        }
        let (perfect, contexts) = self.separate_perfect_split(index, pos);
        if let Some(p) = perfect {
            proof {
                if self.wf() && pos < self.width_at(index) {
                    self.lemma_registered_width(index, pos as int, p.0@, p.1@);
                }
            }
            return Some(p);
        }
        proof {
            if self.wf() && self.branching() && pos < self.width_at(index) {
                assert(self.data_at(index).children@.len() >= 1) by {
                    assert(self.wf_vertex(index));
                    if self.key_at(index) is Token {
                        assert(self.width_at(index) == 1);
                    }
                }
                assert(contexts@.len() >= 1) by {
                    self.lemma_stored_pattern_widths(index, 0);
                    self.lemma_stored_pattern_len(index, 0);
                    let p0 = self.data_at(index).children@[0].1@;
                    assert(p0.take(0) =~= Seq::<Child>::empty());
                    lemma_split_index_exists(p0, pos as int, 0);
                    let si = choose|si: SplitIndex| is_split_index_of(p0, pos as int, si);
                    if si.pos == 0 {
                        assert(perfect_at(*self, index, pos as int, 0));
                    } else {
                        assert(imperfect_at(*self, index, pos as int, 0));
                        let m = choose|m: int|
                            0 <= m < contexts@.len() && #[trigger] context_of_at(*self, index,
                                pos as int, contexts@[m], 0);
                    }
                }
            }
        }
        if contexts.len() == 0 {
            return None;
        }
        let ctx = &contexts[0];
        proof {
            if self.wf() && self.branching() && pos < self.width_at(index) {
                self.lemma_context_descends(index, pos as int, contexts@[0]);
            }
        }
        if ctx.key.index >= self.vertex_count() || ctx.key.pos == 0 {
            return None;
        }
        match self.resolve_split(ctx.key.index, ctx.key.pos, fuel - 1) {
            Some((il, ir)) => {
                let left = concat_patterns(&ctx.prefix, &il);
                let right = concat_patterns(&ir, &ctx.postfix);
                proof {
                    if self.wf() && pos < self.width_at(index) {
                        self.lemma_context_width(index, pos as int, contexts@[0]);
                        lemma_pattern_width_concat(ctx.prefix@, il@);
                        lemma_pattern_width_concat(ir@, ctx.postfix@);
                    }
                    assert(context_of(*self, index, pos as int, contexts@[0]));
                    assert(left@ == contexts@[0].prefix@ + il@);
                    assert(right@ == ir@ + contexts@[0].postfix@);
                    assert(context_of(*self, index, pos as int, contexts@[0]));
                    assert(left@ == contexts@[0].prefix@ + il@);
                    assert(right@ == ir@ + contexts@[0].postfix@);
                    assert(self.wf() && self.valid_index(index) && (pos as int)
                        < self.width_at(index) ==> pattern_width_spec(il@) == contexts@[
                    0].key.pos && pattern_width_spec(ir@) == self.width_at(
                        contexts@[0].key.index,
                    ) - contexts@[0].key.pos);
                    assert(splice_parts(contexts@[0], il@, ir@));
                    reveal(splice_of);
                    assert(splice_of(*self, index, pos as int, left@, right@));
                }
                Some((left, right))
            },
            None => None,
        }
    }

    /// In a well-formed graph, a perfect split at an interior offset of a
    /// vertex spans that vertex's width.
    proof fn lemma_registered_width(
        self,
        root: VertexIndex,
        pos: int,
        l: Seq<Child>,
        rr: Seq<Child>,
    )
        requires
            self.wf(),
            self.valid_index(root),
            perfect_split_of(self, root, pos, l, rr),
        ensures
            pattern_width_spec(l) == pos,
            pattern_width_spec(rr) == self.width_at(root) - pos,
    {
        let (j, ip) = choose|j: int, ip: int|
            {
                &&& 0 <= j < self.data_at(root).children@.len()
                &&& 0 <= ip <= self.data_at(root).children@[j].1@.len()
                &&& l == #[trigger] self.data_at(root).children@[j].1@.take(ip)
                &&& rr == self.data_at(root).children@[j].1@.skip(ip)
                &&& pattern_width_spec(l) == pos
            };
        let pat = self.data_at(root).children@[j].1@;
        self.lemma_pattern_entry_width(root, j);
        lemma_pattern_width_split(pat, ip);
    }

    /// In a well-formed graph, the decomposition stored at position `j` of
    /// a vertex's pattern list spans the vertex's width, and each of its
    /// children caches its vertex's exact, nonzero width.
    proof fn lemma_pattern_entry_width(self, root: VertexIndex, j: int)
        requires
            self.wf(),
            self.valid_index(root),
            0 <= j < self.data_at(root).children@.len(),
        ensures
            pattern_width_spec(self.data_at(root).children@[j].1@) == self.width_at(root),
            forall|k: int|
                0 <= k < self.data_at(root).children@[j].1@.len() ==> {
                    let c = #[trigger] self.data_at(root).children@[j].1@[k];
                    &&& self.valid_index(c.index)
                    &&& c.width == self.width_at(c.index)
                    &&& c.width >= 1
                },
    {
        assert(self.wf_vertex(root));
        let d = self.data_at(root);
        let pid = d.children@[j].0;
        assert(crate::assoc::has_key(d.children@, pid));
        assert(d.has_child_pattern(pid));
        assert(self.wf_pattern_of(root, pid));
        crate::assoc::lemma_lookup_unique(d.children@, pid, j);
        assert(d.child_pattern(pid) == Some(d.children@[j].1));
        assert forall|k: int| 0 <= k < d.children@[j].1@.len() implies {
            let c = #[trigger] self.data_at(root).children@[j].1@[k];
            &&& self.valid_index(c.index)
            &&& c.width == self.width_at(c.index)
            &&& c.width >= 1
        } by {
            let c = d.children@[j].1@[k];
            assert(self.valid_index(c.index) && c.width == self.width_at(c.index));
            assert(self.wf_vertex(c.index));
        }
    }

    /// In a well-formed graph, the residual offset of a recursion context
    /// lies strictly inside the matched child, and the context's parts
    /// account for the rest of the vertex's width.
    proof fn lemma_context_width(self, root: VertexIndex, pos: int, ctx: SplitContext)
        requires
            self.wf(),
            self.valid_index(root),
            context_of(self, root, pos, ctx),
            pos < self.width_at(root),
        ensures
            self.valid_index(ctx.key.index),
            1 <= ctx.key.pos < self.width_at(ctx.key.index),
            pattern_width_spec(ctx.prefix@) == pos - ctx.key.pos,
            pattern_width_spec(ctx.postfix@) == self.width_at(root) - pos - (self.width_at(
                ctx.key.index,
            ) - ctx.key.pos),
    {
        let (j, ip) = choose|j: int, ip: int|
            {
                &&& 0 <= j < self.data_at(root).children@.len()
                &&& 0 <= ip < self.data_at(root).children@[j].1@.len()
                &&& ctx.prefix@ == #[trigger] self.data_at(root).children@[j].1@.take(ip)
                &&& ctx.postfix@ == self.data_at(root).children@[j].1@.skip(ip + 1)
                &&& ctx.key.index == self.data_at(root).children@[j].1@[ip].index
                &&& ctx.key.pos == pos - pattern_width_spec(self.data_at(root).children@[
                j].1@.take(ip))
                &&& 1 <= ctx.key.pos
                &&& pos < pattern_width_spec(self.data_at(root).children@[j].1@.take(ip + 1))
            };
        let pat = self.data_at(root).children@[j].1@;
        self.lemma_pattern_entry_width(root, j);
        lemma_pattern_width_take(pat, ip);
        lemma_pattern_width_split(pat, ip + 1);
        assert(pat.skip(ip + 1) == ctx.postfix@);
        assert(pat[ip].width == self.width_at(ctx.key.index));
    }

    /// Splits the vertex at `root` at the token offset `pos`, strictly
    /// between its ends.  Every alternative decomposition yields one left
    /// and one right pattern; when some decomposition has a boundary
    /// exactly at `pos`, only that literal slice pair is returned.
    ///
    /// In a well-formed graph every returned left pattern spans exactly
    /// `pos` tokens and every right pattern the remainder, and each pair
    /// is either the literal boundary slice of one decomposition or an
    /// inner split spliced into its surrounding context.  In a graph that
    /// is also branching the call is guaranteed to succeed; a graph with
    /// single-child decompositions can chain vertices of equal width
    /// without ever reaching a boundary, so there the recursion may give
    /// up and report the vertex it was stuck on.
    #[verifier::rlimit(50)]
    pub fn split_index_at_pos(&self, root: VertexIndex, pos: TokenPosition) -> (r: Result<
        (Vec<Pattern>, Vec<Pattern>),
        HypergraphError,
    >)
        ensures
            !self.valid_index(root) ==> r == Err::<(Vec<Pattern>, Vec<Pattern>),
                HypergraphError>(HypergraphError::VertexNotFound(root)),
            self.valid_index(root) ==> ((pos == 0 || pos >= self.width_at(root)) <==> r
                == Err::<(Vec<Pattern>, Vec<Pattern>), HypergraphError>(
                HypergraphError::InvalidSplitPosition,
            )),
            r matches Ok(p) ==> {
                &&& self.valid_index(root)
                &&& 1 <= pos < self.width_at(root)
                &&& p.0@.len() == p.1@.len()
                &&& (self.wf() ==> p.0@.len() >= 1)
                &&& (self.wf() ==> forall|i: int|
                    0 <= i < p.0@.len() ==> pattern_width_spec((#[trigger] p.0@[i])@) == pos
                        && pattern_width_spec(p.1@[i]@) == self.width_at(root) - pos)
                &&& forall|i: int|
                    0 <= i < p.0@.len() ==> perfect_split_of(*self, root, pos as int, (
                    #[trigger] p.0@[i])@, p.1@[i]@) || splice_of(*self, root, pos as int,
                        p.0@[i]@, p.1@[i]@)
            },
            self.wf() && self.branching() && self.valid_index(root) && 1 <= pos
                < self.width_at(root) ==> r is Ok,
    {
        if root >= self.vertex_count() {
            return Err(HypergraphError::VertexNotFound(root));
        }
        let w = self.expect_vertex_data(root).get_width();
        if pos == 0 || pos >= w {
            return Err(HypergraphError::InvalidSplitPosition);
        }
        let (perfect, contexts) = self.separate_perfect_split(root, pos);
        if let Some(p) = perfect {
            let ghost pl = p.0@;
            let ghost pr = p.1@;
            proof {
                if self.wf() {
                    self.lemma_registered_width(root, pos as int, p.0@, p.1@);
                }
            }
            let mut lefts: Vec<Pattern> = Vec::new();
            let mut rights: Vec<Pattern> = Vec::new();
            lefts.push(p.0);
            rights.push(p.1);
            proof {
                assert(lefts@[0]@ == pl && rights@[0]@ == pr);
                assert(perfect_split_of(*self, root, pos as int, pl, pr));
            }
            return Ok((lefts, rights));
        }
        proof {
            if self.wf() {
                assert(contexts@.len() >= 1) by {
                    if contexts@.len() == 0 {
                        assert(self.data_at(root).children@.len() >= 1) by {
                            assert(self.wf_vertex(root));
                            if self.key_at(root) is Token {
                                assert(self.width_at(root) == 1);
                            }
                        }
                        self.lemma_pattern_entry_width(root, 0);
                        assert(pattern_width_spec(self.data_at(root).children@[0].1@) <= pos);
                    }
                }
            }
        }
        let fuel = self.expect_vertex_data(root).get_width().saturating_add(1);
        let mut lefts: Vec<Pattern> = Vec::new();
        let mut rights: Vec<Pattern> = Vec::new();
        let mut m: usize = 0;
        while m < contexts.len()
            invariant
                self.valid_index(root),
                1 <= pos < self.width_at(root),
                lefts@.len() == m,
                rights@.len() == m,
                m <= contexts@.len(),
                forall|i: int|
                    0 <= i < contexts@.len() ==> context_of(*self, root, pos as int,
                        #[trigger] contexts@[i]),
                self.wf() ==> forall|i: int|
                    0 <= i < m ==> pattern_width_spec((#[trigger] lefts@[i])@) == pos
                        && pattern_width_spec(rights@[i]@) == self.width_at(root) - pos,
                forall|i: int|
                    0 <= i < m ==> perfect_split_of(*self, root, pos as int, (
                    #[trigger] lefts@[i])@, rights@[i]@) || splice_of(*self, root, pos as int,
                        lefts@[i]@, rights@[i]@),
                fuel >= self.width_at(root),
            decreases contexts@.len() - m,
        {
            let ctx = &contexts[m];
            proof {
                if self.wf() && self.branching() {
                    self.lemma_context_descends(root, pos as int, contexts@[m as int]);
                }
            }
            if ctx.key.index >= self.vertex_count() || ctx.key.pos == 0 {
                proof {
                    if self.wf() && self.branching() {
                        assert(false);
                    }
                }
                return Err(HypergraphError::VertexNotFound(ctx.key.index));
            }
            match self.resolve_split(ctx.key.index, ctx.key.pos, fuel) {
                Some((il, ir)) => {
                    let left = concat_patterns(&ctx.prefix, &il);
                    let right = concat_patterns(&ir, &ctx.postfix);
                    proof {
                        if self.wf() {
                            self.lemma_context_width(root, pos as int, contexts@[m as int]);
                            lemma_pattern_width_concat(ctx.prefix@, il@);
                            lemma_pattern_width_concat(ir@, ctx.postfix@);
                        }
                    }
                    let ghost l0 = lefts@;
                    let ghost r0 = rights@;
                    lefts.push(left);
                    rights.push(right);
                    proof {
                        assert(forall|i: int| 0 <= i < l0.len() ==> lefts@[i] == l0[i]);
                        assert(forall|i: int| 0 <= i < r0.len() ==> rights@[i] == r0[i]);
                        if self.wf() {
                            assert forall|i: int|
                                0 <= i < m + 1 implies pattern_width_spec((
                            #[trigger] lefts@[i])@) == pos && pattern_width_spec(rights@[i]@)
                                == self.width_at(root) - pos by {
                                if i < m as int {
                                    assert(lefts@[i] == l0[i] && rights@[i] == r0[i]);
                                } else {
                                    assert(lefts@[i] == left && rights@[i] == right);
                                }
                            }
                        }
                        assert forall|i: int|
                            0 <= i < m + 1 implies perfect_split_of(*self, root, pos as int, (
                        #[trigger] lefts@[i])@, rights@[i]@) || splice_of(*self, root,
                            pos as int, lefts@[i]@, rights@[i]@) by {
                            if i < m as int {
                                assert(lefts@[i] == l0[i] && rights@[i] == r0[i]);
                            } else {
                                assert(lefts@[i] == left && rights@[i] == right);
                                assert(context_of(*self, root, pos as int, contexts@[m as int]));
                                assert(left@ == contexts@[m as int].prefix@ + il@);
                                assert(right@ == ir@ + contexts@[m as int].postfix@);
                                assert(splice_parts(contexts@[m as int], il@, ir@));
                                if self.wf() && self.valid_index(root) && (pos as int)
                                    < self.width_at(root) {
                                    self.lemma_context_width(root, pos as int,
                                        contexts@[m as int]);
                                }
                                reveal(splice_of);
                                assert(splice_of(*self, root, pos as int, left@, right@));
                            }
                        }
                    }
                },
                None => {
                    proof {
                        if self.wf() && self.branching() {
                            assert(false);
                        }
                    }
                    return Err(HypergraphError::VertexNotFound(ctx.key.index));
                },
            }
            proof {
                if self.wf() {
                    assert(forall|i: int|
                        0 <= i < m + 1 ==> pattern_width_spec((#[trigger] lefts@[i])@) == pos
                            && pattern_width_spec(rights@[i]@) == self.width_at(root) - pos);
                }
            }
            m += 1;
        }
        proof {
            if self.wf() {
                assert(lefts@.len() >= 1);
            }
        }
        Ok((lefts, rights))
    }
}

} // verus!
