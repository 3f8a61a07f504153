use seqraph::error::HypergraphError;
use seqraph::graph::Hypergraph;
use seqraph::search::FoundRange;
use seqraph::vertex::{Child, Token, VertexKey};

fn tok(c: char) -> Token {
    Token::Element(c)
}

/// Builds the shared example graph over the tokens a..=i, mirroring the
/// bottom-up construction a caller would perform.
#[allow(clippy::type_complexity)]
fn context() -> (
    Hypergraph,
    usize,
    usize,
    usize,
    usize,
    usize,
    usize,
    usize,
    usize,
    usize,
    usize,
    usize,
    usize,
    usize,
    usize,
    usize,
    usize,
    usize,
    usize,
    usize,
    usize,
) {
    let mut graph = Hypergraph::new();
    let leaves = graph.insert_tokens(&vec![
        tok('a'),
        tok('b'),
        tok('c'),
        tok('d'),
        tok('e'),
        tok('f'),
        tok('g'),
        tok('h'),
        tok('i'),
    ]);
    let (a, b, c, d, e, f, g, h, i) = (
        leaves[0], leaves[1], leaves[2], leaves[3], leaves[4], leaves[5], leaves[6], leaves[7],
        leaves[8],
    );
    let ab = graph.insert_pattern(&vec![a, b]).unwrap();
    let bc = graph.insert_pattern(&vec![b, c]).unwrap();
    let ef = graph.insert_pattern(&vec![e, f]).unwrap();
    let def = graph.insert_pattern(&vec![d, ef]).unwrap();
    let cdef = graph.insert_pattern(&vec![c, def]).unwrap();
    let gh = graph.insert_pattern(&vec![g, h]).unwrap();
    let efgh = graph.insert_pattern(&vec![ef, gh]).unwrap();
    let ghi = graph.insert_pattern(&vec![gh, i]).unwrap();
    let abc = graph
        .insert_patterns(&vec![vec![ab, c], vec![a, bc]])
        .unwrap();
    let cd = graph.insert_pattern(&vec![c, d]).unwrap();
    let bcd = graph
        .insert_patterns(&vec![vec![bc, d], vec![b, cd]])
        .unwrap();
    let abcd = graph
        .insert_patterns(&vec![vec![abc, d], vec![a, bcd]])
        .unwrap();
    let efghi = graph
        .insert_patterns(&vec![vec![efgh, i], vec![ef, ghi]])
        .unwrap();
    let abcdefghi = graph.insert_pattern(&vec![abcd, efghi]).unwrap();
    let aba = graph.insert_pattern(&vec![ab, a]).unwrap();
    let abab = graph
        .insert_patterns(&vec![vec![aba, b], vec![ab, ab]])
        .unwrap();
    let ababab = graph
        .insert_patterns(&vec![vec![abab, ab], vec![ab, abab]])
        .unwrap();
    let ababcd = graph
        .insert_patterns(&vec![vec![ab, abcd], vec![aba, bcd], vec![abab, cd]])
        .unwrap();
    let ababababcd = graph
        .insert_patterns(&vec![vec![ababab, abcd], vec![abab, ababcd]])
        .unwrap();
    let ababcdefghi = graph
        .insert_patterns(&vec![vec![ab, abcdefghi], vec![ababcd, efghi]])
        .unwrap();
    let ababababcdefghi = graph
        .insert_patterns(&vec![vec![ababababcd, efghi], vec![abab, ababcdefghi]])
        .unwrap();
    let _longer_pattern = graph.insert_pattern(&vec![ababab, abcdefghi]).unwrap();
    (
        graph, a, b, c, d, e, f, g, h, i, ab, bc, cd, bcd, abc, abcd, cdef, efghi, abab, ababab,
        ababababcdefghi,
    )
}

fn child_of(graph: &Hypergraph, index: usize) -> Child {
    Child::new(index, graph.index_width(index))
}

#[test]
fn insert_subpattern() {
    let mut graph = Hypergraph::new();
    let leaves = graph.insert_tokens(&vec![tok('a'), tok('b'), tok('c'), tok('d')]);
    let (a, b, c, d) = (leaves[0], leaves[1], leaves[2], leaves[3]);
    let _abcd = graph.insert_pattern(&vec![a, b, c, d]).unwrap();
}

#[test]
fn find_pattern() {
    let (
        graph,
        a,
        b,
        c,
        d,
        e,
        f,
        g,
        h,
        i,
        ab,
        bc,
        _cd,
        _bcd,
        abc,
        abcd,
        _cdef,
        _efghi,
        _abab,
        _ababab,
        ababababcdefghi,
    ) = context();
    let a_bc_pattern = vec![Child::new(a, 1), Child::new(bc, 2)];
    let ab_c_pattern = vec![Child::new(ab, 2), Child::new(c, 1)];
    let a_bc_d_pattern = vec![Child::new(a, 1), Child::new(bc, 2), Child::new(d, 1)];
    let b_c_pattern = vec![Child::new(b, 1), Child::new(c, 1)];
    let bc_pattern = vec![Child::new(bc, 2)];
    let a_b_c_pattern = vec![Child::new(a, 1), Child::new(b, 1), Child::new(c, 1)];

    assert_eq!(graph.find_pattern(&bc_pattern), None);

    let r = graph.find_pattern(&b_c_pattern).unwrap();
    assert_eq!(r.0, child_of(&graph, bc));
    assert_eq!(r.2, FoundRange::Complete);

    let r = graph.find_pattern(&a_bc_pattern).unwrap();
    assert_eq!(r.0, child_of(&graph, abc));
    assert_eq!(r.2, FoundRange::Complete);

    let r = graph.find_pattern(&ab_c_pattern).unwrap();
    assert_eq!(r.0, child_of(&graph, abc));
    assert_eq!(r.2, FoundRange::Complete);

    let r = graph.find_pattern(&a_bc_d_pattern).unwrap();
    assert_eq!(r.0, child_of(&graph, abcd));
    assert_eq!(r.2, FoundRange::Complete);

    let r = graph.find_pattern(&a_b_c_pattern).unwrap();
    assert_eq!(r.0, child_of(&graph, abc));
    assert_eq!(r.2, FoundRange::Complete);

    let long: Vec<Child> = vec![a, b, a, b, a, b, a, b, c, d, e, f, g, h, i]
        .into_iter()
        .map(|ix| child_of(&graph, ix))
        .collect();
    let r = graph.find_pattern(&long).unwrap();
    assert_eq!(r.0, child_of(&graph, ababababcdefghi));
    assert_eq!(r.2, FoundRange::Complete);

    let mut a_b_c_c_pattern = a_b_c_pattern.clone();
    a_b_c_c_pattern.push(Child::new(c, 1));
    assert_eq!(graph.find_pattern(&a_b_c_c_pattern), None);
}

#[test]
fn find_sequence() {
    let (
        graph,
        _a,
        _b,
        _c,
        _d,
        _e,
        _f,
        _g,
        _h,
        _i,
        _ab,
        _bc,
        _cd,
        _bcd,
        abc,
        _abcd,
        _cdef,
        _efghi,
        _abab,
        _ababab,
        ababababcdefghi,
    ) = context();
    assert_eq!(graph.find_sequence("a"), None);

    let r = graph.find_sequence("abc").unwrap();
    assert_eq!(r.0, child_of(&graph, abc));
    assert_eq!(r.2, FoundRange::Complete);

    let r = graph.find_sequence("ababababcdefghi").unwrap();
    assert_eq!(r.0, child_of(&graph, ababababcdefghi));
    assert_eq!(r.2, FoundRange::Complete);

    // a sequence with an unindexed token misses entirely
    assert_eq!(graph.find_sequence("abz"), None);
}

#[test]
fn insert_pattern_new_vertex() {
    let mut graph = Hypergraph::new();
    let leaves = graph.insert_tokens(&vec![tok('a'), tok('b'), tok('c'), tok('d')]);
    let (a, b, c, d) = (leaves[0], leaves[1], leaves[2], leaves[3]);
    let abcd = graph.insert_pattern(&vec![a, b, c, d]).unwrap();
    assert!(abcd != a && abcd != b && abcd != c && abcd != d);
    assert_eq!(graph.index_width(abcd), 4);
    assert_eq!(
        graph.index_width(abcd),
        graph.index_width(a)
            + graph.index_width(b)
            + graph.index_width(c)
            + graph.index_width(d)
    );
}

#[test]
fn insert_patterns_shares_one_vertex() {
    let mut graph = Hypergraph::new();
    let leaves = graph.insert_tokens(&vec![tok('a'), tok('b'), tok('c')]);
    let (a, b, c) = (leaves[0], leaves[1], leaves[2]);
    let ab = graph.insert_pattern(&vec![a, b]).unwrap();
    let bc = graph.insert_pattern(&vec![b, c]).unwrap();
    let count_before = graph.vertex_count();
    let abc = graph
        .insert_patterns(&vec![vec![ab, c], vec![a, bc]])
        .unwrap();
    // one new vertex carrying two alternative decompositions
    assert_eq!(graph.vertex_count(), count_before + 1);
    let data = graph.get_vertex_data(abc).unwrap();
    assert_eq!(data.get_children().len(), 2);
    let first = data.get_children()[0].0;
    let second = data.get_children()[1].0;
    assert_ne!(first, second);
    assert_eq!(graph.index_width(abc), 3);
}

#[test]
fn split_at_existing_boundary() {
    let mut graph = Hypergraph::new();
    let leaves = graph.insert_tokens(&vec![tok('a'), tok('b'), tok('c')]);
    let (a, b, c) = (leaves[0], leaves[1], leaves[2]);
    let ab = graph.insert_pattern(&vec![a, b]).unwrap();
    let bc = graph.insert_pattern(&vec![b, c]).unwrap();
    let abc = graph
        .insert_patterns(&vec![vec![ab, c], vec![a, bc]])
        .unwrap();
    let (left, right) = graph.split_index_at_pos(abc, 2).unwrap();
    assert_eq!(left, vec![vec![Child::new(ab, 2)]]);
    assert_eq!(right, vec![vec![Child::new(c, 1)]]);
}

#[test]
fn split_recurses_into_child() {
    let mut graph = Hypergraph::new();
    let leaves = graph.insert_tokens(&vec![tok('a'), tok('b'), tok('c'), tok('d')]);
    let (a, b, c, d) = (leaves[0], leaves[1], leaves[2], leaves[3]);
    let ab = graph.insert_pattern(&vec![a, b]).unwrap();
    let bc = graph.insert_pattern(&vec![b, c]).unwrap();
    let abc = graph
        .insert_patterns(&vec![vec![ab, c], vec![a, bc]])
        .unwrap();
    let abcd = graph.insert_pattern(&vec![abc, d]).unwrap();
    // offset 1 falls inside abc in the only decomposition of abcd
    let (left, right) = graph.split_index_at_pos(abcd, 1).unwrap();
    assert_eq!(left, vec![vec![Child::new(a, 1)]]);
    assert_eq!(right, vec![vec![Child::new(bc, 2), Child::new(d, 1)]]);
}

#[test]
fn split_rejects_edge_positions() {
    let mut graph = Hypergraph::new();
    let leaves = graph.insert_tokens(&vec![tok('a'), tok('b')]);
    let ab = graph.insert_pattern(&vec![leaves[0], leaves[1]]).unwrap();
    assert_eq!(
        graph.split_index_at_pos(ab, 0),
        Err(HypergraphError::InvalidSplitPosition)
    );
    assert_eq!(
        graph.split_index_at_pos(ab, 2),
        Err(HypergraphError::InvalidSplitPosition)
    );
    assert_eq!(
        graph.split_index_at_pos(99, 1),
        Err(HypergraphError::VertexNotFound(99))
    );
}

#[test]
fn insertion_errors() {
    let mut graph = Hypergraph::new();
    let a = graph.insert_token(tok('a'));
    assert_eq!(
        graph.insert_pattern(&vec![]),
        Err(HypergraphError::EmptyPattern)
    );
    assert_eq!(
        graph.insert_pattern(&vec![a, 42]),
        Err(HypergraphError::VertexNotFound(42))
    );
    assert_eq!(
        graph.add_pattern_to_node(7, &vec![a]),
        Err(HypergraphError::VertexNotFound(7))
    );
    assert_eq!(
        graph.add_pattern_to_node(a, &vec![]),
        Err(HypergraphError::EmptyPattern)
    );
}

#[test]
fn insert_token_is_idempotent() {
    let mut graph = Hypergraph::new();
    let a1 = graph.insert_token(tok('a'));
    let a2 = graph.insert_token(tok('a'));
    assert_eq!(a1, a2);
    assert_eq!(graph.vertex_count(), 1);
    assert_eq!(graph.expect_vertex(a1).0, VertexKey::Token(tok('a')));
}

#[test]
fn parent_back_references() {
    let mut graph = Hypergraph::new();
    let leaves = graph.insert_tokens(&vec![tok('a'), tok('b')]);
    let (a, b) = (leaves[0], leaves[1]);
    let ab = graph.insert_pattern(&vec![a, b]).unwrap();
    let data = graph.get_vertex_data(a).unwrap();
    let parent = data.get_parent(ab).unwrap();
    assert_eq!(parent.get_width(), 2);
    let pid = graph.get_vertex_data(ab).unwrap().get_children()[0].0;
    assert!(parent.pattern_indices.contains(&(pid, 0)));
    let bdata = graph.get_vertex_data(b).unwrap();
    assert!(bdata.get_parent(ab).unwrap().pattern_indices.contains(&(pid, 1)));
}

#[test]
fn found_range_operations() {
    let ab = Child::new(10, 2);
    let c = Child::new(11, 1);

    assert!(FoundRange::Complete.is_matching());
    assert!(!FoundRange::Prefix(vec![ab]).is_matching());
    assert!(!FoundRange::Postfix(vec![ab]).is_matching());
    assert!(!FoundRange::Infix(vec![ab], vec![c]).is_matching());

    assert_eq!(
        FoundRange::Complete.prepend_prefix(vec![]),
        FoundRange::Complete
    );
    assert_eq!(
        FoundRange::Complete.prepend_prefix(vec![ab]),
        FoundRange::Prefix(vec![ab])
    );
    assert_eq!(
        FoundRange::Prefix(vec![c]).prepend_prefix(vec![ab]),
        FoundRange::Infix(vec![ab], vec![c])
    );
    assert_eq!(
        FoundRange::Infix(vec![ab], vec![c]).prepend_prefix(vec![c]),
        FoundRange::Infix(vec![c, ab], vec![c])
    );
    assert_eq!(
        FoundRange::Postfix(vec![c]).prepend_prefix(vec![ab]),
        FoundRange::Postfix(vec![ab, c])
    );

    assert_eq!(FoundRange::Complete.reverse(), FoundRange::Complete);
    assert_eq!(
        FoundRange::Prefix(vec![ab]).reverse(),
        FoundRange::Postfix(vec![ab])
    );
    assert_eq!(
        FoundRange::Postfix(vec![ab]).reverse(),
        FoundRange::Prefix(vec![ab])
    );
    assert_eq!(
        FoundRange::Infix(vec![ab], vec![c]).reverse(),
        FoundRange::Infix(vec![c], vec![ab])
    );

    let found = seqraph::search::SearchFound(FoundRange::Complete, 5, 7);
    let found = found.prepend_prefix(vec![ab]);
    assert_eq!(found.0, FoundRange::Prefix(vec![ab]));
    assert_eq!(found.1, 5);
    assert_eq!(found.2, 7);
}

#[test]
fn pattern_width_sums_cached_widths() {
    let pat = vec![Child::new(0, 2), Child::new(1, 3), Child::new(2, 1)];
    assert_eq!(seqraph::graph::pattern_width(&pat), 6);
    assert_eq!(seqraph::graph::pattern_width(&vec![]), 0);
}

#[test]
fn parent_occurrence_bookkeeping() {
    let mut parent = seqraph::vertex::Parent::new(4);
    assert_eq!(parent.get_width(), 4);
    parent.add_pattern_index(3, 0);
    parent.add_pattern_index(3, 0);
    parent.add_pattern_index(5, 1);
    assert_eq!(parent.pattern_indices.len(), 2);
    assert!(parent.exists_at_pos(0));
    assert!(parent.exists_at_pos(1));
    assert!(!parent.exists_at_pos(2));
    parent.remove_pattern_index(3, 0);
    assert!(!parent.exists_at_pos(0));
    assert!(parent.exists_at_pos(1));
}

#[test]
fn remove_parent_drops_empty_entries() {
    let mut graph = Hypergraph::new();
    let leaves = graph.insert_tokens(&vec![tok('a'), tok('b')]);
    let (a, b) = (leaves[0], leaves[1]);
    let ab = graph.insert_pattern(&vec![a, b]).unwrap();
    let pid = graph.get_vertex_data(ab).unwrap().get_children()[0].0;
    let mut adata = graph.get_vertex_data(a).unwrap().clone();
    adata.remove_parent(ab, pid, 0);
    // the single occurrence is gone, and with it the whole entry
    assert!(adata.get_parent(ab).is_none());
}

#[test]
fn edge_list_mirrors_back_references() {
    let mut graph = Hypergraph::new();
    let leaves = graph.insert_tokens(&vec![tok('a'), tok('b')]);
    let (a, b) = (leaves[0], leaves[1]);
    let ab = graph.insert_pattern(&vec![a, b]).unwrap();
    let mut edges = graph.edge_list();
    edges.sort();
    assert_eq!(edges, vec![(ab, a), (ab, b)]);
}

#[test]
fn width_conservation_concrete() {
    let graph = context().0;
    assert!(graph.vertex_count() > 20);
    for v in 0..graph.vertex_count() {
        let data = graph.get_vertex_data(v).unwrap();
        for (_, pat) in data.get_children() {
            let sum: usize = pat.iter().map(|c| c.width).sum();
            assert_eq!(sum, data.get_width());
        }
    }
}

#[test]
fn referential_symmetry_concrete() {
    let graph = context().0;
    for v in 0..graph.vertex_count() {
        let data = graph.get_vertex_data(v).unwrap();
        // every child slot is mirrored by a back-reference on the child
        for (pid, pat) in data.get_children() {
            for (pos, child) in pat.iter().enumerate() {
                let cdata = graph.get_vertex_data(child.index).unwrap();
                let parent = cdata.get_parent(v).unwrap();
                assert!(parent.pattern_indices.contains(&(*pid, pos)));
                assert_eq!(parent.get_width(), data.get_width());
            }
        }
        // no back-reference dangles: each occurrence names a slot holding v
        for (pv, parent) in data.get_parents() {
            let pdata = graph.get_vertex_data(*pv).unwrap();
            for (pid, pos) in &parent.pattern_indices {
                let pat = pdata.get_child_pattern(*pid).unwrap();
                assert_eq!(pat[*pos].index, v);
            }
        }
    }
}

#[test]
fn insert_patterns_validates_before_mutating() {
    let mut graph = Hypergraph::new();
    let leaves = graph.insert_tokens(&vec![tok('a'), tok('b')]);
    let (a, b) = (leaves[0], leaves[1]);
    let count = graph.vertex_count();
    assert_eq!(
        graph.insert_patterns(&vec![]),
        Err(HypergraphError::EmptyPattern)
    );
    assert_eq!(
        graph.insert_patterns(&vec![vec![a, b], vec![]]),
        Err(HypergraphError::EmptyPattern)
    );
    assert_eq!(
        graph.insert_patterns(&vec![vec![a, b], vec![a, 77]]),
        Err(HypergraphError::VertexNotFound(77))
    );
    // a rejected call leaves the graph unchanged
    assert_eq!(graph.vertex_count(), count);
}

#[test]
fn try_perfect_split_requires_every_boundary() {
    let mut graph = Hypergraph::new();
    let leaves = graph.insert_tokens(&vec![tok('a'), tok('b'), tok('c')]);
    let (a, b, c) = (leaves[0], leaves[1], leaves[2]);
    let ab = graph.insert_pattern(&vec![a, b]).unwrap();
    let bc = graph.insert_pattern(&vec![b, c]).unwrap();
    // one decomposition has a boundary at 2, the other does not
    let abc = graph
        .insert_patterns(&vec![vec![ab, c], vec![a, bc]])
        .unwrap();
    assert!(graph.try_perfect_split(abc, 2).is_err());
    // with a single decomposition, the boundary split succeeds whole
    let abc2 = graph.insert_pattern(&vec![ab, c]).unwrap();
    let (left, right) = graph.try_perfect_split(abc2, 2).unwrap();
    assert_eq!(left, vec![Child::new(ab, 2)]);
    assert_eq!(right, vec![Child::new(c, 1)]);
}

#[test]
fn find_sequence_single_token_and_miss() {
    let mut graph = Hypergraph::new();
    graph.insert_token(tok('a'));
    // a single-element query never matches as a compound
    assert_eq!(graph.find_sequence("a"), None);
    // and a query with an unindexed token misses before matching
    assert_eq!(graph.find_sequence("ab"), None);
}
