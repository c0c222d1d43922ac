//! The file dependency graph behind the ranking.
//!
//! Each file that has a tag is a node; files are numbered in ascending name
//! order.  A reference in file A to a name that file B (a different file)
//! defines links A to B; the edge A -> B weighs the number of reference tags
//! in A whose name B defines.  The graph is held in a petgraph `DiGraph`.
use vstd::prelude::*;

use crate::tags::{tag_views, Tag, TagKind, TagView};
use crate::text::{
    char_views, chars_equal, chars_less, chars_lt, chars_of, lemma_chars_lt_order, lemma_sorted_unique,
    sorted_by, string_from_chars, string_views,
};

verus! {

/// petgraph's `Graph`, whose contents the names `graph_nodes` and
/// `graph_edges` describe.
#[verifier::external_type_specification]
#[verifier::external_body]
#[verifier::reject_recursive_types(N)]
#[verifier::reject_recursive_types(E)]
#[verifier::reject_recursive_types(Ty)]
#[verifier::reject_recursive_types(Ix)]
pub struct ExGraph<N, E, Ty, Ix>(petgraph::graph::Graph<N, E, Ty, Ix>);

/// petgraph's `Directed` edge marker.
#[verifier::external_type_specification]
#[verifier::external_body]
pub struct ExDirected(petgraph::Directed);

/// The node weights of a graph, in node-index order.
pub uninterp spec fn graph_nodes(g: petgraph::graph::Graph<String, u64, petgraph::Directed, u32>) -> Seq<Seq<char>>;

/// The edges of a graph as (source index, target index, weight), in
/// edge-index (insertion) order.
pub uninterp spec fn graph_edges(g: petgraph::graph::Graph<String, u64, petgraph::Directed, u32>) -> Seq<(usize, usize, u64)>;

/// `Graph::new` for a directed graph: no nodes and no edges.
#[verifier::external_body]
fn new_graph() -> (g: petgraph::graph::Graph<String, u64, petgraph::Directed, u32>)
    ensures
        graph_nodes(g) == Seq::<Seq<char>>::empty(),
        graph_edges(g) == Seq::<(usize, usize, u64)>::empty(),
{
    petgraph::graph::Graph::new()
}

/// `Graph::add_node`: appends a node, whose index is the old node count.
/// petgraph asserts that the new index is not `u32::MAX`.
#[verifier::external_body]
fn add_node(g: &mut petgraph::graph::Graph<String, u64, petgraph::Directed, u32>, weight: String) -> (idx: usize)
    requires
        graph_nodes(*old(g)).len() < u32::MAX,
    ensures
        idx == graph_nodes(*old(g)).len(),
        graph_nodes(*final(g)) == graph_nodes(*old(g)).push(weight@),
        graph_edges(*final(g)) == graph_edges(*old(g)),
{
    g.add_node(weight).index()
}

/// `Graph::add_edge` from node `a` to node `b`: appends an edge.  petgraph
/// panics when either index is out of bounds and asserts that the new edge
/// index is not `u32::MAX`.
#[verifier::external_body]
fn add_edge(g: &mut petgraph::graph::Graph<String, u64, petgraph::Directed, u32>, a: usize, b: usize, weight: u64)
    requires
        a < graph_nodes(*old(g)).len(),
        b < graph_nodes(*old(g)).len(),
        graph_edges(*old(g)).len() < u32::MAX,
    ensures
        graph_nodes(*final(g)) == graph_nodes(*old(g)),
        graph_edges(*final(g)) == graph_edges(*old(g)).push((a, b, weight)),
{
    g.add_edge(petgraph::graph::NodeIndex::new(a), petgraph::graph::NodeIndex::new(b), weight);
}

/// Some tag belongs to file `f`.
pub open spec fn has_file(tags: Seq<TagView>, f: Seq<char>) -> bool {
    exists|k: int| 0 <= k < tags.len() && #[trigger] tags[k].rel_fname == f
}

/// File `f` has a definition tag named `n`.
pub open spec fn defines(tags: Seq<TagView>, f: Seq<char>, n: Seq<char>) -> bool {
    exists|k: int|
        0 <= k < tags.len() && #[trigger] tags[k].kind == TagKind::Def && tags[k].rel_fname == f
            && tags[k].name == n
}

/// Names in strictly ascending code-point order.
pub open spec fn strictly_sorted(s: Seq<Seq<char>>) -> bool {
    forall|i: int, j: int| 0 <= i < j < s.len() ==> chars_lt(#[trigger] s[i], #[trigger] s[j])
}

/// `s` lists every file that has a tag, once, in ascending name order.
pub open spec fn is_file_list(tags: Seq<TagView>, s: Seq<Seq<char>>) -> bool {
    &&& strictly_sorted(s)
    &&& forall|i: int| 0 <= i < s.len() ==> has_file(tags, #[trigger] s[i])
    &&& forall|k: int| 0 <= k < tags.len() ==> s.contains(#[trigger] tags[k].rel_fname)
}

/// The files of a tag sequence, in ascending name order.
pub open spec fn file_list(tags: Seq<TagView>) -> Seq<Seq<char>> {
    choose|s: Seq<Seq<char>>| is_file_list(tags, s)
}

/// The number of reference tags among the first `n` tags that belong to
/// file `from` and name something that file `to` defines.
pub open spec fn shared_refs(tags: Seq<TagView>, n: int, from: Seq<char>, to: Seq<char>) -> nat
    decreases n,
{
    if n <= 0 {
        0
    } else {
        shared_refs(tags, n - 1, from, to) + if tags[n - 1].kind == TagKind::Ref
            && tags[n - 1].rel_fname == from && defines(tags, to, tags[n - 1].name) {
            1nat
        } else {
            0nat
        }
    }
}

/// The weight of the link from file `from` to file `to`; a file never links
/// to itself.
pub open spec fn link_weight(tags: Seq<TagView>, from: Seq<char>, to: Seq<char>) -> nat {
    if from == to {
        0
    } else {
        shared_refs(tags, tags.len() as int, from, to)
    }
}

/// Edge `a` comes before edge `b`: by source index, then target index.
pub open spec fn edge_before(a: (usize, usize, u64), b: (usize, usize, u64)) -> bool {
    a.0 < b.0 || (a.0 == b.0 && a.1 < b.1)
}

/// `edges` holds exactly the links between the files of `files` (by index),
/// each once with its weight, ordered by source index, then target index.
pub open spec fn is_edge_list(tags: Seq<TagView>, files: Seq<Seq<char>>, edges: Seq<(usize, usize, u64)>) -> bool {
    &&& forall|k: int|
        0 <= k < edges.len() ==> {
            &&& (#[trigger] edges[k]).0 < files.len()
            &&& edges[k].1 < files.len()
            &&& edges[k].2 > 0
            &&& edges[k].2 == link_weight(tags, files[edges[k].0 as int], files[edges[k].1 as int])
        }
    &&& forall|k: int, l: int| 0 <= k < l < edges.len() ==> edge_before(#[trigger] edges[k], #[trigger] edges[l])
    &&& forall|i: int, j: int|
        0 <= i < files.len() && 0 <= j < files.len() && link_weight(tags, #[trigger] files[i], #[trigger] files[j]) > 0
            ==> exists|k: int| 0 <= k < edges.len() && edges[k].0 == i && #[trigger] edges[k].1 == j
}

/// The number of files among the first `j` that file `i` links to.
pub open spec fn row_links(tags: Seq<TagView>, files: Seq<Seq<char>>, i: int, j: int) -> nat
    decreases j,
{
    if j <= 0 {
        0
    } else {
        row_links(tags, files, i, j - 1) + if link_weight(tags, files[i], files[j - 1]) > 0 {
            1nat
        } else {
            0nat
        }
    }
}

/// The number of links that leave the first `i` files.
pub open spec fn grid_links(tags: Seq<TagView>, files: Seq<Seq<char>>, i: int) -> nat
    decreases i,
{
    if i <= 0 {
        0
    } else {
        grid_links(tags, files, i - 1) + row_links(tags, files, i - 1, files.len() as int)
    }
}

/// The number of links between the files of a tag sequence.
pub open spec fn link_count(tags: Seq<TagView>) -> nat {
    grid_links(tags, file_list(tags), file_list(tags).len() as int)
}

/// A file list is unique: any two for the same tags are equal.
pub proof fn lemma_file_list_unique(tags: Seq<TagView>, a: Seq<Seq<char>>, b: Seq<Seq<char>>)
    requires
        is_file_list(tags, a),
        is_file_list(tags, b),
    ensures
        a == b,
{
    lemma_chars_lt_order();
    let lt = |x: Seq<char>, y: Seq<char>| chars_lt(x, y);
    assert forall|x: Seq<char>| a.contains(x) <==> b.contains(x) by {
        if a.contains(x) {
            let i = choose|i: int| 0 <= i < a.len() && a[i] == x;
            assert(has_file(tags, a[i]));
            let k = choose|k: int| 0 <= k < tags.len() && #[trigger] tags[k].rel_fname == a[i];
            assert(b.contains(tags[k].rel_fname));
        }
        if b.contains(x) {
            let i = choose|i: int| 0 <= i < b.len() && b[i] == x;
            assert(has_file(tags, b[i]));
            let k = choose|k: int| 0 <= k < tags.len() && #[trigger] tags[k].rel_fname == b[i];
            assert(a.contains(tags[k].rel_fname));
        }
    }
    assert(sorted_by(a, lt));
    assert(sorted_by(b, lt));
    lemma_sorted_unique(a, b, lt);
}

/// Any list that meets `is_file_list` is `file_list`.
pub proof fn lemma_is_the_file_list(tags: Seq<TagView>, s: Seq<Seq<char>>)
    requires
        is_file_list(tags, s),
    ensures
        file_list(tags) == s,
{
    lemma_file_list_unique(tags, file_list(tags), s);
}

/// The files that the tags belong to, ascending, each once.
fn sorted_files(tags: &[Tag]) -> (files: Vec<Vec<char>>)
    ensures
        is_file_list(tag_views(tags@), char_views(files@)),
{
    let ghost tv = tag_views(tags@);
    let mut files: Vec<Vec<char>> = Vec::new();
    let mut k: usize = 0;
    proof {
        lemma_chars_lt_order();
    }
    while k < tags.len()
        invariant
            k <= tags.len(),
            tv == tag_views(tags@),
            strictly_sorted(char_views(files@)),
            forall|i: int| 0 <= i < files@.len() ==> has_file(tv, #[trigger] char_views(files@)[i]),
            forall|m: int| 0 <= m < k ==> char_views(files@).contains(#[trigger] tv[m].rel_fname),
        decreases tags.len() - k,
    {
        proof {
            lemma_chars_lt_order();
        }
        let f = chars_of(tags[k].rel_fname.as_str());
        assert(f@ == tv[k as int].rel_fname);
        let p = lower_bound(&files, &f);
        let ghost before = char_views(files@);
        if p < files.len() && chars_equal(&files[p], &f) {
            assert(before[p as int] == tv[k as int].rel_fname);
        } else {
            proof {
                if p < files.len() {
                    assert(!chars_lt(before[p as int], f@));
                    assert(before[p as int] != f@);
                    assert(chars_lt(f@, before[p as int]));
                }
            }
            files.insert(p, f);
            proof {
                let after = char_views(files@);
                assert(after =~= before.insert(p as int, f@));
                assert forall|i: int, j: int| 0 <= i < j < after.len() implies chars_lt(#[trigger] after[i], #[trigger] after[j]) by {
                    if j < p {
                        assert(chars_lt(before[i], before[j]));
                    } else if j == p {
                        assert(chars_lt(before[i], f@));
                    } else if i < p {
                        assert(chars_lt(before[i], f@));
                        assert(chars_lt(f@, before[p as int]));
                        if j - 1 > p {
                            assert(chars_lt(before[p as int], before[j - 1]));
                        }
                    } else if i == p {
                        assert(chars_lt(f@, before[p as int]));
                        if j - 1 > p {
                            assert(chars_lt(before[p as int], before[j - 1]));
                        }
                    } else {
                        assert(chars_lt(before[i - 1], before[j - 1]));
                    }
                }
                assert forall|i: int| 0 <= i < after.len() implies has_file(tv, #[trigger] after[i]) by {
                    if i < p {
                        assert(after[i] == before[i]);
                    } else if i == p {
                        assert(tv[k as int].rel_fname == after[i]);
                    } else {
                        assert(after[i] == before[i - 1]);
                    }
                }
                assert forall|m: int| 0 <= m <= k implies after.contains(#[trigger] tv[m].rel_fname) by {
                    if m < k {
                        let q = choose|q: int| 0 <= q < before.len() && before[q] == tv[m].rel_fname;
                        if q < p {
                            assert(after[q] == before[q]);
                        } else {
                            assert(after[q + 1] == before[q]);
                        }
                    } else {
                        assert(after[p as int] == f@);
                    }
                }
            }
        }
        k = k + 1;
    }
    files
}

/// Distinct positions of a strictly sorted sequence hold distinct names.
proof fn lemma_sorted_distinct(s: Seq<Seq<char>>, a: int, b: int)
    requires
        strictly_sorted(s),
        0 <= a < s.len(),
        0 <= b < s.len(),
        s[a] == s[b],
    ensures
        a == b,
{
    lemma_chars_lt_order();
    if a < b {
        assert(chars_lt(s[a], s[b]));
    } else if b < a {
        assert(chars_lt(s[b], s[a]));
    }
}

/// What the builder knows of each tag: its file's index, its name as
/// characters, and the indices of all definition tags.
pub open spec fn tag_tables(
    tags: Seq<TagView>,
    files: Seq<Seq<char>>,
    file_of: Seq<usize>,
    names: Seq<Vec<char>>,
    def_idx: Seq<usize>,
) -> bool {
    &&& is_file_list(tags, files)
    &&& file_of.len() == tags.len()
    &&& names.len() == tags.len()
    &&& forall|m: int|
        0 <= m < tags.len() ==> (#[trigger] file_of[m]) < files.len() && files[file_of[m] as int]
            == tags[m].rel_fname
    &&& forall|m: int| 0 <= m < tags.len() ==> (#[trigger] names[m])@ == tags[m].name
    &&& forall|p: int|
        0 <= p < def_idx.len() ==> (#[trigger] def_idx[p]) < tags.len() && tags[def_idx[p] as int].kind
            == TagKind::Def
    &&& forall|m: int|
        0 <= m < tags.len() && #[trigger] tags[m].kind == TagKind::Def ==> exists|p: int|
            0 <= p < def_idx.len() && def_idx[p] == m
}

/// The first position of `files` whose name is not below `f`.
fn lower_bound(files: &Vec<Vec<char>>, f: &Vec<char>) -> (p: usize)
    requires
        strictly_sorted(char_views(files@)),
    ensures
        p <= files.len(),
        forall|q: int| 0 <= q < p ==> chars_lt(#[trigger] char_views(files@)[q], f@),
        forall|q: int| p <= q < files.len() ==> !chars_lt(#[trigger] char_views(files@)[q], f@),
{
    let ghost fv = char_views(files@);
    let mut lo: usize = 0;
    let mut hi: usize = files.len();
    while lo < hi
        invariant
            lo <= hi <= files.len(),
            fv == char_views(files@),
            strictly_sorted(fv),
            forall|q: int| 0 <= q < lo ==> chars_lt(#[trigger] fv[q], f@),
            forall|q: int| hi <= q < files.len() ==> !chars_lt(#[trigger] fv[q], f@),
        decreases hi - lo,
    {
        let mid = lo + (hi - lo) / 2;
        proof {
            lemma_chars_lt_order();
        }
        if chars_less(&files[mid], f) {
            proof {
                assert forall|q: int| 0 <= q < mid + 1 implies chars_lt(#[trigger] fv[q], f@) by {
                    if q < mid {
                        assert(chars_lt(fv[q], fv[mid as int]));
                    }
                }
            }
            lo = mid + 1;
        } else {
            proof {
                assert forall|q: int| mid <= q < files.len() implies !chars_lt(#[trigger] fv[q], f@) by {
                    if q > mid {
                        assert(chars_lt(fv[mid as int], fv[q]));
                    }
                }
            }
            hi = mid;
        }
    }
    lo
}

/// The index of `f` in `files`.
fn index_of(files: &Vec<Vec<char>>, f: &Vec<char>) -> (i: usize)
    requires
        strictly_sorted(char_views(files@)),
        char_views(files@).contains(f@),
    ensures
        i < files.len(),
        files@[i as int]@ == f@,
{
    let ghost fv = char_views(files@);
    let p = lower_bound(files, f);
    proof {
        lemma_chars_lt_order();
        let q = choose|q: int| 0 <= q < fv.len() && fv[q] == f@;
        if q < p {
            assert(chars_lt(fv[q], f@));
        } else if q > p {
            assert(chars_lt(fv[p as int], fv[q]));
            assert(!chars_lt(fv[p as int], f@));
        }
        assert(q == p);
    }
    p
}

/// For each file (by index): whether it defines the name `n`, leaving out
/// file `i` itself.
fn defining_files(
    Ghost(tags): Ghost<Seq<TagView>>,
    files: &Vec<Vec<char>>,
    file_of: &Vec<usize>,
    names: &Vec<Vec<char>>,
    def_idx: &Vec<usize>,
    n: &Vec<char>,
    i: usize,
) -> (hit: Vec<bool>)
    requires
        tag_tables(tags, char_views(files@), file_of@, names@, def_idx@),
    ensures
        hit.len() == files.len(),
        forall|j: int|
            0 <= j < files.len() ==> #[trigger] hit@[j] == (j != i && defines(tags, char_views(files@)[j], n@)),
{
    let ghost fv = char_views(files@);
    let mut hit: Vec<bool> = Vec::new();
    while hit.len() < files.len()
        invariant
            hit.len() <= files.len(),
            forall|j: int| 0 <= j < hit.len() ==> !#[trigger] hit@[j],
        decreases files.len() - hit.len(),
    {
        hit.push(false);
    }
    let mut p: usize = 0;
    while p < def_idx.len()
        invariant
            p <= def_idx.len(),
            hit.len() == files.len(),
            tag_tables(tags, fv, file_of@, names@, def_idx@),
            fv == char_views(files@),
            forall|j: int|
                0 <= j < files.len() ==> #[trigger] hit@[j] == (j != i && exists|q: int|
                    0 <= q < p && file_of@[def_idx@[q] as int] == j && names@[def_idx@[q] as int]@ == n@),
        decreases def_idx.len() - p,
    {
        let m = def_idx[p];
        assert(m < tags.len());
        let fm = file_of[m];
        if fm != i && chars_equal(&names[m], n) {
            hit.set(fm, true);
        }
        proof {
            assert forall|j: int| 0 <= j < files.len() implies #[trigger] hit@[j] == (j != i && exists|q: int|
                0 <= q < p + 1 && file_of@[def_idx@[q] as int] == j && names@[def_idx@[q] as int]@ == n@) by {
                if j != i && file_of@[def_idx@[p as int] as int] == j && names@[def_idx@[p as int] as int]@ == n@ {
                    assert(hit@[j]);
                }
                if hit@[j] && !(fm != i && names@[m as int]@ == n@ && fm == j) {
                    let q = choose|q: int| 0 <= q < p && file_of@[def_idx@[q] as int] == j && names@[def_idx@[q] as int]@ == n@;
                    assert(0 <= q < p + 1);
                }
            }
        }
        p = p + 1;
    }
    proof {
        assert forall|j: int| 0 <= j < files.len() implies #[trigger] hit@[j] == (j != i && defines(tags, fv[j], n@)) by {
            if hit@[j] {
                let q = choose|q: int| 0 <= q < def_idx.len() && file_of@[def_idx@[q] as int] == j && names@[def_idx@[q] as int]@ == n@;
                let m = def_idx@[q] as int;
                assert(tags[m].kind == TagKind::Def);
                assert(tags[m].rel_fname == fv[j]);
                assert(tags[m].name == n@);
            }
            if j != i && defines(tags, fv[j], n@) {
                let m = choose|m: int| 0 <= m < tags.len() && #[trigger] tags[m].kind == TagKind::Def && tags[m].rel_fname == fv[j] && tags[m].name == n@;
                let q = choose|q: int| 0 <= q < def_idx.len() && def_idx@[q] == m;
                assert(fv[file_of@[m] as int] == fv[j]);
                lemma_sorted_distinct(fv, file_of@[m] as int, j);
                assert(file_of@[def_idx@[q] as int] == j && names@[def_idx@[q] as int]@ == n@);
            }
        }
    }
    hit
}

/// The weights of the links from file `i` to every file, by index.
fn row_weights(
    Ghost(tags): Ghost<Seq<TagView>>,
    kinds: &Vec<TagKind>,
    files: &Vec<Vec<char>>,
    file_of: &Vec<usize>,
    names: &Vec<Vec<char>>,
    def_idx: &Vec<usize>,
    i: usize,
) -> (w: Vec<u64>)
    requires
        tag_tables(tags, char_views(files@), file_of@, names@, def_idx@),
        kinds@.len() == tags.len(),
        forall|m: int| 0 <= m < tags.len() ==> #[trigger] kinds@[m] == tags[m].kind,
        i < files.len(),
    ensures
        w.len() == files.len(),
        forall|j: int|
            0 <= j < files.len() ==> #[trigger] w@[j] == link_weight(
                tags,
                char_views(files@)[i as int],
                char_views(files@)[j],
            ),
{
    let ghost fv = char_views(files@);
    let mut w: Vec<u64> = Vec::new();
    while w.len() < files.len()
        invariant
            w.len() <= files.len(),
            forall|j: int| 0 <= j < w.len() ==> #[trigger] w@[j] == 0,
        decreases files.len() - w.len(),
    {
        w.push(0);
    }
    let mut k: usize = 0;
    while k < kinds.len()
        invariant
            k <= kinds.len(),
            kinds@.len() == tags.len(),
            forall|m: int| 0 <= m < tags.len() ==> #[trigger] kinds@[m] == tags[m].kind,
            tag_tables(tags, fv, file_of@, names@, def_idx@),
            fv == char_views(files@),
            i < files.len(),
            w.len() == files.len(),
            forall|j: int|
                0 <= j < files.len() ==> #[trigger] w@[j] == (if j == i {
                    0
                } else {
                    shared_refs(tags, k as int, fv[i as int], fv[j])
                }),
            forall|j: int| 0 <= j < files.len() ==> #[trigger] w@[j] <= k,
        decreases kinds.len() - k,
    {
        let is_ref = match kinds[k] {
            TagKind::Ref => true,
            TagKind::Def => false,
        };
        let ghost before = w@;
        if file_of[k] == i && is_ref {
            let hit = defining_files(Ghost(tags), files, file_of, names, def_idx, &names[k], i);
            let mut j: usize = 0;
            while j < files.len()
                invariant
                    j <= files.len(),
                    w.len() == files.len(),
                    hit.len() == files.len(),
                    forall|x: int| 0 <= x < j ==> #[trigger] w@[x] == before[x] + if hit@[x] { 1int } else { 0int },
                    forall|x: int| j <= x < files.len() ==> #[trigger] w@[x] == before[x],
                    forall|x: int| 0 <= x < files.len() ==> #[trigger] before[x] <= k,
                    k < kinds.len(),
                    kinds@.len() <= usize::MAX,
                decreases files.len() - j,
            {
                if hit[j] {
                    w.set(j, w[j] + 1);
                }
                j = j + 1;
            }
            proof {
                assert(names@[k as int]@ == tags[k as int].name);
                assert(fv[file_of@[k as int] as int] == tags[k as int].rel_fname);
                assert forall|j: int| 0 <= j < files.len() implies #[trigger] w@[j] == (if j == i {
                    0
                } else {
                    shared_refs(tags, k + 1, fv[i as int], fv[j])
                }) by {
                    if j != i {
                        assert(hit@[j] == defines(tags, fv[j], tags[k as int].name));
                    }
                }
            }
        } else {
            proof {
                assert forall|j: int| 0 <= j < files.len() implies #[trigger] w@[j] == (if j == i {
                    0
                } else {
                    shared_refs(tags, k + 1, fv[i as int], fv[j])
                }) by {
                    if j != i {
                        if kinds@[k as int] == TagKind::Ref {
                            assert(file_of@[k as int] != i);
                            assert(fv[file_of@[k as int] as int] == tags[k as int].rel_fname);
                            if tags[k as int].rel_fname == fv[i as int] {
                                lemma_sorted_distinct(fv, file_of@[k as int] as int, i as int);
                            }
                        }
                    }
                }
            }
        }
        k = k + 1;
    }
    proof {
        assert forall|j: int| 0 <= j < files.len() implies #[trigger] w@[j] == link_weight(tags, fv[i as int], fv[j]) by {
            if j != i && fv[i as int] == fv[j] {
                lemma_sorted_distinct(fv, i as int, j);
            }
        }
    }
    w
}

/// Counting links over a longer prefix of a row never gives fewer.
proof fn lemma_row_links_monotone(tags: Seq<TagView>, files: Seq<Seq<char>>, i: int, j1: int, j2: int)
    requires
        j1 <= j2,
    ensures
        row_links(tags, files, i, j1) <= row_links(tags, files, i, j2),
    decreases j2 - j1,
{
    if j1 < j2 {
        lemma_row_links_monotone(tags, files, i, j1, j2 - 1);
    }
}

/// Counting links over more rows never gives fewer.
proof fn lemma_grid_links_monotone(tags: Seq<TagView>, files: Seq<Seq<char>>, i1: int, i2: int)
    requires
        i1 <= i2,
    ensures
        grid_links(tags, files, i1) <= grid_links(tags, files, i2),
    decreases i2 - i1,
{
    if i1 < i2 {
        lemma_grid_links_monotone(tags, files, i1, i2 - 1);
    }
}

/// Per-tag tables: each tag's file index, name and kind, and the indices of
/// the definition tags.
fn tables_of(tags: &[Tag], files: &Vec<Vec<char>>) -> (r: (Vec<usize>, Vec<Vec<char>>, Vec<TagKind>, Vec<usize>))
    requires
        is_file_list(tag_views(tags@), char_views(files@)),
    ensures
        tag_tables(tag_views(tags@), char_views(files@), r.0@, r.1@, r.3@),
        r.2@.len() == tags@.len(),
        forall|m: int| 0 <= m < tags@.len() ==> #[trigger] r.2@[m] == tag_views(tags@)[m].kind,
{
    let ghost tv = tag_views(tags@);
    let ghost fv = char_views(files@);
    let mut file_of: Vec<usize> = Vec::new();
    let mut names: Vec<Vec<char>> = Vec::new();
    let mut kinds: Vec<TagKind> = Vec::new();
    let mut def_idx: Vec<usize> = Vec::new();
    let mut k: usize = 0;
    while k < tags.len()
        invariant
            k <= tags.len(),
            tv == tag_views(tags@),
            fv == char_views(files@),
            is_file_list(tv, fv),
            file_of.len() == k,
            names.len() == k,
            kinds.len() == k,
            forall|m: int|
                0 <= m < k ==> (#[trigger] file_of@[m]) < files.len() && fv[file_of@[m] as int] == tv[m].rel_fname,
            forall|m: int| 0 <= m < k ==> (#[trigger] names@[m])@ == tv[m].name,
            forall|m: int| 0 <= m < k ==> #[trigger] kinds@[m] == tv[m].kind,
            forall|p: int|
                0 <= p < def_idx.len() ==> (#[trigger] def_idx@[p]) < k && tv[def_idx@[p] as int].kind == TagKind::Def,
            forall|m: int|
                0 <= m < k && #[trigger] tv[m].kind == TagKind::Def ==> exists|p: int|
                    0 <= p < def_idx.len() && def_idx@[p] == m,
        decreases tags.len() - k,
    {
        let f = chars_of(tags[k].rel_fname.as_str());
        proof {
            assert(fv.contains(tv[k as int].rel_fname));
        }
        let fi = index_of(&files, &f);
        file_of.push(fi);
        names.push(chars_of(tags[k].name.as_str()));
        let kind = tags[k].kind;
        kinds.push(kind);
        let ghost before = def_idx@;
        match kind {
            TagKind::Def => {
                def_idx.push(k);
            },
            TagKind::Ref => {},
        }
        proof {
            assert forall|m: int| 0 <= m < k + 1 && #[trigger] tv[m].kind == TagKind::Def implies exists|p: int|
                0 <= p < def_idx.len() && def_idx@[p] == m by {
                if m < k {
                    let p = choose|p: int| 0 <= p < before.len() && before[p] == m;
                    assert(def_idx@[p] == m);
                } else {
                    assert(def_idx@[before.len() as int] == m);
                }
            }
        }
        k = k + 1;
    }
    (file_of, names, kinds, def_idx)
}

/// The file dependency graph of a set of tags.
pub struct FileGraph {
    /// The files that have tags, ascending; file `i` is node `i`.
    pub files: Vec<String>,
    /// One node per file (weighted by its name) and one edge per link.
    pub graph: petgraph::graph::Graph<String, u64, petgraph::Directed, u32>,
}

/// Build the file dependency graph of `tags`.
///
/// The files are those that have a tag, ascending by name, each once; node
/// `i` is file `i`.  There is one edge from file `a` to a different file `b`
/// for each pair whose link weight (the number of reference tags in `a` whose
/// name `b` defines) is positive, carrying that weight; edges are added by
/// source index, then target index.  petgraph numbers nodes and edges with
/// `u32`, which bounds both counts.
pub fn build_file_graph(tags: &[Tag]) -> (g: FileGraph)
    requires
        file_list(tag_views(tags@)).len() <= u32::MAX,
        link_count(tag_views(tags@)) <= u32::MAX,
    ensures
        is_file_list(tag_views(tags@), string_views(g.files@)),
        string_views(g.files@) == file_list(tag_views(tags@)),
        graph_nodes(g.graph) == string_views(g.files@),
        is_edge_list(tag_views(tags@), string_views(g.files@), graph_edges(g.graph)),
        graph_edges(g.graph).len() == link_count(tag_views(tags@)),
{
    let ghost tv = tag_views(tags@);
    let files = sorted_files(tags);
    let ghost fv = char_views(files@);
    proof {
        lemma_is_the_file_list(tv, fv);
    }
    let (file_of, names, kinds, def_idx) = tables_of(tags, &files);
    let nf = files.len();
    let mut graph = new_graph();
    let mut names_out: Vec<String> = Vec::new();
    let mut i: usize = 0;
    while i < nf
        invariant
            i <= nf,
            nf == files.len(),
            fv == char_views(files@),
            fv == file_list(tv),
            fv.len() <= u32::MAX,
            names_out.len() == i,
            graph_nodes(graph) == string_views(names_out@),
            string_views(names_out@) == fv.take(i as int),
            graph_edges(graph).len() == 0,
        decreases nf - i,
    {
        let name = string_from_chars(&files[i]);
        let name2 = name.clone();
        let ghost before = names_out@;
        add_node(&mut graph, name);
        names_out.push(name2);
        proof {
            assert(string_views(names_out@) =~= string_views(before).push(fv[i as int]));
            assert(fv.take(i + 1) =~= fv.take(i as int).push(fv[i as int]));
        }
        i = i + 1;
    }
    proof {
        assert(fv.take(nf as int) =~= fv);
    }
    let mut i: usize = 0;
    while i < nf
        invariant
            i <= nf,
            nf == files.len(),
            tv == tag_views(tags@),
            fv == char_views(files@),
            fv == file_list(tv),
            graph_nodes(graph) == fv,
            string_views(names_out@) == fv,
            tag_tables(tv, fv, file_of@, names@, def_idx@),
            kinds@.len() == tv.len(),
            forall|m: int| 0 <= m < tv.len() ==> #[trigger] kinds@[m] == tv[m].kind,
            grid_links(tv, fv, nf as int) <= u32::MAX,
            is_edge_list_upto(tv, fv, graph_edges(graph), i as int, 0),
            graph_edges(graph).len() == grid_links(tv, fv, i as int),
        decreases nf - i,
    {
        let w = row_weights(Ghost(tv), &kinds, &files, &file_of, &names, &def_idx, i);
        let mut j: usize = 0;
        while j < nf
            invariant
                i < nf,
                j <= nf,
                nf == files.len(),
                fv == char_views(files@),
                graph_nodes(graph) == fv,
                w.len() == nf,
                forall|x: int| 0 <= x < nf ==> #[trigger] w@[x] == link_weight(tv, fv[i as int], fv[x]),
                grid_links(tv, fv, nf as int) <= u32::MAX,
                is_edge_list_upto(tv, fv, graph_edges(graph), i as int, j as int),
                graph_edges(graph).len() == grid_links(tv, fv, i as int) + row_links(tv, fv, i as int, j as int),
            decreases nf - j,
        {
            let ghost before = graph_edges(graph);
            if w[j] > 0 {
                proof {
                    lemma_row_links_monotone(tv, fv, i as int, j + 1, nf as int);
                    lemma_grid_links_monotone(tv, fv, i + 1, nf as int);
                }
                add_edge(&mut graph, i, j, w[j]);
                proof {
                    lemma_edge_list_step(tv, fv, before, i, j, w[j as int]);
                }
            } else {
                proof {
                    lemma_edge_list_skip(tv, fv, before, i as int, j as int);
                }
            }
            j = j + 1;
        }
        proof {
            lemma_edge_list_next_row(tv, fv, graph_edges(graph), i as int);
        }
        i = i + 1;
    }
    proof {
        lemma_edge_list_done(tv, fv, graph_edges(graph));
    }
    FileGraph { files: names_out, graph }
}

/// `edges` holds exactly the links that leave files before `i`, and those
/// from file `i` to files before `j`, in order.
pub open spec fn is_edge_list_upto(
    tags: Seq<TagView>,
    files: Seq<Seq<char>>,
    edges: Seq<(usize, usize, u64)>,
    i: int,
    j: int,
) -> bool {
    &&& forall|k: int|
        0 <= k < edges.len() ==> {
            &&& (#[trigger] edges[k]).0 < files.len()
            &&& edges[k].1 < files.len()
            &&& edges[k].2 > 0
            &&& edges[k].2 == link_weight(tags, files[edges[k].0 as int], files[edges[k].1 as int])
            &&& (edges[k].0 < i || (edges[k].0 == i && edges[k].1 < j))
        }
    &&& forall|k: int, l: int| 0 <= k < l < edges.len() ==> edge_before(#[trigger] edges[k], #[trigger] edges[l])
    &&& forall|a: int, b: int|
        0 <= a < files.len() && 0 <= b < files.len() && (a < i || (a == i && b < j)) && link_weight(
            tags,
            #[trigger] files[a],
            #[trigger] files[b],
        ) > 0 ==> exists|k: int| 0 <= k < edges.len() && edges[k].0 == a && #[trigger] edges[k].1 == b
}

proof fn lemma_edge_list_step(
    tags: Seq<TagView>,
    files: Seq<Seq<char>>,
    edges: Seq<(usize, usize, u64)>,
    i: usize,
    j: usize,
    w: u64,
)
    requires
        i < files.len(),
        j < files.len(),
        w > 0,
        w == link_weight(tags, files[i as int], files[j as int]),
        is_edge_list_upto(tags, files, edges, i as int, j as int),
    ensures
        is_edge_list_upto(tags, files, edges.push((i, j, w)), i as int, j + 1),
{
    let e = edges.push((i, j, w));
    assert forall|a: int, b: int|
        0 <= a < files.len() && 0 <= b < files.len() && (a < i || (a == i && b < j + 1)) && link_weight(
            tags,
            #[trigger] files[a],
            #[trigger] files[b],
        ) > 0 implies exists|k: int| 0 <= k < e.len() && e[k].0 == a && #[trigger] e[k].1 == b by {
        if a == i && b == j {
            assert(e[edges.len() as int].1 == b);
        } else {
            let k = choose|k: int| 0 <= k < edges.len() && edges[k].0 == a && #[trigger] edges[k].1 == b;
            assert(e[k].1 == b);
        }
    }
    assert forall|k: int, l: int| 0 <= k < l < e.len() implies edge_before(#[trigger] e[k], #[trigger] e[l]) by {
        if l < edges.len() {
            assert(edge_before(edges[k], edges[l]));
        } else {
            assert(edges[k] == e[k]);
        }
    }
}

proof fn lemma_edge_list_skip(
    tags: Seq<TagView>,
    files: Seq<Seq<char>>,
    edges: Seq<(usize, usize, u64)>,
    i: int,
    j: int,
)
    requires
        0 <= i < files.len(),
        0 <= j < files.len(),
        link_weight(tags, files[i], files[j]) == 0,
        is_edge_list_upto(tags, files, edges, i, j),
    ensures
        is_edge_list_upto(tags, files, edges, i, j + 1),
{
}

proof fn lemma_edge_list_next_row(
    tags: Seq<TagView>,
    files: Seq<Seq<char>>,
    edges: Seq<(usize, usize, u64)>,
    i: int,
)
    requires
        0 <= i < files.len(),
        is_edge_list_upto(tags, files, edges, i, files.len() as int),
    ensures
        is_edge_list_upto(tags, files, edges, i + 1, 0),
{
}

proof fn lemma_edge_list_done(tags: Seq<TagView>, files: Seq<Seq<char>>, edges: Seq<(usize, usize, u64)>)
    requires
        is_edge_list_upto(tags, files, edges, files.len() as int, 0),
    ensures
        is_edge_list(tags, files, edges),
{
}

/// With one tag added that is neither a definition nor (by its name) a
/// reference to another file, every file defines the same names.
proof fn lemma_push_ref_defines(tags: Seq<TagView>, t: TagView)
    requires
        t.kind == TagKind::Ref,
    ensures
        forall|g: Seq<char>, n: Seq<char>| #[trigger] defines(tags.push(t), g, n) == defines(tags, g, n),
{
    let t2 = tags.push(t);
    assert forall|g: Seq<char>, n: Seq<char>| #[trigger] defines(t2, g, n) == defines(tags, g, n) by {
        if defines(t2, g, n) {
            let k = choose|k: int|
                0 <= k < t2.len() && #[trigger] t2[k].kind == TagKind::Def && t2[k].rel_fname == g && t2[k].name == n;
            assert(k < tags.len());
            assert(tags[k] == t2[k]);
        }
        if defines(tags, g, n) {
            let k = choose|k: int|
                0 <= k < tags.len() && #[trigger] tags[k].kind == TagKind::Def && tags[k].rel_fname == g && tags[k].name == n;
            assert(t2[k] == tags[k]);
        }
    }
}

proof fn lemma_push_ref_shared(tags: Seq<TagView>, t: TagView, n: int, from: Seq<char>, to: Seq<char>)
    requires
        t.kind == TagKind::Ref,
        0 <= n <= tags.len(),
    ensures
        shared_refs(tags.push(t), n, from, to) == shared_refs(tags, n, from, to),
    decreases n,
{
    if n > 0 {
        lemma_push_ref_shared(tags, t, n - 1, from, to);
        lemma_push_ref_defines(tags, t);
        assert(tags.push(t)[n - 1] == tags[n - 1]);
        assert(defines(tags.push(t), to, tags[n - 1].name) == defines(tags, to, tags[n - 1].name));
    }
}

/// A reference from a file to a name that no other file defines changes
/// nothing: the file list, every link weight and so the edge list stay as
/// they were (a file never links to itself).
pub proof fn lemma_unmatched_ref_adds_nothing(tags: Seq<TagView>, t: TagView)
    requires
        t.kind == TagKind::Ref,
        has_file(tags, t.rel_fname),
        forall|g: Seq<char>| g != t.rel_fname ==> !#[trigger] defines(tags, g, t.name),
    ensures
        forall|from: Seq<char>, to: Seq<char>|
            #[trigger] link_weight(tags.push(t), from, to) == link_weight(tags, from, to),
        forall|s: Seq<Seq<char>>| #[trigger] is_file_list(tags.push(t), s) == is_file_list(tags, s),
        forall|s: Seq<Seq<char>>, e: Seq<(usize, usize, u64)>|
            #[trigger] is_edge_list(tags.push(t), s, e) == is_edge_list(tags, s, e),
{
    let t2 = tags.push(t);
    let n = tags.len() as int;
    lemma_push_ref_defines(tags, t);
    assert forall|from: Seq<char>, to: Seq<char>|
        #[trigger] link_weight(t2, from, to) == link_weight(tags, from, to) by {
        if from != to {
            lemma_push_ref_shared(tags, t, n, from, to);
            assert(t2[n] == t);
            if t.rel_fname == from {
                assert(!defines(tags, to, t.name));
            }
            assert(shared_refs(t2, n + 1, from, to) == shared_refs(t2, n, from, to));
        }
    }
    let k0 = choose|k: int| 0 <= k < tags.len() && #[trigger] tags[k].rel_fname == t.rel_fname;
    assert forall|f: Seq<char>| #[trigger] has_file(t2, f) == has_file(tags, f) by {
        if has_file(t2, f) {
            let k = choose|k: int| 0 <= k < t2.len() && #[trigger] t2[k].rel_fname == f;
            if k == n {
                assert(tags[k0].rel_fname == f);
            } else {
                assert(tags[k] == t2[k]);
            }
        }
        if has_file(tags, f) {
            let k = choose|k: int| 0 <= k < tags.len() && #[trigger] tags[k].rel_fname == f;
            assert(t2[k] == tags[k]);
        }
    }
    assert forall|s: Seq<Seq<char>>| #[trigger] is_file_list(t2, s) == is_file_list(tags, s) by {
        if is_file_list(tags, s) {
            assert forall|k: int| 0 <= k < t2.len() implies s.contains(#[trigger] t2[k].rel_fname) by {
                if k == n {
                    assert(s.contains(tags[k0].rel_fname));
                } else {
                    assert(t2[k] == tags[k]);
                }
            }
        }
        if is_file_list(t2, s) {
            assert forall|k: int| 0 <= k < tags.len() implies s.contains(#[trigger] tags[k].rel_fname) by {
                assert(t2[k] == tags[k]);
            }
        }
    }
}


/// The graph is a function of the tags alone: for the same tags, any two
/// file lists are equal, and so are any two edge lists over them.  (This is
/// what makes the ranking byte-stable for a fixed input.)
pub proof fn lemma_graph_deterministic(
    tags: Seq<TagView>,
    files1: Seq<Seq<char>>,
    edges1: Seq<(usize, usize, u64)>,
    files2: Seq<Seq<char>>,
    edges2: Seq<(usize, usize, u64)>,
)
    requires
        is_file_list(tags, files1),
        is_edge_list(tags, files1, edges1),
        is_file_list(tags, files2),
        is_edge_list(tags, files2, edges2),
    ensures
        files1 == files2,
        edges1 == edges2,
{
    lemma_file_list_unique(tags, files1, files2);
    let lt = |x: (usize, usize, u64), y: (usize, usize, u64)| edge_before(x, y);
    assert forall|x: (usize, usize, u64)| edges1.contains(x) <==> edges2.contains(x) by {
        if edges1.contains(x) {
            let k = choose|k: int| 0 <= k < edges1.len() && edges1[k] == x;
            assert(link_weight(tags, files1[edges1[k].0 as int], files1[edges1[k].1 as int]) > 0);
            let l = choose|l: int| 0 <= l < edges2.len() && edges2[l].0 == x.0 && #[trigger] edges2[l].1 == x.1;
            assert(edges2[l] == x);
        }
        if edges2.contains(x) {
            let k = choose|k: int| 0 <= k < edges2.len() && edges2[k] == x;
            assert(link_weight(tags, files2[edges2[k].0 as int], files2[edges2[k].1 as int]) > 0);
            let l = choose|l: int| 0 <= l < edges1.len() && edges1[l].0 == x.0 && #[trigger] edges1[l].1 == x.1;
            assert(edges1[l] == x);
        }
    }
    assert(sorted_by(edges1, lt));
    assert(sorted_by(edges2, lt));
    lemma_sorted_unique(edges1, edges2, lt);
}

/// `Graph::edge_count`.
#[verifier::external_body]
fn edge_count(g: &petgraph::graph::Graph<String, u64, petgraph::Directed, u32>) -> (n: usize)
    ensures
        n == graph_edges(*g).len(),
{
    g.edge_count()
}

/// The `k`-th edge of a graph (`Graph::raw_edges()[k]`) as (source index,
/// target index, weight).
#[verifier::external_body]
fn edge_at(g: &petgraph::graph::Graph<String, u64, petgraph::Directed, u32>, k: usize) -> (e: (usize, usize, u64))
    requires
        k < graph_edges(*g).len(),
    ensures
        e == graph_edges(*g)[k as int],
{
    let edge = &g.raw_edges()[k];
    (edge.source().index(), edge.target().index(), edge.weight)
}

/// The total weight of the edges among the first `n` that leave node `i`.
pub open spec fn out_weight(edges: Seq<(usize, usize, u64)>, i: int, n: int) -> int
    decreases n,
{
    if n <= 0 {
        0
    } else {
        out_weight(edges, i, n - 1) + if edges[n - 1].0 == i {
            edges[n - 1].2 as int
        } else {
            0
        }
    }
}

/// For each file, the total weight of the links that leave it (0 for a file
/// that links nowhere: the ranking spreads its score evenly instead).
pub fn out_weights(fg: &FileGraph) -> (r: Vec<u128>)
    requires
        forall|k: int| 0 <= k < graph_edges(fg.graph).len() ==> (#[trigger] graph_edges(fg.graph)[k]).0 < fg.files.len(),
        graph_edges(fg.graph).len() <= u32::MAX,
    ensures
        r.len() == fg.files.len(),
        forall|i: int| 0 <= i < r.len() ==> #[trigger] r@[i] == out_weight(graph_edges(fg.graph), i, graph_edges(fg.graph).len() as int),
{
    let ghost edges = graph_edges(fg.graph);
    let nf = fg.files.len();
    let mut r: Vec<u128> = Vec::new();
    while r.len() < nf
        invariant
            r.len() <= nf,
            forall|i: int| 0 <= i < r.len() ==> #[trigger] r@[i] == 0,
        decreases nf - r.len(),
    {
        r.push(0);
    }
    let ne = edge_count(&fg.graph);
    let mut k: usize = 0;
    while k < ne
        invariant
            k <= ne,
            ne == edges.len(),
            edges == graph_edges(fg.graph),
            r.len() == nf,
            nf == fg.files.len(),
            ne <= u32::MAX,
            forall|j: int| 0 <= j < edges.len() ==> (#[trigger] edges[j]).0 < nf,
            forall|i: int| 0 <= i < nf ==> #[trigger] r@[i] == out_weight(edges, i, k as int),
            forall|i: int| 0 <= i < nf ==> #[trigger] r@[i] <= k * 0x1_0000_0000_0000_0000,
        decreases ne - k,
    {
        let e = edge_at(&fg.graph, k);
        proof {
            assert(edges[k as int] == e);
            assert(k * 0x1_0000_0000_0000_0000 + 0x1_0000_0000_0000_0000 <= 0x1_0000_0000 * 0x1_0000_0000_0000_0000) by (nonlinear_arith)
                requires k < 0x1_0000_0000;
        }
        let w = r[e.0] + e.2 as u128;
        r.set(e.0, w);
        proof {
            assert forall|i: int| 0 <= i < nf implies #[trigger] r@[i] <= (k + 1) * 0x1_0000_0000_0000_0000 by {
                assert((k + 1) * 0x1_0000_0000_0000_0000 == k * 0x1_0000_0000_0000_0000 + 0x1_0000_0000_0000_0000) by (nonlinear_arith);
            }
        }
        k = k + 1;
    }
    r
}

/// Whether the graph of `tags` fits petgraph's `u32` numbering: at most
/// `u32::MAX` files and at most `u32::MAX` links (what `build_file_graph`
/// requires).
pub fn graph_fits(tags: &[Tag]) -> (r: bool)
    ensures
        r == (file_list(tag_views(tags@)).len() <= u32::MAX && link_count(tag_views(tags@)) <= u32::MAX),
{
    let ghost tv = tag_views(tags@);
    let files = sorted_files(tags);
    let ghost fv = char_views(files@);
    proof {
        lemma_is_the_file_list(tv, fv);
    }
    let nf = files.len();
    if nf as u64 > u32::MAX as u64 {
        return false;
    }
    let (file_of, names, kinds, def_idx) = tables_of(tags, &files);
    let mut count: u64 = 0;
    let mut i: usize = 0;
    while i < nf
        invariant
            i <= nf,
            nf == files.len(),
            tv == tag_views(tags@),
            fv == char_views(files@),
            fv == file_list(tv),
            tag_tables(tv, fv, file_of@, names@, def_idx@),
            kinds@.len() == tv.len(),
            forall|m: int| 0 <= m < tv.len() ==> #[trigger] kinds@[m] == tv[m].kind,
            count == grid_links(tv, fv, i as int),
            count <= u32::MAX,
        decreases nf - i,
    {
        let w = row_weights(Ghost(tv), &kinds, &files, &file_of, &names, &def_idx, i);
        let mut j: usize = 0;
        while j < nf
            invariant
                i < nf,
                j <= nf,
                nf == files.len(),
                fv == char_views(files@),
                w.len() == nf,
                forall|x: int| 0 <= x < nf ==> #[trigger] w@[x] == link_weight(tv, fv[i as int], fv[x]),
                count == grid_links(tv, fv, i as int) + row_links(tv, fv, i as int, j as int),
                count <= u32::MAX,
                fv == file_list(tv),
                tv == tag_views(tags@),
            decreases nf - j,
        {
            if w[j] > 0 {
                count = count + 1;
                if count > u32::MAX as u64 {
                    proof {
                        assert(row_links(tv, fv, i as int, j + 1) == row_links(tv, fv, i as int, j as int) + 1);
                        lemma_row_links_monotone(tv, fv, i as int, j + 1, nf as int);
                        assert(grid_links(tv, fv, i + 1) == grid_links(tv, fv, i as int) + row_links(tv, fv, i as int, nf as int));
                        lemma_grid_links_monotone(tv, fv, i + 1, nf as int);
                        assert(link_count(tv) == grid_links(tv, fv, nf as int));
                    }
                    return false;
                }
            }
            j = j + 1;
        }
        assert(grid_links(tv, fv, i + 1) == grid_links(tv, fv, i as int) + row_links(tv, fv, i as int, nf as int));
        i = i + 1;
    }
    assert(link_count(tv) == grid_links(tv, fv, nf as int));
    true
}

} // verus!
