use bts_map::graph::{build_file_graph, graph_fits, out_weights, FileGraph};
use bts_map::tags::{extract_tags, Lang, Tag, TagKind};

const RUST_FIXTURE: &str = r#"
fn greet(name: &str) -> String {
    format!("Hello, {}!", name)
}

struct Greeter {
    prefix: String,
}

impl Greeter {
    fn new(prefix: &str) -> Self {
        Greeter { prefix: prefix.to_string() }
    }
    fn greet(&self, name: &str) -> String {
        format!("{} {}!", self.prefix, name)
    }
}

fn main() {
    let g = Greeter::new("Hello");
    println!("{}", g.greet("world"));
    greet("raw");
}
"#;

fn tag(file: &str, name: &str, line: usize, kind: TagKind) -> Tag {
    Tag {
        rel_fname: file.to_string(),
        name: name.to_string(),
        line,
        kind,
        node_kind: "identifier".to_string(),
    }
}

fn edges(g: &FileGraph) -> Vec<(usize, usize, u64)> {
    g.graph
        .raw_edges()
        .iter()
        .map(|e| (e.source().index(), e.target().index(), e.weight))
        .collect()
}

fn sample_tags() -> Vec<Tag> {
    vec![
        tag("src/c.rs", "baz", 0, TagKind::Def),
        tag("src/a.rs", "foo", 0, TagKind::Def),
        tag("src/a.rs", "bar", 1, TagKind::Ref),
        tag("src/b.rs", "bar", 0, TagKind::Def),
        tag("src/a.rs", "bar", 2, TagKind::Ref),
        tag("src/b.rs", "bar", 5, TagKind::Def),
        tag("src/a.rs", "baz", 3, TagKind::Ref),
        tag("src/b.rs", "foo", 1, TagKind::Ref),
        tag("src/c.rs", "qux", 1, TagKind::Ref),
        tag("src/a.rs", "foo", 7, TagKind::Ref),
    ]
}

#[test]
fn files_are_sorted_and_unique() {
    let g = build_file_graph(&sample_tags());
    assert_eq!(g.files, vec!["src/a.rs", "src/b.rs", "src/c.rs"]);
    assert_eq!(g.graph.node_count(), 3);
    let weights: Vec<&String> = g.graph.node_indices().map(|i| &g.graph[i]).collect();
    assert_eq!(weights, vec!["src/a.rs", "src/b.rs", "src/c.rs"]);
}

#[test]
fn edges_point_from_reference_to_definition() {
    let g = build_file_graph(&sample_tags());
    // a refs bar twice (b defines bar twice: counted once per ref) and baz
    // once (c); b refs foo (a); a's own foo ref is not a link; c's qux is
    // defined nowhere.
    assert_eq!(edges(&g), vec![(0, 1, 2), (0, 2, 1), (1, 0, 1)]);
}

#[test]
fn out_weights_sum_outgoing_links() {
    let g = build_file_graph(&sample_tags());
    assert_eq!(out_weights(&g), vec![3, 1, 0]);
}

#[test]
fn empty_tags_give_empty_graph() {
    let g = build_file_graph(&[]);
    assert!(g.files.is_empty());
    assert_eq!(g.graph.node_count(), 0);
    assert_eq!(g.graph.edge_count(), 0);
}

#[test]
fn graph_is_deterministic() {
    let tags_a = extract_tags("src/a.rs", RUST_FIXTURE, Lang::Rust).unwrap();
    let tags_b = extract_tags("src/b.rs", RUST_FIXTURE, Lang::Rust).unwrap();
    let mut all_tags = tags_a;
    all_tags.extend(tags_b);

    let run1 = build_file_graph(&all_tags);
    let run2 = build_file_graph(&all_tags);
    assert_eq!(run1.files, run2.files);
    assert_eq!(edges(&run1), edges(&run2));
    assert_eq!(run1.files, vec!["src/a.rs", "src/b.rs"]);
    let e = edges(&run1);
    assert_eq!(e.len(), 2);
    assert_eq!((e[0].0, e[0].1), (0, 1));
    assert_eq!((e[1].0, e[1].1), (1, 0));
    assert_eq!(e[0].2, e[1].2);
    assert!(e[0].2 > 0);
}

#[test]
fn small_graphs_fit() {
    assert!(graph_fits(&sample_tags()));
    assert!(graph_fits(&[]));
}

#[test]
fn reference_to_own_definition_adds_nothing() {
    let tags = vec![
        tag("a.rs", "helper", 1, TagKind::Def),
        tag("b.rs", "main", 1, TagKind::Def),
        tag("b.rs", "helper", 3, TagKind::Ref),
    ];
    let mut more = tags.clone();
    more.push(tag("b.rs", "main", 5, TagKind::Ref));
    let g1 = build_file_graph(&tags);
    let g2 = build_file_graph(&more);
    assert_eq!(g1.files, g2.files);
    assert_eq!(edges(&g1), edges(&g2));
    assert_eq!(edges(&g1), vec![(1, 0, 1)]);
}
