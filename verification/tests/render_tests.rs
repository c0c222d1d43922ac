use bts_map::render::{count_tokens, render};
use bts_map::tags::{extract_tags, Lang, Tag, TagKind};

const RUST_FIXTURE: &str = r#"
fn greet(name: &str) -> String {
    format!("Hello, {}!", name)
}

struct Greeter {
    prefix: String,
}

impl Greeter {
    fn new(prefix: &str) -> Self {
        Greeter { prefix: prefix.to_string() }
    }
    fn greet(&self, name: &str) -> String {
        format!("{} {}!", self.prefix, name)
    }
}

fn main() {
    let g = Greeter::new("Hello");
    println!("{}", g.greet("world"));
    greet("raw");
}
"#;

fn tag(file: &str, name: &str, line: usize, kind: TagKind) -> Tag {
    Tag {
        rel_fname: file.to_string(),
        name: name.to_string(),
        line,
        kind,
        node_kind: "identifier".to_string(),
    }
}

/// Budget test: rendered output must never exceed the requested budget.
#[test]
fn budget() {
    let tags_a = extract_tags("src/a.rs", RUST_FIXTURE, Lang::Rust).unwrap();
    let tags_b = extract_tags("src/b.rs", RUST_FIXTURE, Lang::Rust).unwrap();
    let mut all_tags = tags_a;
    all_tags.extend(tags_b);

    // The two files are identical, so the ranking ties and orders them by name.
    let ranked = vec!["src/a.rs".to_string(), "src/b.rs".to_string()];

    for &budget in &[50, 100, 200, 512, 1024] {
        let output = render(&ranked, &all_tags, budget);
        let actual_tokens = count_tokens(&output);
        assert!(
            actual_tokens <= budget,
            "budget={}: rendered output has {} tokens, exceeds budget",
            budget,
            actual_tokens
        );
    }
}

#[test]
fn block_format() {
    let tags = vec![
        tag("a.rs", "zed", 4, TagKind::Def),
        tag("a.rs", "foo", 0, TagKind::Def),
        tag("a.rs", "call", 2, TagKind::Ref),
        tag("a.rs", "beta", 5, TagKind::Def),
        tag("a.rs", "alpha", 4, TagKind::Def),
        tag("b.rs", "other", 1, TagKind::Def),
    ];
    let out = render(&["a.rs".to_string()], &tags, 1000);
    assert_eq!(out, "a.rs\n    1: foo\n    ...\n    5: alpha\n    6: beta\n");
}

#[test]
fn files_without_definitions_are_skipped() {
    let tags = vec![
        tag("a.rs", "call", 2, TagKind::Ref),
        tag("b.rs", "x", 9, TagKind::Def),
    ];
    let ranked = vec!["a.rs".to_string(), "missing.rs".to_string(), "b.rs".to_string()];
    let out = render(&ranked, &tags, 1000);
    assert_eq!(out, "b.rs\n    10: x\n");
}

#[test]
fn first_block_over_budget_is_not_taken() {
    let tags = vec![
        tag("a.rs", "first", 0, TagKind::Def),
        tag("b.rs", "second", 0, TagKind::Def),
    ];
    let ranked = vec!["a.rs".to_string(), "b.rs".to_string()];
    assert_eq!(render(&ranked, &tags, 0), "");
    let a = count_tokens("a.rs\n    1: first\n");
    assert_eq!(render(&ranked, &tags, a - 1), "");
    assert_eq!(render(&ranked, &tags, a), "a.rs\n    1: first\n");
    let both = render(&ranked, &tags, 10_000);
    assert_eq!(both, "a.rs\n    1: first\nb.rs\n    1: second\n");
}

#[test]
fn rank_order_is_kept() {
    let tags = vec![
        tag("a.rs", "first", 0, TagKind::Def),
        tag("b.rs", "second", 0, TagKind::Def),
    ];
    let ranked = vec!["b.rs".to_string(), "a.rs".to_string()];
    assert_eq!(render(&ranked, &tags, 10_000), "b.rs\n    1: second\na.rs\n    1: first\n");
}

#[test]
fn greedy_stops_at_the_first_block_that_does_not_fit() {
    let tags = vec![
        tag("a.rs", "first", 0, TagKind::Def),
        tag("b.rs", "second", 0, TagKind::Def),
        tag("c.rs", "third", 0, TagKind::Def),
    ];
    let ranked = vec!["a.rs".to_string(), "b.rs".to_string(), "c.rs".to_string()];
    let a = count_tokens("a.rs\n    1: first\n");
    let b = count_tokens("b.rs\n    1: second\n");
    // Room for the first two blocks but not the third.
    let out = render(&ranked, &tags, a + b);
    assert_eq!(out, "a.rs\n    1: first\nb.rs\n    1: second\n");
    // One token short of the second block: only the first is taken.
    let out = render(&ranked, &tags, a + b - 1);
    assert_eq!(out, "a.rs\n    1: first\n");
}

#[test]
fn token_counts() {
    assert_eq!(count_tokens(""), 0);
    assert_eq!(count_tokens("hello world"), 2);
    assert!(count_tokens(" ") >= 1);
    assert!(count_tokens("\n") >= 1);
}

#[test]
fn render_is_deterministic() {
    let tags_a = extract_tags("src/a.rs", RUST_FIXTURE, Lang::Rust).unwrap();
    let ranked = vec!["src/a.rs".to_string()];
    let one = render(&ranked, &tags_a, 1024);
    let two = render(&ranked, &tags_a, 1024);
    assert_eq!(one, two);
    assert!(one.starts_with("src/a.rs\n    2: greet\n"));
}

#[test]
fn larger_budget_only_appends_blocks() {
    let tags_a = extract_tags("src/a.rs", RUST_FIXTURE, Lang::Rust).unwrap();
    let tags_b = extract_tags("src/b.rs", RUST_FIXTURE, Lang::Rust).unwrap();
    let mut all_tags = tags_a;
    all_tags.extend(tags_b);
    let ranked = vec!["src/a.rs".to_string(), "src/b.rs".to_string()];
    let budgets = [0usize, 10, 30, 50, 100, 1024];
    for w in budgets.windows(2) {
        let small = render(&ranked, &all_tags, w[0]);
        let large = render(&ranked, &all_tags, w[1]);
        assert!(large.starts_with(&small), "budget {} not a prefix of budget {}", w[0], w[1]);
    }
    let one_block = render(&ranked, &all_tags, 0);
    let both = render(&ranked, &all_tags, 1024);
    assert!(both.len() > one_block.len());
}

#[test]
fn tag_order_does_not_matter() {
    let tags_a = extract_tags("src/a.rs", RUST_FIXTURE, Lang::Rust).unwrap();
    let tags_b = extract_tags("src/b.rs", RUST_FIXTURE, Lang::Rust).unwrap();
    let mut all_tags = tags_a;
    all_tags.extend(tags_b);
    let mut reversed = all_tags.clone();
    reversed.reverse();
    let ranked = vec!["src/b.rs".to_string(), "src/a.rs".to_string()];
    for &budget in &[0usize, 50, 1024] {
        assert_eq!(render(&ranked, &all_tags, budget), render(&ranked, &reversed, budget));
    }
    let same_line = vec![
        tag("f.rs", "zeta", 3, TagKind::Def),
        tag("f.rs", "alpha", 3, TagKind::Def),
        tag("f.rs", "mid", 1, TagKind::Def),
    ];
    let mut swapped = same_line.clone();
    swapped.swap(0, 2);
    let ranked = vec!["f.rs".to_string()];
    let out = render(&ranked, &same_line, 1024);
    assert_eq!(out, "f.rs\n    2: mid\n    ...\n    4: alpha\n");
    assert_eq!(out, render(&ranked, &swapped, 1024));
}
