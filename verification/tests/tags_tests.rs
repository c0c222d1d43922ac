use bts_map::grammar::RawCapture;
use bts_map::tags::{capture_kind, extract_tags, language_for, scm_for, tags_from_captures, Lang, TagKind};

/// Fixture: a simple Rust file with both definitions and call-site references.
const RUST_FIXTURE: &str = r#"
fn greet(name: &str) -> String {
    format!("Hello, {}!", name)
}

struct Greeter {
    prefix: String,
}

impl Greeter {
    fn new(prefix: &str) -> Self {
        Greeter { prefix: prefix.to_string() }
    }
    fn greet(&self, name: &str) -> String {
        format!("{} {}!", self.prefix, name)
    }
}

fn main() {
    let g = Greeter::new("Hello");
    println!("{}", g.greet("world"));
    greet("raw");
}
"#;

#[test]
fn rust_tags() {
    let tags = extract_tags("src/lib.rs", RUST_FIXTURE, Lang::Rust)
        .expect("extract_tags should not fail with the pinned grammars");

    let defs: Vec<_> = tags.iter().filter(|t| t.kind == TagKind::Def).collect();
    let refs: Vec<_> = tags.iter().filter(|t| t.kind == TagKind::Ref).collect();

    assert!(
        !defs.is_empty(),
        "Expected >0 definition tags; got 0. Check .scm vendoring or grammar pin."
    );
    assert!(
        !refs.is_empty(),
        "Expected >0 reference tags; got 0. Check .scm vendoring or grammar pin."
    );

    let method_defs: Vec<_> = tags
        .iter()
        .filter(|t| {
            t.kind == TagKind::Def && (t.name == "greet" || t.name == "new" || t.name == "main")
        })
        .collect();

    assert!(
        !method_defs.is_empty(),
        "Expected method/function defs (greet, new, main) in fixture — none found."
    );

    for def in &method_defs {
        assert_eq!(
            def.node_kind, "identifier",
            "Method/function def '{}' at line {} has node_kind='{}', expected 'identifier'.",
            def.name, def.line, def.node_kind
        );
    }
}

fn assert_defs_and_refs(rel_fname: &str, source: &str, lang: Lang) {
    let tags = extract_tags(rel_fname, source, lang)
        .unwrap_or_else(|e| panic!("{} extract_tags failed: {}", lang.name(), e.message()));
    let defs = tags.iter().filter(|t| t.kind == TagKind::Def).count();
    let refs = tags.iter().filter(|t| t.kind == TagKind::Ref).count();
    assert!(
        defs > 0,
        "{}: expected >0 defs, got 0. Check .scm or grammar pin.",
        lang.name()
    );
    assert!(
        refs > 0,
        "{}: expected >0 refs, got 0. Check .scm or grammar pin.",
        lang.name()
    );
}

#[test]
fn python_tags() {
    assert_defs_and_refs(
        "src/greeter.py",
        r#"
class Greeter:
    def greet(self, name):
        return f"Hello, {name}!"

def main():
    g = Greeter()
    result = g.greet("world")
    print(result)
"#,
        Lang::Python,
    );
}

#[test]
fn typescript_tags() {
    assert_defs_and_refs(
        "src/greeter.ts",
        r#"
interface Greeter {
    greet(name: string): string;
}

class SimpleGreeter implements Greeter {
    greet(name: string): string {
        return `Hello, ${name}!`;
    }
}

function main(): void {
    const g = new SimpleGreeter();
    const msg = g.greet("world");
    console.log(msg);
}
"#,
        Lang::TypeScript,
    );
}

#[test]
fn javascript_tags() {
    assert_defs_and_refs(
        "src/greeter.js",
        r#"
class Greeter {
    greet(name) {
        return `Hello, ${name}!`;
    }
}

function main() {
    const g = new Greeter();
    console.log(g.greet("world"));
    main();
}
"#,
        Lang::JavaScript,
    );
}

#[test]
fn go_tags() {
    assert_defs_and_refs(
        "src/greeter.go",
        r#"
package main

import "fmt"

type Greeter struct{}

func (g Greeter) Greet(name string) string {
    return fmt.Sprintf("Hello, %s!", name)
}

func main() {
    g := Greeter{}
    fmt.Println(g.Greet("world"))
}
"#,
        Lang::Go,
    );
}

#[test]
fn java_tags() {
    assert_defs_and_refs(
        "src/Greeter.java",
        r#"
public class Greeter {
    public String greet(String name) {
        return "Hello, " + name + "!";
    }

    public static void main(String[] args) {
        Greeter g = new Greeter();
        System.out.println(g.greet("world"));
    }
}
"#,
        Lang::Java,
    );
}

#[test]
fn ruby_tags() {
    assert_defs_and_refs(
        "src/greeter.rb",
        r#"
class Greeter
  def greet(name)
    "Hello, #{name}!"
  end
end

def main
  g = Greeter.new
  g.greet("world")
end
"#,
        Lang::Ruby,
    );
}

#[test]
fn c_tags() {
    assert_defs_and_refs(
        "src/greeter.c",
        r#"
#include <stdio.h>

struct Point {
    int x;
    int y;
};

int add(int a, int b) {
    return a + b;
}

int main(void) {
    int result = add(1, 2);
    printf("result: %d\n", result);
    return 0;
}
"#,
        Lang::C,
    );
}

#[test]
fn cpp_tags() {
    assert_defs_and_refs(
        "src/greeter.cpp",
        r#"
#include <cstdio>

int add(int a, int b) {
    return a + b;
}

class Greeter {
public:
    void greet() {}
};

int main() {
    int result = add(1, 2);
    printf("result: %d\n", result);
    return 0;
}
"#,
        Lang::Cpp,
    );
}

#[test]
fn swift_tags() {
    assert_defs_and_refs(
        "src/Greeter.swift",
        r#"
class Greeter {
    func greet(name: String) -> String {
        return "Hello, \(name)!"
    }
}

func main() {
    let g = Greeter()
    print(g.greet(name: "world"))
}
"#,
        Lang::Swift,
    );
}

#[test]
fn tsx_tags() {
    assert_defs_and_refs(
        "src/view.tsx",
        r#"
interface Props {
    title: string;
}

function View(props: Props) {
    const w = new Widget();
    return <div>{props.title}</div>;
}
"#,
        Lang::TypeScriptX,
    );
}

#[test]
fn rust_tags_carry_file_and_lines() {
    let tags = extract_tags("src/lib.rs", RUST_FIXTURE, Lang::Rust).unwrap();
    assert!(tags.iter().all(|t| t.rel_fname == "src/lib.rs"));
    // `fn greet` is on the second line of the fixture (0-based line 1).
    assert!(tags
        .iter()
        .any(|t| t.kind == TagKind::Def && t.name == "greet" && t.line == 1));
    // `greet("raw")` is a call on 0-based line 21.
    assert!(tags
        .iter()
        .any(|t| t.kind == TagKind::Ref && t.name == "greet" && t.line == 21));
    // `struct Greeter` is a definition.
    assert!(tags
        .iter()
        .any(|t| t.kind == TagKind::Def && t.name == "Greeter" && t.line == 5));
}

#[test]
fn from_ext_maps_extensions() {
    assert_eq!(Lang::from_ext("src/bar.rs"), Some(Lang::Rust));
    assert_eq!(Lang::from_ext("foo.c"), Some(Lang::C));
    assert_eq!(Lang::from_ext("foo.h"), Some(Lang::C));
    assert_eq!(Lang::from_ext("a/b/c.py"), Some(Lang::Python));
    assert_eq!(Lang::from_ext("x.ts"), Some(Lang::TypeScript));
    assert_eq!(Lang::from_ext("x.tsx"), Some(Lang::TypeScriptX));
    assert_eq!(Lang::from_ext("x.js"), Some(Lang::JavaScript));
    assert_eq!(Lang::from_ext("x.mjs"), Some(Lang::JavaScript));
    assert_eq!(Lang::from_ext("x.cjs"), Some(Lang::JavaScript));
    assert_eq!(Lang::from_ext("main.go"), Some(Lang::Go));
    assert_eq!(Lang::from_ext("Main.java"), Some(Lang::Java));
    assert_eq!(Lang::from_ext("app.rb"), Some(Lang::Ruby));
    assert_eq!(Lang::from_ext("a.cpp"), Some(Lang::Cpp));
    assert_eq!(Lang::from_ext("a.cc"), Some(Lang::Cpp));
    assert_eq!(Lang::from_ext("a.cxx"), Some(Lang::Cpp));
    assert_eq!(Lang::from_ext("a.hpp"), Some(Lang::Cpp));
    assert_eq!(Lang::from_ext("a.hxx"), Some(Lang::Cpp));
    assert_eq!(Lang::from_ext("G.swift"), Some(Lang::Swift));
}

#[test]
fn from_ext_rejects_unsupported() {
    assert_eq!(Lang::from_ext("Makefile"), None);
    assert_eq!(Lang::from_ext("README.md"), None);
    assert_eq!(Lang::from_ext(".rs"), None);
    assert_eq!(Lang::from_ext("archive.tar.gz"), None);
    assert_eq!(Lang::from_ext("a.RS"), None);
    assert_eq!(Lang::from_ext(""), None);
}

#[test]
fn lang_names() {
    assert_eq!(Lang::Rust.name(), "Rust");
    assert_eq!(Lang::Cpp.name(), "C++");
    assert_eq!(Lang::TypeScriptX.name(), "TypeScriptX");
    assert_eq!(Lang::Swift.name(), "Swift");
}

#[test]
fn ts_and_tsx_share_a_query() {
    assert_eq!(scm_for(Lang::TypeScript), scm_for(Lang::TypeScriptX));
    assert_ne!(scm_for(Lang::Rust), scm_for(Lang::Python));
    assert!(scm_for(Lang::Rust).contains("@name.definition.function"));
}

#[test]
fn capture_names_route_to_kinds() {
    assert_eq!(capture_kind("name.definition.function"), Some(TagKind::Def));
    assert_eq!(capture_kind("name.reference.call"), Some(TagKind::Ref));
    assert_eq!(capture_kind("definition.function"), None);
    assert_eq!(capture_kind("reference.call"), None);
    assert_eq!(capture_kind("name"), None);
    assert_eq!(capture_kind("name.definition"), None);
}

#[test]
fn captures_become_tags() {
    let caps = vec![
        RawCapture {
            capture_name: "definition.function".to_string(),
            row: 0,
            text: Some("fn f() {}".to_string()),
            node_kind: "function_item".to_string(),
        },
        RawCapture {
            capture_name: "name.definition.function".to_string(),
            row: 0,
            text: Some("f".to_string()),
            node_kind: "identifier".to_string(),
        },
        RawCapture {
            capture_name: "name.reference.call".to_string(),
            row: 3,
            text: None,
            node_kind: "identifier".to_string(),
        },
    ];
    let tags = tags_from_captures("src/x.rs", &caps);
    assert_eq!(tags.len(), 2);
    assert_eq!(tags[0].rel_fname, "src/x.rs");
    assert_eq!(tags[0].name, "f");
    assert_eq!(tags[0].line, 0);
    assert_eq!(tags[0].kind, TagKind::Def);
    assert_eq!(tags[0].node_kind, "identifier");
    assert_eq!(tags[1].name, "");
    assert_eq!(tags[1].line, 3);
    assert_eq!(tags[1].kind, TagKind::Ref);
}

#[test]
fn each_language_has_its_own_grammar() {
    assert!(language_for(Lang::TypeScript) != language_for(Lang::TypeScriptX));
    assert!(language_for(Lang::Rust) == language_for(Lang::Rust));
    assert!(language_for(Lang::C) != language_for(Lang::Cpp));
    assert!(language_for(Lang::JavaScript) != language_for(Lang::TypeScript));
}

#[test]
fn every_language_loads_and_parses_empty_source() {
    for lang in [
        Lang::Rust, Lang::Python, Lang::TypeScript, Lang::TypeScriptX, Lang::JavaScript,
        Lang::Go, Lang::Java, Lang::Ruby, Lang::C, Lang::Cpp, Lang::Swift,
    ] {
        let tags = extract_tags("empty", "", lang);
        assert!(tags.is_ok(), "{} failed to load", lang.name());
        assert!(tags.unwrap().is_empty());
    }
}

#[test]
fn from_ext_reads_the_final_component() {
    assert_eq!(Lang::from_ext("src/lib.rs/"), Some(Lang::Rust));
    assert_eq!(Lang::from_ext("src//lib.rs/."), Some(Lang::Rust));
    assert_eq!(Lang::from_ext("src/lib.rs/.."), None);
    assert_eq!(Lang::from_ext("a.go/.hidden"), None);
    assert_eq!(Lang::from_ext("dir.py/file"), None);
    assert_eq!(Lang::from_ext("..rs"), Some(Lang::Rust));
    assert_eq!(Lang::from_ext("/"), None);
    assert_eq!(Lang::from_ext("."), None);
}

#[test]
fn tag_names_come_from_the_source() {
    let tags = extract_tags("src/lib.rs", RUST_FIXTURE, Lang::Rust).unwrap();
    let lines = RUST_FIXTURE.matches('\n').count();
    assert!(!tags.is_empty());
    for t in &tags {
        assert!(RUST_FIXTURE.contains(t.name.as_str()));
        assert!(t.line <= lines);
    }
}
