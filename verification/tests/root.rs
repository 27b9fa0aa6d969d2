use geradoc::error::DocError;
use geradoc::filter::{filter_compiles, filter_matches};
use geradoc::module::{Constant, Module, Procedure};
use geradoc::pages::Page;
use geradoc::root::{write_index, Root};
use geradoc::types::{TypeEntry, TypePool, TypeShape};

fn types() -> TypePool {
    let made = TypePool::new(vec![TypeEntry::Alternatives(vec![TypeShape::Primitive(
        "Int".to_string(),
    )])]);
    match made {
        Ok(pool) => pool,
        Err(error) => panic!("the pool was refused: {:?}", error),
    }
}

fn root_of(names: &[&str]) -> Root {
    let mut root = Root::new(types());
    for name in names {
        root.insert_module(name.to_string(), Module::new());
    }
    root
}

fn paths(pages: &[Page]) -> Vec<&str> {
    pages.iter().map(|page| page.path.as_str()).collect()
}

fn written(root: &Root) -> Vec<Page> {
    match root.write() {
        Ok(pages) => pages,
        Err(error) => panic!("the symbol table was refused: {:?}", error),
    }
}

fn rendered(root: Root, pattern: &str) -> Vec<Page> {
    match root.render(pattern) {
        Ok(pages) => pages,
        Err(error) => panic!("the symbol table was refused: {:?}", error),
    }
}

fn index_of(links: &str) -> String {
    format!(
        "<!DOCTYPE HTML><html><head>\n        <title>GeraDoc — Index</title>\n        <meta charset='UTF-8'>\n        <link rel='stylesheet' href='style.css'>\n        </head><body>\n<h1>Document index</h1>\n{}</body></html>\n",
        links
    )
}

#[test]
fn filter_matches_anywhere_in_the_name() {
    assert_eq!(filter_matches("core", "core"), Ok(true));
    assert_eq!(filter_matches("core", "hardcore"), Ok(true));
    assert_eq!(filter_matches("core", "std"), Ok(false));
    assert_eq!(filter_matches("core", "Core"), Ok(false));
    assert_eq!(filter_matches("^core$", "hardcore"), Ok(false));
    assert_eq!(filter_matches("^(core|std)$", "std"), Ok(true));
    assert_eq!(filter_matches("", "anything"), Ok(true));
    assert_eq!(filter_matches("a+b", ""), Ok(false));
}

#[test]
fn filter_that_does_not_compile_is_an_error() {
    assert_eq!(filter_matches("(", "core"), Err(DocError::InvalidFilter));
    assert_eq!(filter_matches("[a-", ""), Err(DocError::InvalidFilter));
    assert_eq!(filter_matches("a{2,1}", "aa"), Err(DocError::InvalidFilter));
}

#[test]
fn filter_compiles_or_not() {
    assert!(filter_compiles("core"));
    assert!(filter_compiles(""));
    assert!(filter_compiles("^(a|b)+$"));
    assert!(!filter_compiles("("));
    assert!(!filter_compiles("*"));
    assert!(!filter_compiles("\\w{1000}{1000}"));
}

#[test]
fn index_of_no_module_has_no_list() {
    let index = write_index(&root_of(&[]));
    assert_eq!(index.path, "docs/index.html");
    assert_eq!(index.content, index_of(""));
}

#[test]
fn index_links_each_module_in_the_order_of_names() {
    let index = write_index(&root_of(&["std", "app", "core"]));
    assert_eq!(
        index.content,
        index_of(
            "<h2>Modules</h2><ul>\n    <li><a href='./app.html'><code>app</code></a>\n    <li><a href='./core.html'><code>core</code></a>\n    <li><a href='./std.html'><code>std</code></a>\n</ul>\n"
        )
    );
}

#[test]
fn matching_flags_module_by_module() {
    let root = root_of(&["std", "app", "core", "hardcore"]);
    assert_eq!(root.matching("core"), Ok(vec![false, true, true, false]));
    assert_eq!(root.matching("^core$"), Ok(vec![false, true, false, false]));
    assert_eq!(root.matching("^a|d$"), Ok(vec![true, false, false, true]));
    assert_eq!(root.matching("nothing"), Ok(vec![false, false, false, false]));
    assert_eq!(root_of(&[]).matching("core"), Ok(vec![]));
}

#[test]
fn matching_refuses_a_bad_filter_even_without_modules() {
    assert_eq!(root_of(&[]).matching("("), Err(DocError::InvalidFilter));
    assert_eq!(root_of(&["a"]).matching("("), Err(DocError::InvalidFilter));
}

#[test]
fn flagged_modules_are_taken_out() {
    let mut root = root_of(&["a", "b", "c", "d"]);
    root.exclude_flagged(&vec![false, true, false, true]);
    assert_eq!(paths(&written(&root)), vec!["docs/a.html", "docs/c.html", "docs/index.html"]);
}

#[test]
fn missing_flags_take_nothing_out_and_spare_flags_are_ignored() {
    let mut root = root_of(&["a", "b", "c"]);
    root.exclude_flagged(&vec![true]);
    assert_eq!(paths(&written(&root)), vec!["docs/b.html", "docs/c.html", "docs/index.html"]);
    root.exclude_flagged(&vec![]);
    assert_eq!(paths(&written(&root)), vec!["docs/b.html", "docs/c.html", "docs/index.html"]);
    root.exclude_flagged(&vec![false, true, true, true, true]);
    assert_eq!(paths(&written(&root)), vec!["docs/b.html", "docs/index.html"]);
    root.exclude_flagged(&vec![true]);
    assert_eq!(paths(&written(&root)), vec!["docs/index.html"]);
}

#[test]
fn exclude_takes_out_what_the_filter_matches() {
    let mut root = root_of(&["std", "app", "core"]);
    assert_eq!(root.exclude("core"), Ok(()));
    assert_eq!(paths(&written(&root)), vec!["docs/app.html", "docs/std.html", "docs/index.html"]);
}

#[test]
fn exclude_with_a_bad_filter_changes_nothing() {
    let mut root = root_of(&["std", "core"]);
    assert_eq!(root.exclude("("), Err(DocError::InvalidFilter));
    assert_eq!(paths(&written(&root)), vec!["docs/core.html", "docs/std.html", "docs/index.html"]);
}

#[test]
fn filtered_module_has_no_page_and_no_link() {
    let mut core = Module::new();
    core.insert_module("inner".to_string(), Module::new());
    let mut root = root_of(&["app", "std"]);
    root.insert_module("core".to_string(), core);
    let pages = rendered(root, "core");
    assert_eq!(paths(&pages), vec!["docs/app.html", "docs/std.html", "docs/index.html"]);
    for page in pages.iter() {
        assert!(!page.content.contains("core"), "{} names the module", page.path);
    }
    assert_eq!(
        pages[2].content,
        index_of(
            "<h2>Modules</h2><ul>\n    <li><a href='./app.html'><code>app</code></a>\n    <li><a href='./std.html'><code>std</code></a>\n</ul>\n"
        )
    );
}

#[test]
fn filter_looks_at_top_level_names_only() {
    let mut app = Module::new();
    app.insert_module("core".to_string(), Module::new());
    let mut root = Root::new(types());
    root.insert_module("app".to_string(), app);
    let pages = rendered(root, "core");
    assert_eq!(paths(&pages), vec!["docs/app.html", "docs/app/core.html", "docs/index.html"]);
    assert!(pages[0].content.contains("<a href='./app/core.html'><code>core</code></a>"));
}

#[test]
fn filter_that_matches_everything_leaves_the_index() {
    let pages = rendered(root_of(&["a", "b"]), "");
    assert_eq!(paths(&pages), vec!["docs/index.html"]);
    assert_eq!(pages[0].content, index_of(""));
}

#[test]
fn render_refuses_a_bad_filter() {
    assert_eq!(
        root_of(&["a"]).render("(").map(|pages| pages.len()),
        Err(DocError::InvalidFilter)
    );
    assert_eq!(root_of(&[]).render("(").map(|pages| pages.len()), Err(DocError::InvalidFilter));
}

#[test]
fn unknown_type_of_a_filtered_module_does_no_harm() {
    let mut core = Module::new();
    core.insert_constant(
        "c".to_string(),
        Constant { name: "c".to_string(), types: 9, public: None },
    );
    let mut root = root_of(&["app"]);
    root.insert_module("core".to_string(), core);
    assert_eq!(paths(&rendered(root, "core")), vec!["docs/app.html", "docs/index.html"]);
}

#[test]
fn unknown_type_of_a_kept_module_is_reported() {
    let mut broken = Module::new();
    broken.insert_constant(
        "c".to_string(),
        Constant { name: "c".to_string(), types: 9, public: None },
    );
    let mut root = root_of(&["app"]);
    root.insert_module("zz".to_string(), broken);
    assert_eq!(
        root.render("core").map(|pages| pages.len()),
        Err(DocError::UnknownType { index: 9 })
    );
}

#[test]
fn top_level_module_is_replaced_under_its_name() {
    let mut first = Module::new();
    first.insert_module("inner".to_string(), Module::new());
    let mut root = Root::new(types());
    root.insert_module("m".to_string(), first);
    root.insert_module("m".to_string(), Module::new());
    assert_eq!(paths(&written(&root)), vec!["docs/m.html", "docs/index.html"]);
}

#[test]
fn one_procedure_in_one_module() {
    let mut m = Module::new();
    m.insert_procedure(
        "f".to_string(),
        Procedure {
            name: "f".to_string(),
            external: false,
            parameters: vec![],
            return_types: 0,
            public: None,
        },
    );
    let mut root = Root::new(types());
    root.insert_module("m".to_string(), m);
    let pages = rendered(root, "core");
    assert_eq!(paths(&pages), vec!["docs/m.html", "docs/index.html"]);
    assert_eq!(
        pages[0].content,
        "<!DOCTYPE HTML><html><head>\n            <title>GeraDoc — m</title>\n            <meta charset='UTF-8'>\n            <link rel='stylesheet' href='style.css'>\n            </head><body>\n<h1>Module <code>m</code></h1>\n<h2>Procedures</h2><ul>\n    <li><code>pub proc f() -> Int</code></li>\n</ul>\n</body></html>\n"
    );
    assert_eq!(
        pages[1].content,
        index_of("<h2>Modules</h2><ul>\n    <li><a href='./m.html'><code>m</code></a>\n</ul>\n")
    );
}

#[test]
fn rendering_twice_gives_the_same_bytes() {
    let build = || {
        let mut inner = Module::new();
        inner.insert_constant(
            "c".to_string(),
            Constant { name: "c".to_string(), types: 0, public: Some(true) },
        );
        let mut app = Module::new();
        app.insert_module("inner".to_string(), inner);
        let mut root = root_of(&["std", "core"]);
        root.insert_module("app".to_string(), app);
        root
    };
    let first = rendered(build(), "core");
    let second = rendered(build(), "core");
    assert_eq!(first.len(), 4);
    assert_eq!(first.len(), second.len());
    for (one, other) in first.iter().zip(second.iter()) {
        assert_eq!(one.path.as_bytes(), other.path.as_bytes());
        assert_eq!(one.content.as_bytes(), other.content.as_bytes());
    }
}
