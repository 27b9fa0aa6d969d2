use geradoc::error::DocError;
use geradoc::module::{Constant, Module, Parameter, Procedure};
use geradoc::pages::{
    is_hidden, qualify, symbol_type, write_constants, write_head, write_module_link,
    write_modules, write_parameters, write_procedure, write_procedures, Page,
};
use geradoc::types::{TypeEntry, TypePool, TypeShape};

fn types() -> TypePool {
    let made = TypePool::new(vec![
        TypeEntry::Alternatives(vec![TypeShape::Primitive("Int".to_string())]),
        TypeEntry::Alternatives(vec![TypeShape::Primitive("Str".to_string())]),
        TypeEntry::Alternatives(vec![TypeShape::Array(0)]),
        TypeEntry::Any,
    ]);
    match made {
        Ok(pool) => pool,
        Err(error) => panic!("the pool was refused: {:?}", error),
    }
}

fn constant(name: &str, types: usize, public: Option<bool>) -> Constant {
    Constant { name: name.to_string(), types, public }
}

fn parameter(name: &str, typ_: usize) -> Parameter {
    Parameter { name: name.to_string(), typ_ }
}

fn procedure(
    name: &str,
    external: bool,
    parameters: Vec<Parameter>,
    return_types: usize,
    public: Option<bool>,
) -> Procedure {
    Procedure { name: name.to_string(), external, parameters, return_types, public }
}

fn head(name: &str, prefix: &str) -> String {
    format!(
        "<!DOCTYPE HTML><html><head>\n            <title>GeraDoc — {}</title>\n            <meta charset='UTF-8'>\n            <link rel='stylesheet' href='{}style.css'>\n            </head><body>\n<h1>Module <code>{}</code></h1>\n",
        name, prefix, name
    )
}

fn page<'a>(pages: &'a [Page], path: &str) -> &'a Page {
    match pages.iter().find(|page| page.path == path) {
        Some(page) => page,
        None => panic!("no page at {}", path),
    }
}

fn written(module: &Module, name: &str, this_name: &str, types: &TypePool) -> Vec<Page> {
    match module.write(name, this_name, types) {
        Ok(pages) => pages,
        Err(error) => panic!("the module was refused: {:?}", error),
    }
}

#[test]
fn only_a_symbol_marked_as_not_public_is_hidden() {
    assert!(is_hidden(Some(false)));
    assert!(!is_hidden(Some(true)));
    assert!(!is_hidden(None));
}

#[test]
fn symbol_type_is_the_notation_at_depth_zero() {
    let types = types();
    assert_eq!(symbol_type(2, &types), Ok("Int[]".to_string()));
    assert_eq!(symbol_type(3, &types), Ok("any".to_string()));
    assert_eq!(symbol_type(4, &types), Err(DocError::UnknownType { index: 4 }));
}

#[test]
fn head_names_the_module_and_links_the_stylesheet() {
    assert_eq!(write_head("m"), head("m", ""));
    assert_eq!(write_head("a::b"), head("a::b", "../"));
    assert_eq!(write_head("a::b::c"), head("a::b::c", "../../"));
}

#[test]
fn qualified_name_puts_the_separator_between() {
    assert_eq!(qualify("a", "b"), "a::b");
    assert_eq!(qualify("a::b", "c"), "a::b::c");
    assert_eq!(qualify("", ""), "::");
}

#[test]
fn module_link_goes_through_the_directory_of_the_outer_module() {
    assert_eq!(
        write_module_link("outer", "inner"),
        "    <li><a href='./outer/inner.html'><code>inner</code></a>\n"
    );
}

#[test]
fn modules_have_a_heading_where_there_are_any() {
    assert_eq!(write_modules("LINKS", true), "<h2>Modules</h2><ul>\nLINKS</ul>\n");
    assert_eq!(write_modules("LINKS", false), "");
}

#[test]
fn hidden_procedure_has_no_line() {
    let types = types();
    let hidden = procedure("f", false, vec![parameter("a", 77)], 78, Some(false));
    assert_eq!(write_procedure(&hidden, &types), Ok(String::new()));
}

#[test]
fn constants_are_listed_under_their_heading() {
    let types = types();
    let constants = vec![
        ("a".to_string(), constant("a", 0, Some(true))),
        ("b".to_string(), constant("hidden", 1, Some(false))),
        ("c".to_string(), constant("shown_as", 2, None)),
    ];
    assert_eq!(
        write_constants(&constants, &types),
        Ok("<h2>Constants</h2><ul>\n    <li><code>pub var a: Int</code></li>\n    <li><code>pub var shown_as: Int[]</code></li>\n</ul>\n".to_string())
    );
}

#[test]
fn constants_without_a_shown_one_have_no_heading() {
    let types = types();
    assert_eq!(write_constants(&vec![], &types), Ok(String::new()));
    let hidden = vec![
        ("a".to_string(), constant("a", 0, Some(false))),
        ("b".to_string(), constant("b", 99, Some(false))),
    ];
    assert_eq!(write_constants(&hidden, &types), Ok(String::new()));
}

#[test]
fn constants_report_the_first_unknown_type_of_a_shown_one() {
    let types = types();
    let constants = vec![
        ("a".to_string(), constant("a", 50, Some(false))),
        ("b".to_string(), constant("b", 0, None)),
        ("c".to_string(), constant("c", 60, None)),
        ("d".to_string(), constant("d", 70, Some(true))),
    ];
    assert_eq!(write_constants(&constants, &types), Err(DocError::UnknownType { index: 60 }));
}

#[test]
fn parameters_are_written_as_name_and_type() {
    let types = types();
    let parameters = vec![parameter("x", 0), parameter("names", 1), parameter("rest", 2)];
    assert_eq!(
        write_parameters(&parameters, &types),
        Ok(vec!["x: Int".to_string(), "names: Str".to_string(), "rest: Int[]".to_string()])
    );
    assert_eq!(write_parameters(&vec![], &types), Ok(vec![]));
    let broken = vec![parameter("x", 0), parameter("y", 8), parameter("z", 9)];
    assert_eq!(write_parameters(&broken, &types), Err(DocError::UnknownType { index: 8 }));
}

#[test]
fn procedure_line_has_linkage_parameters_and_result() {
    let types = types();
    let plain = procedure("f", false, vec![], 0, None);
    assert_eq!(
        write_procedure(&plain, &types),
        Ok("    <li><code>pub proc f() -> Int</code></li>\n".to_string())
    );
    let outside = procedure("g", true, vec![parameter("a", 0), parameter("b", 1)], 3, Some(true));
    assert_eq!(
        write_procedure(&outside, &types),
        Ok("    <li><code>pub extern proc g(a: Int, b: Str) -> any</code></li>\n".to_string())
    );
}

#[test]
fn procedure_looks_up_parameters_before_the_result() {
    let types = types();
    let broken = procedure("f", false, vec![parameter("a", 0), parameter("b", 11)], 12, None);
    assert_eq!(write_procedure(&broken, &types), Err(DocError::UnknownType { index: 11 }));
    let result_only = procedure("f", false, vec![parameter("a", 0)], 12, None);
    assert_eq!(write_procedure(&result_only, &types), Err(DocError::UnknownType { index: 12 }));
}

#[test]
fn procedures_are_listed_under_their_heading() {
    let types = types();
    let procedures = vec![
        ("a".to_string(), procedure("first", false, vec![], 0, None)),
        ("b".to_string(), procedure("secret", false, vec![], 44, Some(false))),
        ("c".to_string(), procedure("last", true, vec![parameter("x", 2)], 1, Some(true))),
    ];
    assert_eq!(
        write_procedures(&procedures, &types),
        Ok("<h2>Procedures</h2><ul>\n    <li><code>pub proc first() -> Int</code></li>\n    <li><code>pub extern proc last(x: Int[]) -> Str</code></li>\n</ul>\n".to_string())
    );
    assert_eq!(write_procedures(&vec![], &types), Ok(String::new()));
}

#[test]
fn module_without_anything_has_head_and_foot_only() {
    let types = types();
    let pages = written(&Module::new(), "m", "m", &types);
    assert_eq!(pages.len(), 1);
    assert_eq!(pages[0].path, "docs/m.html");
    assert_eq!(pages[0].content, format!("{}</body></html>\n", head("m", "")));
}

#[test]
fn module_page_lists_modules_constants_procedures_in_that_order() {
    let types = types();
    let mut module = Module::new();
    module.insert_procedure("run".to_string(), procedure("run", false, vec![], 0, None));
    module.insert_constant("LIMIT".to_string(), constant("LIMIT", 0, None));
    module.insert_module("inner".to_string(), Module::new());
    let pages = written(&module, "outer", "outer", &types);
    assert_eq!(pages.len(), 2);
    assert_eq!(
        page(&pages, "docs/outer.html").content,
        format!(
            "{}<h2>Modules</h2><ul>\n    <li><a href='./outer/inner.html'><code>inner</code></a>\n</ul>\n<h2>Constants</h2><ul>\n    <li><code>pub var LIMIT: Int</code></li>\n</ul>\n<h2>Procedures</h2><ul>\n    <li><code>pub proc run() -> Int</code></li>\n</ul>\n</body></html>\n",
            head("outer", "")
        )
    );
    assert_eq!(
        page(&pages, "docs/outer/inner.html").content,
        format!("{}</body></html>\n", head("outer::inner", "../"))
    );
}

#[test]
fn modules_are_listed_by_name_whatever_the_order_of_insertion() {
    let types = types();
    let mut module = Module::new();
    for name in ["zeta", "alpha", "mid", "Beta", "alpha2", "al"] {
        module.insert_module(name.to_string(), Module::new());
    }
    let pages = written(&module, "top", "top", &types);
    let paths: Vec<&str> = pages.iter().map(|page| page.path.as_str()).collect();
    assert_eq!(
        paths,
        vec![
            "docs/top.html",
            "docs/top/Beta.html",
            "docs/top/al.html",
            "docs/top/alpha.html",
            "docs/top/alpha2.html",
            "docs/top/mid.html",
            "docs/top/zeta.html",
        ]
    );
    assert_eq!(
        pages[0].content,
        format!(
            "{}<h2>Modules</h2><ul>\n    <li><a href='./top/Beta.html'><code>Beta</code></a>\n    <li><a href='./top/al.html'><code>al</code></a>\n    <li><a href='./top/alpha.html'><code>alpha</code></a>\n    <li><a href='./top/alpha2.html'><code>alpha2</code></a>\n    <li><a href='./top/mid.html'><code>mid</code></a>\n    <li><a href='./top/zeta.html'><code>zeta</code></a>\n</ul>\n</body></html>\n",
            head("top", "")
        )
    );
}

#[test]
fn names_are_ordered_by_their_bytes() {
    let types = types();
    let mut module = Module::new();
    for name in ["é", "z", "", "a", "Z", "aa", "日本"] {
        module.insert_constant(name.to_string(), constant(name, 0, None));
    }
    let pages = written(&module, "m", "m", &types);
    assert_eq!(
        pages[0].content,
        format!(
            "{}<h2>Constants</h2><ul>\n    <li><code>pub var : Int</code></li>\n    <li><code>pub var Z: Int</code></li>\n    <li><code>pub var a: Int</code></li>\n    <li><code>pub var aa: Int</code></li>\n    <li><code>pub var z: Int</code></li>\n    <li><code>pub var é: Int</code></li>\n    <li><code>pub var 日本: Int</code></li>\n</ul>\n</body></html>\n",
            head("m", "")
        )
    );
}

#[test]
fn inserting_under_a_name_again_replaces() {
    let types = types();
    let mut module = Module::new();
    module.insert_constant("c".to_string(), constant("old", 0, None));
    module.insert_constant("b".to_string(), constant("b", 1, None));
    module.insert_constant("c".to_string(), constant("new", 2, None));
    let mut first = Module::new();
    first.insert_constant("x".to_string(), constant("x", 0, None));
    module.insert_module("inner".to_string(), first);
    module.insert_module("inner".to_string(), Module::new());
    module.insert_procedure("p".to_string(), procedure("old", false, vec![], 0, None));
    module.insert_procedure("p".to_string(), procedure("new", false, vec![], 1, None));
    let pages = written(&module, "m", "m", &types);
    assert_eq!(pages.len(), 2);
    assert_eq!(
        pages[0].content,
        format!(
            "{}<h2>Modules</h2><ul>\n    <li><a href='./m/inner.html'><code>inner</code></a>\n</ul>\n<h2>Constants</h2><ul>\n    <li><code>pub var b: Str</code></li>\n    <li><code>pub var new: Int[]</code></li>\n</ul>\n<h2>Procedures</h2><ul>\n    <li><code>pub proc new() -> Str</code></li>\n</ul>\n</body></html>\n",
            head("m", "")
        )
    );
    assert_eq!(pages[1].content, format!("{}</body></html>\n", head("m::inner", "../")));
}

#[test]
fn symbols_are_listed_by_the_name_they_are_found_under() {
    let types = types();
    let mut module = Module::new();
    module.insert_constant("b".to_string(), constant("first_by_own_name", 0, None));
    module.insert_constant("a".to_string(), constant("second_by_own_name", 0, None));
    let pages = written(&module, "m", "m", &types);
    assert_eq!(
        pages[0].content,
        format!(
            "{}<h2>Constants</h2><ul>\n    <li><code>pub var second_by_own_name: Int</code></li>\n    <li><code>pub var first_by_own_name: Int</code></li>\n</ul>\n</body></html>\n",
            head("m", "")
        )
    );
}

#[test]
fn module_two_levels_down_links_up_twice() {
    let types = types();
    let mut middle = Module::new();
    middle.insert_module("leaf".to_string(), Module::new());
    let mut top = Module::new();
    top.insert_module("middle".to_string(), middle);
    let pages = written(&top, "top", "top", &types);
    assert_eq!(pages.len(), 3);
    let leaf = page(&pages, "docs/top/middle/leaf.html");
    assert!(leaf.content.contains("<link rel='stylesheet' href='../../style.css'>"));
    assert!(!leaf.content.contains("../../../"));
    assert_eq!(leaf.content, format!("{}</body></html>\n", head("top::middle::leaf", "../../")));
    let middle = page(&pages, "docs/top/middle.html");
    assert!(middle.content.contains("<link rel='stylesheet' href='../style.css'>"));
    assert!(middle.content.contains("<a href='./middle/leaf.html'><code>leaf</code></a>"));
    let top = page(&pages, "docs/top.html");
    assert!(top.content.contains("<link rel='stylesheet' href='style.css'>"));
    assert!(top.content.contains("<a href='./top/middle.html'><code>middle</code></a>"));
}

#[test]
fn own_page_comes_before_the_pages_inside() {
    let types = types();
    let mut a = Module::new();
    a.insert_module("x".to_string(), Module::new());
    let mut top = Module::new();
    top.insert_module("b".to_string(), Module::new());
    top.insert_module("a".to_string(), a);
    let pages = written(&top, "t", "t", &types);
    let paths: Vec<&str> = pages.iter().map(|page| page.path.as_str()).collect();
    assert_eq!(paths, vec!["docs/t.html", "docs/t/a.html", "docs/t/a/x.html", "docs/t/b.html"]);
}

#[test]
fn link_to_a_module_inside_goes_through_the_own_name() {
    let types = types();
    let mut module = Module::new();
    module.insert_module("c".to_string(), Module::new());
    let pages = written(&module, "a::b", "b", &types);
    assert_eq!(pages[0].path, "docs/a/b.html");
    assert!(pages[0].content.contains("<a href='./b/c.html'><code>c</code></a>"));
    assert_eq!(pages[1].path, "docs/a/b/c.html");
}

#[test]
fn unknown_type_inside_is_reported_before_the_module_s_own() {
    let types = types();
    let mut inner = Module::new();
    inner.insert_constant("c".to_string(), constant("c", 21, None));
    let mut module = Module::new();
    module.insert_constant("a".to_string(), constant("a", 20, None));
    module.insert_module("inner".to_string(), inner);
    assert_eq!(
        module.write("m", "m", &types).map(|pages| pages.len()),
        Err(DocError::UnknownType { index: 21 })
    );
}

#[test]
fn unknown_type_of_a_constant_is_reported_before_that_of_a_procedure() {
    let types = types();
    let mut module = Module::new();
    module.insert_procedure("a".to_string(), procedure("a", false, vec![], 31, None));
    module.insert_constant("z".to_string(), constant("z", 30, None));
    assert_eq!(
        module.write("m", "m", &types).map(|pages| pages.len()),
        Err(DocError::UnknownType { index: 30 })
    );
}

#[test]
fn unknown_type_of_a_hidden_symbol_does_no_harm() {
    let types = types();
    let mut module = Module::new();
    module.insert_procedure("a".to_string(), procedure("a", false, vec![], 31, Some(false)));
    module.insert_constant("z".to_string(), constant("z", 30, Some(false)));
    let pages = written(&module, "m", "m", &types);
    assert_eq!(pages[0].content, format!("{}</body></html>\n", head("m", "")));
}

#[test]
fn writing_twice_gives_the_same_pages() {
    let types = types();
    let mut inner = Module::new();
    inner.insert_procedure(
        "p".to_string(),
        procedure("p", true, vec![parameter("x", 2)], 3, Some(true)),
    );
    let mut module = Module::new();
    module.insert_module("inner".to_string(), inner);
    module.insert_constant("c".to_string(), constant("c", 1, None));
    let first = written(&module, "m", "m", &types);
    let second = written(&module, "m", "m", &types);
    assert_eq!(first.len(), second.len());
    for (one, other) in first.iter().zip(second.iter()) {
        assert_eq!(one.path, other.path);
        assert_eq!(one.content.as_bytes(), other.content.as_bytes());
    }
}
