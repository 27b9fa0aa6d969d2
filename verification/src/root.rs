//! A whole symbol table, and the documentation made of it.

use vstd::prelude::*;
use vstd::string::StringExecFns;
use crate::error::DocError;
use crate::filter::{filter_compiles, filter_matches, matches_of, regex_compiles};
use crate::module::{Module, ModuleView, lemma_module_views, module_views};
use crate::names::{
    insert_sorted, keys, lemma_put_ordered, lemma_without_ordered, names_of, ordered, put,
    without,
};
use crate::gather::{gather, lemma_gather_error, lemma_gather_next};
use crate::pages::{Page, PageView, page_views, pages_of, pages_view};
use crate::types::{EntryView, TypePool};

verus! {

/// A symbol table: the pool of its types, and its top-level modules, each
/// under its name and in the order of names.
#[derive(Debug)]
pub struct Root {
    types: TypePool,
    modules: Vec<(String, Module)>,
}

/// What a [`Root`] stands for.
pub struct RootView {
    pub types: Seq<EntryView>,
    pub modules: Seq<(Seq<char>, ModuleView)>,
}

impl View for Root {
    type V = RootView;

    closed spec fn view(&self) -> RootView {
        RootView { types: self.types@, modules: module_views(self.modules@) }
    }
}

/// The link from the index to the page of the top-level module `name`.
pub open spec fn index_link(name: Seq<char>) -> Seq<char> {
    "    <li><a href='./"@ + name + ".html'><code>"@ + name + "</code></a>\n"@
}

/// The links to the first `upto` of `names`, in order.
pub open spec fn index_links(names: Seq<Seq<char>>, upto: nat) -> Seq<char>
    decreases upto,
{
    if upto == 0 || upto > names.len() {
        Seq::empty()
    } else {
        index_links(names, (upto - 1) as nat) + index_link(names[upto - 1])
    }
}

/// What the index begins with. It lies at the root of the documentation,
/// beside the stylesheet.
pub open spec fn index_head() -> Seq<char> {
    "<!DOCTYPE HTML><html><head>\n        <title>GeraDoc — Index</title>\n"@
        + "        <meta charset='UTF-8'>\n"@
        + "        <link rel='stylesheet' href='style.css'>\n        </head><body>\n"@
        + "<h1>Document index</h1>\n"@
}

/// The index: a link to each of the top-level modules `names`, in order.
/// The heading of the list is left out with the list where there is none.
pub open spec fn index_content(names: Seq<Seq<char>>) -> Seq<char> {
    index_head() + (if names.len() > 0 {
        "<h2>Modules</h2><ul>\n"@ + index_links(names, names.len()) + "</ul>\n"@
    } else {
        Seq::empty()
    }) + "</body></html>\n"@
}

/// The page of the index.
pub open spec fn index_page(names: Seq<Seq<char>>) -> PageView {
    PageView { path: "docs/index.html"@, content: index_content(names) }
}

/// The pages of each top-level module: its qualified name is its own name.
pub open spec fn top_pages(modules: Seq<(Seq<char>, ModuleView)>, pool: Seq<EntryView>) -> Seq<
    Result<Seq<PageView>, DocError>,
> {
    Seq::new(modules.len(), |i: int| pages_of(modules[i].1, modules[i].0, modules[i].0, pool))
}

/// The documentation of a symbol table: the pages of its top-level modules
/// in the order of their names, then the index. A type that the pool lacks
/// is an error, and the first to be met is reported.
pub open spec fn site_of(root: RootView) -> Result<Seq<PageView>, DocError> {
    match gather(top_pages(root.modules, root.types)) {
        Err(error) => Err(error),
        Ok(pages) => Ok(pages.push(index_page(names_of(root.modules)))),
    }
}

/// The symbol table without the top-level modules whose names `pattern`
/// matches.
pub open spec fn filtered(root: RootView, pattern: Seq<char>) -> RootView {
    RootView {
        types: root.types,
        modules: without(root.modules, matches_of(pattern, names_of(root.modules))),
    }
}

/// The documentation of a symbol table under a filter on the names of its
/// top-level modules: that of the table without the modules that the filter
/// matches. A filter that is no regular expression is an error, whatever the
/// table holds.
pub open spec fn rendering(root: RootView, pattern: Seq<char>) -> Result<Seq<PageView>, DocError> {
    if regex_compiles(pattern) {
        site_of(filtered(root, pattern))
    } else {
        Err(DocError::InvalidFilter)
    }
}

/// The index of the top-level modules of `root`.
pub fn write_index(root: &Root) -> (index: Page)
    ensures
        index@ == index_page(names_of(root@.modules)),
        ordered(names_of(root@.modules)),
{
    proof {
        use_type_invariant(root);
    }
    let ghost names = names_of(root@.modules);
    let mut links = String::new();
    let mut i: usize = 0;
    while i < root.modules.len()
        invariant
            i <= root.modules@.len(),
            names == names_of(module_views(root.modules@)),
            links@ == index_links(names, i as nat),
        decreases root.modules@.len() - i,
    {
        let name = &root.modules[i].0;
        proof {
            lemma_module_views(root.modules@);
            assert(names[i as int] == name@);
        }
        links.append("    <li><a href='./");
        links.append(name.as_str());
        links.append(".html'><code>");
        links.append(name.as_str());
        links.append("</code></a>\n");
        proof {
            assert(links@ =~= index_links(names, i as nat) + index_link(name@));
        }
        i += 1;
    }
    proof {
        lemma_module_views(root.modules@);
    }
    let mut content = String::from_str(
        "<!DOCTYPE HTML><html><head>\n        <title>GeraDoc — Index</title>\n",
    );
    content.append("        <meta charset='UTF-8'>\n");
    content.append("        <link rel='stylesheet' href='style.css'>\n        </head><body>\n");
    content.append("<h1>Document index</h1>\n");
    if root.modules.len() > 0 {
        let mut list = String::from_str("<h2>Modules</h2><ul>\n");
        list.append(links.as_str());
        list.append("</ul>\n");
        content.append(list.as_str());
    } else {
        assert(content@ + Seq::<char>::empty() =~= content@);
    }
    content.append("</body></html>\n");
    Page { path: String::from_str("docs/index.html"), content }
}

impl Root {
    #[verifier::type_invariant]
    spec fn well_formed(self) -> bool {
        ordered(names_of(self@.modules))
    }

    /// A symbol table with the types `types` and no module.
    pub fn new(types: TypePool) -> (root: Root)
        ensures
            root@ == (RootView { types: types@, modules: Seq::empty() }),
    {
        proof {
            lemma_module_views(Seq::empty());
        }
        let root = Root { types, modules: Vec::new() };
        proof {
            assert(root@.modules =~= Seq::empty());
        }
        root
    }

    /// Puts `module` at the top level under `name`, in place of the module
    /// that was there under that name, if there was one.
    pub fn insert_module(&mut self, name: String, module: Module)
        ensures
            final(self)@ == (RootView {
                modules: put(old(self)@.modules, name@, module@),
                ..old(self)@
            }),
    {
        proof {
            use_type_invariant(&*self);
        }
        let ghost before = self@;
        let ghost inside = module@;
        let mut modules: Vec<(String, Module)> = Vec::new();
        proof {
            lemma_module_views(modules@);
        }
        std::mem::swap(&mut modules, &mut self.modules);
        let ghost held = modules@;
        proof {
            lemma_module_views(held);
            assert(keys(held) =~= names_of(before.modules));
        }
        let at = insert_sorted(&mut modules, name, module);
        proof {
            lemma_module_views(modules@);
            lemma_put_ordered(before.modules, name@, inside);
            if at < held.len() && keys(held)[at as int] == name@ {
                assert(before.modules[at as int].0 == keys(held)[at as int]);
                assert(module_views(modules@) =~= before.modules.update(
                    at as int,
                    (name@, inside),
                ));
            } else {
                if at < held.len() {
                    assert(before.modules[at as int].0 == keys(held)[at as int]);
                }
                assert(module_views(modules@) =~= before.modules.insert(
                    at as int,
                    (name@, inside),
                ));
            }
            assert(module_views(modules@) == put(before.modules, name@, inside));
        }
        self.modules = modules;
    }

    /// Which of the top-level modules the filter `pattern` matches by name,
    /// module by module; an error where the pattern is no regular expression.
    pub fn matching(&self, pattern: &str) -> (flags: Result<Vec<bool>, DocError>)
        ensures
            match flags {
                Ok(found) => {
                    &&& regex_compiles(pattern@)
                    &&& found@ == matches_of(pattern@, names_of(self@.modules))
                },
                Err(error) => !regex_compiles(pattern@) && error == DocError::InvalidFilter,
            },
    {
        // A pattern that does not compile is an error even where there is
        // no name to try it on. It is compiled anew for each name, which
        // the few names of a top level can bear.
        if !filter_compiles(pattern) {
            return Err(DocError::InvalidFilter);
        }
        let ghost names = names_of(self@.modules);
        let mut found: Vec<bool> = Vec::new();
        let mut i: usize = 0;
        proof {
            assert(found@ =~= matches_of(pattern@, names.take(0)));
        }
        while i < self.modules.len()
            invariant
                i <= self.modules@.len(),
                regex_compiles(pattern@),
                names == names_of(module_views(self.modules@)),
                found@ == matches_of(pattern@, names.take(i as int)),
            decreases self.modules@.len() - i,
        {
            let name = &self.modules[i].0;
            match filter_matches(pattern, name.as_str()) {
                Err(error) => {
                    return Err(error);
                },
                Ok(matched) => {
                    found.push(matched);
                },
            }
            proof {
                lemma_module_views(self.modules@);
                assert(names[i as int] == name@);
                assert(found@ =~= matches_of(pattern@, names.take(i + 1)));
            }
            i += 1;
        }
        proof {
            lemma_module_views(self.modules@);
            assert(names.take(self.modules@.len() as int) =~= names);
        }
        Ok(found)
    }

    /// Takes out the top-level modules that `flags` marks: module `i` in the
    /// order of names goes if `flags` has a flag `i` and it is set. Nothing
    /// is left of such a module: no page of it will be written, and no link
    /// to it.
    pub fn exclude_flagged(&mut self, flags: &Vec<bool>)
        ensures
            final(self)@ == (RootView {
                modules: without(old(self)@.modules, flags@),
                ..old(self)@
            }),
    {
        proof {
            use_type_invariant(&*self);
        }
        let ghost before = self@;
        let mut modules: Vec<(String, Module)> = Vec::new();
        proof {
            lemma_module_views(modules@);
        }
        std::mem::swap(&mut modules, &mut self.modules);
        let ghost held = modules@;
        let count = modules.len();
        let mut left: Vec<(String, Module)> = Vec::new();
        let mut i: usize = 0;
        proof {
            lemma_module_views(held);
            lemma_module_views(left@);
            assert(module_views(left@) =~= without(before.modules.take(0), flags@));
        }
        for entry in it: modules
            invariant
                it.seq() == held,
                i == it.index(),
                held.len() == count,
                before.modules == module_views(held),
                module_views(left@) == without(before.modules.take(i as int), flags@),
        {
            proof {
                lemma_module_views(held);
                assert(i < held.len());
                assert(before.modules.take(i + 1).drop_last() =~= before.modules.take(i as int));
                assert(before.modules.take(i + 1).last() == (entry.0@, entry.1@));
            }
            if i < flags.len() && flags[i] {
            } else {
                let ghost views = module_views(left@);
                proof {
                    lemma_module_views(left@);
                }
                left.push(entry);
                proof {
                    lemma_module_views(left@);
                    assert(module_views(left@) =~= views.push((entry.0@, entry.1@)));
                }
            }
            i += 1;
        }
        proof {
            assert(before.modules.take(held.len() as int) =~= before.modules);
            lemma_without_ordered(before.modules, flags@);
        }
        self.modules = left;
    }

    /// Takes out the top-level modules whose names the filter `pattern`
    /// matches. Where the pattern is no regular expression, nothing is taken
    /// out and the error is returned.
    pub fn exclude(&mut self, pattern: &str) -> (done: Result<(), DocError>)
        ensures
            done == if regex_compiles(pattern@) {
                Ok::<(), DocError>(())
            } else {
                Err::<(), DocError>(DocError::InvalidFilter)
            },
            final(self)@ == if regex_compiles(pattern@) {
                filtered(old(self)@, pattern@)
            } else {
                old(self)@
            },
    {
        match self.matching(pattern) {
            Err(error) => Err(error),
            Ok(flags) => {
                self.exclude_flagged(&flags);
                Ok(())
            },
        }
    }

    /// Writes the pages of all the top-level modules, in the order of their
    /// names, and then the index.
    pub fn write(&self) -> (written: Result<Vec<Page>, DocError>)
        ensures
            pages_view(written) == site_of(self@),
            ordered(names_of(self@.modules)),
    {
        proof {
            use_type_invariant(self);
        }
        let ghost modules = self@.modules;
        let ghost parts = top_pages(modules, self@.types);
        let mut pages: Vec<Page> = Vec::new();
        let mut i: usize = 0;
        proof {
            assert(page_views(pages@) =~= Seq::<PageView>::empty());
        }
        while i < self.modules.len()
            invariant
                i <= self.modules@.len(),
                ordered(names_of(self@.modules)),
                modules == module_views(self.modules@),
                parts == top_pages(modules, self.types@),
                gather(parts.take(i as int)) == Ok::<Seq<PageView>, DocError>(page_views(pages@)),
            decreases self.modules@.len() - i,
        {
            let name = &self.modules[i].0;
            let module = &self.modules[i].1;
            proof {
                lemma_module_views(self.modules@);
                lemma_gather_next(parts, i as int);
                assert(modules[i as int] == (name@, module@));
            }
            match module.write(name.as_str(), name.as_str(), &self.types) {
                Err(error) => {
                    proof {
                        lemma_gather_error(parts, i + 1);
                    }
                    return Err(error);
                },
                Ok(written) => {
                    let ghost before = page_views(pages@);
                    let mut written = written;
                    let ghost added = page_views(written@);
                    pages.append(&mut written);
                    assert(page_views(pages@) =~= before + added);
                },
            }
            i += 1;
        }
        proof {
            lemma_module_views(self.modules@);
            assert(parts.take(self.modules@.len() as int) =~= parts);
        }
        let index = write_index(self);
        let ghost before = page_views(pages@);
        pages.push(index);
        proof {
            assert(page_views(pages@) =~= before.push(index@));
        }
        Ok(pages)
    }

    /// Writes the documentation of the symbol table under the filter
    /// `pattern` on the names of its top-level modules.
    pub fn render(self, pattern: &str) -> (written: Result<Vec<Page>, DocError>)
        ensures
            pages_view(written) == rendering(self@, pattern@),
    {
        let mut root = self;
        match root.exclude(pattern) {
            Err(error) => Err(error),
            Ok(()) => root.write(),
        }
    }
}

} // verus!
