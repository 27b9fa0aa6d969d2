//! What holds of the documentation of every symbol table.

use vstd::prelude::*;
use crate::error::DocError;
use crate::filter::{matches_of, regex_matches};
use crate::gather::{gather, lemma_gather_skips_empty};
use crate::module::{ConstantView, ModuleView, ProcedureView};
use crate::names::{flagged, lemma_without_source, names_of, without};
use crate::pages::{
    Page, child_pages, constant_lines, constants_section, hidden, page_content, pages_of,
    pages_view, procedure_lines, procedures_section, qualified, shows_constant,
    shows_procedure,
};
use crate::paths::page_path_of;
use crate::root::{RootView, filtered, index_page, rendering, site_of, top_pages};
use crate::types::EntryView;

verus! {

/// Writing the documentation of the same symbol table under the same filter
/// twice gives the same pages, or the same error: what is written is decided
/// by the table and the filter alone.
pub proof fn lemma_render_twice(
    first: Result<Vec<Page>, DocError>,
    second: Result<Vec<Page>, DocError>,
    root: RootView,
    pattern: Seq<char>,
)
    requires
        pages_view(first) == rendering(root, pattern),
        pages_view(second) == rendering(root, pattern),
    ensures
        pages_view(first) == pages_view(second),
{
}

/// What is left of a list does not depend on the flags beyond its end.
pub proof fn lemma_without_same_flags<T>(items: Seq<T>, first: Seq<bool>, second: Seq<bool>)
    requires
        forall|i: int| 0 <= i < items.len() ==> flagged(first, i) == flagged(second, i),
    ensures
        without(items, first) == without(items, second),
    decreases items.len(),
{
    if items.len() > 0 {
        lemma_without_same_flags(items.drop_last(), first, second);
    }
}

/// A marked item may as well not have been in the list.
pub proof fn lemma_without_marked<T>(items: Seq<T>, flags: Seq<bool>, i: int)
    requires
        0 <= i < items.len(),
        flagged(flags, i),
    ensures
        without(items.remove(i), flags.remove(i)) == without(items, flags),
    decreases items.len(),
{
    let last = items.len() - 1;
    if i == last {
        assert(items.remove(i) =~= items.drop_last());
        lemma_without_same_flags(items.drop_last(), flags.remove(i), flags);
    } else {
        assert(items.remove(i).drop_last() =~= items.drop_last().remove(i));
        assert(items.remove(i).last() == items.last());
        assert(flagged(flags.remove(i), last - 1) == flagged(flags, last));
        lemma_without_marked(items.drop_last(), flags, i);
    }
}

/// No module that is left under a filter has a name that the filter matches.
pub proof fn lemma_filtered_names_unmatched(root: RootView, pattern: Seq<char>, k: int)
    requires
        0 <= k < filtered(root, pattern).modules.len(),
    ensures
        !regex_matches(pattern, filtered(root, pattern).modules[k].0),
{
    let names = names_of(root.modules);
    let i = lemma_without_source(root.modules, matches_of(pattern, names), k);
    assert(names[i] == root.modules[i].0);
}

/// A top-level module whose name the filter matches leaves nothing behind:
/// the documentation is that of the symbol table without the module. So it
/// has no page of the module or of a module inside it, and neither the index
/// nor the page of another module links to it.
pub proof fn lemma_matched_module_leaves_nothing(root: RootView, pattern: Seq<char>, i: int)
    requires
        0 <= i < root.modules.len(),
        regex_matches(pattern, root.modules[i].0),
    ensures
        filtered(root, pattern) == filtered(
            RootView { types: root.types, modules: root.modules.remove(i) },
            pattern,
        ),
        rendering(root, pattern) == rendering(
            RootView { types: root.types, modules: root.modules.remove(i) },
            pattern,
        ),
{
    let names = names_of(root.modules);
    let flags = matches_of(pattern, names);
    assert(names[i] == root.modules[i].0);
    assert(matches_of(pattern, names_of(root.modules.remove(i))) =~= flags.remove(i));
    lemma_without_marked(root.modules, flags, i);
}

/// Under a filter that matches no name, every top-level module is left.
pub proof fn lemma_nothing_matched(root: RootView, pattern: Seq<char>)
    requires
        forall|i: int|
            0 <= i < root.modules.len() ==> !regex_matches(pattern, (#[trigger] root.modules[i]).0),
    ensures
        filtered(root, pattern) == root,
{
    let names = names_of(root.modules);
    let flags = matches_of(pattern, names);
    assert forall|i: int| 0 <= i < root.modules.len() implies !flagged(flags, i) by {
        assert(names[i] == root.modules[i].0);
    }
    lemma_without_unmarked(root.modules, flags);
}

/// A list with no marked item is left whole.
pub proof fn lemma_without_unmarked<T>(items: Seq<T>, flags: Seq<bool>)
    requires
        forall|i: int| 0 <= i < items.len() ==> !flagged(flags, i),
    ensures
        without(items, flags) == items,
    decreases items.len(),
{
    if items.len() > 0 {
        lemma_without_unmarked(items.drop_last(), flags);
        assert(items.drop_last().push(items.last()) =~= items);
    }
}

/// A constant that is hidden leaves nothing on the page: the list of the
/// constants is that of the module without the constant, heading and all.
/// Whether the pool has the type of the hidden constant does not matter.
pub proof fn lemma_hidden_constant_leaves_nothing(
    pool: Seq<EntryView>,
    constants: Seq<(Seq<char>, ConstantView)>,
    i: int,
)
    requires
        0 <= i < constants.len(),
        hidden(constants[i].1.public),
    ensures
        constants_section(pool, constants.remove(i)) == constants_section(pool, constants),
{
    let left = constants.remove(i);
    assert(constant_lines(pool, left) =~= constant_lines(pool, constants).remove(i));
    lemma_gather_skips_empty(constant_lines(pool, constants), i);
    if shows_constant(constants) {
        let j = choose|j: int|
            0 <= j < constants.len() && !hidden((#[trigger] constants[j]).1.public);
        if j < i {
            assert(!hidden(left[j].1.public));
        } else {
            assert(!hidden(left[j - 1].1.public));
        }
    }
    if shows_constant(left) {
        let j = choose|j: int| 0 <= j < left.len() && !hidden((#[trigger] left[j]).1.public);
        if j < i {
            assert(!hidden(constants[j].1.public));
        } else {
            assert(!hidden(constants[j + 1].1.public));
        }
    }
}

/// A procedure that is hidden leaves nothing on the page: the list of the
/// procedures is that of the module without the procedure, heading and all.
/// Whether the pool has the types of the hidden procedure does not matter.
pub proof fn lemma_hidden_procedure_leaves_nothing(
    pool: Seq<EntryView>,
    procedures: Seq<(Seq<char>, ProcedureView)>,
    i: int,
)
    requires
        0 <= i < procedures.len(),
        hidden(procedures[i].1.public),
    ensures
        procedures_section(pool, procedures.remove(i)) == procedures_section(pool, procedures),
{
    let left = procedures.remove(i);
    assert(procedure_lines(pool, left) =~= procedure_lines(pool, procedures).remove(i));
    lemma_gather_skips_empty(procedure_lines(pool, procedures), i);
    if shows_procedure(procedures) {
        let j = choose|j: int|
            0 <= j < procedures.len() && !hidden((#[trigger] procedures[j]).1.public);
        if j < i {
            assert(!hidden(left[j].1.public));
        } else {
            assert(!hidden(left[j - 1].1.public));
        }
    }
    if shows_procedure(left) {
        let j = choose|j: int| 0 <= j < left.len() && !hidden((#[trigger] left[j]).1.public);
        if j < i {
            assert(!hidden(procedures[j].1.public));
        } else {
            assert(!hidden(procedures[j + 1].1.public));
        }
    }
}

/// How many modules a module is, with those inside it.
pub open spec fn modules_in(module: ModuleView) -> nat
    decreases module, 0nat,
{
    1 + modules_among(module.modules, module.modules.len())
}

/// How many modules the first `upto` of `modules` are, with those inside
/// them.
pub open spec fn modules_among(modules: Seq<(Seq<char>, ModuleView)>, upto: nat) -> nat
    decreases modules, upto,
{
    if upto == 0 || upto > modules.len() {
        0
    } else {
        modules_among(modules, (upto - 1) as nat) + modules_in(modules[upto - 1].1)
    }
}

/// A module has one page for itself and one for each module inside it, at
/// whatever depth; its own page comes first and lies where its qualified
/// name says.
pub proof fn lemma_one_page_each(
    module: ModuleView,
    name: Seq<char>,
    this_name: Seq<char>,
    pool: Seq<EntryView>,
)
    requires
        pages_of(module, name, this_name, pool) is Ok,
    ensures
        pages_of(module, name, this_name, pool)->Ok_0.len() == modules_in(module),
        pages_of(module, name, this_name, pool)->Ok_0[0].path == page_path_of(name),
        page_content(module, name, this_name, pool) == Ok::<Seq<char>, DocError>(
            pages_of(module, name, this_name, pool)->Ok_0[0].content,
        ),
    decreases module, 0nat,
{
    let parts = child_pages(module.modules, name, pool);
    assert(parts.take(parts.len() as int) =~= parts);
    lemma_one_page_each_inside(module.modules, name, pool, module.modules.len());
}

/// The modules inside a module have one page each, with those inside them.
pub proof fn lemma_one_page_each_inside(
    modules: Seq<(Seq<char>, ModuleView)>,
    name: Seq<char>,
    pool: Seq<EntryView>,
    upto: nat,
)
    requires
        upto <= modules.len(),
        gather(child_pages(modules, name, pool).take(upto as int)) is Ok,
    ensures
        gather(child_pages(modules, name, pool).take(upto as int))->Ok_0.len() == modules_among(
            modules,
            upto,
        ),
    decreases modules, upto,
{
    let parts = child_pages(modules, name, pool);
    if upto > 0 {
        assert(parts.take(upto as int).drop_last() =~= parts.take(upto - 1));
        assert(parts.take(upto as int).last() == parts[upto - 1]);
        lemma_one_page_each_inside(modules, name, pool, (upto - 1) as nat);
        let inside = modules[upto - 1];
        lemma_one_page_each(inside.1, qualified(name, inside.0), inside.0, pool);
    }
}

/// The top-level modules have one page each, with those inside them.
pub proof fn lemma_one_page_each_top(
    modules: Seq<(Seq<char>, ModuleView)>,
    pool: Seq<EntryView>,
    upto: nat,
)
    requires
        upto <= modules.len(),
        gather(top_pages(modules, pool).take(upto as int)) is Ok,
    ensures
        gather(top_pages(modules, pool).take(upto as int))->Ok_0.len() == modules_among(
            modules,
            upto,
        ),
    decreases upto,
{
    let parts = top_pages(modules, pool);
    if upto > 0 {
        assert(parts.take(upto as int).drop_last() =~= parts.take(upto - 1));
        assert(parts.take(upto as int).last() == parts[upto - 1]);
        lemma_one_page_each_top(modules, pool, (upto - 1) as nat);
        let top = modules[upto - 1];
        lemma_one_page_each(top.1, top.0, top.0, pool);
    }
}

/// The documentation has one page for each module that is left, at whatever
/// depth, and one more, the last: the index.
pub proof fn lemma_index_comes_last(root: RootView)
    requires
        site_of(root) is Ok,
    ensures
        site_of(root)->Ok_0.len() == modules_among(root.modules, root.modules.len()) + 1,
        site_of(root)->Ok_0.last() == index_page(names_of(root.modules)),
{
    let parts = top_pages(root.modules, root.types);
    assert(parts.take(parts.len() as int) =~= parts);
    lemma_one_page_each_top(root.modules, root.types, root.modules.len());
}

} // verus!
