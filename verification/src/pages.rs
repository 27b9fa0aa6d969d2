//! What stands on the page of a module.
//!
//! A page is a text. It names the module, links to the modules inside it,
//! and lists the constants and procedures that other modules see, each with
//! the notation of its types. A list that would be empty is left out with
//! its heading.

use vstd::prelude::*;
use vstd::string::StringExecFns;
use crate::error::DocError;
use crate::gather::{gather, lemma_gather_error, lemma_gather_next};
use crate::module::{
    Constant, ConstantView, ModuleView, Parameter, ParameterView, Procedure, ProcedureView,
    constant_views, parameter_views, procedure_views,
};
use crate::names::names_of;
use crate::paths::{link_prefix, link_prefix_of, page_path_of};
use crate::text::{join, join_strings, texts};
use crate::format::{format_at, format_type};
use crate::types::{EntryView, TypePool};

verus! {

/// A page, and where it goes.
#[derive(Debug, PartialEq, Eq)]
pub struct Page {
    /// The path of the page, from the directory that holds `docs`.
    pub path: String,
    pub content: String,
}

/// What a [`Page`] stands for.
pub struct PageView {
    pub path: Seq<char>,
    pub content: Seq<char>,
}

impl View for Page {
    type V = PageView;

    open spec fn view(&self) -> PageView {
        PageView { path: self.path@, content: self.content@ }
    }
}

/// Pages as plain values.
pub open spec fn page_views(pages: Seq<Page>) -> Seq<PageView> {
    Seq::new(pages.len(), |i: int| pages[i]@)
}

/// A text or an error, as plain values.
pub open spec fn text_view(outcome: Result<String, DocError>) -> Result<Seq<char>, DocError> {
    match outcome {
        Ok(text) => Ok(text@),
        Err(error) => Err(error),
    }
}

/// Pages or an error, as plain values.
pub open spec fn pages_view(outcome: Result<Vec<Page>, DocError>) -> Result<
    Seq<PageView>,
    DocError,
> {
    match outcome {
        Ok(pages) => Ok(page_views(pages@)),
        Err(error) => Err(error),
    }
}

/// The notation of the type of a symbol: that of type `index` of the pool,
/// met at depth 0, or an error where the pool has no such type.
pub open spec fn notation(pool: Seq<EntryView>, index: nat) -> Result<Seq<char>, DocError> {
    if index < pool.len() {
        Ok(format_at(pool, index, 0))
    } else {
        Err(DocError::UnknownType { index: index as usize })
    }
}

/// Whether a symbol is kept from the pages: only one that the symbol table
/// marks as not public. A symbol without a mark is shown.
pub open spec fn hidden(public: Option<bool>) -> bool {
    public == Some(false)
}

/// The line of a constant; nothing for one that is hidden.
pub open spec fn constant_line(pool: Seq<EntryView>, constant: ConstantView) -> Result<
    Seq<char>,
    DocError,
> {
    if hidden(constant.public) {
        Ok(Seq::empty())
    } else {
        match notation(pool, constant.types) {
            Err(error) => Err(error),
            Ok(types) => Ok(
                "    <li><code>pub var "@ + constant.name + ": "@ + types + "</code></li>\n"@,
            ),
        }
    }
}

/// The lines of the constants of a module, in the order of their names.
pub open spec fn constant_lines(
    pool: Seq<EntryView>,
    constants: Seq<(Seq<char>, ConstantView)>,
) -> Seq<Result<Seq<char>, DocError>> {
    Seq::new(constants.len(), |i: int| constant_line(pool, constants[i].1))
}

/// Whether one of the constants is shown.
pub open spec fn shows_constant(constants: Seq<(Seq<char>, ConstantView)>) -> bool {
    exists|i: int| 0 <= i < constants.len() && !hidden((#[trigger] constants[i]).1.public)
}

/// The list of the constants of a module with its heading, or nothing where
/// none is shown.
pub open spec fn constants_section(
    pool: Seq<EntryView>,
    constants: Seq<(Seq<char>, ConstantView)>,
) -> Result<Seq<char>, DocError> {
    match gather(constant_lines(pool, constants)) {
        Err(error) => Err(error),
        Ok(lines) => Ok(
            if shows_constant(constants) {
                "<h2>Constants</h2><ul>\n"@ + lines + "</ul>\n"@
            } else {
                Seq::empty()
            },
        ),
    }
}

/// A parameter as `name: type`.
pub open spec fn parameter_text(pool: Seq<EntryView>, parameter: ParameterView) -> Result<
    Seq<Seq<char>>,
    DocError,
> {
    match notation(pool, parameter.typ_) {
        Err(error) => Err(error),
        Ok(types) => Ok(seq![parameter.name + ": "@ + types]),
    }
}

/// The parameters of a procedure, each as `name: type`.
pub open spec fn parameter_texts(pool: Seq<EntryView>, parameters: Seq<ParameterView>) -> Seq<
    Result<Seq<Seq<char>>, DocError>,
> {
    Seq::new(parameters.len(), |i: int| parameter_text(pool, parameters[i]))
}

/// What stands between `pub` and `proc` on the line of a procedure.
pub open spec fn linkage(external: bool) -> Seq<char> {
    if external {
        "extern "@
    } else {
        ""@
    }
}

/// The line of a procedure; nothing for one that is hidden. The types of the
/// parameters are looked up before the type of the result.
pub open spec fn procedure_line(pool: Seq<EntryView>, procedure: ProcedureView) -> Result<
    Seq<char>,
    DocError,
> {
    if hidden(procedure.public) {
        Ok(Seq::empty())
    } else {
        match gather(parameter_texts(pool, procedure.parameters)) {
            Err(error) => Err(error),
            Ok(parameters) => match notation(pool, procedure.return_types) {
                Err(error) => Err(error),
                Ok(types) => Ok(
                    "    <li><code>pub "@ + linkage(procedure.external) + "proc "@
                        + procedure.name + "("@ + join(parameters, ", "@) + ") -> "@ + types
                        + "</code></li>\n"@,
                ),
            },
        }
    }
}

/// The lines of the procedures of a module, in the order of their names.
pub open spec fn procedure_lines(
    pool: Seq<EntryView>,
    procedures: Seq<(Seq<char>, ProcedureView)>,
) -> Seq<Result<Seq<char>, DocError>> {
    Seq::new(procedures.len(), |i: int| procedure_line(pool, procedures[i].1))
}

/// Whether one of the procedures is shown.
pub open spec fn shows_procedure(procedures: Seq<(Seq<char>, ProcedureView)>) -> bool {
    exists|i: int| 0 <= i < procedures.len() && !hidden((#[trigger] procedures[i]).1.public)
}

/// The list of the procedures of a module with its heading, or nothing where
/// none is shown.
pub open spec fn procedures_section(
    pool: Seq<EntryView>,
    procedures: Seq<(Seq<char>, ProcedureView)>,
) -> Result<Seq<char>, DocError> {
    match gather(procedure_lines(pool, procedures)) {
        Err(error) => Err(error),
        Ok(lines) => Ok(
            if shows_procedure(procedures) {
                "<h2>Procedures</h2><ul>\n"@ + lines + "</ul>\n"@
            } else {
                Seq::empty()
            },
        ),
    }
}

/// The link from the page of a module to that of the module `name` inside
/// it. The page of the outer module lies beside the directory `this_name`
/// that holds the pages of the modules inside.
pub open spec fn module_link(this_name: Seq<char>, name: Seq<char>) -> Seq<char> {
    "    <li><a href='./"@ + this_name + "/"@ + name + ".html'><code>"@ + name
        + "</code></a>\n"@
}

/// The links to the first `upto` of `names`, in order.
pub open spec fn module_links(this_name: Seq<char>, names: Seq<Seq<char>>, upto: nat) -> Seq<char>
    decreases upto,
{
    if upto == 0 || upto > names.len() {
        Seq::empty()
    } else {
        module_links(this_name, names, (upto - 1) as nat) + module_link(
            this_name,
            names[upto - 1],
        )
    }
}

/// The list of the modules inside a module with its heading, or nothing
/// where there is none.
pub open spec fn modules_section(this_name: Seq<char>, names: Seq<Seq<char>>) -> Seq<char> {
    if names.len() > 0 {
        "<h2>Modules</h2><ul>\n"@ + module_links(this_name, names, names.len()) + "</ul>\n"@
    } else {
        Seq::empty()
    }
}

/// What a page begins with: the title of the module and the link to the
/// stylesheet, which lies at the root of the documentation.
pub open spec fn page_head(name: Seq<char>) -> Seq<char> {
    "<!DOCTYPE HTML><html><head>\n            <title>GeraDoc — "@ + name
        + "</title>\n            <meta charset='UTF-8'>\n            <link rel='stylesheet' href='"@
        + link_prefix_of(name) + "style.css'>\n            </head><body>\n"@
}

/// The heading of the page of a module.
pub open spec fn page_heading(name: Seq<char>) -> Seq<char> {
    "<h1>Module <code>"@ + name + "</code></h1>\n"@
}

/// What every page ends with.
pub open spec fn page_foot() -> Seq<char> {
    "</body></html>\n"@
}

/// The page of a module: its head and heading, the modules inside it, its
/// constants, its procedures. The types of the constants are looked up
/// before those of the procedures.
pub open spec fn page_content(
    module: ModuleView,
    name: Seq<char>,
    this_name: Seq<char>,
    pool: Seq<EntryView>,
) -> Result<Seq<char>, DocError> {
    match constants_section(pool, module.constants) {
        Err(error) => Err(error),
        Ok(constants) => match procedures_section(pool, module.procedures) {
            Err(error) => Err(error),
            Ok(procedures) => Ok(
                page_head(name) + page_heading(name) + modules_section(
                    this_name,
                    names_of(module.modules),
                ) + constants + procedures + page_foot(),
            ),
        },
    }
}

/// The qualified name of the module `local` inside the module `name`.
pub open spec fn qualified(name: Seq<char>, local: Seq<char>) -> Seq<char> {
    name + "::"@ + local
}

/// The pages of a module whose qualified name is `name` and whose own name
/// is `this_name`: its own page, then the pages of the modules inside it, in
/// the order of their names. A type that the pool lacks is an error, and the
/// first to be met is reported: the modules inside are gone through before
/// the module's own symbols.
pub open spec fn pages_of(
    module: ModuleView,
    name: Seq<char>,
    this_name: Seq<char>,
    pool: Seq<EntryView>,
) -> Result<Seq<PageView>, DocError>
    decreases module, 1int,
{
    match gather(child_pages(module.modules, name, pool)) {
        Err(error) => Err(error),
        Ok(below) => match page_content(module, name, this_name, pool) {
            Err(error) => Err(error),
            Ok(content) => Ok(seq![PageView { path: page_path_of(name), content }] + below),
        },
    }
}

/// The pages of each of the modules inside the module `name`.
pub open spec fn child_pages(
    children: Seq<(Seq<char>, ModuleView)>,
    name: Seq<char>,
    pool: Seq<EntryView>,
) -> Seq<Result<Seq<PageView>, DocError>>
    decreases children, 0int,
{
    Seq::new(
        children.len(),
        |i: int|
            if 0 <= i < children.len() {
                pages_of(children[i].1, qualified(name, children[i].0), children[i].0, pool)
            } else {
                Ok(Seq::empty())
            },
    )
}

/// Whether a symbol with this mark is kept from the pages.
pub fn is_hidden(public: Option<bool>) -> (kept_out: bool)
    ensures
        kept_out == hidden(public),
{
    match public {
        Some(seen) => !seen,
        None => false,
    }
}

/// The notation of the type of a symbol.
pub fn symbol_type(index: usize, types: &TypePool) -> (formatted: Result<String, DocError>)
    ensures
        text_view(formatted) == notation(types@, index as nat),
{
    format_type(index, types, 0)
}

/// The list of the constants of a module with its heading.
pub fn write_constants(constants: &Vec<(String, Constant)>, types: &TypePool) -> (section: Result<
    String,
    DocError,
>)
    ensures
        text_view(section) == constants_section(types@, constant_views(constants@)),
{
    let ghost views = constant_views(constants@);
    let ghost parts = constant_lines(types@, views);
    let mut lines = String::new();
    let mut any = false;
    let mut i: usize = 0;
    while i < constants.len()
        invariant
            i <= constants.len(),
            views == constant_views(constants@),
            parts == constant_lines(types@, views),
            gather(parts.take(i as int)) == Ok::<Seq<char>, DocError>(lines@),
            any == exists|j: int| 0 <= j < i && !hidden((#[trigger] views[j]).1.public),
        decreases constants.len() - i,
    {
        let constant = &constants[i].1;
        proof {
            lemma_gather_next(parts, i as int);
            assert(views[i as int].1 == constant@);
        }
        if is_hidden(constant.public) {
            assert(lines@ + Seq::<char>::empty() =~= lines@);
        } else {
            match symbol_type(constant.types, types) {
                Err(error) => {
                    proof {
                        lemma_gather_error(parts, i + 1);
                    }
                    return Err(error);
                },
                Ok(formatted) => {
                    let mut line = String::from_str("    <li><code>pub var ");
                    line.append(constant.name.as_str());
                    line.append(": ");
                    line.append(formatted.as_str());
                    line.append("</code></li>\n");
                    lines.append(line.as_str());
                    any = true;
                },
            }
        }
        i += 1;
    }
    proof {
        assert(parts.take(constants.len() as int) =~= parts);
    }
    if any {
        let mut section = String::from_str("<h2>Constants</h2><ul>\n");
        section.append(lines.as_str());
        section.append("</ul>\n");
        Ok(section)
    } else {
        Ok(String::new())
    }
}

/// The parameters of a procedure, each as `name: type`.
pub fn write_parameters(parameters: &Vec<Parameter>, types: &TypePool) -> (listed: Result<
    Vec<String>,
    DocError,
>)
    ensures
        match listed {
            Ok(args) => gather(parameter_texts(types@, parameter_views(parameters@))) == Ok::<
                Seq<Seq<char>>,
                DocError,
            >(texts(args@)),
            Err(error) => gather(parameter_texts(types@, parameter_views(parameters@))) == Err::<
                Seq<Seq<char>>,
                DocError,
            >(error),
        },
{
    let ghost views = parameter_views(parameters@);
    let ghost parts = parameter_texts(types@, views);
    let mut args: Vec<String> = Vec::new();
    let mut i: usize = 0;
    assert(texts(args@) =~= Seq::<Seq<char>>::empty());
    while i < parameters.len()
        invariant
            i <= parameters.len(),
            views == parameter_views(parameters@),
            parts == parameter_texts(types@, views),
            gather(parts.take(i as int)) == Ok::<Seq<Seq<char>>, DocError>(texts(args@)),
        decreases parameters.len() - i,
    {
        let parameter = &parameters[i];
        proof {
            lemma_gather_next(parts, i as int);
            assert(views[i as int] == parameter@);
        }
        match symbol_type(parameter.typ_, types) {
            Err(error) => {
                proof {
                    lemma_gather_error(parts, i + 1);
                }
                return Err(error);
            },
            Ok(formatted) => {
                let mut arg = parameter.name.clone();
                arg.append(": ");
                arg.append(formatted.as_str());
                let ghost before = texts(args@);
                args.push(arg);
                assert(texts(args@) =~= before + seq![arg@]);
            },
        }
        i += 1;
    }
    proof {
        assert(parts.take(parameters.len() as int) =~= parts);
    }
    Ok(args)
}

/// The line of a procedure; nothing for one that is hidden.
pub fn write_procedure(procedure: &Procedure, types: &TypePool) -> (line: Result<String, DocError>)
    ensures
        text_view(line) == procedure_line(types@, procedure@),
{
    if is_hidden(procedure.public) {
        return Ok(String::new());
    }
    let args = match write_parameters(&procedure.parameters, types) {
        Err(error) => {
            return Err(error);
        },
        Ok(args) => args,
    };
    let formatted = match symbol_type(procedure.return_types, types) {
        Err(error) => {
            return Err(error);
        },
        Ok(formatted) => formatted,
    };
    let mut line = String::from_str("    <li><code>pub ");
    line.append(if procedure.external { "extern " } else { "" });
    line.append("proc ");
    line.append(procedure.name.as_str());
    line.append("(");
    line.append(join_strings(&args, ", ").as_str());
    line.append(") -> ");
    line.append(formatted.as_str());
    line.append("</code></li>\n");
    Ok(line)
}

/// The list of the procedures of a module with its heading.
pub fn write_procedures(procedures: &Vec<(String, Procedure)>, types: &TypePool) -> (section:
    Result<String, DocError>)
    ensures
        text_view(section) == procedures_section(types@, procedure_views(procedures@)),
{
    let ghost views = procedure_views(procedures@);
    let ghost parts = procedure_lines(types@, views);
    let mut lines = String::new();
    let mut any = false;
    let mut i: usize = 0;
    while i < procedures.len()
        invariant
            i <= procedures.len(),
            views == procedure_views(procedures@),
            parts == procedure_lines(types@, views),
            gather(parts.take(i as int)) == Ok::<Seq<char>, DocError>(lines@),
            any == exists|j: int| 0 <= j < i && !hidden((#[trigger] views[j]).1.public),
        decreases procedures.len() - i,
    {
        let procedure = &procedures[i].1;
        proof {
            lemma_gather_next(parts, i as int);
            assert(views[i as int].1 == procedure@);
        }
        match write_procedure(procedure, types) {
            Err(error) => {
                proof {
                    lemma_gather_error(parts, i + 1);
                }
                return Err(error);
            },
            Ok(line) => {
                lines.append(line.as_str());
                any = any || !is_hidden(procedure.public);
            },
        }
        i += 1;
    }
    proof {
        assert(parts.take(procedures.len() as int) =~= parts);
    }
    if any {
        let mut section = String::from_str("<h2>Procedures</h2><ul>\n");
        section.append(lines.as_str());
        section.append("</ul>\n");
        Ok(section)
    } else {
        Ok(String::new())
    }
}

/// The qualified name of the module `local` inside the module `name`.
pub fn qualify(name: &str, local: &str) -> (whole: String)
    ensures
        whole@ == qualified(name@, local@),
{
    let mut whole = String::from_str(name);
    whole.append("::");
    whole.append(local);
    whole
}

/// The link from the page of a module to that of the module `name` inside
/// it.
pub fn write_module_link(this_name: &str, name: &str) -> (link: String)
    ensures
        link@ == module_link(this_name@, name@),
{
    let mut link = String::from_str("    <li><a href='./");
    link.append(this_name);
    link.append("/");
    link.append(name);
    link.append(".html'><code>");
    link.append(name);
    link.append("</code></a>\n");
    link
}

/// The list of the modules inside a module with its heading, given the
/// links of the list.
pub fn write_modules(links: &str, any: bool) -> (section: String)
    ensures
        section@ == if any {
            "<h2>Modules</h2><ul>\n"@ + links@ + "</ul>\n"@
        } else {
            Seq::<char>::empty()
        },
{
    if any {
        let mut section = String::from_str("<h2>Modules</h2><ul>\n");
        section.append(links);
        section.append("</ul>\n");
        section
    } else {
        String::new()
    }
}

/// What the page of the module `name` begins with, down to its heading.
pub fn write_head(name: &str) -> (head: String)
    ensures
        head@ == page_head(name@) + page_heading(name@),
{
    let mut head = String::from_str(
        "<!DOCTYPE HTML><html><head>\n            <title>GeraDoc — ",
    );
    head.append(name);
    head.append(
        "</title>\n            <meta charset='UTF-8'>\n            <link rel='stylesheet' href='",
    );
    head.append(link_prefix(name).as_str());
    head.append("style.css'>\n            </head><body>\n");
    let mut heading = String::from_str("<h1>Module <code>");
    heading.append(name);
    heading.append("</code></h1>\n");
    head.append(heading.as_str());
    head
}

} // verus!
