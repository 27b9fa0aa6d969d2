//! Modules and the symbols that they hold.

use vstd::prelude::*;
use vstd::string::StringExecFns;
use crate::error::DocError;
use crate::names::{insert_sorted, keys, lemma_put_ordered, names_of, ordered, put};
use crate::gather::{gather, lemma_gather_error, lemma_gather_next};
use crate::pages::{
    Page, PageView, child_pages, module_links, page_views, pages_of, pages_view, qualify,
    write_constants, write_head, write_module_link, write_modules, write_procedures,
};
use crate::paths::page_path;
use crate::types::TypePool;

verus! {

/// A parameter of a procedure.
#[derive(Debug, PartialEq, Eq)]
pub struct Parameter {
    pub name: String,
    /// The type of the parameter, by its position in the pool.
    pub typ_: usize,
}

/// A procedure of a module.
#[derive(Debug, PartialEq, Eq)]
pub struct Procedure {
    pub name: String,
    /// Whether the procedure is implemented outside the program.
    pub external: bool,
    pub parameters: Vec<Parameter>,
    /// The type of the result, by its position in the pool.
    pub return_types: usize,
    /// Whether other modules see the procedure, where the symbol table says
    /// so. A table of an older form says nothing: `None`.
    pub public: Option<bool>,
}

/// A constant of a module.
#[derive(Debug, PartialEq, Eq)]
pub struct Constant {
    pub name: String,
    /// The type of the constant, by its position in the pool.
    pub types: usize,
    /// Whether other modules see the constant, where the symbol table says
    /// so.
    pub public: Option<bool>,
}

/// What a [`Parameter`] stands for.
pub struct ParameterView {
    pub name: Seq<char>,
    pub typ_: nat,
}

/// What a [`Procedure`] stands for.
pub struct ProcedureView {
    pub name: Seq<char>,
    pub external: bool,
    pub parameters: Seq<ParameterView>,
    pub return_types: nat,
    pub public: Option<bool>,
}

/// What a [`Constant`] stands for.
pub struct ConstantView {
    pub name: Seq<char>,
    pub types: nat,
    pub public: Option<bool>,
}

/// What a [`Module`] stands for: the modules inside it, its procedures and
/// its constants, each list with the names under which its entries are found.
pub struct ModuleView {
    pub modules: Seq<(Seq<char>, ModuleView)>,
    pub procedures: Seq<(Seq<char>, ProcedureView)>,
    pub constants: Seq<(Seq<char>, ConstantView)>,
}

impl View for Parameter {
    type V = ParameterView;

    open spec fn view(&self) -> ParameterView {
        ParameterView { name: self.name@, typ_: self.typ_ as nat }
    }
}

/// Parameters as plain values.
pub open spec fn parameter_views(parameters: Seq<Parameter>) -> Seq<ParameterView> {
    Seq::new(parameters.len(), |i: int| parameters[i]@)
}

impl View for Procedure {
    type V = ProcedureView;

    open spec fn view(&self) -> ProcedureView {
        ProcedureView {
            name: self.name@,
            external: self.external,
            parameters: parameter_views(self.parameters@),
            return_types: self.return_types as nat,
            public: self.public,
        }
    }
}

impl View for Constant {
    type V = ConstantView;

    open spec fn view(&self) -> ConstantView {
        ConstantView { name: self.name@, types: self.types as nat, public: self.public }
    }
}

/// Named procedures as plain values.
pub open spec fn procedure_views(entries: Seq<(String, Procedure)>) -> Seq<
    (Seq<char>, ProcedureView),
> {
    Seq::new(entries.len(), |i: int| (entries[i].0@, entries[i].1@))
}

/// Named constants as plain values.
pub open spec fn constant_views(entries: Seq<(String, Constant)>) -> Seq<
    (Seq<char>, ConstantView),
> {
    Seq::new(entries.len(), |i: int| (entries[i].0@, entries[i].1@))
}

/// A module: a namespace that holds modules, procedures and constants, each
/// under a name. Whatever the order in which they were put in, each list is
/// in the order of names, here and in every module inside.
#[derive(Debug)]
pub struct Module {
    modules: Vec<(String, Module)>,
    procedures: Vec<(String, Procedure)>,
    constants: Vec<(String, Constant)>,
}

/// Named modules as plain values.
pub closed spec fn module_views(entries: Seq<(String, Module)>) -> Seq<(Seq<char>, ModuleView)>
    decreases entries,
{
    Seq::new(
        entries.len(),
        |i: int|
            if 0 <= i < entries.len() {
                (entries[i].0@, entries[i].1@)
            } else {
                (Seq::empty(), arbitrary())
            },
    )
}

impl View for Module {
    type V = ModuleView;

    closed spec fn view(&self) -> ModuleView
        decreases self,
    {
        ModuleView {
            modules: module_views(self.modules@),
            procedures: procedure_views(self.procedures@),
            constants: constant_views(self.constants@),
        }
    }
}

/// Named modules are taken one by one: each name by its characters, each
/// module by what it stands for.
pub proof fn lemma_module_views(entries: Seq<(String, Module)>)
    ensures
        module_views(entries).len() == entries.len(),
        forall|i: int|
            0 <= i < entries.len() ==> #[trigger] module_views(entries)[i] == (
                entries[i].0@,
                entries[i].1@,
            ),
{
}

/// The three lists of a module are in the order of names, and so are those
/// of every module inside it.
pub open spec fn in_name_order(module: ModuleView) -> bool
    decreases module,
{
    &&& ordered(names_of(module.modules))
    &&& ordered(names_of(module.procedures))
    &&& ordered(names_of(module.constants))
    &&& forall|i: int|
        0 <= i < module.modules.len() ==> in_name_order((#[trigger] module.modules[i]).1)
}

impl Module {
    #[verifier::type_invariant]
    spec fn well_formed(self) -> bool {
        in_name_order(self@)
    }

    /// A module that holds nothing.
    pub fn new() -> (module: Module)
        ensures
            module@ == (ModuleView {
                modules: Seq::empty(),
                procedures: Seq::empty(),
                constants: Seq::empty(),
            }),
    {
        let module = Module { modules: Vec::new(), procedures: Vec::new(), constants: Vec::new() };
        proof {
            assert(module@.modules =~= Seq::empty());
            assert(module@.procedures =~= Seq::empty());
            assert(module@.constants =~= Seq::empty());
        }
        module
    }

    /// Puts `module` inside this one under `name`, in place of the module
    /// that was there under that name, if there was one.
    pub fn insert_module(&mut self, name: String, module: Module)
        ensures
            final(self)@ == (ModuleView {
                modules: put(old(self)@.modules, name@, module@),
                ..old(self)@
            }),
    {
        proof {
            use_type_invariant(&*self);
            use_type_invariant(&module);
        }
        let ghost before = self@;
        let ghost inside = module@;
        let mut modules: Vec<(String, Module)> = Vec::new();
        std::mem::swap(&mut modules, &mut self.modules);
        let ghost held = modules@;
        proof {
            assert(module_views(held) == before.modules);
            assert(keys(held) =~= names_of(before.modules));
        }
        let at = insert_sorted(&mut modules, name, module);
        proof {
            lemma_put_ordered(before.modules, name@, inside);
            if at < held.len() && keys(held)[at as int] == name@ {
                assert(before.modules[at as int].0 == keys(held)[at as int]);
                assert(module_views(modules@) =~= before.modules.update(
                    at as int,
                    (name@, inside),
                ));
            } else {
                if at < held.len() {
                    assert(before.modules[at as int].0 == keys(held)[at as int]);
                }
                assert(module_views(modules@) =~= before.modules.insert(
                    at as int,
                    (name@, inside),
                ));
            }
            assert(module_views(modules@) == put(before.modules, name@, inside));
            assert forall|i: int| 0 <= i < modules@.len() implies in_name_order(
                (#[trigger] module_views(modules@)[i]).1,
            ) by {
                if at < held.len() && keys(held)[at as int] == name@ {
                    if i != at {
                        assert(module_views(modules@)[i] == before.modules[i]);
                    }
                } else {
                    if i < at {
                        assert(module_views(modules@)[i] == before.modules[i]);
                    } else if i > at {
                        assert(module_views(modules@)[i] == before.modules[i - 1]);
                    }
                }
            }
        }
        self.modules = modules;
    }

    /// Puts `procedure` into the module under `name`, in place of the
    /// procedure that was there under that name, if there was one.
    pub fn insert_procedure(&mut self, name: String, procedure: Procedure)
        ensures
            final(self)@ == (ModuleView {
                procedures: put(old(self)@.procedures, name@, procedure@),
                ..old(self)@
            }),
    {
        proof {
            use_type_invariant(&*self);
        }
        let ghost before = self@;
        let ghost added = procedure@;
        let mut procedures: Vec<(String, Procedure)> = Vec::new();
        std::mem::swap(&mut procedures, &mut self.procedures);
        let ghost held = procedures@;
        proof {
            assert(procedure_views(held) == before.procedures);
            assert(keys(held) =~= names_of(before.procedures));
        }
        let at = insert_sorted(&mut procedures, name, procedure);
        proof {
            lemma_put_ordered(before.procedures, name@, added);
            if at < held.len() && keys(held)[at as int] == name@ {
                assert(before.procedures[at as int].0 == keys(held)[at as int]);
                assert(procedure_views(procedures@) =~= before.procedures.update(
                    at as int,
                    (name@, added),
                ));
            } else {
                if at < held.len() {
                    assert(before.procedures[at as int].0 == keys(held)[at as int]);
                }
                assert(procedure_views(procedures@) =~= before.procedures.insert(
                    at as int,
                    (name@, added),
                ));
            }
            assert(procedure_views(procedures@) == put(before.procedures, name@, added));
        }
        self.procedures = procedures;
    }

    /// Puts `constant` into the module under `name`, in place of the
    /// constant that was there under that name, if there was one.
    pub fn insert_constant(&mut self, name: String, constant: Constant)
        ensures
            final(self)@ == (ModuleView {
                constants: put(old(self)@.constants, name@, constant@),
                ..old(self)@
            }),
    {
        proof {
            use_type_invariant(&*self);
        }
        let ghost before = self@;
        let ghost added = constant@;
        let mut constants: Vec<(String, Constant)> = Vec::new();
        std::mem::swap(&mut constants, &mut self.constants);
        let ghost held = constants@;
        proof {
            assert(constant_views(held) == before.constants);
            assert(keys(held) =~= names_of(before.constants));
        }
        let at = insert_sorted(&mut constants, name, constant);
        proof {
            lemma_put_ordered(before.constants, name@, added);
            if at < held.len() && keys(held)[at as int] == name@ {
                assert(before.constants[at as int].0 == keys(held)[at as int]);
                assert(constant_views(constants@) =~= before.constants.update(
                    at as int,
                    (name@, added),
                ));
            } else {
                if at < held.len() {
                    assert(before.constants[at as int].0 == keys(held)[at as int]);
                }
                assert(constant_views(constants@) =~= before.constants.insert(
                    at as int,
                    (name@, added),
                ));
            }
            assert(constant_views(constants@) == put(before.constants, name@, added));
        }
        self.constants = constants;
    }

    /// Writes the page of the module and the pages of the modules inside
    /// it. `name` is the qualified name of the module, which decides where
    /// its page goes, and `this_name` its own name. The constants and
    /// procedures that the symbol table marks as not public are left out.
    pub fn write(&self, name: &str, this_name: &str, types: &TypePool) -> (written: Result<
        Vec<Page>,
        DocError,
    >)
        ensures
            pages_view(written) == pages_of(self@, name@, this_name@, types@),
            in_name_order(self@),
        decreases self,
    {
        proof {
            use_type_invariant(self);
        }
        let ghost children = self@.modules;
        let ghost parts = child_pages(children, name@, types@);
        let mut below: Vec<Page> = Vec::new();
        let mut links = String::new();
        let mut i: usize = 0;
        proof {
            assert(page_views(below@) =~= Seq::<PageView>::empty());
        }
        while i < self.modules.len()
            invariant
                i <= self.modules@.len(),
                in_name_order(self@),
                children == self@.modules,
                children == module_views(self.modules@),
                parts == child_pages(children, name@, types@),
                gather(parts.take(i as int)) == Ok::<Seq<PageView>, DocError>(page_views(below@)),
                links@ == module_links(this_name@, names_of(children), i as nat),
            decreases self.modules@.len() - i,
        {
            let local = &self.modules[i].0;
            let inside = &self.modules[i].1;
            proof {
                lemma_gather_next(parts, i as int);
                assert(children[i as int] == (local@, inside@));
            }
            let qualified = qualify(name, local.as_str());
            match inside.write(qualified.as_str(), local.as_str(), types) {
                Err(error) => {
                    proof {
                        lemma_gather_error(parts, i + 1);
                    }
                    return Err(error);
                },
                Ok(pages) => {
                    let ghost before = page_views(below@);
                    let mut pages = pages;
                    let ghost added = page_views(pages@);
                    below.append(&mut pages);
                    assert(page_views(below@) =~= before + added);
                },
            }
            links.append(write_module_link(this_name, local.as_str()).as_str());
            proof {
                assert(names_of(children)[i as int] == local@);
            }
            i += 1;
        }
        proof {
            assert(parts.take(self.modules@.len() as int) =~= parts);
        }
        let mut content = write_head(name);
        content.append(write_modules(links.as_str(), self.modules.len() > 0).as_str());
        match write_constants(&self.constants, types) {
            Err(error) => {
                return Err(error);
            },
            Ok(section) => {
                content.append(section.as_str());
            },
        }
        match write_procedures(&self.procedures, types) {
            Err(error) => {
                return Err(error);
            },
            Ok(section) => {
                content.append(section.as_str());
            },
        }
        content.append("</body></html>\n");
        let mut pages: Vec<Page> = Vec::new();
        pages.push(Page { path: page_path(name), content });
        let ghost own = page_views(pages@);
        let ghost rest = page_views(below@);
        pages.append(&mut below);
        proof {
            assert(page_views(pages@) =~= own + rest);
            assert(own =~= seq![pages@[0]@]);
        }
        Ok(pages)
    }
}

} // verus!
