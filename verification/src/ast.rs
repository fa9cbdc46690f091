use vstd::prelude::*;
use vstd::pervasive::cloned;
use crate::id::Id;

verus! {

/// A builtin scalar type of the interface-definition language. The
/// representability relation in [`crate::representation`] classifies ordered
/// pairs of these.
#[derive(Clone, Copy, Debug, PartialEq, Eq, Structural)]
pub enum BuiltinType {
    U8,
    U16,
    U32,
    U64,
    S8,
    S16,
    S32,
    S64,
}

/// A named reference to a declared type: the name under which the document
/// declares it, and the builtin representation it resolves to.
#[derive(Debug)]
pub struct TypeRef {
    pub name: Id,
    pub ty: BuiltinType,
}

impl TypeRef {
    /// The type this reference resolves to.
    pub fn type_(&self) -> (t: BuiltinType)
        ensures
            t == self.ty,
    {
        self.ty
    }

    /// The printable name of the referenced type.
    pub fn ty_name(&self) -> (r: &str)
        ensures
            r@ == self.name@,
    {
        self.name.as_str()
    }
}

impl Clone for TypeRef {
    fn clone(&self) -> (r: Self)
        ensures
            r == *self,
    {
        TypeRef { name: self.name.clone(), ty: self.ty }
    }
}

/// One named, typed parameter or result of an interface function.
#[derive(Debug)]
pub struct InterfaceFuncParam {
    pub name: Id,
    pub tref: TypeRef,
}

impl Clone for InterfaceFuncParam {
    fn clone(&self) -> (r: Self)
        ensures
            r == *self,
    {
        InterfaceFuncParam { name: self.name.clone(), tref: self.tref.clone() }
    }
}

/// The mathematical shape of an interface function: its name and its ordered
/// parameter and result lists.
pub ghost struct FuncView {
    pub name: Seq<char>,
    pub params: Seq<InterfaceFuncParam>,
    pub results: Seq<InterfaceFuncParam>,
}

/// A named callable signature: ordered, named, typed input parameters and
/// ordered, named, typed result values.
#[derive(Debug)]
pub struct InterfaceFunc {
    pub name: Id,
    pub params: Vec<InterfaceFuncParam>,
    pub results: Vec<InterfaceFuncParam>,
}

impl View for InterfaceFunc {
    type V = FuncView;

    open spec fn view(&self) -> FuncView {
        FuncView { name: self.name@, params: self.params@, results: self.results@ }
    }
}

impl Clone for InterfaceFunc {
    fn clone(&self) -> (r: Self)
        ensures
            r@ == self@,
    {
        let params = self.params.clone();
        let results = self.results.clone();
        proof {
            assert forall|i: int| 0 <= i < params@.len() implies params@[i] == self.params@[i] by {
                assert(cloned::<InterfaceFuncParam>(self.params@[i], params@[i]));
            }
            assert(params@ =~= self.params@);
            assert forall|i: int| 0 <= i < results@.len() implies results@[i]
                == self.results@[i] by {
                assert(cloned::<InterfaceFuncParam>(self.results@[i], results@[i]));
            }
            assert(results@ =~= self.results@);
        }
        InterfaceFunc { name: self.name.clone(), params, results }
    }
}

/// The mathematical shape of a module: its name and its ordered function
/// declarations.
pub ghost struct ModuleView {
    pub name: Seq<char>,
    pub funcs: Seq<FuncView>,
}

/// A named group of interface functions forming one logical namespace.
#[derive(Debug)]
pub struct Module {
    pub name: Id,
    pub funcs: Vec<InterfaceFunc>,
}

impl View for Module {
    type V = ModuleView;

    open spec fn view(&self) -> ModuleView {
        ModuleView { name: self.name@, funcs: self.funcs@.map_values(|f: InterfaceFunc| f@) }
    }
}

impl Clone for Module {
    fn clone(&self) -> (r: Self)
        ensures
            r@ == self@,
    {
        let funcs = self.funcs.clone();
        proof {
            assert forall|i: int| 0 <= i < funcs@.len() implies funcs@[i]@ == self.funcs@[i]@ by {
                assert(cloned::<InterfaceFunc>(self.funcs@[i], funcs@[i]));
            }
            assert(funcs@.map_values(|f: InterfaceFunc| f@) =~= self.funcs@.map_values(
                |f: InterfaceFunc| f@,
            ));
        }
        Module { name: self.name.clone(), funcs }
    }
}

/// A parsed interface-definition document: a set of named modules. Never
/// mutated by the analysis.
#[derive(Debug)]
pub struct Document {
    pub modules: Vec<Module>,
}

impl View for Document {
    type V = Seq<ModuleView>;

    open spec fn view(&self) -> Seq<ModuleView> {
        self.modules@.map_values(|m: Module| m@)
    }
}

/// The first parameter or result in `ps` whose name is `name`, if any.
pub open spec fn find_param(ps: Seq<InterfaceFuncParam>, name: Seq<char>) -> Option<
    InterfaceFuncParam,
>
    decreases ps.len(),
{
    if ps.len() == 0 {
        None
    } else if ps[0].name@ == name {
        Some(ps[0])
    } else {
        find_param(ps.subrange(1, ps.len() as int), name)
    }
}

/// The first function in `fs` whose name is `name`, if any.
pub open spec fn find_func(fs: Seq<FuncView>, name: Seq<char>) -> Option<FuncView>
    decreases fs.len(),
{
    if fs.len() == 0 {
        None
    } else if fs[0].name == name {
        Some(fs[0])
    } else {
        find_func(fs.subrange(1, fs.len() as int), name)
    }
}

/// The first module in `ms` whose name is `name`, if any.
pub open spec fn find_module(ms: Seq<ModuleView>, name: Seq<char>) -> Option<ModuleView>
    decreases ms.len(),
{
    if ms.len() == 0 {
        None
    } else if ms[0].name == name {
        Some(ms[0])
    } else {
        find_module(ms.subrange(1, ms.len() as int), name)
    }
}

/// A found parameter carries the searched name and is an element of the list;
/// a missing name has no bearer in the list.
pub proof fn lemma_find_param(ps: Seq<InterfaceFuncParam>, name: Seq<char>)
    ensures
        find_param(ps, name) matches Some(p) ==> p.name@ == name && exists|i: int|
            0 <= i < ps.len() && ps[i] == p,
        find_param(ps, name) is None <==> forall|i: int| 0 <= i < ps.len() ==> ps[i].name@ != name,
    decreases ps.len(),
{
    if ps.len() > 0 && ps[0].name@ != name {
        let rest = ps.subrange(1, ps.len() as int);
        lemma_find_param(rest, name);
        if find_param(ps, name) is Some {
            let p = find_param(ps, name)->Some_0;
            let i = choose|i: int| 0 <= i < rest.len() && rest[i] == p;
            assert(ps[i + 1] == p);
        }
        assert forall|i: int| 0 <= i < ps.len() && ps[i].name@ == name implies find_param(
            ps,
            name,
        ) is Some by {
            if i > 0 {
                assert(rest[i - 1] == ps[i]);
            }
        }
    }
}

impl InterfaceFunc {
    /// Looks up a parameter of the given name in `ps`, first match by order.
    pub fn find_named<'a>(ps: &'a Vec<InterfaceFuncParam>, name: &Id) -> (r: Option<
        &'a InterfaceFuncParam,
    >)
        ensures
            match r {
                Some(p) => find_param(ps@, name@) == Some(*p),
                None => find_param(ps@, name@) is None,
            },
    {
        proof {
            assert(ps@.subrange(0, ps@.len() as int) =~= ps@);
        }
        let mut i: usize = 0;
        while i < ps.len()
            invariant
                0 <= i <= ps@.len(),
                find_param(ps@, name@) == find_param(ps@.subrange(i as int, ps@.len() as int), name@),
            decreases ps@.len() - i,
        {
            let tail = Ghost(ps@.subrange(i as int, ps@.len() as int));
            if ps[i].name.eq_id(name) {
                proof {
                    assert(tail@[0] == ps@[i as int]);
                }
                return Some(&ps[i]);
            }
            proof {
                assert(tail@[0] == ps@[i as int]);
                assert(tail@.subrange(1, tail@.len() as int) =~= ps@.subrange(
                    i + 1,
                    ps@.len() as int,
                ));
            }
            i = i + 1;
        }
        proof {
            assert(ps@.subrange(i as int, ps@.len() as int).len() == 0);
        }
        None
    }
}

impl Module {
    /// Looks up a function of the given name, first match in declaration
    /// order.
    pub fn func<'a>(&'a self, name: &Id) -> (r: Option<&'a InterfaceFunc>)
        ensures
            match r {
                Some(f) => find_func(self@.funcs, name@) == Some(f@),
                None => find_func(self@.funcs, name@) is None,
            },
    {
        let fs = &self.funcs;
        proof {
            assert(self@.funcs.subrange(0, self@.funcs.len() as int) =~= self@.funcs);
        }
        let mut i: usize = 0;
        while i < fs.len()
            invariant
                0 <= i <= fs@.len(),
                fs@.map_values(|f: InterfaceFunc| f@) == self@.funcs,
                find_func(self@.funcs, name@) == find_func(
                    self@.funcs.subrange(i as int, self@.funcs.len() as int),
                    name@,
                ),
            decreases fs@.len() - i,
        {
            let tail = Ghost(self@.funcs.subrange(i as int, self@.funcs.len() as int));
            if fs[i].name.eq_id(name) {
                proof {
                    assert(tail@[0] == self@.funcs[i as int]);
                }
                return Some(&fs[i]);
            }
            proof {
                assert(tail@[0] == self@.funcs[i as int]);
                assert(tail@.subrange(1, tail@.len() as int) =~= self@.funcs.subrange(
                    i + 1,
                    self@.funcs.len() as int,
                ));
            }
            i = i + 1;
        }
        None
    }
}

impl Document {
    /// Looks up a module of the given name, first match in document order.
    pub fn module<'a>(&'a self, name: &Id) -> (r: Option<&'a Module>)
        ensures
            match r {
                Some(m) => find_module(self@, name@) == Some(m@),
                None => find_module(self@, name@) is None,
            },
    {
        let ms = &self.modules;
        proof {
            assert(self@.subrange(0, self@.len() as int) =~= self@);
        }
        let mut i: usize = 0;
        while i < ms.len()
            invariant
                0 <= i <= ms@.len(),
                ms@.map_values(|m: Module| m@) == self@,
                find_module(self@, name@) == find_module(
                    self@.subrange(i as int, self@.len() as int),
                    name@,
                ),
            decreases ms@.len() - i,
        {
            let tail = Ghost(self@.subrange(i as int, self@.len() as int));
            if ms[i].name.eq_id(name) {
                proof {
                    assert(tail@[0] == self@[i as int]);
                }
                return Some(&ms[i]);
            }
            proof {
                assert(tail@[0] == self@[i as int]);
                assert(tail@.subrange(1, tail@.len() as int) =~= self@.subrange(
                    i + 1,
                    self@.len() as int,
                ));
            }
            i = i + 1;
        }
        None
    }
}

} // verus!
