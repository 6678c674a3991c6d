//! The symbol environment: a table of global variables, a table of
//! functions, and a stack of lexical scopes for local variables.
//!
//! The scopes are kept in one list of bindings, innermost last, together with
//! the list of places where each open scope starts.
use vstd::prelude::*;
use crate::ast::Type;
use crate::error::ErrorType;
use crate::ir::{Callee, Runtime, Value};

verus! {

/// A variable: its name, its type, and the address of its storage slot.
#[derive(Debug)]
pub struct Binding {
    pub name: String,
    pub ty: Type,
    pub slot: Value,
}

/// A function of the program: its name, its return type, and its number.
#[derive(Debug)]
pub struct FunctionBinding {
    pub name: String,
    pub ret: Type,
    pub index: usize,
}

/// What a name stands for.
#[derive(Debug, PartialEq, Eq, Clone, Copy, Structural)]
pub enum Resolved {
    /// A variable: its type and the address of its slot.
    Variable(Type, Value),
    /// A function: its return type and its handle.
    Function(Type, Callee),
    NotFound,
}

/// The symbol environment as a mathematical value.
pub struct Symbols {
    /// The global variables, in the order of their declarations.
    pub globals: Seq<Binding>,
    /// The functions of the program, in the order of their declarations.
    pub functions: Seq<FunctionBinding>,
    /// The local variables of all open scopes, innermost last.
    pub locals: Seq<Binding>,
    /// For each open scope, outermost first, the number of local variables
    /// that were bound when it was opened.
    pub frames: Seq<nat>,
}

/// The symbol environment.
#[derive(Debug)]
pub struct SymbolTable {
    globals: Vec<Binding>,
    functions: Vec<FunctionBinding>,
    locals: Vec<Binding>,
    frames: Vec<usize>,
}

/// The routine of the runtime that goes by `name`, if there is one.
pub open spec fn runtime_named(name: Seq<char>) -> Option<Runtime> {
    if name == "input"@ {
        Some(Runtime::Input)
    } else if name == "output"@ {
        Some(Runtime::Output)
    } else {
        None
    }
}

/// The return type of a routine of the runtime.
pub open spec fn runtime_return(routine: Runtime) -> Type {
    match routine {
        Runtime::Input => Type::Int,
        Runtime::Output => Type::Void,
    }
}

/// The place of the last binding of `name` at or after `from`.
pub open spec fn find_last(bindings: Seq<Binding>, name: Seq<char>, from: int) -> Option<int>
    decreases bindings.len(),
{
    if bindings.len() == 0 || bindings.len() <= from {
        None
    } else if bindings.last().name@ == name {
        Some(bindings.len() - 1)
    } else {
        find_last(bindings.drop_last(), name, from)
    }
}

/// The place of the function called `name`.
pub open spec fn find_function(functions: Seq<FunctionBinding>, name: Seq<char>) -> Option<int>
    decreases functions.len(),
{
    if functions.len() == 0 {
        None
    } else if functions.last().name@ == name {
        Some(functions.len() - 1)
    } else {
        find_function(functions.drop_last(), name)
    }
}

/// What `find_last` finds is a binding of the name, and no later binding has
/// that name; where it finds nothing, no binding from `from` on has the name.
pub proof fn lemma_find_last(bindings: Seq<Binding>, name: Seq<char>, from: int)
    requires
        0 <= from,
    ensures
        match find_last(bindings, name, from) {
            Some(i) => from <= i < bindings.len() && bindings[i].name@ == name && forall|j: int|
                i < j < bindings.len() ==> (#[trigger] bindings[j]).name@ != name,
            None => forall|j: int|
                from <= j < bindings.len() ==> (#[trigger] bindings[j]).name@ != name,
        },
    decreases bindings.len(),
{
    if bindings.len() == 0 || bindings.len() <= from {
    } else if bindings.last().name@ == name {
    } else {
        lemma_find_last(bindings.drop_last(), name, from);
        let rest = bindings.drop_last();
        assert forall|j: int| 0 <= j < rest.len() implies rest[j] == bindings[j] by {}
        match find_last(rest, name, from) {
            Some(i) => {
                assert forall|j: int| i < j < bindings.len() implies (#[trigger] bindings[j]).name@
                    != name by {
                    if j < rest.len() {
                        assert(rest[j] == bindings[j]);
                    }
                }
            },
            None => {
                assert forall|j: int| from <= j < bindings.len() implies (
                #[trigger] bindings[j]).name@ != name by {
                    if j < rest.len() {
                        assert(rest[j] == bindings[j]);
                    }
                }
            },
        }
    }
}

/// What `find_function` finds is a function of the name; where it finds
/// nothing, no function has the name.
pub proof fn lemma_find_function(functions: Seq<FunctionBinding>, name: Seq<char>)
    ensures
        match find_function(functions, name) {
            Some(i) => 0 <= i < functions.len() && functions[i].name@ == name,
            None => forall|j: int|
                0 <= j < functions.len() ==> (#[trigger] functions[j]).name@ != name,
        },
    decreases functions.len(),
{
    if functions.len() == 0 {
    } else if functions.last().name@ == name {
    } else {
        lemma_find_function(functions.drop_last(), name);
        let rest = functions.drop_last();
        if find_function(rest, name) is None {
            assert forall|j: int| 0 <= j < functions.len() implies (
            #[trigger] functions[j]).name@ != name by {
                if j < rest.len() {
                    assert(rest[j] == functions[j]);
                }
            }
        }
    }
}

impl Symbols {
    /// The environment of a module in which nothing is declared yet.
    pub open spec fn empty() -> Symbols {
        Symbols { globals: Seq::empty(), functions: Seq::empty(), locals: Seq::empty(), frames: Seq::empty() }
    }

    /// Where the innermost scope starts among the local variables.
    pub open spec fn top_start(self) -> int {
        if self.frames.len() == 0 {
            0
        } else {
            self.frames.last() as int
        }
    }

    /// The scopes nest: each starts within the list of local variables and
    /// not before the scope around it; no local variable is outside a scope;
    /// and no name is bound twice in one scope, nor twice at module level.
    pub open spec fn wf(self) -> bool {
        &&& forall|k: int| 0 <= k < self.frames.len() ==> (#[trigger] self.frames[k]) <= self.locals.len()
        &&& forall|k: int, l: int|
            0 <= k < l < self.frames.len() ==> (#[trigger] self.frames[k]) <= (#[trigger] self.frames[l])
        &&& self.frames.len() == 0 ==> self.locals.len() == 0
        &&& self.frames.len() > 0 ==> self.frames[0] == 0
        &&& forall|i: int, j: int|
            0 <= i < j < self.locals.len() && (#[trigger] self.locals[i]).name@ == (
            #[trigger] self.locals[j]).name@ ==> self.split_between(i, j)
        &&& forall|i: int, j: int|
            0 <= i < j < self.globals.len() ==> (#[trigger] self.globals[i]).name@ != (
            #[trigger] self.globals[j]).name@
        &&& forall|i: int, j: int|
            0 <= i < j < self.functions.len() ==> (#[trigger] self.functions[i]).name@ != (
            #[trigger] self.functions[j]).name@
        &&& forall|i: int, j: int|
            0 <= i < self.globals.len() && 0 <= j < self.functions.len() ==> (
            #[trigger] self.globals[i]).name@ != (#[trigger] self.functions[j]).name@
        &&& forall|i: int|
            0 <= i < self.globals.len() ==> runtime_named((#[trigger] self.globals[i]).name@) is None
        &&& forall|i: int|
            0 <= i < self.functions.len() ==> runtime_named((#[trigger] self.functions[i]).name@) is None
    }

    /// Some scope starts after the local variable `i` and not after `j`: the
    /// two are bound in different scopes.
    pub open spec fn split_between(self, i: int, j: int) -> bool {
        exists|k: int| 0 <= k < self.frames.len() && i < #[trigger] self.frames[k] <= j
    }

    /// Whether `name` is taken at module level: by a global variable, by a
    /// function of the program, or by a routine of the runtime.
    pub open spec fn taken_globally(self, name: Seq<char>) -> bool {
        find_last(self.globals, name, 0) is Some || find_function(self.functions, name) is Some
            || runtime_named(name) is Some
    }

    /// Whether `name` is bound in the innermost scope.
    pub open spec fn bound_in_top(self, name: Seq<char>) -> bool {
        find_last(self.locals, name, self.top_start()) is Some
    }

    /// The environment with one more scope, which is empty.
    pub open spec fn push_scope(self) -> Symbols {
        Symbols { frames: self.frames.push(self.locals.len()), ..self }
    }

    /// The environment without its innermost scope and the variables bound in it.
    pub open spec fn pop_scope(self) -> Symbols {
        Symbols {
            locals: if self.top_start() <= self.locals.len() {
                self.locals.take(self.top_start())
            } else {
                self.locals
            },
            frames: if self.frames.len() > 0 {
                self.frames.drop_last()
            } else {
                self.frames
            },
            ..self
        }
    }

    /// The environment with `binding` added to the innermost scope.
    pub open spec fn declare_local(self, binding: Binding) -> Symbols {
        Symbols { locals: self.locals.push(binding), ..self }
    }

    /// The environment with one more global variable.
    pub open spec fn declare_global_var(self, binding: Binding) -> Symbols {
        Symbols { globals: self.globals.push(binding), ..self }
    }

    /// The environment with one more function.
    pub open spec fn declare_function(self, binding: FunctionBinding) -> Symbols {
        Symbols { functions: self.functions.push(binding), ..self }
    }

    /// The variable that `name` stands for: the binding in the innermost
    /// scope that has one, else the global variable.
    pub open spec fn lookup_variable(self, name: Seq<char>) -> Option<Binding> {
        match find_last(self.locals, name, 0) {
            Some(i) => Some(self.locals[i]),
            None => match find_last(self.globals, name, 0) {
                Some(i) => Some(self.globals[i]),
                None => None,
            },
        }
    }

    /// The function that `name` stands for: its return type and its handle.
    pub open spec fn lookup_function(self, name: Seq<char>) -> Option<(Type, Callee)> {
        match runtime_named(name) {
            Some(routine) => Some((runtime_return(routine), Callee::Runtime(routine))),
            None => match find_function(self.functions, name) {
                Some(i) => Some((self.functions[i].ret, Callee::Defined(self.functions[i].index))),
                None => None,
            },
        }
    }

    /// What `name` stands for: a variable where one is in sight, else a
    /// function, else nothing.
    pub open spec fn resolve(self, name: Seq<char>) -> Resolved {
        match self.lookup_variable(name) {
            Some(b) => Resolved::Variable(b.ty, b.slot),
            None => match self.lookup_function(name) {
                Some((ret, callee)) => Resolved::Function(ret, callee),
                None => Resolved::NotFound,
            },
        }
    }
}

/// Whether `inner` is `outer` with more variables bound in the innermost scope.
pub open spec fn extends(inner: Symbols, outer: Symbols) -> bool {
    &&& inner.frames == outer.frames
    &&& inner.globals == outer.globals
    &&& inner.functions == outer.functions
    &&& outer.locals.len() <= inner.locals.len()
    &&& inner.locals.take(outer.locals.len() as int) == outer.locals
}

/// A name refers to its innermost binding: where a local variable is found,
/// no variable bound later, in the same scope or in one inside it, has the
/// name; a global variable is found only where no open scope binds the name.
pub proof fn lemma_lookup_is_innermost(s: Symbols, name: Seq<char>)
    ensures
        match find_last(s.locals, name, 0) {
            Some(i) => s.lookup_variable(name) == Some(s.locals[i]) && s.locals[i].name@ == name
                && forall|j: int| i < j < s.locals.len() ==> (#[trigger] s.locals[j]).name@ != name,
            None => (forall|j: int| 0 <= j < s.locals.len() ==> (#[trigger] s.locals[j]).name@ != name)
                && (s.lookup_variable(name) matches Some(b) ==> exists|i: int|
                    0 <= i < s.globals.len() && s.globals[i] == b && b.name@ == name),
        },
{
    lemma_find_last(s.locals, name, 0);
    lemma_find_last(s.globals, name, 0);
}

/// Leaving a scope undoes everything that was bound in it: whatever was
/// declared after a scope was opened, closing it gives back the environment
/// as it was before, so that every name resolves as it did then.
pub proof fn lemma_scope_exit_restores(before: Symbols, inside: Symbols, name: Seq<char>)
    requires
        inside.frames == before.push_scope().frames,
        inside.globals == before.globals,
        inside.functions == before.functions,
        before.locals.len() <= inside.locals.len(),
        inside.locals.take(before.locals.len() as int) == before.locals,
    ensures
        inside.pop_scope() == before,
        inside.pop_scope().resolve(name) == before.resolve(name),
{
    assert(inside.frames.drop_last() =~= before.frames);
    assert(inside.top_start() == before.locals.len());
}

/// The routine of the runtime that goes by `name`, if there is one.
pub fn runtime_of(name: &String) -> (r: Option<Runtime>)
    ensures
        r == runtime_named(name@),
{
    let input = "input".to_owned();
    let output = "output".to_owned();
    if *name == input {
        Some(Runtime::Input)
    } else if *name == output {
        Some(Runtime::Output)
    } else {
        None
    }
}

/// The place of the last binding of `name` at or after `from`.
pub fn find_binding(bindings: &Vec<Binding>, name: &String, from: usize) -> (r: Option<usize>)
    ensures
        r matches Some(i) ==> i < bindings.len() && find_last(bindings@, name@, from as int)
            == Some(i as int),
        r is None ==> find_last(bindings@, name@, from as int) is None,
{
    let mut i: usize = bindings.len();
    assert(bindings@.take(i as int) =~= bindings@);
    while i > from
        invariant
            i <= bindings.len(),
            find_last(bindings@, name@, from as int) == find_last(
                bindings@.take(i as int),
                name@,
                from as int,
            ),
        decreases i,
    {
        assert(bindings@.take(i as int).last() == bindings@[i - 1]);
        assert(bindings@.take(i as int).drop_last() =~= bindings@.take(i - 1));
        if bindings[i - 1].name == *name {
            return Some(i - 1);
        }
        i -= 1;
    }
    None
}

/// The place of the function called `name`.
pub fn find_function_binding(functions: &Vec<FunctionBinding>, name: &String) -> (r: Option<usize>)
    ensures
        r matches Some(i) ==> i < functions.len() && find_function(functions@, name@) == Some(
            i as int,
        ),
        r is None ==> find_function(functions@, name@) is None,
{
    let mut i: usize = functions.len();
    assert(functions@.take(i as int) =~= functions@);
    while i > 0
        invariant
            i <= functions.len(),
            find_function(functions@, name@) == find_function(functions@.take(i as int), name@),
        decreases i,
    {
        assert(functions@.take(i as int).last() == functions@[i - 1]);
        assert(functions@.take(i as int).drop_last() =~= functions@.take(i - 1));
        if functions[i - 1].name == *name {
            return Some(i - 1);
        }
        i -= 1;
    }
    None
}

impl View for SymbolTable {
    type V = Symbols;

    closed spec fn view(&self) -> Symbols {
        Symbols {
            globals: self.globals@,
            functions: self.functions@,
            locals: self.locals@,
            frames: self.frames@.map_values(|start: usize| start as nat),
        }
    }
}

impl SymbolTable {
    /// The environment of a module in which nothing is declared yet.
    pub fn new() -> (r: Self)
        ensures
            r@ == Symbols::empty(),
            r@.wf(),
    {
        let r = SymbolTable {
            globals: Vec::new(),
            functions: Vec::new(),
            locals: Vec::new(),
            frames: Vec::new(),
        };
        assert(r@.globals =~= Seq::empty());
        assert(r@.functions =~= Seq::empty());
        assert(r@.locals =~= Seq::empty());
        assert(r@.frames =~= Seq::empty());
        r
    }

    /// The number of global variables.
    pub fn global_count(&self) -> (r: usize)
        ensures
            r == self@.globals.len(),
    {
        self.globals.len()
    }

    /// The number of functions of the program.
    pub fn function_count(&self) -> (r: usize)
        ensures
            r == self@.functions.len(),
    {
        self.functions.len()
    }

    /// The number of open scopes.
    pub fn depth(&self) -> (r: usize)
        ensures
            r == self@.frames.len(),
    {
        self.frames.len()
    }

    /// Opens a scope inside the innermost one.
    pub fn push_scope(&mut self)
        requires
            old(self)@.wf(),
        ensures
            final(self)@ == old(self)@.push_scope(),
            final(self)@.wf(),
    {
        let start = self.locals.len();
        self.frames.push(start);
        proof {
            let a = old(self)@;
            let b = self@;
            assert(b.frames =~= a.frames.push(start as nat));
            assert forall|i: int, j: int|
                0 <= i < j < b.locals.len() && (#[trigger] b.locals[i]).name@ == (
                #[trigger] b.locals[j]).name@ implies b.split_between(i, j) by {
                assert(a.split_between(i, j));
                let k = choose|k: int| 0 <= k < a.frames.len() && i < #[trigger] a.frames[k] <= j;
                assert(b.frames[k] == a.frames[k]);
            }
        }
    }

    /// Closes the innermost scope: the variables bound in it are forgotten.
    pub fn pop_scope(&mut self)
        requires
            old(self)@.wf(),
            old(self)@.frames.len() > 0,
        ensures
            final(self)@ == old(self)@.pop_scope(),
            final(self)@.wf(),
    {
        let start = self.frames.pop().unwrap();
        self.locals.truncate(start);
        proof {
            let a = old(self)@;
            let b = self@;
            assert(b.locals =~= a.locals.take(a.top_start()));
            assert(b.frames =~= a.frames.drop_last());
            assert forall|i: int, j: int|
                0 <= i < j < b.locals.len() && (#[trigger] b.locals[i]).name@ == (
                #[trigger] b.locals[j]).name@ implies b.split_between(i, j) by {
                assert(a.locals[i] == b.locals[i] && a.locals[j] == b.locals[j]);
                assert(a.split_between(i, j));
                let k = choose|k: int| 0 <= k < a.frames.len() && i < #[trigger] a.frames[k] <= j;
                assert(k < a.frames.len() - 1);
                assert(b.frames[k] == a.frames[k]);
            }
            if b.frames.len() > 0 {
                assert(b.frames[0] == a.frames[0]);
            } else {
                assert(a.frames.last() == a.frames[0]);
            }
        }
    }

    /// Whether `name` is bound in the innermost scope.
    pub fn bound_in_top(&self, name: &String) -> (r: bool)
        ensures
            r == self@.bound_in_top(name@),
    {
        let start = if self.frames.len() == 0 {
            0
        } else {
            self.frames[self.frames.len() - 1]
        };
        find_binding(&self.locals, name, start).is_some()
    }

    /// Whether `name` is taken at module level.
    pub fn taken_globally(&self, name: &String) -> (r: bool)
        ensures
            r == self@.taken_globally(name@),
    {
        find_binding(&self.globals, name, 0).is_some() || find_function_binding(
            &self.functions,
            name,
        ).is_some() || runtime_of(name).is_some()
    }

    /// Binds a variable in the innermost scope, unless the scope has the name.
    pub fn declare_local(&mut self, name: &String, ty: Type, slot: Value) -> (r: Result<
        (),
        ErrorType,
    >)
        requires
            old(self)@.wf(),
            old(self)@.frames.len() > 0,
        ensures
            final(self)@.wf(),
            old(self)@.bound_in_top(name@) ==> r == Err::<(), ErrorType>(
                ErrorType::VariableRedefinition,
            ) && final(self)@ == old(self)@,
            !old(self)@.bound_in_top(name@) ==> r is Ok && final(self)@ == old(self)@.declare_local(
                Binding { name: *name, ty, slot },
            ),
    {
        if self.bound_in_top(name) {
            return Err(ErrorType::VariableRedefinition);
        }
        self.locals.push(Binding { name: name.clone(), ty, slot });
        proof {
            let a = old(self)@;
            let b = self@;
            lemma_find_last(a.locals, name@, a.top_start());
            assert forall|i: int, j: int|
                0 <= i < j < b.locals.len() && (#[trigger] b.locals[i]).name@ == (
                #[trigger] b.locals[j]).name@ implies b.split_between(i, j) by {
                if j < a.locals.len() {
                    assert(a.locals[i] == b.locals[i] && a.locals[j] == b.locals[j]);
                    assert(a.split_between(i, j));
                    let k = choose|k: int|
                        0 <= k < a.frames.len() && i < #[trigger] a.frames[k] <= j;
                    assert(b.frames[k] == a.frames[k]);
                } else {
                    assert(a.locals[i] == b.locals[i]);
                    assert(i < a.top_start());
                    assert(i < b.frames[b.frames.len() - 1] <= j);
                }
            }
        }
        Ok(())
    }

    /// Adds a global variable, unless the name is taken at module level.
    pub fn declare_global_var(&mut self, name: &String, ty: Type, slot: Value) -> (r: Result<
        (),
        ErrorType,
    >)
        requires
            old(self)@.wf(),
        ensures
            final(self)@.wf(),
            old(self)@.taken_globally(name@) ==> r == Err::<(), ErrorType>(
                ErrorType::VariableRedefinition,
            ) && final(self)@ == old(self)@,
            !old(self)@.taken_globally(name@) ==> r is Ok && final(self)@ == old(
                self,
            )@.declare_global_var(Binding { name: *name, ty, slot }),
    {
        if self.taken_globally(name) {
            return Err(ErrorType::VariableRedefinition);
        }
        self.globals.push(Binding { name: name.clone(), ty, slot });
        proof {
            let a = old(self)@;
            let b = self@;
            lemma_find_last(a.globals, name@, 0);
            lemma_find_function(a.functions, name@);
            assert forall|i: int, j: int| 0 <= i < j < b.globals.len() implies (
            #[trigger] b.globals[i]).name@ != (#[trigger] b.globals[j]).name@ by {
                assert(a.globals[i] == b.globals[i]);
                if j < a.globals.len() {
                    assert(a.globals[j] == b.globals[j]);
                }
            }
            assert forall|i: int, j: int|
                0 <= i < b.globals.len() && 0 <= j < b.functions.len() implies (
            #[trigger] b.globals[i]).name@ != (#[trigger] b.functions[j]).name@ by {
                if i < a.globals.len() {
                    assert(a.globals[i] == b.globals[i]);
                }
            }
            assert forall|i: int| 0 <= i < b.globals.len() implies runtime_named(
                (#[trigger] b.globals[i]).name@,
            ) is None by {
                if i < a.globals.len() {
                    assert(a.globals[i] == b.globals[i]);
                }
            }
        }
        Ok(())
    }

    /// Adds a function, unless the name is taken at module level.
    pub fn declare_function(&mut self, name: &String, ret: Type, index: usize) -> (r: Result<
        (),
        ErrorType,
    >)
        requires
            old(self)@.wf(),
        ensures
            final(self)@.wf(),
            old(self)@.taken_globally(name@) ==> r == Err::<(), ErrorType>(
                ErrorType::FunctionRedefinition,
            ) && final(self)@ == old(self)@,
            !old(self)@.taken_globally(name@) ==> r is Ok && final(self)@ == old(
                self,
            )@.declare_function(FunctionBinding { name: *name, ret, index }),
    {
        if self.taken_globally(name) {
            return Err(ErrorType::FunctionRedefinition);
        }
        self.functions.push(FunctionBinding { name: name.clone(), ret, index });
        proof {
            let a = old(self)@;
            let b = self@;
            lemma_find_last(a.globals, name@, 0);
            lemma_find_function(a.functions, name@);
            assert forall|i: int, j: int| 0 <= i < j < b.functions.len() implies (
            #[trigger] b.functions[i]).name@ != (#[trigger] b.functions[j]).name@ by {
                assert(a.functions[i] == b.functions[i]);
                if j < a.functions.len() {
                    assert(a.functions[j] == b.functions[j]);
                }
            }
            assert forall|i: int, j: int|
                0 <= i < b.globals.len() && 0 <= j < b.functions.len() implies (
            #[trigger] b.globals[i]).name@ != (#[trigger] b.functions[j]).name@ by {
                if j < a.functions.len() {
                    assert(a.functions[j] == b.functions[j]);
                }
            }
            assert forall|i: int| 0 <= i < b.functions.len() implies runtime_named(
                (#[trigger] b.functions[i]).name@,
            ) is None by {
                if i < a.functions.len() {
                    assert(a.functions[i] == b.functions[i]);
                }
            }
        }
        Ok(())
    }

    /// The variable that `name` stands for: its type and the address of its slot.
    pub fn lookup_variable(&self, name: &String) -> (r: Option<(Type, Value)>)
        ensures
            r == match self@.lookup_variable(name@) {
                Some(b) => Some((b.ty, b.slot)),
                None => None,
            },
    {
        proof {
            lemma_find_last(self@.locals, name@, 0);
            lemma_find_last(self@.globals, name@, 0);
        }
        match find_binding(&self.locals, name, 0) {
            Some(i) => Some((self.locals[i].ty, self.locals[i].slot)),
            None => match find_binding(&self.globals, name, 0) {
                Some(i) => Some((self.globals[i].ty, self.globals[i].slot)),
                None => None,
            },
        }
    }

    /// The function that `name` stands for: its return type and its handle.
    pub fn lookup_function(&self, name: &String) -> (r: Option<(Type, Callee)>)
        ensures
            r == self@.lookup_function(name@),
    {
        proof {
            lemma_find_function(self@.functions, name@);
        }
        match runtime_of(name) {
            Some(Runtime::Input) => Some((Type::Int, Callee::Runtime(Runtime::Input))),
            Some(Runtime::Output) => Some((Type::Void, Callee::Runtime(Runtime::Output))),
            None => match find_function_binding(&self.functions, name) {
                Some(i) => Some((self.functions[i].ret, Callee::Defined(self.functions[i].index))),
                None => None,
            },
        }
    }

    /// What `name` stands for: the innermost variable of that name, else the
    /// function of that name, else nothing.
    pub fn resolve(&self, name: &String) -> (r: Resolved)
        ensures
            r == self@.resolve(name@),
    {
        match self.lookup_variable(name) {
            Some((ty, slot)) => Resolved::Variable(ty, slot),
            None => match self.lookup_function(name) {
                Some((ret, callee)) => Resolved::Function(ret, callee),
                None => Resolved::NotFound,
            },
        }
    }
}

} // verus!
