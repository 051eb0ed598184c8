use vstd::prelude::*;
use crate::bytecode::Bytecode;

verus! {

/// A local variable: the slot of its frame that holds it, and whether it may
/// be assigned to.
#[derive(Debug, Clone, Copy, PartialEq, Eq, Structural)]
pub struct Variable {
    pub key: Bytecode,
    pub is_constant: bool,
}

/// A name of a scope and the variable that it names.
#[derive(Debug)]
pub struct Binding {
    pub name: String,
    pub variable: Variable,
}

/// A lexical scope and the scopes around it. The scope of a function body,
/// and the outermost scope, begin a frame.
#[derive(Debug)]
pub struct Env {
    pub enclosing: Option<Box<Env>>,
    pub variables: Vec<Binding>,
    pub frame_beginning: bool,
}

/// The names of a scope, each with its variable, in the order in which they
/// were first bound.
pub type Names = Seq<(Seq<char>, Variable)>;

/// One scope: whether it begins a frame, and its names.
pub struct Scope {
    pub frame_beginning: bool,
    pub variables: Names,
}

/// The index of the first binding of a name at or after `from`, or the number
/// of bindings.
pub open spec fn position(variables: Names, key: Seq<char>, from: int) -> int
    decreases variables.len() - from,
{
    if from < 0 || from >= variables.len() {
        variables.len() as int
    } else if variables[from].0 == key {
        from
    } else {
        position(variables, key, from + 1)
    }
}

/// The variable that a name names in a scope.
pub open spec fn lookup(variables: Names, key: Seq<char>) -> Option<Variable> {
    if position(variables, key, 0) < variables.len() {
        Some(variables[position(variables, key, 0)].1)
    } else {
        None
    }
}

/// The names of a scope after a name is bound: its binding is replaced, or
/// a binding is added after the last.
pub open spec fn bind(variables: Names, key: Seq<char>, variable: Variable) -> Names {
    let at = position(variables, key, 0);
    if at < variables.len() {
        variables.update(at, (key, variable))
    } else {
        variables.push((key, variable))
    }
}

/// The variable that a name names: the scopes are searched from the
/// innermost, which is the last, outward, up to and with the scope that
/// begins the frame.
pub open spec fn scopes_get(scopes: Seq<Scope>, key: Seq<char>) -> Option<Variable>
    decreases scopes.len(),
{
    if scopes.len() == 0 {
        None
    } else if scopes.last().frame_beginning || scopes.len() == 1 {
        lookup(scopes.last().variables, key)
    } else {
        match lookup(scopes.last().variables, key) {
            Some(variable) => Some(variable),
            None => scopes_get(scopes.drop_last(), key),
        }
    }
}

/// The number of names bound in the scopes of the current frame, which is
/// the slot that the next variable takes. It stops at the largest number
/// that the machine counts to.
pub open spec fn scopes_slot(scopes: Seq<Scope>) -> nat
    decreases scopes.len(),
{
    if scopes.len() == 0 {
        0
    } else if scopes.last().frame_beginning || scopes.len() == 1 {
        scopes.last().variables.len()
    } else if scopes.last().variables.len() + scopes_slot(scopes.drop_last()) > usize::MAX {
        usize::MAX as nat
    } else {
        scopes.last().variables.len() + scopes_slot(scopes.drop_last())
    }
}

/// The scopes after a name is bound in the innermost to the next slot of the
/// frame.
pub open spec fn scopes_bind(scopes: Seq<Scope>, key: Seq<char>, is_constant: bool) -> Seq<Scope> {
    scopes.update(
        scopes.len() - 1,
        Scope {
            frame_beginning: scopes.last().frame_beginning,
            variables: bind(
                scopes.last().variables,
                key,
                Variable { key: (scopes_slot(scopes) % 256) as u8, is_constant: is_constant },
            ),
        },
    )
}

pub proof fn lemma_position(variables: Names, key: Seq<char>, from: int)
    requires
        0 <= from <= variables.len(),
    ensures
        from <= position(variables, key, from) <= variables.len(),
        position(variables, key, from) < variables.len() ==> variables[position(
            variables,
            key,
            from,
        )].0 == key,
        forall|i: int| from <= i < position(variables, key, from) ==> variables[i].0 != key,
    decreases variables.len() - from,
{
    if from < variables.len() && variables[from].0 != key {
        lemma_position(variables, key, from + 1);
    }
}

pub proof fn lemma_position_is(variables: Names, key: Seq<char>, from: int, at: int)
    requires
        0 <= from <= at <= variables.len(),
        at < variables.len() ==> variables[at].0 == key,
        forall|i: int| from <= i < at ==> variables[i].0 != key,
    ensures
        position(variables, key, from) == at,
    decreases at - from,
{
    if from < at {
        lemma_position_is(variables, key, from + 1, at);
    }
}

/// The names of bindings, each with its variable.
pub open spec fn names_of(variables: Seq<Binding>) -> Names {
    Seq::new(variables.len(), |i: int| (variables[i].name@, variables[i].variable))
}

impl Env {
    /// This scope, without those around it.
    pub open spec fn scope(&self) -> Scope {
        Scope { frame_beginning: self.frame_beginning, variables: names_of(self.variables@) }
    }

    /// The scopes, outermost first.
    pub open spec fn view(&self) -> Seq<Scope>
        decreases self,
    {
        match self.enclosing {
            None => seq![self.scope()],
            Some(enclosing) => enclosing.view().push(self.scope()),
        }
    }

    pub proof fn lemma_view(&self)
        ensures
            self@.len() >= 1,
            self@.last() == self.scope(),
            self.enclosing matches Some(enclosing) ==> self@.drop_last() == enclosing@,
            self.enclosing is None ==> self@.len() == 1,
        decreases self,
    {
        match self.enclosing {
            None => {},
            Some(enclosing) => {
                enclosing.lemma_view();
                assert(self@.drop_last() =~= enclosing@);
            },
        }
    }

    /// A scope within the frame of the scope around it.
    pub fn new_local(env: Box<Env>) -> (scope: Self)
        ensures
            scope.enclosing == Some(env),
            scope@ == env@.push(Scope { frame_beginning: false, variables: Seq::empty() }),
    {
        let scope = Self { enclosing: Some(env), variables: Vec::new(), frame_beginning: false };
        assert(names_of(scope.variables@) =~= Seq::empty());
        scope
    }

    /// A scope that begins a frame of its own.
    pub fn new_frame(env: Box<Env>) -> (scope: Self)
        ensures
            scope.enclosing == Some(env),
            scope@ == env@.push(Scope { frame_beginning: true, variables: Seq::empty() }),
    {
        let scope = Self { enclosing: Some(env), variables: Vec::new(), frame_beginning: true };
        assert(names_of(scope.variables@) =~= Seq::empty());
        scope
    }

    /// The outermost scope.
    pub fn new() -> (scope: Self)
        ensures
            scope.enclosing.is_none(),
            scope@ == seq![Scope { frame_beginning: true, variables: Seq::empty() }],
    {
        let scope = Self { enclosing: None, variables: Vec::new(), frame_beginning: true };
        assert(names_of(scope.variables@) =~= Seq::empty());
        scope
    }

    fn find(&self, key: &String) -> (at: usize)
        ensures
            at == position(names_of(self.variables@), key@, 0),
            at <= self.variables.len(),
    {
        let mut i: usize = 0;
        while i < self.variables.len()
            invariant
                i <= self.variables.len(),
                forall|j: int| 0 <= j < i ==> self.variables[j].name@ != key@,
            decreases self.variables.len() - i,
        {
            if self.variables[i].name == *key {
                proof {
                    lemma_position_is(names_of(self.variables@), key@, 0, i as int);
                }
                return i;
            }
            i = i + 1;
        }
        proof {
            lemma_position_is(names_of(self.variables@), key@, 0, i as int);
        }
        i
    }

    pub fn get_variable(&self, key: &String) -> (variable: Option<Variable>)
        ensures
            variable == scopes_get(self@, key@),
        decreases self,
    {
        proof {
            self.lemma_view();
        }
        let at = self.find(key);
        let here = if at < self.variables.len() {
            Some(self.variables[at].variable)
        } else {
            None
        };
        if self.frame_beginning || self.enclosing.is_none() {
            return here;
        }
        if here.is_none() {
            if let Some(enclosing) = &self.enclosing {
                return enclosing.get_variable(key);
            } else {
                return None;
            }
        }
        here
    }

    pub fn compute_var_key(&self) -> (key: usize)
        ensures
            key == scopes_slot(self@),
        decreases self,
    {
        proof {
            self.lemma_view();
        }
        if self.frame_beginning {
            return self.variables.len();
        }
        if let Some(enc) = &self.enclosing {
            let outer = enc.compute_var_key();
            if self.variables.len() > usize::MAX - outer {
                return usize::MAX;
            }
            return self.variables.len() + outer;
        }
        self.variables.len()
    }

    fn set_variable_internal(&mut self, key: String, is_constant: bool)
        ensures
            final(self).enclosing == old(self).enclosing,
            final(self)@ == scopes_bind(old(self)@, key@, is_constant),
    {
        let slot = (self.compute_var_key() % 256) as u8;
        let variable = Variable { key: slot, is_constant };
        let at = self.find(&key);
        let ghost name = key@;
        if at < self.variables.len() {
            self.variables[at] = Binding { name: key, variable };
        } else {
            self.variables.push(Binding { name: key, variable });
        }
        proof {
            old(self).lemma_view();
            self.lemma_view();
            assert(names_of(self.variables@) =~= bind(
                names_of(old(self).variables@),
                name,
                variable,
            ));
            assert(self@ =~= scopes_bind(old(self)@, name, is_constant));
        }
    }

    /// Binds a name to the next slot of the frame, as a variable.
    pub fn set_variable(&mut self, key: String)
        ensures
            final(self).enclosing == old(self).enclosing,
            final(self)@ == scopes_bind(old(self)@, key@, false),
    {
        self.set_variable_internal(key, false)
    }

    /// Binds a name to the next slot of the frame, as a constant.
    pub fn set_constant(&mut self, key: String)
        ensures
            final(self).enclosing == old(self).enclosing,
            final(self)@ == scopes_bind(old(self)@, key@, true),
    {
        self.set_variable_internal(key, true);
    }
}

} // verus!
