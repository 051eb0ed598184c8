use vstd::prelude::*;
use crate::stack::Stack;
use crate::value::Value;

verus! {

/// What a running program holds on to: its operand stack and its globals, by
/// slot. A slot that was never declared holds nothing.
pub struct RuntimeContext<'a> {
    pub execution_stack: &'a Stack,
    pub globals: &'a Vec<Option<Value>>,
}

/// The value of a global slot, null where it holds nothing.
pub open spec fn slot_value(slot: Option<Value>) -> Value {
    match slot {
        Some(value) => value,
        None => Value::Null,
    }
}

impl<'a> RuntimeContext<'a> {
    /// The values from which the collector starts: the globals by slot, then
    /// the values on the stack, oldest first.
    pub open spec fn spec_roots(&self) -> Seq<Value> {
        Seq::new(self.globals@.len(), |i: int| slot_value(self.globals@[i]))
            + self.execution_stack@
    }

    pub fn roots(&self) -> (roots: Vec<Value>)
        ensures
            roots@ == self.spec_roots(),
    {
        let mut roots: Vec<Value> = Vec::new();
        let mut i: usize = 0;
        while i < self.globals.len()
            invariant
                i <= self.globals.len(),
                roots@ == Seq::new(i as nat, |k: int| slot_value(self.globals@[k])),
            decreases self.globals.len() - i,
        {
            roots.push(
                match self.globals[i] {
                    Some(value) => value,
                    None => Value::Null,
                },
            );
            i = i + 1;
            assert(roots@ =~= Seq::new(i as nat, |k: int| slot_value(self.globals@[k])));
        }
        let ghost first = roots@;
        let mut j: usize = 0;
        while j < self.execution_stack.elements.len()
            invariant
                j <= self.execution_stack.elements.len(),
                roots@ == first + self.execution_stack@.subrange(0, j as int),
            decreases self.execution_stack.elements.len() - j,
        {
            roots.push(self.execution_stack.elements[j]);
            j = j + 1;
            assert(roots@ =~= first + self.execution_stack@.subrange(0, j as int));
        }
        assert(self.execution_stack@.subrange(0, j as int) =~= self.execution_stack@);
        roots
    }
}

} // verus!
