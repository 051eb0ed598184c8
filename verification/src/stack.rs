use vstd::prelude::*;
use crate::value::Value;

verus! {

/// The operand stack: the values pushed and not yet popped, oldest first, and
/// the base of the current frame.
#[derive(Debug)]
pub struct Stack {
    pub elements: Vec<Value>,
    pub offset: usize,
}

impl Stack {
    /// The values on the stack, oldest first.
    pub open spec fn view(&self) -> Seq<Value> {
        self.elements@
    }

    /// The base of the current frame lies within the stack.
    pub open spec fn wf(&self) -> bool {
        self.offset <= self.elements.len()
    }

    pub fn init() -> (stack: Self)
        ensures
            stack@ == Seq::<Value>::empty(),
            stack.offset == 0,
            stack.wf(),
    {
        Stack { elements: Vec::new(), offset: 0 }
    }

    pub fn push(&mut self, el: Value)
        ensures
            final(self)@ == old(self)@.push(el),
            final(self).offset == old(self).offset,
    {
        self.elements.push(el);
    }

    /// The value at a slot of the current frame, if the stack reaches it.
    pub fn get(&self, index: usize) -> (el: Option<Value>)
        ensures
            el == if index + self.offset < self@.len() {
                Some(self@[index + self.offset])
            } else {
                None
            },
    {
        if index < self.elements.len() && self.offset < self.elements.len() - index {
            Some(self.elements[index + self.offset])
        } else {
            None
        }
    }

    /// Writes a slot relative to the base of the current frame; a negative
    /// index reaches below the base.
    pub fn set(&mut self, index: i32, el: Value)
        requires
            0 <= old(self).offset + index < old(self)@.len(),
        ensures
            final(self)@ == old(self)@.update(old(self).offset + index, el),
            final(self).offset == old(self).offset,
    {
        let at: usize = if index >= 0 {
            let up = index as usize;
            assert(up == index);
            assert(self.elements.len() == self@.len());
            self.offset + up
        } else {
            self.offset - ((-(index as i64)) as usize)
        };
        self.elements[at] = el;
    }

    /// True when `set` may write the slot `index`.
    pub fn reaches(&self, index: i32) -> (r: bool)
        ensures
            r == (0 <= self.offset + index < self@.len()),
    {
        if index >= 0 {
            (index as usize) < self.elements.len() && self.offset < self.elements.len() - (
            index as usize)
        } else {
            let below = (-(index as i64)) as usize;
            below <= self.offset && self.offset - below < self.elements.len()
        }
    }

    /// Takes the topmost value of the current frame; there is none to take
    /// where the frame is empty.
    pub fn pop(&mut self) -> (el: Option<Value>)
        ensures
            final(self).offset == old(self).offset,
            old(self)@.len() <= old(self).offset ==> el.is_none() && final(self)@ == old(self)@,
            old(self)@.len() > old(self).offset ==> el == Some(old(self)@.last()) && final(self)@
                == old(self)@.drop_last(),
    {
        if self.elements.len() <= self.offset {
            return None;
        }
        self.elements.pop()
    }

    /// Cuts the current frame down to its first `index` slots. A frame that
    /// is shorter stays as it is.
    pub fn reset_to(&mut self, index: usize)
        ensures
            final(self).offset == old(self).offset,
            old(self).offset + index <= old(self)@.len() ==> final(self)@ == old(self)@.subrange(
                0,
                old(self).offset + index,
            ),
            old(self).offset + index > old(self)@.len() ==> final(self)@ == old(self)@,
    {
        if index <= self.elements.len() && self.offset <= self.elements.len() - index {
            self.elements.truncate(self.offset + index);
        }
    }

    pub fn real_len(&self) -> (len: usize)
        ensures
            len == self@.len(),
    {
        self.elements.len()
    }
}

} // verus!
