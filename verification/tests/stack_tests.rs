use pantera::stack::Stack;
use pantera::value::Value;

#[test]
fn stack_pushes_and_pops_in_order() {
    let mut stack = Stack::init();
    stack.push(Value::Bool(true));
    stack.push(Value::Null);
    assert_eq!(stack.real_len(), 2);
    assert_eq!(stack.pop(), Some(Value::Null));
    assert_eq!(stack.pop(), Some(Value::Bool(true)));
    assert_eq!(stack.pop(), None);
}
