use pantera::builtins::init_vm_globals;
use pantera::gc::GC;
use pantera::heap::HeapManager;
use pantera::machine::NumberOp;
use pantera::output::{render, Piece};
use pantera::stack::Stack;
use pantera::value::{FunctionValue, Value};
use pantera::vm::{Answer, Request, Status, VM};

fn machine(code: Vec<u8>) -> VM {
    VM::new(code, Stack::init(), init_vm_globals(), GC::new(HeapManager::new(100_000)))
}

fn number(value: f32) -> Vec<u8> {
    let mut bytes = vec![8, 1];
    bytes.extend(value.to_le_bytes());
    bytes
}

fn jump(op: u8, target: usize) -> Vec<u8> {
    let mut bytes = vec![op];
    bytes.extend((target as f32).to_le_bytes());
    bytes
}

fn failure(code: Vec<u8>) -> String {
    let mut vm = machine(code);
    vm.execute(1000).unwrap_err().message
}

fn text(line: &Vec<Piece>) -> String {
    line.iter()
        .map(|piece| match piece {
            Piece::Text(bytes) => String::from_utf8_lossy(bytes).to_string(),
            Piece::Number(bits) => f32::from_bits(*bits).to_string(),
        })
        .collect()
}

#[test]
fn a_step_performs_one_instruction() {
    let mut code = number(2.0);
    code.extend(vec![8, 2, 1, 8, 7, 7]);
    let mut vm = machine(code);
    assert_eq!(vm.status(), Status::Running);
    assert_eq!(vm.step().unwrap(), Status::Running);
    assert_eq!((vm.ip, vm.execution_stack.real_len()), (6, 1));
    assert_eq!(vm.step().unwrap(), Status::Running);
    assert_eq!(vm.step().unwrap(), Status::Running);
    assert_eq!(
        vm.execution_stack.elements,
        vec![Value::Number(2.0f32.to_bits()), Value::Bool(true), Value::Null]
    );
    assert_eq!(vm.step().unwrap(), Status::Finished);
    assert_eq!(vm.execution_stack.real_len(), 2);
    assert_eq!(vm.step().unwrap(), Status::Finished);
    assert_eq!(vm.execute(0).unwrap(), Status::Finished);
}

#[test]
fn execute_stops_when_its_fuel_is_spent() {
    let mut vm = machine(jump(26, 0));
    assert_eq!(vm.execute(1000).unwrap(), Status::Running);
    assert_eq!(vm.ip, 0);
}

#[test]
fn arithmetic_waits_for_the_host() {
    let mut code = number(7.0);
    code.extend(number(3.0));
    code.push(3);
    let mut vm = machine(code);
    assert_eq!(vm.execute(10).unwrap(), Status::Waiting);
    assert!(matches!(
        vm.pending,
        Some(Request::Arithmetic(NumberOp::Sub, left, right))
            if left == 7.0f32.to_bits() && right == 3.0f32.to_bits()
    ));
    assert_eq!(vm.step().unwrap(), Status::Waiting);
    assert!(vm.resume(Answer::Number(4.0f32.to_bits())).is_ok());
    assert_eq!(vm.execution_stack.elements, vec![Value::Number(4.0f32.to_bits())]);
    assert_eq!(vm.execute(10).unwrap(), Status::Finished);
    assert_eq!(vm.resume(Answer::Done).unwrap_err().message, "Unexpected answer");
}

#[test]
fn a_call_opens_a_frame_and_the_end_of_the_function_closes_it() {
    let mut code = jump(26, 10);
    code.extend(vec![8, 21, 1, 29, 27]);
    code.extend(number(9.0));
    code.extend(number(5.0));
    code.extend(vec![8, 3]);
    code.extend(5.0f32.to_le_bytes());
    code.push(1);
    code.push(28);
    let mut vm = machine(code);
    for _ in 0..5 {
        assert_eq!(vm.step().unwrap(), Status::Running);
    }
    let nine = Value::Number(9.0f32.to_bits());
    let five = Value::Number(5.0f32.to_bits());
    assert_eq!(
        vm.execution_stack.elements,
        vec![nine, Value::Null, Value::Number(30.0f32.to_bits()), Value::Number(0), five]
    );
    assert_eq!((vm.ip, vm.execution_stack.offset), (5, 3));
    assert_eq!(vm.step().unwrap(), Status::Running);
    assert_eq!(vm.step().unwrap(), Status::Running);
    assert_eq!(vm.execution_stack.elements[1], five);
    assert_eq!(vm.step().unwrap(), Status::Finished);
    assert_eq!(vm.execution_stack.elements, vec![nine, five]);
    assert_eq!((vm.ip, vm.execution_stack.offset), (30, 0));
}

#[test]
fn instructions_fail_on_what_they_cannot_take() {
    assert_eq!(failure(vec![8]), "Unexpected end of code");
    assert_eq!(failure(vec![8, 9]), "Not a type");
    assert_eq!(failure(vec![8, 21, 0]), "Variable doesn't exist");
    assert_eq!(failure(vec![8, 22, 9, 0]), "Variable doesn't exist");
    assert_eq!(failure(vec![2]), "Stack underflow");
    assert_eq!(failure(vec![8, 7, 8, 7, 3]), "Arithmetic on anything but numbers is not supported");
    assert_eq!(failure(vec![8, 7, 8, 7, 13]), "Comparison of anything but numbers variables not supported");
    assert_eq!(failure(vec![8, 7, 8, 7, 11]), "And of anything but boolean variables not supported");
    assert_eq!(failure(vec![8, 7, 18]), "Notting a non-boolean value is not allowed");
    assert_eq!(failure(vec![8, 7, 17]), "Minusing a non-number value is not allowed");
    assert_eq!(failure(vec![8, 7, 28]), "Wrong architecture");
    assert_eq!(failure(vec![8, 7, 29]), "Cannot return outside function");
    assert_eq!(failure(vec![27]), "Stack underflow");
    assert_eq!(failure(vec![8, 7, 8, 7, 32]), "Not an accessible object");
    assert_eq!(failure(vec![8, 7, 8, 7, 8, 7, 33]), "Not an indexable object");
    assert_eq!(failure(vec![8, 7, 30]), "Compiling failed");
    assert_eq!(failure(vec![0]), "Unknown instruction");
    assert_eq!(failure(jump(26, 9)), "Jump out of code");
    assert_eq!(failure(vec![8, 7, 8, 22, 0, 0, 28]), "Object is not a collection to have a length");
    assert_eq!(failure(vec![8, 7, 8, 22, 1, 0, 28]), "Wrong argument to sleep function");
    assert_eq!(failure(vec![8, 7, 8, 22, 3, 0, 28]), "Argument is not a stringified number");
    assert_eq!(failure(vec![8, 7, 8, 7, 8, 22, 4, 0, 28]), "Expected number as second argument");
    let mut strings = vec![8, 7, 8, 4, 0, 0, 0, 0, 0, 0, 0, 0, 2];
    assert_eq!(failure(strings.clone()), "A string must only be added to another string");
    strings[3] = 7;
    strings.truncate(4);
    strings.extend(vec![8, 2, 1, 25]);
    assert_eq!(failure(strings), "Unexpected end of code");
}

#[test]
fn comparisons_and_logic_push_booleans() {
    let mut code = number(1.0);
    code.extend(number(2.0));
    code.push(16);
    code.extend(vec![8, 2, 0, 12, 18]);
    code.extend(number(1.0));
    code.push(17);
    code.extend(jump(25, 0));
    let mut vm = machine(code);
    assert_eq!(vm.execute(100).unwrap(), Status::Finished);
    assert_eq!(vm.execution_stack.elements, vec![Value::Bool(false)]);
}

#[test]
fn globals_are_declared_and_set() {
    let mut vm = machine(vec![8, 2, 1, 20, 7, 0, 8, 7, 24, 7, 0, 8, 22, 7, 0, 9]);
    assert_eq!(vm.execute(100).unwrap(), Status::Finished);
    assert_eq!(vm.globals.len(), 8);
    assert_eq!(vm.globals[5], None);
    assert_eq!(vm.globals[7], Some(Value::Null));
    assert_eq!(vm.execution_stack.elements, vec![Value::Bool(true)]);
    assert_eq!(vm.read_global(4), 7);
}

#[test]
fn values_are_rendered_in_pieces() {
    let mut heap = HeapManager::new(100_000);
    let k = heap.allocate_string("k".to_string()).unwrap();
    let l = heap.allocate_string("l".to_string()).unwrap();
    let arr = heap.allocate_array(vec![Value::Bool(true), Value::Number(1.5f32.to_bits())]).unwrap();
    let obj = heap.allocate_object(vec![(k, Value::Array(arr)), (l, Value::String(l))]).unwrap();
    let empty = heap.allocate_object(vec![]).unwrap();
    assert_eq!(text(&render(&heap, Value::Object(obj), 8)), "{ k: [ 1.5, true ], l: l }");
    assert_eq!(text(&render(&heap, Value::Object(obj), 1)), "{ k: ..., l: l }");
    assert_eq!(text(&render(&heap, Value::Object(empty), 8)), "{  }");
    assert_eq!(text(&render(&heap, Value::Function(FunctionValue::Builtin(0)), 8)), "[function]");
    assert_eq!(text(&render(&heap, Value::Null, 0)), "null");
    assert_eq!(text(&render(&heap, Value::Bool(false), 0)), "false");
    assert_eq!(text(&render(&heap, Value::String(99), 0)), "");
}

#[test]
fn the_entry_of_an_object_is_an_array_of_key_and_value() {
    let code = vec![8, 5, 8, 5, 8, 22, 4, 0, 28];
    let mut vm = machine(code);
    let k = vm.gc.heap_manager.allocate_string("k".to_string()).unwrap();
    let obj = vm.gc.heap_manager.allocate_object(vec![(k, Value::Bool(true))]).unwrap();
    vm.execution_stack.push(Value::Object(obj));
    vm.execution_stack.push(Value::Number(0));
    vm.ip = 4;
    assert_eq!(vm.execute(10).unwrap(), Status::Finished);
    let Value::Array(pair) = vm.execution_stack.elements[0] else { panic!("not an array") };
    assert_eq!(vm.gc.heap_manager.get_array(pair), vec![Value::String(k), Value::Bool(true)]);
}
