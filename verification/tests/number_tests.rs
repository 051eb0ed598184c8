use pantera::bytecode::{slot_bytes, slot_from_bytes, OP_SET_PROPERTY};
use pantera::number::{
    equal, from_index, from_le_bytes, integral, less, less_or_equal, nan, negate, to_index,
    to_le_bytes,
};
use pantera::stack::Stack;
use pantera::value::Value;

fn bits(value: f32) -> u32 {
    value.to_bits()
}

#[test]
fn indices_are_written_as_numbers() {
    for n in [0usize, 1, 2, 3, 7, 255, 256, 1000, 65535, 0xff_ffff] {
        assert_eq!(from_index(n), Some(bits(n as f32)));
        assert_eq!(to_index(from_index(n).unwrap()), n);
    }
    assert_eq!(from_index(0x100_0000), None);
    assert_eq!(from_index(usize::MAX), None);
}

#[test]
fn numbers_are_read_as_indices() {
    for value in [0.0f32, 0.5, 0.99, 1.0, 1.5, 2.75, 1e10, 1e30, -1.0, -0.0, f32::NAN,
        f32::INFINITY, f32::NEG_INFINITY, f32::MAX, f32::MIN_POSITIVE, 16777216.0, 4294967296.0]
    {
        assert_eq!(to_index(bits(value)), value as usize, "{value}");
    }
}

#[test]
fn numbers_are_ordered_as_numbers() {
    let values = [
        f32::NEG_INFINITY, -2.5, -1.0, -0.0, 0.0, f32::MIN_POSITIVE, 1.0, 1.5, f32::MAX,
        f32::INFINITY, f32::NAN,
    ];
    for a in values {
        for b in values {
            assert_eq!(equal(bits(a), bits(b)), a == b, "{a} == {b}");
            assert_eq!(less(bits(a), bits(b)), a < b, "{a} < {b}");
            assert_eq!(less_or_equal(bits(a), bits(b)), a <= b, "{a} <= {b}");
        }
        assert_eq!(nan(bits(a)), a.is_nan());
        assert_eq!(negate(bits(a)), bits(-a));
        assert_eq!(integral(bits(a)), a.fract() == 0.0, "{a}");
    }
    assert!(integral(bits(3.0)) && !integral(bits(3.5)) && integral(bits(1e20)));
}

#[test]
fn number_bytes_round_trip() {
    for value in [0.0f32, -0.0, 1.0, -12.0, 3.1415927, f32::NAN, f32::INFINITY, f32::MAX] {
        let bytes = to_le_bytes(bits(value));
        assert_eq!(bytes, value.to_le_bytes());
        assert_eq!(from_le_bytes(bytes), bits(value));
    }
    assert_eq!(from_le_bytes([0xff, 0xff, 0xff, 0xff]), 0xffff_ffff);
}

#[test]
fn slots_are_two_bytes() {
    assert_eq!(slot_bytes(0x1234), [0x34, 0x12]);
    assert_eq!(slot_from_bytes(0x34, 0x12), 0x1234);
    assert_eq!(OP_SET_PROPERTY, 33);
}

#[test]
fn stack_frames_are_relative_to_the_offset() {
    let mut stack = Stack::init();
    for i in 0..5 {
        stack.push(Value::Number(i));
    }
    stack.offset = 2;
    assert_eq!(stack.get(1), Some(Value::Number(3)));
    assert_eq!(stack.get(3), None);
    assert!(stack.reaches(-2) && stack.reaches(2) && !stack.reaches(3) && !stack.reaches(-3));
    stack.set(-2, Value::Null);
    stack.set(0, Value::Bool(true));
    assert_eq!(stack.elements[0], Value::Null);
    assert_eq!(stack.elements[2], Value::Bool(true));
    stack.reset_to(4);
    assert_eq!(stack.real_len(), 5);
    stack.reset_to(1);
    assert_eq!(stack.real_len(), 3);
    assert_eq!(stack.pop(), Some(Value::Bool(true)));
    assert_eq!(stack.pop(), None);
    assert_eq!(stack.real_len(), 2);
}
