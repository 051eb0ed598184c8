use pantera::array::{Array, ARRAY_BYTES_SIZE};
use pantera::bytes::{
    read_bytes, read_bytes_until_null, read_number, read_pointer, read_string, write_byte,
    write_bytes, write_number, write_pointer, write_string,
};
use pantera::gc::GC;
use pantera::hash_table::{HashTable, Layout, BYTES_SIZE};
use pantera::heap::{parse_index, CellKind, HeapError, HeapManager};
use pantera::runtime_context::RuntimeContext;
use pantera::stack::Stack;
use pantera::types::Type;
use pantera::utils::vec_to_array;
use pantera::value::{FunctionValue, Ptr, Value};

fn number(value: f32) -> Value {
    Value::Number(value.to_bits())
}

fn is_number(value: Value, expected: f32) -> bool {
    matches!(value, Value::Number(bits) if f32::from_bits(bits) == expected)
}

fn alloc_key(heap: &mut HeapManager, text: &str) -> Ptr {
    heap.allocate_string(text.to_string()).unwrap()
}

#[test]
fn utils_test_vec_to_array() {
    let vr = vec![1, 2, 3, 4, 5, 6, 7, 8];

    let arr = vec_to_array(&vr);
    for i in 0..8 {
        assert_eq!(*vr.get(i).unwrap(), arr[i])
    }
}

#[test]
pub fn test_writer() {
    let mut obj_ptr = vec![0u8; 8];

    write_byte(&mut obj_ptr, 0, 23);
    assert_eq!(obj_ptr[0], 23);

    let bytes = vec![1, 2, 3, 23, 53, 1, 2];
    write_bytes(&mut obj_ptr, 0, &bytes);
    for i in 0..bytes.len() {
        assert_eq!(bytes[i], obj_ptr[i]);
    }
}

#[test]
pub fn test_reader() {
    let mut obj_ptr = vec![0u8; 8];

    write_byte(&mut obj_ptr, 0, 23);
    assert_eq!(read_bytes(&obj_ptr, 0, 1)[0], 23);

    let bytes = vec![1, 2, 3, 23, 53, 1, 2];
    write_bytes(&mut obj_ptr, 0, &bytes);
    let read_bytes = read_bytes(&obj_ptr, 0, bytes.len());

    for i in 0..bytes.len() {
        assert_eq!(bytes[i], read_bytes[i]);
    }
}

#[test]
pub fn test_number() {
    let mut obj_ptr = vec![0u8; 8];

    write_number(&mut obj_ptr, 0, 123456f64.to_bits());
    assert_eq!(f64::from_bits(read_number(&obj_ptr, 0)), 123456f64);

    write_number(&mut obj_ptr, 0, (-123.12f64).to_bits());
    assert_eq!(f64::from_bits(read_number(&obj_ptr, 0)), -123.12f64);
}

#[test]
pub fn test_pointer() {
    let mut obj_ptr = vec![0u8; 8];
    let mut heap = HeapManager::new(1024);
    let x_ptr = alloc_key(&mut heap, "z");

    write_pointer(&mut obj_ptr, 0, x_ptr);
    let read_ptr = read_pointer(&obj_ptr, 0);

    assert_eq!(read_ptr, x_ptr);
    assert_eq!(heap.get_string(read_ptr), "z");
}

#[test]
pub fn test_string() {
    let mut obj_ptr = vec![0u8; 29];

    write_string(&mut obj_ptr, 0, "test_smt".to_string());
    let read_str = read_string(&obj_ptr, 0);
    assert_eq!(read_str, "test_smt".to_string());
}

#[test]
pub fn test_set() {
    let mut heap = HeapManager::new(1024);
    let mut table = HashTable::new();
    let key1 = alloc_key(&mut heap, "Test");
    table.set(key1, number(12f32));

    let val = table.get(&key1).unwrap();
    assert!(is_number(val, 12f32));
}

#[test]
pub fn test_set_collisions() {
    let mut heap = HeapManager::new(1024);
    let mut table = HashTable::new();
    let key1 = alloc_key(&mut heap, "Test1");
    table.set(key1, number(12f32));

    let key2 = alloc_key(&mut heap, "Test2");
    table.set(key2, number(13f32));

    let val = table.get(&key1).unwrap();
    assert!(is_number(val, 12f32));

    let val = table.get(&key2).unwrap();
    assert!(is_number(val, 13f32));
}

#[test]
pub fn test_delete() {
    let mut table = HashTable::new();
    let key1: Ptr = 12;
    table.set(key1, number(12f32));

    let key2: Ptr = 62;
    table.set(key2, number(13f32));

    table.delete(key1);
    let val = table.get(&key1);
    assert!(matches!(val, None));
}

#[test]
pub fn test_delete_and_get() {
    let mut table = HashTable::new();
    let key1: Ptr = 12;
    table.set(key1, number(12f32));

    let key2: Ptr = 62;
    table.set(key2, number(13f32));

    table.delete(key1);
    let val = table.get(&key1);
    assert!(matches!(val, None));

    let val2 = table.get(&key2).unwrap();
    assert!(is_number(val2, 13f32));
}

#[test]
pub fn test_delete_get_and_set() {
    let mut table = HashTable::new();
    let key1: Ptr = 12;
    table.set(key1, number(12f32));

    let key2: Ptr = 62;
    table.set(key2, number(13f32));

    table.delete(key1);
    let val = table.get(&key1);
    assert!(matches!(val, None));

    let mut val2 = table.get(&key2).unwrap();
    assert!(is_number(val2, 13f32));

    let key3: Ptr = 112;
    table.set(key3, number(14f32));

    let val3 = table.get(&key3).unwrap();
    assert!(is_number(val3, 14f32));

    val2 = table.get(&key2).unwrap();
    assert!(is_number(val2, 13f32));
}

#[test]
pub fn test_from() {
    let mut table = HashTable::new();
    let key1: Ptr = 12;
    table.set(key1, number(12f32));

    let key2: Ptr = 62;
    table.set(key2, number(13f32));

    assert_eq!(table.get_count(), 2);

    let tbl_cpy = HashTable::from(table.entries.clone());
    assert_eq!(tbl_cpy.get_count(), 2);
}

#[test]
pub fn test_get_all() {
    let mut table = HashTable::new();
    let key1: Ptr = 12;
    table.set(key1, number(12f32));

    let all = table.get_all();
    assert_eq!(all.len(), 1);
}

#[test]
fn table_block_has_the_layout_of_an_object() {
    let mut table = HashTable::new();
    assert_eq!(table.entries.len(), BYTES_SIZE);
    assert_eq!(table.layout, Some(Layout { size: 859, align: 1 }));
    assert_eq!(table.entries[0], 5);
    assert!(table.set(12, Value::Bool(true)));
    let entry = 9 + 17 * 12;
    assert_eq!(read_pointer(&table.entries, entry), 12);
    assert_eq!(table.entries[entry + 8], 2);
    assert_eq!(table.entries[entry + 9], 1);
    assert_eq!(read_number(&table.entries, 1), 1);
    assert_eq!(HashTable::size_of(), 17);
}

#[test]
fn search_ends_at_the_last_tombstone_before_the_first_empty_entry() {
    let mut table = HashTable::new();
    table.set(12, number(1.0));
    table.set(62, number(2.0));
    table.set(112, number(3.0));
    table.delete(12);
    table.delete(62);
    assert_eq!(table.find_entry(&112), Some(9 + 17 * 14));
    assert_eq!(table.find_entry(&162), Some(9 + 17 * 13));
    table.set(162, number(4.0));
    let keys: Vec<Ptr> = table.get_all().iter().map(|e| e.key).collect();
    assert_eq!(keys, vec![162, 112]);
    assert_eq!(table.get_entry(1).map(|e| e.key), Some(112));
    assert_eq!(table.get_entry(2), None);
}

#[test]
fn delete_of_an_absent_key_leaves_a_tombstone_and_counts_down() {
    let mut table = HashTable::new();
    table.set(1, number(1.0));
    table.delete(7);
    assert_eq!(table.get_count(), 0);
    assert!(is_number(table.get(&1).unwrap(), 1.0));
    table.delete(1);
    assert!(is_number(table.get(&1).unwrap(), 1.0));
}

#[test]
fn full_table_refuses_a_new_key() {
    let mut table = HashTable::new();
    for key in 1..=50u64 {
        assert!(table.set(key, Value::Null));
    }
    assert!(!table.set(51, Value::Null));
    assert!(table.set(50, Value::Bool(true)));
    assert_eq!(table.get(&50), Some(Value::Bool(true)));
    assert_eq!(table.get(&51), None);
    assert_eq!(table.get_count(), 50);
}

#[test]
fn values_are_stored_under_kind_and_word() {
    let values = vec![
        number(-1.5),
        Value::Bool(true),
        Value::Bool(false),
        Value::Null,
        Value::Function(FunctionValue::UserDefined(77, 3)),
        Value::Function(FunctionValue::Builtin(4)),
        Value::String(9),
        Value::Object(10),
        Value::Array(11),
    ];
    for value in values {
        assert_eq!(Value::from_payload(value.type_of(), value.payload()), value);
        let mut table = HashTable::new();
        table.set(3, value);
        assert_eq!(table.get(&3), Some(value));
    }
    assert_eq!(Value::Function(FunctionValue::UserDefined(2, 1)).payload(), 0x201);
    assert_eq!(Type::from_byte(8), None);
    assert_eq!(Type::from_byte(Type::Array.to_byte()), Some(Type::Array));
    assert_eq!(
        HeapManager::get_value_from_bytes(vec![7, 0, 0, 0, 0, 0, 0, 0], Type::String),
        Value::String(7)
    );
}

#[test]
fn array_holds_its_items_by_index() {
    let mut array = Array::of(3);
    assert_eq!(array.entries.len(), ARRAY_BYTES_SIZE);
    assert_eq!(array.get_all(), vec![Value::Null, Value::Null, Value::Null]);
    assert!(array.set(1, Value::Bool(true)));
    assert!(!array.set(3, Value::Bool(true)));
    assert_eq!(array.get(1), Some(Value::Bool(true)));
    assert_eq!(array.get(3), None);
    assert_eq!(array.get_count(), 3);
    assert_eq!(Array::size_of(), 9);
    let copy = Array::from(array.entries.clone());
    assert_eq!(copy.get_count(), 3);
    assert_eq!(Array::new().get_count(), 0);
}

#[test]
fn strings_are_interned_once() {
    let mut heap = HeapManager::new(100);
    let a = heap.allocate_compiled_string("Test".to_string()).unwrap();
    let b = heap.allocate_string("Test".to_string()).unwrap();
    let c = heap.allocate_string("Other".to_string()).unwrap();
    assert_eq!(a, 1);
    assert_eq!(a, b);
    assert_eq!(c, 2);
    assert!(HeapManager::compare_strings(a, b));
    assert!(!HeapManager::compare_strings(a, c));
    assert_eq!(heap.allocated_memory, 6 + 7);
    assert_eq!(heap.memory[0].bytes, vec![4, b'T', b'e', b's', b't', 0]);
    assert!(heap.memory[0].flag);
    assert_eq!(heap.check_string_is_interned("Other"), Some(c));
    assert_eq!(heap.check_string_is_interned("Missing"), None);
    assert_eq!(heap.get_string(c), "Other");
}

#[test]
fn a_text_is_interned_up_to_its_first_zero_byte() {
    let mut heap = HeapManager::new(100);
    let a = heap.allocate_string("a".to_string()).unwrap();
    let b = heap.allocate_string("a\0b".to_string()).unwrap();
    assert_eq!(a, b);
    assert_eq!(read_bytes_until_null(&heap.memory[0].bytes, 1), vec![b'a']);
}

#[test]
fn heap_refuses_what_it_may_not_hold() {
    let mut heap = HeapManager::new(10);
    assert_eq!(heap.allocate_string("12345678".to_string()), Ok(1));
    assert_eq!(heap.check_oom(), Ok(()));
    assert_eq!(heap.allocate_string("x".to_string()), Err(HeapError::OutOfMemory));
    assert_eq!(heap.allocated_memory, 10);
    assert_eq!(heap.allocate_object(vec![]), Err(HeapError::OutOfMemory));
    assert_eq!(heap.allocate_array(vec![]), Err(HeapError::OutOfMemory));
    heap.free_string(1);
    assert_eq!(heap.allocated_memory, 0);
    assert_eq!(heap.kind_of(1), CellKind::Free);
    assert_eq!(heap.allocate_string("x".to_string()), Ok(1));
    let mut big = HeapManager::new(1_000_000);
    assert_eq!(big.allocate_array(vec![Value::Null; 51]), Err(HeapError::OutOfMemory));
    let pairs: Vec<(Ptr, Value)> = (1..=51u64).map(|k| (k, Value::Null)).collect();
    assert_eq!(big.allocate_object(pairs), Err(HeapError::OutOfMemory));
    big.max_heap_size = 0;
    big.allocated_memory = 1;
    assert_eq!(big.check_oom(), Err(HeapError::OutOfMemory));
}

#[test]
fn objects_and_arrays_live_in_the_heap() {
    let mut heap = HeapManager::new(100_000);
    let k = alloc_key(&mut heap, "k");
    let l = alloc_key(&mut heap, "l");
    let one = alloc_key(&mut heap, "1");
    let word = alloc_key(&mut heap, "x1");
    let obj = heap.allocate_object(vec![(k, number(1.0)), (k, number(2.0))]).unwrap();
    assert!(heap.is_object(obj));
    assert!(is_number(heap.get_property_from_object(obj, &k), 2.0));
    assert_eq!(heap.get_property_from_object(obj, &l), Value::Null);
    assert!(heap.set_property_for_object(obj, l, Value::Bool(true)));
    assert_eq!(heap.get_object(obj).len(), 2);
    assert_eq!(heap.get_object_count(obj), 2);
    let other = heap.allocate_object(vec![(k, Value::Null)]).unwrap();
    assert_eq!(heap.concatenate_objects(other, obj), Ok(other));
    assert!(is_number(heap.get_property_from_object(other, &k), 2.0));
    assert_eq!(heap.get_property_from_object(other, &l), Value::Bool(true));
    assert!(HeapManager::compare_objects(obj, obj));
    assert!(!HeapManager::compare_objects(obj, other));

    let arr = heap.allocate_array(vec![number(3.0), number(2.0), number(1.0)]).unwrap();
    assert!(heap.is_array(arr));
    assert!(is_number(heap.get_array(arr)[0], 1.0));
    assert!(is_number(heap.get_property_from_array_num(arr, 2), 3.0));
    assert_eq!(heap.get_property_from_array_num(arr, 3), Value::Null);
    assert!(is_number(heap.get_property_from_array(arr, one).unwrap(), 2.0));
    assert_eq!(heap.get_property_from_array(arr, word), None);
    assert!(heap.set_property_for_array(arr, one, Value::Null));
    assert!(!heap.set_property_for_array(arr, word, Value::Null));
    assert!(heap.set_property_for_array_num(arr, 0, Value::Bool(false)));
    assert!(!heap.set_property_for_array_num(arr, 3, Value::Bool(false)));
    assert_eq!(heap.get_array(arr), vec![Value::Bool(false), Value::Null, number(3.0)]);
    assert_eq!(heap.get_array_count(arr), 3);
    assert_eq!(HeapManager::get_object_entry_size(), 8);

    let joined = heap.concatenate_strings(k, l).unwrap();
    assert_eq!(heap.get_string(joined), "kl");
    assert_eq!(heap.concatenate_strings(k, l), Ok(joined));
    heap.free_object(obj);
    heap.free_array(arr);
    heap.free(other);
    assert!(!heap.is_object(obj) && !heap.is_array(arr) && !heap.is_object(other));
}

#[test]
fn decimal_indices_are_parsed() {
    assert_eq!(parse_index(&b"0".to_vec()), Some(0));
    assert_eq!(parse_index(&b"+42".to_vec()), Some(42));
    assert_eq!(parse_index(&b"007".to_vec()), Some(7));
    assert_eq!(parse_index(&b"".to_vec()), None);
    assert_eq!(parse_index(&b"+".to_vec()), None);
    assert_eq!(parse_index(&b"-1".to_vec()), None);
    assert_eq!(parse_index(&b"1 ".to_vec()), None);
    assert_eq!(parse_index(&b"18446744073709551615".to_vec()), Some(usize::MAX));
    assert_eq!(parse_index(&b"18446744073709551616".to_vec()), None);
}

fn crowd(heap: &mut HeapManager) -> Vec<Ptr> {
    (0..12).map(|i| heap.allocate_string(format!("s{i}")).unwrap()).collect()
}

#[test]
fn collector_frees_what_is_not_reachable() {
    let mut heap = HeapManager::new(100_000);
    let constant = heap.allocate_compiled_string("constant".to_string()).unwrap();
    let strings = crowd(&mut heap);
    let inner = heap.allocate_array(vec![Value::String(strings[0])]).unwrap();
    let outer = heap.allocate_object(vec![(strings[1], Value::Array(inner))]).unwrap();
    let lost = heap.allocate_object(vec![(strings[2], Value::String(strings[3]))]).unwrap();
    let mut gc = GC::new(heap);
    let mut stack = Stack::init();
    stack.push(Value::Object(outer));
    let globals = vec![None, Some(Value::String(strings[4]))];
    let context = RuntimeContext { execution_stack: &stack, globals: &globals };
    assert_eq!(context.roots(), vec![Value::Null, Value::String(strings[4]), Value::Object(outer)]);
    let marks = gc.mark(&context);
    assert!(marks[(outer - 1) as usize] && marks[(inner - 1) as usize]);
    assert!(marks[(strings[0] - 1) as usize] && marks[(strings[4] - 1) as usize]);
    assert!(!marks[(strings[1] - 1) as usize] && !marks[(lost - 1) as usize]);
    let before = gc.heap_manager.allocated_memory;
    gc.collect(&context);
    let heap = &gc.heap_manager;
    assert!(heap.is_object(outer) && heap.is_array(inner));
    assert!(heap.is_string(strings[0]) && heap.is_string(strings[4]));
    assert!(heap.is_string(constant));
    assert!(!heap.is_object(lost));
    assert!(!heap.is_string(strings[1]) && !heap.is_string(strings[3]));
    assert_eq!(heap.allocated_memory, before - 859 - (8 * 4 + 2 * 5));
    let after = gc.heap_manager.allocated_memory;
    gc.collect(&context);
    assert_eq!(gc.heap_manager.allocated_memory, after);
    assert!(gc.heap_manager.is_object(outer));
}

#[test]
fn collector_leaves_a_small_heap_alone() {
    let mut heap = HeapManager::new(100_000);
    let strings: Vec<Ptr> = (0..10).map(|i| heap.allocate_string(format!("s{i}")).unwrap()).collect();
    let mut gc = GC::new(heap);
    let stack = Stack::init();
    let globals = vec![];
    gc.collect(&RuntimeContext { execution_stack: &stack, globals: &globals });
    assert!(strings.iter().all(|s| gc.heap_manager.is_string(*s)));
    let extra = gc.heap_manager.allocate_string("extra".to_string()).unwrap();
    gc.collect(&RuntimeContext { execution_stack: &stack, globals: &globals });
    assert!(strings.iter().all(|s| !gc.heap_manager.is_string(*s)));
    assert!(!gc.heap_manager.is_string(extra));
}

#[test]
fn collector_ends_on_objects_that_hold_one_another() {
    let mut heap = HeapManager::new(100_000);
    let strings = crowd(&mut heap);
    let a = heap.allocate_object(vec![]).unwrap();
    let b = heap.allocate_object(vec![(strings[0], Value::Object(a))]).unwrap();
    assert!(heap.set_property_for_object(a, strings[0], Value::Object(b)));
    let mut gc = GC::new(heap);
    let mut stack = Stack::init();
    stack.push(Value::Object(a));
    let globals = vec![];
    gc.collect(&RuntimeContext { execution_stack: &stack, globals: &globals });
    assert!(gc.heap_manager.is_object(a) && gc.heap_manager.is_object(b));
    gc.sweep_objects(&vec![false; gc.heap_manager.memory.len()]);
    assert!(!gc.heap_manager.is_object(a) && !gc.heap_manager.is_object(b));
    let kept = gc.heap_manager.allocate_compiled_string("kept".to_string()).unwrap();
    let gone = gc.heap_manager.allocate_string("gone".to_string()).unwrap();
    gc.sweep_strings(&vec![false; gc.heap_manager.memory.len()]);
    assert!(gc.heap_manager.is_string(kept));
    assert!(!gc.heap_manager.is_string(gone));
}
