use vstd::prelude::*;
use crate::bytes::{
    lemma_overwrite_word_other, lemma_overwrite_word_same, overwrite, read_byte, read_number,
    spec_word_at, spec_word_bytes, write_byte, write_number,
};
use crate::hash_table::Layout;
use crate::types::Type;
use crate::value::Value;

verus! {

/// The number of items that an array can hold.
pub const ARRAY_SIZE: usize = 50;

/// The bytes of one item: the kind of the value and the value's word.
pub const ITEM_SIZE: usize = 9;

/// The bytes before the first item: the kind of the block and the length.
pub const ARRAY_HEADER_SIZE: usize = 9;

/// The bytes of the block of an array.
pub const ARRAY_BYTES_SIZE: usize = 459;

/// Where the item of index `i` starts in the block.
pub open spec fn item_offset(i: int) -> int {
    ARRAY_HEADER_SIZE + ITEM_SIZE * i
}

pub open spec fn item_tag(bytes: Seq<u8>, i: int) -> u8 {
    bytes[item_offset(i)]
}

/// The value that the item of index `i` holds.
pub open spec fn item_at(bytes: Seq<u8>, i: int) -> Value {
    match Type::of_tag(item_tag(bytes, i)) {
        Some(typ) => Value::decode(typ, spec_word_at(bytes, item_offset(i) + 1)),
        None => Value::Null,
    }
}

/// The length that the block of an array holds.
pub open spec fn length_of(bytes: Seq<u8>) -> int {
    spec_word_at(bytes, 1) as int
}

/// The items of the block of an array.
pub open spec fn items_of(bytes: Seq<u8>) -> Seq<Value> {
    Seq::new(length_of(bytes) as nat, |i: int| item_at(bytes, i))
}

/// What holds of the block of every array: it holds no more items than it
/// has room for, and each of them has a value.
pub open spec fn array_block_wf(bytes: Seq<u8>) -> bool {
    &&& bytes.len() == ARRAY_BYTES_SIZE
    &&& bytes[0] == Type::Array.tag()
    &&& length_of(bytes) <= ARRAY_SIZE
    &&& forall|i: int|
        0 <= i < length_of(bytes) ==> Type::of_tag(#[trigger] item_tag(bytes, i)) is Some
            && item_tag(bytes, i) != 0
}

/// Writing a kind and a word into an item changes that item and nothing else.
pub proof fn lemma_item_written(bytes: Seq<u8>, i: int, value: Value)
    requires
        bytes.len() == ARRAY_BYTES_SIZE,
        0 <= i < ARRAY_SIZE,
    ensures
        ({
            let after = overwrite(
                bytes.update(item_offset(i), value.kind().tag()),
                item_offset(i) + 1,
                spec_word_bytes(value.spec_payload()),
            );
            &&& after.len() == bytes.len()
            &&& after[0] == bytes[0]
            &&& length_of(after) == length_of(bytes)
            &&& item_at(after, i) == value
            &&& item_tag(after, i) == value.kind().tag()
            &&& forall|j: int|
                0 <= j < ARRAY_SIZE && j != i ==> #[trigger] item_at(after, j) == item_at(bytes, j)
                    && item_tag(after, j) == item_tag(bytes, j)
        }),
{
    let patch = spec_word_bytes(value.spec_payload());
    let at = item_offset(i) + 1;
    let tagged = bytes.update(item_offset(i), value.kind().tag());
    let after = overwrite(tagged, at, patch);
    lemma_overwrite_word_same(tagged, at, value.spec_payload());
    lemma_overwrite_word_other(tagged, at, patch, 1);
    Value::lemma_payload_round_trip(value);
    Type::lemma_tag_round_trip(value.kind());
    assert forall|j: int| 0 <= j < ARRAY_SIZE && j != i implies #[trigger] item_at(after, j)
        == item_at(bytes, j) && item_tag(after, j) == item_tag(bytes, j) by {
        lemma_overwrite_word_other(tagged, at, patch, item_offset(j) + 1);
    }
}

/// Writing the length changes no item.
pub proof fn lemma_length_written(bytes: Seq<u8>, count: u64)
    requires
        bytes.len() == ARRAY_BYTES_SIZE,
    ensures
        ({
            let after = overwrite(bytes, 1, spec_word_bytes(count));
            &&& after.len() == bytes.len()
            &&& after[0] == bytes[0]
            &&& length_of(after) == count
            &&& forall|j: int|
                0 <= j < ARRAY_SIZE ==> #[trigger] item_at(after, j) == item_at(bytes, j)
                    && item_tag(after, j) == item_tag(bytes, j)
        }),
{
    let patch = spec_word_bytes(count);
    let after = overwrite(bytes, 1, patch);
    lemma_overwrite_word_same(bytes, 1, count);
    assert forall|j: int| 0 <= j < ARRAY_SIZE implies #[trigger] item_at(after, j) == item_at(
        bytes,
        j,
    ) && item_tag(after, j) == item_tag(bytes, j) by {
        lemma_overwrite_word_other(bytes, 1, patch, item_offset(j) + 1);
    }
}

/// The kind of the value of an item.
pub fn get_type(array: &Vec<u8>, entry: usize) -> (typ: Type)
    requires
        entry + ITEM_SIZE <= array.len(),
        Type::of_tag(array[entry as int]) is Some,
    ensures
        Some(typ) == Type::of_tag(array[entry as int]),
{
    match Type::from_byte(read_byte(array, entry)) {
        Some(typ) => typ,
        None => Type::Empty,
    }
}

/// The value of an item, where the item holds one.
pub fn get_value(array: &Vec<u8>, entry: usize) -> (value: Option<Value>)
    requires
        entry + ITEM_SIZE <= array.len(),
        Type::of_tag(array[entry as int]) is Some,
    ensures
        value == if array[entry as int] == 0 {
            None
        } else {
            Some(
                Value::decode(
                    Type::of_tag(array[entry as int])->0,
                    spec_word_at(array@, entry + 1),
                ),
            )
        },
{
    let typ = get_type(array, entry);
    if typ == Type::Empty {
        return None;
    }
    let payload = read_number(array, entry + 1);
    Some(Value::from_payload(typ, payload))
}

pub fn set_value(dest: &mut Vec<u8>, entry: usize, value: Value)
    requires
        entry + ITEM_SIZE <= old(dest).len(),
    ensures
        final(dest)@ == overwrite(
            old(dest)@.update(entry as int, value.kind().tag()),
            entry + 1,
            spec_word_bytes(value.spec_payload()),
        ),
{
    write_byte(dest, entry, value.type_of().to_byte());
    write_number(dest, entry + 1, value.payload());
}

/// Stores a value in the item of index `i` of a block.
fn put(entries: &mut Vec<u8>, i: usize, value: Value)
    requires
        old(entries).len() == ARRAY_BYTES_SIZE,
        i < ARRAY_SIZE,
    ensures
        final(entries).len() == ARRAY_BYTES_SIZE,
        final(entries)[0] == old(entries)[0],
        length_of(final(entries)@) == length_of(old(entries)@),
        item_at(final(entries)@, i as int) == value,
        item_tag(final(entries)@, i as int) == value.kind().tag(),
        forall|j: int|
            0 <= j < ARRAY_SIZE && j != i ==> #[trigger] item_at(final(entries)@, j) == item_at(
                old(entries)@,
                j,
            ) && item_tag(final(entries)@, j) == item_tag(old(entries)@, j),
{
    proof {
        lemma_item_written(entries@, i as int, value);
    }
    set_value(entries, ARRAY_HEADER_SIZE + ITEM_SIZE * i, value);
}

/// The value at an index of the array of a block, where it has one there.
pub fn item_of_block(block: &Vec<u8>, key: usize) -> (value: Option<Value>)
    requires
        array_block_wf(block@),
    ensures
        value == if key < items_of(block@).len() {
            Some(items_of(block@)[key as int])
        } else {
            None
        },
{
    let count = read_number(block, 1) as usize;
    if key >= count {
        return None;
    }
    assert(Type::of_tag(item_tag(block@, key as int)) is Some);
    get_value(block, ARRAY_HEADER_SIZE + ITEM_SIZE * key)
}

/// The values of the array of a block.
pub fn items_of_block(block: &Vec<u8>) -> (values: Vec<Value>)
    requires
        array_block_wf(block@),
    ensures
        values@ == items_of(block@),
{
    let count = read_number(block, 1) as usize;
    let mut values: Vec<Value> = Vec::new();
    let mut ind: usize = 0;
    while ind < count
        invariant
            array_block_wf(block@),
            count == length_of(block@),
            ind <= count,
            values@ == items_of(block@).subrange(0, ind as int),
        decreases count - ind,
    {
        match item_of_block(block, ind) {
            Some(value) => values.push(value),
            None => {},
        }
        ind = ind + 1;
        assert(values@ =~= items_of(block@).subrange(0, ind as int));
    }
    assert(items_of(block@).subrange(0, ind as int) =~= items_of(block@));
    values
}

/// An array: up to fifty values in one block, found by their index.
pub struct Array {
    pub entries: Vec<u8>,
    pub count: usize,
    pub layout: Option<Layout>,
}

impl Array {
    /// The block is that of an array and the count is the length it holds.
    pub open spec fn wf(&self) -> bool {
        &&& array_block_wf(self.entries@)
        &&& self.count == length_of(self.entries@)
    }

    /// The values of the array, by index.
    pub open spec fn view(&self) -> Seq<Value> {
        items_of(self.entries@)
    }

    /// An array without items.
    pub fn new() -> (array: Self)
        ensures
            array.wf(),
            array@ == Seq::<Value>::empty(),
            array.count == 0,
            array.layout == Some(Layout { size: ARRAY_BYTES_SIZE, align: 1 }),
    {
        let mut entries: Vec<u8> = Vec::new();
        entries.push(Type::Array.to_byte());
        let mut i: usize = 1;
        while i < ARRAY_BYTES_SIZE
            invariant
                1 <= i <= ARRAY_BYTES_SIZE,
                entries.len() == i,
                entries[0] == Type::Array.tag(),
                forall|j: int| 1 <= j < i ==> entries[j] == 0,
            decreases ARRAY_BYTES_SIZE - i,
        {
            entries.push(0);
            i = i + 1;
        }
        assert(spec_word_at(entries@, 1) == 0);
        assert(items_of(entries@) =~= Seq::<Value>::empty());
        Array { entries, count: 0, layout: Some(Layout { size: ARRAY_BYTES_SIZE, align: 1 }) }
    }

    /// An array of `len` items, each of them null.
    pub fn of(len: usize) -> (array: Self)
        requires
            len <= ARRAY_SIZE,
        ensures
            array.wf(),
            array@ == Seq::new(len as nat, |i: int| Value::Null),
            array.count == len,
            array.layout == Some(Layout { size: ARRAY_BYTES_SIZE, align: 1 }),
    {
        let mut arr = Self::new();
        let mut i: usize = 0;
        while i < len
            invariant
                i <= len <= ARRAY_SIZE,
                arr.entries.len() == ARRAY_BYTES_SIZE,
                arr.entries[0] == Type::Array.tag(),
                arr.layout == Some(Layout { size: ARRAY_BYTES_SIZE, align: 1 }),
                forall|j: int|
                    0 <= j < i ==> #[trigger] item_at(arr.entries@, j) == Value::Null && item_tag(
                        arr.entries@,
                        j,
                    ) == Type::Null.tag(),
            decreases len - i,
        {
            put(&mut arr.entries, i, Value::Null);
            i = i + 1;
        }
        let ghost filled = arr.entries@;
        arr.set_count(len);
        proof {
            assert forall|j: int| 0 <= j < len implies item_at(arr.entries@, j) == Value::Null
                && Type::of_tag(#[trigger] item_tag(arr.entries@, j)) is Some && item_tag(
                arr.entries@,
                j,
            ) != 0 by {
                assert(item_at(arr.entries@, j) == item_at(filled, j));
            }
            assert(arr@ =~= Seq::new(len as nat, |i: int| Value::Null));
        }
        arr
    }

    pub fn size_of() -> (size: usize)
        ensures
            size == ITEM_SIZE,
    {
        1 + 8
    }

    /// The array whose block is given.
    pub fn from(obj: Vec<u8>) -> (array: Self)
        requires
            array_block_wf(obj@),
        ensures
            array.wf(),
            array.entries == obj,
            array.layout.is_none(),
    {
        let count = read_number(&obj, 1) as usize;
        Array { entries: obj, count, layout: None }
    }

    pub fn get_all(&self) -> (values: Vec<Value>)
        requires
            self.wf(),
        ensures
            values@ == self@,
    {
        items_of_block(&self.entries)
    }

    /// The value at an index, where the array has one there.
    pub fn get(&self, key: usize) -> (value: Option<Value>)
        requires
            self.wf(),
        ensures
            value == if key < self@.len() {
                Some(self@[key as int])
            } else {
                None
            },
    {
        item_of_block(&self.entries, key)
    }

    /// Stores a value at an index that the array has. The result tells
    /// whether it has.
    pub fn set(&mut self, key: usize, val: Value) -> (stored: bool)
        requires
            old(self).wf(),
        ensures
            final(self).wf(),
            final(self).layout == old(self).layout,
            final(self).count == old(self).count,
            stored <==> key < old(self)@.len(),
            stored ==> final(self)@ == old(self)@.update(key as int, val),
            !stored ==> final(self).entries == old(self).entries,
    {
        if key >= self.count {
            return false;
        }
        put(&mut self.entries, key, val);
        proof {
            assert forall|j: int| 0 <= j < length_of(self.entries@) implies Type::of_tag(
                #[trigger] item_tag(self.entries@, j),
            ) is Some && item_tag(self.entries@, j) != 0 by {
                if j != key {
                    assert(item_at(self.entries@, j) == item_at(old(self).entries@, j));
                    assert(Type::of_tag(item_tag(old(self).entries@, j)) is Some);
                }
            }
            assert forall|j: int| 0 <= j < length_of(self.entries@) implies item_at(
                self.entries@,
                j,
            ) == old(self)@.update(key as int, val)[j] by {
                if j != key {
                    assert(item_at(self.entries@, j) == item_at(old(self).entries@, j));
                }
            }
            assert(self@ =~= old(self)@.update(key as int, val));
        }
        true
    }

    fn set_count(&mut self, count: usize)
        requires
            old(self).entries.len() == ARRAY_BYTES_SIZE,
        ensures
            final(self).count == count,
            final(self).layout == old(self).layout,
            final(self).entries.len() == ARRAY_BYTES_SIZE,
            final(self).entries[0] == old(self).entries[0],
            length_of(final(self).entries@) == count,
            forall|j: int|
                0 <= j < ARRAY_SIZE ==> #[trigger] item_at(final(self).entries@, j) == item_at(
                    old(self).entries@,
                    j,
                ) && item_tag(final(self).entries@, j) == item_tag(old(self).entries@, j),
    {
        proof {
            lemma_length_written(self.entries@, count as u64);
        }
        self.count = count;
        write_number(&mut self.entries, 1, count as u64);
    }

    pub fn get_count(&self) -> (count: usize)
        ensures
            count == self.count,
    {
        self.count
    }
}

} // verus!
