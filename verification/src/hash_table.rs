use vstd::prelude::*;
use crate::bytes::{
    lemma_overwrite_word_other, lemma_overwrite_word_same, overwrite, read_byte, read_number,
    read_pointer, spec_word_at, spec_word_bytes, write_byte, write_number, write_pointer,
};
use crate::types::Type;
use crate::value::{Ptr, Value, NULL_PTR};

verus! {

/// The number of entries of an object.
pub const TABLE_SIZE: usize = 50;

/// The bytes before the first entry: the kind of the block and the count.
pub const HEADER_SIZE: usize = 9;

/// The bytes of one entry: a key, the kind of the value, the value's word.
pub const ENTRY_SIZE: usize = 17;

/// The bytes of the block of an object.
pub const BYTES_SIZE: usize = 859;

/// What allocating a block took: its size and alignment.
#[derive(Clone, Copy, Debug, PartialEq, Eq, Structural)]
pub struct Layout {
    pub size: usize,
    pub align: usize,
}

#[derive(Clone, Copy, Debug, PartialEq, Eq, Structural)]
pub struct HashEntry {
    pub key: Ptr,
    pub value: Value,
}

/// One entry as it is read from the block of an object.
pub struct Slot {
    pub key: Ptr,
    pub tag: u8,
    pub payload: u64,
}

impl Slot {
    /// Nothing was ever stored here, or not since the table was made.
    pub open spec fn is_empty(self) -> bool {
        self.key == NULL_PTR && self.tag == 0
    }

    /// A key was deleted here.
    pub open spec fn is_tombstone(self) -> bool {
        self.key == NULL_PTR && self.tag != 0
    }

    pub open spec fn is_live(self) -> bool {
        self.key != NULL_PTR
    }

    /// The value stored here, where the slot is not empty.
    pub open spec fn value(self) -> Value {
        match Type::of_tag(self.tag) {
            Some(typ) => Value::decode(typ, self.payload),
            None => Value::Null,
        }
    }
}

/// Where the entry of index `i` starts in the block.
pub open spec fn entry_offset(i: int) -> int {
    HEADER_SIZE + ENTRY_SIZE * i
}

pub open spec fn slot_at(bytes: Seq<u8>, i: int) -> Slot {
    Slot {
        key: spec_word_at(bytes, entry_offset(i)),
        tag: bytes[entry_offset(i) + 8],
        payload: spec_word_at(bytes, entry_offset(i) + 9),
    }
}

/// The entries of a block, in the order in which they stand.
pub open spec fn slots_of(bytes: Seq<u8>) -> Seq<Slot> {
    Seq::new(TABLE_SIZE as nat, |i: int| slot_at(bytes, i))
}

/// The index at which the search for a key starts.
pub open spec fn home(key: Ptr) -> int {
    (key % (TABLE_SIZE as u64)) as int
}

/// The index that the search reaches after `step` steps from `start`.
pub open spec fn probe(start: int, step: int) -> int {
    (start + step) % (TABLE_SIZE as int)
}

/// The number of steps from `start` to the index `i`.
pub open spec fn distance(start: int, i: int) -> int {
    (i - start + TABLE_SIZE) % (TABLE_SIZE as int)
}

/// The search for the entry of a key, from the step `step` on, with the
/// tombstone seen last: it ends at the entry that holds the key, or at the
/// first empty entry, and then gives the tombstone instead where it saw one;
/// after a whole round it gives the tombstone, or nothing.
pub open spec fn search(slots: Seq<Slot>, key: Ptr, step: int, tomb: Option<int>) -> Option<int>
    decreases TABLE_SIZE - step,
{
    if step < 0 || step >= TABLE_SIZE {
        tomb
    } else {
        let i = probe(home(key), step);
        let slot = slots[i];
        if slot.key == NULL_PTR {
            if slot.tag == 0 {
                if tomb is Some {
                    tomb
                } else {
                    Some(i)
                }
            } else {
                search(slots, key, step + 1, Some(i))
            }
        } else if slot.key == key {
            Some(i)
        } else {
            search(slots, key, step + 1, tomb)
        }
    }
}

pub open spec fn has_key(slots: Seq<Slot>, key: Ptr) -> bool {
    key != NULL_PTR && exists|i: int| 0 <= i < slots.len() && #[trigger] slots[i].key == key
}

pub open spec fn index_of(slots: Seq<Slot>, key: Ptr) -> int {
    choose|i: int| 0 <= i < slots.len() && #[trigger] slots[i].key == key
}

/// The keys of a table and their values.
pub open spec fn mapping(slots: Seq<Slot>) -> Map<Ptr, Value> {
    Map::new(|key: Ptr| has_key(slots, key), |key: Ptr| slots[index_of(slots, key)].value())
}

/// The number of live entries among the first `n`.
pub open spec fn live_count(slots: Seq<Slot>, n: int) -> int
    decreases n,
{
    if n <= 0 {
        0
    } else {
        live_count(slots, n - 1) + if slots[n - 1].is_live() {
            1int
        } else {
            0int
        }
    }
}

/// The live entries among the first `n`, in the order in which they stand.
pub open spec fn live_entries(slots: Seq<Slot>, n: int) -> Seq<HashEntry>
    decreases n,
{
    if n <= 0 {
        Seq::empty()
    } else if slots[n - 1].is_live() {
        live_entries(slots, n - 1).push(
            HashEntry { key: slots[n - 1].key, value: slots[n - 1].value() },
        )
    } else {
        live_entries(slots, n - 1)
    }
}

/// What holds of the entries of every table: each kind is one of the kinds,
/// a live entry holds a value, no key stands twice, and no empty entry
/// stands between the home of a key and its entry.
pub open spec fn slots_wf(slots: Seq<Slot>) -> bool {
    &&& slots.len() == TABLE_SIZE
    &&& forall|i: int| 0 <= i < TABLE_SIZE ==> Type::of_tag(#[trigger] slots[i].tag) is Some
    &&& forall|i: int| 0 <= i < TABLE_SIZE && (#[trigger] slots[i]).is_live() ==> slots[i].tag != 0
    &&& forall|i: int, j: int|
        0 <= i < TABLE_SIZE && 0 <= j < TABLE_SIZE && (#[trigger] slots[i]).is_live() && slots[i].key
            == (#[trigger] slots[j]).key ==> i == j
    &&& forall|i: int, step: int|
        0 <= i < TABLE_SIZE && (#[trigger] slots[i]).is_live() && 0 <= step < distance(
            home(slots[i].key),
            i,
        ) ==> !(#[trigger] slots[probe(home(slots[i].key), step)]).is_empty()
}

/// What holds of the block of every object.
pub open spec fn block_wf(bytes: Seq<u8>) -> bool {
    &&& bytes.len() == BYTES_SIZE
    &&& bytes[0] == Type::Object.tag()
    &&& slots_wf(slots_of(bytes))
    &&& spec_word_at(bytes, 1) <= live_count(slots_of(bytes), TABLE_SIZE as int)
}

pub proof fn lemma_live_count_bounds(slots: Seq<Slot>, n: int)
    requires
        0 <= n,
    ensures
        0 <= live_count(slots, n) <= n,
    decreases n,
{
    if n > 0 {
        lemma_live_count_bounds(slots, n - 1);
    }
}

/// Changing one entry changes the number of live entries by what that entry
/// changes.
pub proof fn lemma_live_count_update(slots: Seq<Slot>, i: int, slot: Slot, n: int)
    requires
        0 <= i < slots.len(),
        0 <= n <= slots.len(),
    ensures
        live_count(slots.update(i, slot), n) == live_count(slots, n) + if i < n {
            (if slot.is_live() {
                1int
            } else {
                0int
            }) - (if slots[i].is_live() {
                1int
            } else {
                0int
            })
        } else {
            0int
        },
    decreases n,
{
    if n > 0 {
        lemma_live_count_update(slots, i, slot, n - 1);
    }
}

pub proof fn lemma_none_live(slots: Seq<Slot>, n: int)
    requires
        0 <= n <= slots.len(),
        forall|i: int| 0 <= i < n ==> !(#[trigger] slots[i]).is_live(),
    ensures
        live_count(slots, n) == 0,
    decreases n,
{
    if n > 0 {
        lemma_none_live(slots, n - 1);
    }
}

/// Every entry is live exactly when the live entries are as many as the
/// entries.
pub proof fn lemma_live_count_full(slots: Seq<Slot>, n: int)
    requires
        0 <= n <= slots.len(),
    ensures
        live_count(slots, n) == n <==> forall|i: int| 0 <= i < n ==> (#[trigger] slots[i]).is_live(),
    decreases n,
{
    if n > 0 {
        lemma_live_count_full(slots, n - 1);
        lemma_live_count_bounds(slots, n - 1);
        if live_count(slots, n) == n {
            assert forall|i: int| 0 <= i < n implies (#[trigger] slots[i]).is_live() by {
                if i < n - 1 {
                } else {
                    assert(slots[n - 1].is_live());
                }
            }
        }
        if forall|i: int| 0 <= i < n ==> (#[trigger] slots[i]).is_live() {
            assert(slots[n - 1].is_live());
        }
    }
}

proof fn lemma_probe_distance(start: int, i: int)
    requires
        0 <= start < TABLE_SIZE,
        0 <= i < TABLE_SIZE,
    ensures
        0 <= distance(start, i) < TABLE_SIZE,
        probe(start, distance(start, i)) == i,
{
}

proof fn lemma_distance_probe(start: int, step: int)
    requires
        0 <= start < TABLE_SIZE,
        0 <= step < TABLE_SIZE,
    ensures
        0 <= probe(start, step) < TABLE_SIZE,
        distance(start, probe(start, step)) == step,
{
}

/// The search for a key that the table holds ends at its entry.
pub proof fn lemma_search_present(slots: Seq<Slot>, key: Ptr, j: int, step: int, tomb: Option<int>)
    requires
        slots_wf(slots),
        0 <= j < TABLE_SIZE,
        key != NULL_PTR,
        slots[j].key == key,
        0 <= step <= distance(home(key), j),
    ensures
        search(slots, key, step, tomb) == Some(j),
    decreases distance(home(key), j) - step,
{
    let d = distance(home(key), j);
    lemma_probe_distance(home(key), j);
    let i = probe(home(key), step);
    if step < d {
        lemma_distance_probe(home(key), step);
        assert(!slots[i].is_empty());
        assert(slots[j].is_live());
        if slots[i].key == key {
            assert(i == j);
        }
        if slots[i].key == NULL_PTR {
            lemma_search_present(slots, key, j, step + 1, Some(i));
        } else {
            lemma_search_present(slots, key, j, step + 1, tomb);
        }
    }
}

/// The search for a key that the table does not hold ends at an entry without
/// a key, before which no empty entry stands, or finds every entry live.
pub proof fn lemma_search_absent(slots: Seq<Slot>, key: Ptr, step: int, tomb: Option<int>)
    requires
        slots_wf(slots),
        !has_key(slots, key),
        0 <= step <= TABLE_SIZE,
        forall|s: int| 0 <= s < step ==> !(#[trigger] slots[probe(home(key), s)]).is_empty(),
        tomb is Some ==> 0 <= tomb->0 < TABLE_SIZE && slots[tomb->0].is_tombstone() && distance(
            home(key),
            tomb->0,
        ) < step,
        tomb is None ==> forall|s: int|
            0 <= s < step ==> (#[trigger] slots[probe(home(key), s)]).is_live(),
    ensures
        match search(slots, key, step, tomb) {
            Some(i) => {
                &&& 0 <= i < TABLE_SIZE
                &&& !slots[i].is_live()
                &&& forall|s: int|
                    0 <= s < distance(home(key), i) ==> !(#[trigger] slots[probe(
                        home(key),
                        s,
                    )]).is_empty()
            },
            None => forall|i: int| 0 <= i < TABLE_SIZE ==> (#[trigger] slots[i]).is_live(),
        },
    decreases TABLE_SIZE - step,
{
    if step >= TABLE_SIZE {
        if tomb is None {
            assert forall|i: int| 0 <= i < TABLE_SIZE implies (#[trigger] slots[i]).is_live() by {
                lemma_probe_distance(home(key), i);
                assert(slots[probe(home(key), distance(home(key), i))].is_live());
            }
        }
    } else {
        let i = probe(home(key), step);
        lemma_distance_probe(home(key), step);
        let slot = slots[i];
        if slot.key == NULL_PTR {
            if slot.tag != 0 {
                lemma_search_absent(slots, key, step + 1, Some(i));
            }
        } else {
            if key == NULL_PTR {
                assert(slot.key != key);
            }
            assert(slot.key != key);
            lemma_search_absent(slots, key, step + 1, tomb);
        }
    }
}

/// A key stands in the mapping of a table where an entry holds it, with the
/// value of that entry.
pub proof fn lemma_mapping_at(slots: Seq<Slot>, j: int)
    requires
        slots_wf(slots),
        0 <= j < TABLE_SIZE,
        slots[j].is_live(),
    ensures
        mapping(slots).contains_key(slots[j].key),
        mapping(slots)[slots[j].key] == slots[j].value(),
{
    let key = slots[j].key;
    assert(has_key(slots, key));
    let i = index_of(slots, key);
    assert(i == j);
}

/// Storing a key and a value in an entry that held this key or none keeps the
/// table as it must be and inserts the pair into its mapping.
pub proof fn lemma_store(slots: Seq<Slot>, i: int, slot: Slot)
    requires
        slots_wf(slots),
        0 <= i < TABLE_SIZE,
        slot.is_live(),
        slot.tag != 0,
        Type::of_tag(slot.tag) is Some,
        slots[i].key == slot.key || (!slots[i].is_live() && !has_key(slots, slot.key)),
        forall|s: int|
            0 <= s < distance(home(slot.key), i) ==> !(#[trigger] slots[probe(
                home(slot.key),
                s,
            )]).is_empty(),
    ensures
        slots_wf(slots.update(i, slot)),
        mapping(slots.update(i, slot)) == mapping(slots).insert(slot.key, slot.value()),
{
    let after = slots.update(i, slot);
    assert forall|a: int, b: int|
        0 <= a < TABLE_SIZE && 0 <= b < TABLE_SIZE && (#[trigger] after[a]).is_live() && after[a].key
            == (#[trigger] after[b]).key implies a == b by {
        if a != b {
            if a == i {
                assert(slots[b].key == slot.key);
                assert(has_key(slots, slot.key));
                assert(slots[b].is_live());
            } else if b == i {
                assert(slots[a].key == slot.key);
                assert(has_key(slots, slot.key));
                assert(slots[a].is_live());
            } else {
                assert(slots[a].is_live());
            }
        }
    }
    assert forall|a: int, step: int|
        0 <= a < TABLE_SIZE && (#[trigger] after[a]).is_live() && 0 <= step < distance(
            home(after[a].key),
            a,
        ) implies !(#[trigger] after[probe(home(after[a].key), step)]).is_empty() by {
        let p = probe(home(after[a].key), step);
        if p != i {
            if a != i {
                assert(slots[a].is_live());
                assert(!slots[p].is_empty());
            } else {
                assert(!slots[probe(home(slot.key), step)].is_empty());
            }
        }
    }
    assert(slots_wf(after));
    assert forall|key: Ptr| has_key(after, key) <==> (key == slot.key || has_key(slots, key)) by {
        if has_key(after, key) {
            let a = index_of(after, key);
            if a != i {
                assert(slots[a].key == key);
            }
        }
        if key == slot.key {
            assert(after[i].key == key);
        } else if has_key(slots, key) {
            let a = index_of(slots, key);
            assert(a != i);
            assert(after[a].key == key);
        }
    }
    assert forall|key: Ptr| has_key(after, key) implies #[trigger] mapping(after)[key] == mapping(
        slots,
    ).insert(slot.key, slot.value())[key] by {
        let a = index_of(after, key);
        assert(after[a].is_live());
        lemma_mapping_at(after, a);
        if key != slot.key {
            assert(a != i);
            assert(slots[a].is_live());
            lemma_mapping_at(slots, a);
        } else {
            assert(a == i);
        }
    }
    assert(mapping(after) =~= mapping(slots).insert(slot.key, slot.value()));
}

/// Putting a tombstone in an entry keeps the table as it must be and removes
/// the key of the entry, if it had one, from the mapping.
pub proof fn lemma_bury(slots: Seq<Slot>, i: int, slot: Slot)
    requires
        slots_wf(slots),
        0 <= i < TABLE_SIZE,
        slot.is_tombstone(),
        Type::of_tag(slot.tag) is Some,
    ensures
        slots_wf(slots.update(i, slot)),
        mapping(slots.update(i, slot)) == mapping(slots).remove(slots[i].key),
{
    let after = slots.update(i, slot);
    let gone = slots[i].key;
    assert forall|a: int, b: int|
        0 <= a < TABLE_SIZE && 0 <= b < TABLE_SIZE && (#[trigger] after[a]).is_live() && after[a].key
            == (#[trigger] after[b]).key implies a == b by {
        assert(slots[a].is_live());
        assert(b != i);
        assert(slots[a].key == slots[b].key);
    }
    assert forall|a: int, step: int|
        0 <= a < TABLE_SIZE && (#[trigger] after[a]).is_live() && 0 <= step < distance(
            home(after[a].key),
            a,
        ) implies !(#[trigger] after[probe(home(after[a].key), step)]).is_empty() by {
        let p = probe(home(after[a].key), step);
        assert(slots[a].is_live());
        if p != i {
            assert(!slots[p].is_empty());
        }
    }
    assert(slots_wf(after));
    assert forall|key: Ptr| has_key(after, key) <==> (key != gone && has_key(slots, key)) by {
        if has_key(after, key) {
            let a = index_of(after, key);
            assert(a != i);
            assert(slots[a].key == key);
            if key == gone {
                assert(slots[a].is_live());
                assert(slots[a].key == slots[i].key);
            }
        }
        if key != gone && has_key(slots, key) {
            let a = index_of(slots, key);
            assert(a != i);
            assert(after[a].key == key);
        }
    }
    assert forall|key: Ptr| has_key(after, key) implies #[trigger] mapping(after)[key] == mapping(
        slots,
    ).remove(gone)[key] by {
        let a = index_of(after, key);
        assert(after[a].is_live());
        lemma_mapping_at(after, a);
        assert(a != i);
        assert(slots[a].is_live());
        lemma_mapping_at(slots, a);
    }
    assert(mapping(after) =~= mapping(slots).remove(gone));
}


/// Writing a key into an entry changes the key of that entry and nothing else.
pub proof fn lemma_key_written(bytes: Seq<u8>, i: int, key: Ptr)
    requires
        bytes.len() == BYTES_SIZE,
        0 <= i < TABLE_SIZE,
    ensures
        slots_of(overwrite(bytes, entry_offset(i), spec_word_bytes(key))) == slots_of(bytes).update(
            i,
            Slot { key: key, ..slots_of(bytes)[i] },
        ),
        overwrite(bytes, entry_offset(i), spec_word_bytes(key))[0] == bytes[0],
        spec_word_at(overwrite(bytes, entry_offset(i), spec_word_bytes(key)), 1) == spec_word_at(
            bytes,
            1,
        ),
{
    let patch = spec_word_bytes(key);
    let at = entry_offset(i);
    let after = overwrite(bytes, at, patch);
    lemma_overwrite_word_same(bytes, at, key);
    lemma_overwrite_word_other(bytes, at, patch, 1);
    lemma_overwrite_word_other(bytes, at, patch, at + 9);
    assert forall|j: int| 0 <= j < TABLE_SIZE && j != i implies slot_at(after, j) == slot_at(
        bytes,
        j,
    ) by {
        lemma_overwrite_word_other(bytes, at, patch, entry_offset(j));
        lemma_overwrite_word_other(bytes, at, patch, entry_offset(j) + 9);
    }
    assert(slots_of(after) =~= slots_of(bytes).update(i, Slot { key: key, ..slots_of(bytes)[i] }));
}

/// Writing a kind and a word into an entry changes the value of that entry
/// and nothing else.
pub proof fn lemma_value_written(bytes: Seq<u8>, i: int, tag: u8, payload: u64)
    requires
        bytes.len() == BYTES_SIZE,
        0 <= i < TABLE_SIZE,
    ensures
        slots_of(
            overwrite(bytes.update(entry_offset(i) + 8, tag), entry_offset(i) + 9, spec_word_bytes(payload)),
        ) == slots_of(bytes).update(
            i,
            Slot { key: slots_of(bytes)[i].key, tag: tag, payload: payload },
        ),
        overwrite(
            bytes.update(entry_offset(i) + 8, tag),
            entry_offset(i) + 9,
            spec_word_bytes(payload),
        )[0] == bytes[0],
        spec_word_at(
            overwrite(bytes.update(entry_offset(i) + 8, tag), entry_offset(i) + 9, spec_word_bytes(payload)),
            1,
        ) == spec_word_at(bytes, 1),
{
    let patch = spec_word_bytes(payload);
    let at = entry_offset(i) + 9;
    let tagged = bytes.update(entry_offset(i) + 8, tag);
    let after = overwrite(tagged, at, patch);
    lemma_overwrite_word_same(tagged, at, payload);
    lemma_overwrite_word_other(tagged, at, patch, 1);
    lemma_overwrite_word_other(tagged, at, patch, entry_offset(i));
    assert forall|j: int| 0 <= j < TABLE_SIZE && j != i implies slot_at(after, j) == slot_at(
        bytes,
        j,
    ) by {
        lemma_overwrite_word_other(tagged, at, patch, entry_offset(j));
        lemma_overwrite_word_other(tagged, at, patch, entry_offset(j) + 9);
    }
    assert(slots_of(after) =~= slots_of(bytes).update(
        i,
        Slot { key: slots_of(bytes)[i].key, tag: tag, payload: payload },
    ));
}

/// Writing the count changes no entry.
pub proof fn lemma_count_written(bytes: Seq<u8>, count: u64)
    requires
        bytes.len() == BYTES_SIZE,
    ensures
        slots_of(overwrite(bytes, 1, spec_word_bytes(count))) == slots_of(bytes),
        overwrite(bytes, 1, spec_word_bytes(count))[0] == bytes[0],
        spec_word_at(overwrite(bytes, 1, spec_word_bytes(count)), 1) == count,
{
    let patch = spec_word_bytes(count);
    let after = overwrite(bytes, 1, patch);
    lemma_overwrite_word_same(bytes, 1, count);
    assert forall|j: int| 0 <= j < TABLE_SIZE implies slot_at(after, j) == slot_at(bytes, j) by {
        lemma_overwrite_word_other(bytes, 1, patch, entry_offset(j));
        lemma_overwrite_word_other(bytes, 1, patch, entry_offset(j) + 9);
    }
    assert(slots_of(after) =~= slots_of(bytes));
}

pub fn get_key(table: &Vec<u8>, entry: usize) -> (key: Ptr)
    requires
        entry + ENTRY_SIZE <= table.len(),
    ensures
        key == spec_word_at(table@, entry as int),
{
    read_pointer(table, entry)
}

pub fn set_key(table: &mut Vec<u8>, entry: usize, key: Ptr)
    requires
        entry + ENTRY_SIZE <= old(table).len(),
    ensures
        final(table)@ == overwrite(old(table)@, entry as int, spec_word_bytes(key)),
{
    write_pointer(table, entry, key)
}

/// The kind of the value of an entry.
pub fn get_type(table: &Vec<u8>, entry: usize) -> (typ: Type)
    requires
        entry + ENTRY_SIZE <= table.len(),
        Type::of_tag(table[entry + 8]) is Some,
    ensures
        Some(typ) == Type::of_tag(table[entry + 8]),
{
    match Type::from_byte(read_byte(table, entry + 8)) {
        Some(typ) => typ,
        None => Type::Empty,
    }
}

pub fn set_type(table: &mut Vec<u8>, entry: usize, typ: Type)
    requires
        entry + ENTRY_SIZE <= old(table).len(),
    ensures
        final(table)@ == old(table)@.update(entry + 8, typ.tag()),
{
    write_byte(table, entry + 8, typ.to_byte());
}

/// The value of an entry, where the entry holds one.
pub fn get_value(table: &Vec<u8>, entry: usize) -> (value: Option<Value>)
    requires
        entry + ENTRY_SIZE <= table.len(),
        Type::of_tag(table[entry + 8]) is Some,
    ensures
        value == if table[entry + 8] == 0 {
            None
        } else {
            Some(
                Value::decode(
                    Type::of_tag(table[entry + 8])->0,
                    spec_word_at(table@, entry + 9),
                ),
            )
        },
{
    let typ = get_type(table, entry);
    if typ == Type::Empty {
        return None;
    }
    let payload = read_number(table, entry + 9);
    Some(Value::from_payload(typ, payload))
}

pub fn set_value(table: &mut Vec<u8>, entry: usize, value: Value)
    requires
        entry + ENTRY_SIZE <= old(table).len(),
    ensures
        final(table)@ == overwrite(
            old(table)@.update(entry + 8, value.kind().tag()),
            entry + 9,
            spec_word_bytes(value.spec_payload()),
        ),
{
    write_byte(table, entry + 8, value.type_of().to_byte());
    write_number(table, entry + 9, value.payload());
}

/// The offset of the entry at which the search for a key ends.
pub fn find_in_block(block: &Vec<u8>, key: &Ptr) -> (entry: Option<usize>)
    requires
        block_wf(block@),
    ensures
        entry == match search(slots_of(block@), *key, 0, None) {
            Some(i) => Some(entry_offset(i) as usize),
            None => None,
        },
{
    let start = (*key % (TABLE_SIZE as u64)) as usize;
    let mut tomb: Option<usize> = None;
    let mut step: usize = 0;
    while step < TABLE_SIZE
        invariant
            block_wf(block@),
            step <= TABLE_SIZE,
            start == home(*key),
            tomb matches Some(t) ==> 0 <= t < TABLE_SIZE,
            search(slots_of(block@), *key, 0, None) == search(
                slots_of(block@),
                *key,
                step as int,
                match tomb {
                    Some(t) => Some(t as int),
                    None => None,
                },
            ),
        decreases TABLE_SIZE - step,
    {
        let index = (start + step) % TABLE_SIZE;
        let entry = HEADER_SIZE + ENTRY_SIZE * index;
        assert(slots_of(block@)[index as int] == slot_at(block@, index as int));
        let slot_key = get_key(block, entry);
        if slot_key == NULL_PTR {
            if get_value(block, entry).is_none() {
                return match tomb {
                    Some(t) => Some(HEADER_SIZE + ENTRY_SIZE * t),
                    None => Some(entry),
                };
            } else {
                tomb = Some(index);
            }
        } else if slot_key == *key {
            return Some(entry);
        }
        step = step + 1;
    }
    match tomb {
        Some(t) => Some(HEADER_SIZE + ENTRY_SIZE * t),
        None => None,
    }
}

/// The live entries, in the order in which they stand in the block.
pub fn entries_of_block(block: &Vec<u8>) -> (entries: Vec<HashEntry>)
    requires
        block_wf(block@),
    ensures
        entries@ == live_entries(slots_of(block@), TABLE_SIZE as int),
{
    let mut entries: Vec<HashEntry> = Vec::new();
    let mut i: usize = 0;
    while i < TABLE_SIZE
        invariant
            block_wf(block@),
            i <= TABLE_SIZE,
            entries@ == live_entries(slots_of(block@), i as int),
        decreases TABLE_SIZE - i,
    {
        let entry = HEADER_SIZE + ENTRY_SIZE * i;
        assert(slots_of(block@)[i as int] == slot_at(block@, i as int));
        let key = get_key(block, entry);
        if key != NULL_PTR {
            match get_value(block, entry) {
                Some(value) => {
                    entries.push(HashEntry { key, value });
                },
                None => {},
            }
        }
        i = i + 1;
    }
    entries
}

/// The live entry that stands at `index` among the live entries.
pub fn entry_of_block(block: &Vec<u8>, index: usize) -> (entry: Option<HashEntry>)
    requires
        block_wf(block@),
    ensures
        entry == if index < live_entries(slots_of(block@), TABLE_SIZE as int).len() {
            Some(live_entries(slots_of(block@), TABLE_SIZE as int)[index as int])
        } else {
            None
        },
{
    let all = entries_of_block(block);
    if index < all.len() {
        Some(all[index])
    } else {
        None
    }
}

pub fn lookup_in_block(block: &Vec<u8>, key: &Ptr) -> (value: Option<Value>)
    requires
        block_wf(block@),
    ensures
        value == if mapping(slots_of(block@)).contains_key(*key) {
            Some(mapping(slots_of(block@))[*key])
        } else {
            None
        },
{
    proof {
        let slots = slots_of(block@);
        if has_key(slots, *key) {
            let j = index_of(slots, *key);
            lemma_probe_distance(home(*key), j);
            lemma_search_present(slots, *key, j, 0, None);
            lemma_mapping_at(slots, j);
        } else {
            lemma_search_absent(slots, *key, 0, None);
        }
    }
    match find_in_block(block, key) {
        None => None,
        Some(entry) => {
            let ghost i = search(slots_of(block@), *key, 0, None)->0;
            assert(slots_of(block@)[i] == slot_at(block@, i));
            if get_key(block, entry) == NULL_PTR {
                return None;
            }
            get_value(block, entry)
        },
    }
}


/// An object: fifty entries in one block, found by their keys.
pub struct HashTable {
    pub entries: Vec<u8>,
    pub count: usize,
    pub layout: Option<Layout>,
}

impl HashTable {
    pub open spec fn spec_count(&self) -> usize {
        self.count
    }

    pub open spec fn slots(&self) -> Seq<Slot> {
        slots_of(self.entries@)
    }

    /// The block is that of an object and the count is the one it holds.
    pub open spec fn wf(&self) -> bool {
        &&& block_wf(self.entries@)
        &&& self.spec_count() == spec_word_at(self.entries@, 1)
    }

    /// The keys of the object and their values.
    pub open spec fn view(&self) -> Map<Ptr, Value> {
        mapping(self.slots())
    }

    /// The number of keys that the object holds.
    pub open spec fn live(&self) -> int {
        live_count(self.slots(), TABLE_SIZE as int)
    }

    /// True when no entry is free for a new key.
    pub open spec fn is_full(&self) -> bool {
        self.live() == TABLE_SIZE
    }

    /// An object is full exactly when each of its entries holds a key.
    pub proof fn lemma_is_full(&self)
        requires
            self.wf(),
        ensures
            self.is_full() <==> forall|i: int|
                0 <= i < TABLE_SIZE ==> (#[trigger] self.slots()[i]).is_live(),
            0 <= self.spec_count() <= self.live() <= TABLE_SIZE,
    {
        lemma_live_count_full(self.slots(), TABLE_SIZE as int);
        lemma_live_count_bounds(self.slots(), TABLE_SIZE as int);
    }

    pub fn new() -> (table: Self)
        ensures
            table.wf(),
            table@ == Map::<Ptr, Value>::empty(),
            table.spec_count() == 0,
            table.live() == 0,
            table.layout == Some(Layout { size: BYTES_SIZE, align: 1 }),
    {
        let mut entries: Vec<u8> = Vec::new();
        entries.push(Type::Object.to_byte());
        let mut i: usize = 1;
        while i < BYTES_SIZE
            invariant
                1 <= i <= BYTES_SIZE,
                entries.len() == i,
                entries[0] == Type::Object.tag(),
                forall|j: int| 1 <= j < i ==> entries[j] == 0,
            decreases BYTES_SIZE - i,
        {
            entries.push(0);
            i = i + 1;
        }
        proof {
            let slots = slots_of(entries@);
            assert forall|j: int| 0 <= j < TABLE_SIZE implies (#[trigger] slots[j]).is_empty() by {
                assert(entries[entry_offset(j) + 8] == 0);
            }
            assert(spec_word_at(entries@, 1) == 0);
            lemma_live_count_bounds(slots, TABLE_SIZE as int);
            lemma_none_live(slots, TABLE_SIZE as int);
            assert(mapping(slots) =~= Map::<Ptr, Value>::empty());
        }
        HashTable { entries, count: 0, layout: Some(Layout { size: BYTES_SIZE, align: 1 }) }
    }

    /// The object whose block is given.
    pub fn from(obj: Vec<u8>) -> (table: Self)
        requires
            block_wf(obj@),
        ensures
            table.wf(),
            table.entries == obj,
            table.layout.is_none(),
    {
        proof {
            lemma_live_count_bounds(slots_of(obj@), TABLE_SIZE as int);
        }
        let count = read_number(&obj, 1) as usize;
        HashTable { entries: obj, count, layout: None }
    }

    pub fn size_of() -> (size: usize)
        ensures
            size == ENTRY_SIZE,
    {
        8 + (1 + 8)
    }

    /// The offset of the entry at which the search for a key ends.
    pub fn find_entry(&self, key: &Ptr) -> (entry: Option<usize>)
        requires
            self.wf(),
        ensures
            entry == match search(self.slots(), *key, 0, None) {
                Some(i) => Some(entry_offset(i) as usize),
                None => None,
            },
    {
        find_in_block(&self.entries, key)
    }

    /// The live entries, in the order in which they stand in the block.
    pub fn get_all(&self) -> (entries: Vec<HashEntry>)
        requires
            self.wf(),
        ensures
            entries@ == live_entries(self.slots(), TABLE_SIZE as int),
    {
        entries_of_block(&self.entries)
    }

    /// The live entry that stands at `index` among the live entries.
    pub fn get_entry(&self, index: usize) -> (entry: Option<HashEntry>)
        requires
            self.wf(),
        ensures
            entry == if index < live_entries(self.slots(), TABLE_SIZE as int).len() {
                Some(live_entries(self.slots(), TABLE_SIZE as int)[index as int])
            } else {
                None
            },
    {
        entry_of_block(&self.entries, index)
    }

    pub fn get(&self, key: &Ptr) -> (value: Option<Value>)
        requires
            self.wf(),
        ensures
            value == if self@.contains_key(*key) {
                Some(self@[*key])
            } else {
                None
            },
    {
        lookup_in_block(&self.entries, key)
    }

    /// Stores a value under a key, which must be the handle of a string. The
    /// result tells whether it was stored: it is not where the key is new and
    /// every entry is live.
    pub fn set(&mut self, key: Ptr, val: Value) -> (stored: bool)
        requires
            old(self).wf(),
            key != NULL_PTR,
        ensures
            final(self).wf(),
            final(self).layout == old(self).layout,
            stored <==> (old(self)@.contains_key(key) || !old(self).is_full()),
            stored ==> final(self)@ == old(self)@.insert(key, val),
            stored ==> final(self).spec_count() == old(self).spec_count() + if old(
                self,
            )@.contains_key(key) {
                0int
            } else {
                1int
            },
            stored ==> final(self).live() == old(self).live() + if old(self)@.contains_key(key) {
                0int
            } else {
                1int
            },
            !stored ==> final(self).entries == old(self).entries && final(self).spec_count() == old(
                self,
            ).spec_count(),
    {
        let ghost slots = self.slots();
        proof {
            if has_key(slots, key) {
                let j = index_of(slots, key);
                lemma_probe_distance(home(key), j);
                lemma_search_present(slots, key, j, 0, None);
                assert(slots[j].is_live());
            } else {
                lemma_search_absent(slots, key, 0, None);
            }
            lemma_live_count_bounds(slots, TABLE_SIZE as int);
            lemma_live_count_full(slots, TABLE_SIZE as int);
        }
        match self.find_entry(&key) {
            None => false,
            Some(entry) => {
                let ghost i = search(slots, key, 0, None)->0;
                assert(slots[i] == slot_at(self.entries@, i));
                let fresh = get_key(&self.entries, entry) == NULL_PTR;
                if fresh {
                    proof {
                        lemma_count_written(self.entries@, (self.count + 1) as u64);
                    }
                    self.set_count(self.count + 1);
                }
                let ghost counted = self.entries@;
                set_key(&mut self.entries, entry, key);
                let ghost keyed = self.entries@;
                set_value(&mut self.entries, entry, val);
                proof {
                    lemma_key_written(counted, i, key);
                    lemma_value_written(keyed, i, val.kind().tag(), val.spec_payload());
                    let slot = Slot { key: key, tag: val.kind().tag(), payload: val.spec_payload() };
                    assert(self.slots() =~= slots.update(i, slot));
                    Value::lemma_payload_round_trip(val);
                    Type::lemma_tag_round_trip(val.kind());
                    assert(slot.value() == val);
                    if has_key(slots, key) {
                        let j = index_of(slots, key);
                        lemma_probe_distance(home(key), j);
                        assert forall|s: int| 0 <= s < distance(home(key), i) implies !(
                        #[trigger] slots[probe(home(key), s)]).is_empty() by {
                            assert(slots[i].is_live());
                        }
                    }
                    lemma_store(slots, i, slot);
                    lemma_live_count_update(slots, i, slot, TABLE_SIZE as int);
                }
                true
            },
        }
    }

    /// Removes a key, unless the count is zero. Where the table does not hold
    /// the key, the entry at which the search ends becomes a tombstone and the
    /// count goes down all the same.
    pub fn delete(&mut self, key: Ptr)
        requires
            old(self).wf(),
        ensures
            final(self).wf(),
            final(self).layout == old(self).layout,
            old(self).spec_count() == 0 || (!old(self)@.contains_key(key) && old(self).is_full())
                ==> final(self).entries == old(self).entries && final(self).spec_count() == old(
                self,
            ).spec_count(),
            !(old(self).spec_count() == 0 || (!old(self)@.contains_key(key) && old(
                self,
            ).is_full())) ==> final(self)@ == old(self)@.remove(key) && final(self).spec_count()
                == old(self).spec_count() - 1 && final(self).live() == old(self).live() - if old(
                self,
            )@.contains_key(key) {
                1int
            } else {
                0int
            },
    {
        if self.count == 0 {
            return ;
        }
        let ghost slots = self.slots();
        proof {
            if has_key(slots, key) {
                let j = index_of(slots, key);
                lemma_probe_distance(home(key), j);
                lemma_search_present(slots, key, j, 0, None);
                assert(slots[j].is_live());
            } else {
                lemma_search_absent(slots, key, 0, None);
            }
            lemma_live_count_bounds(slots, TABLE_SIZE as int);
            lemma_live_count_full(slots, TABLE_SIZE as int);
        }
        match self.find_entry(&key) {
            None => {},
            Some(entry) => {
                let ghost i = search(slots, key, 0, None)->0;
                assert(slots[i] == slot_at(self.entries@, i));
                let ghost before = self.entries@;
                set_key(&mut self.entries, entry, NULL_PTR);
                let ghost keyed = self.entries@;
                set_value(&mut self.entries, entry, Value::Bool(true));
                proof {
                    lemma_key_written(before, i, NULL_PTR);
                    lemma_value_written(keyed, i, Type::Boolean.tag(), 1);
                    let slot = Slot { key: NULL_PTR, tag: Type::Boolean.tag(), payload: 1 };
                    assert(self.slots() =~= slots.update(i, slot));
                    lemma_bury(slots, i, slot);
                    lemma_live_count_update(slots, i, slot, TABLE_SIZE as int);
                    lemma_count_written(self.entries@, (self.count - 1) as u64);
                    if !has_key(slots, key) {
                        assert(!mapping(slots).contains_key(slots[i].key));
                        assert(mapping(slots).remove(slots[i].key) =~= mapping(slots));
                        assert(mapping(slots).remove(key) =~= mapping(slots));
                    }
                }
                self.set_count(self.count - 1);
            },
        }
    }

    fn set_count(&mut self, count: usize)
        requires
            old(self).entries.len() == BYTES_SIZE,
        ensures
            final(self).count == count,
            final(self).layout == old(self).layout,
            final(self).entries@ == overwrite(
                old(self).entries@,
                1,
                spec_word_bytes(count as u64),
            ),
    {
        self.count = count;
        write_number(&mut self.entries, 1, count as u64);
    }

    pub fn get_count(&self) -> (count: usize)
        ensures
            count == self.spec_count(),
    {
        self.count
    }
}

} // verus!
