use vstd::prelude::*;
use vstd::string::*;
use vstd::utf8::*;
use crate::array::{
    array_block_wf, item_of_block, items_of, items_of_block, Array, ARRAY_BYTES_SIZE, ARRAY_SIZE,
};
use crate::bytes::{
    lemma_null_position, lemma_null_position_is, null_position, null_run, read_bytes_until_null,
    read_number, spec_word_at, text_of_bytes, NULL,
};
use crate::hash_table::{
    block_wf, entries_of_block, lemma_live_count_bounds, live_count, live_entries, lookup_in_block,
    mapping, slots_of, HashEntry, HashTable, Layout, Slot, BYTES_SIZE, TABLE_SIZE,
};
use crate::types::Type;
use crate::value::{Ptr, Value, NULL_PTR};

verus! {

/// Why the heap refused to allocate.
#[derive(Clone, Copy, Debug, PartialEq, Eq, Structural)]
pub enum HeapError {
    /// The heap would hold more bytes than it may, or an object or an array
    /// more items than it has room for.
    OutOfMemory,
}

/// What a cell of the heap holds.
#[derive(Clone, Copy, Debug, PartialEq, Eq, Structural)]
pub enum CellKind {
    Free,
    Text,
    Table,
    List,
}

/// One cell of the heap: a block of bytes and one flag. The flag of a string
/// tells that the compiler made it; the flag of an object or an array is the
/// mark of the collector.
#[derive(Debug)]
pub struct Cell {
    pub kind: CellKind,
    pub bytes: Vec<u8>,
    pub flag: bool,
}

/// What holds of the block of every string: the kind, the bytes, a zero byte.
pub open spec fn text_block_wf(bytes: Seq<u8>) -> bool {
    &&& bytes.len() >= 2
    &&& bytes[0] == Type::String.tag()
    &&& bytes[bytes.len() - 1] == NULL
}

/// The bytes under which a text is interned: its bytes up to the first zero
/// byte, which is all of them where it holds none.
pub open spec fn interned_content(text: Seq<char>) -> Seq<u8> {
    null_run(encode_utf8(text), 0)
}

/// The block of the string that holds `bytes`.
pub open spec fn text_block(bytes: Seq<u8>) -> Seq<u8> {
    seq![Type::String.tag()] + bytes + seq![NULL]
}

impl Cell {
    pub open spec fn wf(&self) -> bool {
        match self.kind {
            CellKind::Free => self.bytes@.len() == 0,
            CellKind::Text => text_block_wf(self.bytes@),
            CellKind::Table => block_wf(self.bytes@),
            CellKind::List => array_block_wf(self.bytes@),
        }
    }

    /// The bytes of the string in a cell that holds one.
    pub open spec fn content(&self) -> Seq<u8> {
        null_run(self.bytes@, 1)
    }
}

/// The bytes of the first `n` cells together.
pub open spec fn total_bytes(memory: Seq<Cell>, n: int) -> int
    decreases n,
{
    if n <= 0 {
        0
    } else {
        total_bytes(memory, n - 1) + memory[n - 1].bytes@.len()
    }
}

pub proof fn lemma_total_bytes_update(memory: Seq<Cell>, i: int, cell: Cell, n: int)
    requires
        0 <= i < memory.len(),
        0 <= n <= memory.len(),
    ensures
        total_bytes(memory.update(i, cell), n) == total_bytes(memory, n) + if i < n {
            cell.bytes@.len() - memory[i].bytes@.len()
        } else {
            0
        },
    decreases n,
{
    if n > 0 {
        lemma_total_bytes_update(memory, i, cell, n - 1);
    }
}

pub proof fn lemma_total_bytes_push(memory: Seq<Cell>, cell: Cell, n: int)
    requires
        0 <= n <= memory.len(),
    ensures
        total_bytes(memory.push(cell), n) == total_bytes(memory, n),
        n == memory.len() ==> total_bytes(memory.push(cell), n + 1) == total_bytes(memory, n)
            + cell.bytes@.len(),
    decreases n,
{
    if n > 0 {
        lemma_total_bytes_push(memory, cell, n - 1);
    }
}

pub proof fn lemma_total_bytes_bounds(memory: Seq<Cell>, i: int, n: int)
    requires
        0 <= i < n <= memory.len(),
    ensures
        memory[i].bytes@.len() <= total_bytes(memory, n),
        0 <= total_bytes(memory, n),
    decreases n,
{
    if i < n - 1 {
        lemma_total_bytes_bounds(memory, i, n - 1);
    } else {
        lemma_total_bytes_nonnegative(memory, n - 1);
    }
}

pub proof fn lemma_total_bytes_nonnegative(memory: Seq<Cell>, n: int)
    ensures
        0 <= total_bytes(memory, n),
    decreases n,
{
    if n > 0 {
        lemma_total_bytes_nonnegative(memory, n - 1);
    }
}

/// The block of a string holds the bytes under which the string is interned.
pub proof fn lemma_text_block_content(bytes: Seq<u8>)
    ensures
        text_block_wf(text_block(bytes)),
        null_run(text_block(bytes), 1) == null_run(bytes, 0),
{
    let block = text_block(bytes);
    let end = null_position(bytes, 0);
    lemma_null_position(bytes, 0);
    assert forall|i: int| 1 <= i < 1 + end implies block[i] != NULL by {
        assert(block[i] == bytes[i - 1]);
    }
    if end < bytes.len() {
        assert(block[1 + end] == bytes[end]);
    }
    lemma_null_position_is(block, 1, 1 + end);
    assert(block.subrange(1, 1 + end) =~= bytes.subrange(0, end));
}

fn bytes_equal(a: &Vec<u8>, b: &Vec<u8>) -> (same: bool)
    ensures
        same == (a@ == b@),
{
    if a.len() != b.len() {
        return false;
    }
    let mut i: usize = 0;
    while i < a.len()
        invariant
            i <= a.len(),
            a.len() == b.len(),
            forall|j: int| 0 <= j < i ==> a[j] == b[j],
        decreases a.len() - i,
    {
        if a[i] != b[i] {
            return false;
        }
        i = i + 1;
    }
    assert(a@ =~= b@);
    true
}

/// The heap: cells that hold the blocks of strings, objects and arrays, by
/// handle, and the count of the bytes that they take.
#[derive(Debug)]
pub struct HeapManager {
    pub memory: Vec<Cell>,
    pub allocated_memory: usize,
    pub max_heap_size: usize,
}

impl HeapManager {
    pub open spec fn kind_at(&self, ptr: Ptr) -> CellKind {
        if 1 <= ptr <= self.memory.len() {
            self.memory[ptr - 1].kind
        } else {
            CellKind::Free
        }
    }

    /// The cell that a handle names.
    pub open spec fn cell(&self, ptr: Ptr) -> Cell {
        self.memory[ptr - 1]
    }

    /// True when the handle names a block of the heap.
    pub open spec fn holds(&self, ptr: Ptr) -> bool {
        self.kind_at(ptr) != CellKind::Free
    }

    pub open spec fn holds_string(&self, ptr: Ptr) -> bool {
        self.kind_at(ptr) == CellKind::Text
    }

    pub open spec fn holds_object(&self, ptr: Ptr) -> bool {
        self.kind_at(ptr) == CellKind::Table
    }

    pub open spec fn holds_array(&self, ptr: Ptr) -> bool {
        self.kind_at(ptr) == CellKind::List
    }

    /// The bytes of the string that a handle names.
    pub open spec fn string_bytes(&self, ptr: Ptr) -> Seq<u8> {
        self.cell(ptr).content()
    }

    /// The keys and values of the object that a handle names.
    pub open spec fn object_map(&self, ptr: Ptr) -> Map<Ptr, Value> {
        mapping(slots_of(self.cell(ptr).bytes@))
    }

    /// The entries of the object that a handle names, in the order in which
    /// they stand in its block.
    pub open spec fn object_entries(&self, ptr: Ptr) -> Seq<HashEntry> {
        live_entries(slots_of(self.cell(ptr).bytes@), TABLE_SIZE as int)
    }

    /// The values of the array that a handle names.
    pub open spec fn array_items(&self, ptr: Ptr) -> Seq<Value> {
        items_of(self.cell(ptr).bytes@)
    }

    /// The live strings, each with the flag that tells whether the compiler
    /// made it.
    pub open spec fn interned_strings(&self) -> Map<Ptr, bool> {
        Map::new(|ptr: Ptr| self.holds_string(ptr), |ptr: Ptr| self.cell(ptr).flag)
    }

    /// The live objects and arrays, each with its mark.
    pub open spec fn objects(&self) -> Map<Ptr, bool> {
        Map::new(
            |ptr: Ptr| self.holds_object(ptr) || self.holds_array(ptr),
            |ptr: Ptr| self.cell(ptr).flag,
        )
    }

    /// What each live block took when it was allocated.
    pub open spec fn heap_layout(&self) -> Map<Ptr, Layout> {
        Map::new(
            |ptr: Ptr| self.holds(ptr),
            |ptr: Ptr| Layout { size: self.cell(ptr).bytes.len(), align: 1 },
        )
    }

    /// No two live strings hold the same bytes.
    pub open spec fn strings_unique(&self) -> bool {
        forall|p: Ptr, q: Ptr|
            self.holds_string(p) && self.holds_string(q) && #[trigger] self.string_bytes(p)
                == #[trigger] self.string_bytes(q) ==> p == q
    }

    /// What holds of every heap: each block is of the kind of its cell, no two
    /// live strings hold the same bytes, and the count of allocated bytes is
    /// that of the bytes of the blocks.
    pub open spec fn wf(&self) -> bool {
        &&& forall|i: int| 0 <= i < self.memory.len() ==> (#[trigger] self.memory[i]).wf()
        &&& self.strings_unique()
        &&& self.allocated_memory == total_bytes(self.memory@, self.memory.len() as int)
    }

    pub fn new(max_heap_size: usize) -> (heap: Self)
        ensures
            heap.wf(),
            heap.memory@.len() == 0,
            heap.allocated_memory == 0,
            heap.max_heap_size == max_heap_size,
    {
        HeapManager { memory: Vec::new(), allocated_memory: 0, max_heap_size }
    }

    /// Fails when the heap holds more bytes than it may.
    pub fn check_oom(&self) -> (r: Result<(), HeapError>)
        ensures
            r == if self.allocated_memory > self.max_heap_size {
                Err::<(), HeapError>(HeapError::OutOfMemory)
            } else {
                Ok(())
            },
    {
        if self.allocated_memory > self.max_heap_size {
            Err(HeapError::OutOfMemory)
        } else {
            Ok(())
        }
    }

    /// What the cell of a handle holds; nothing, where the handle names no cell.
    pub fn kind_of(&self, ptr: Ptr) -> (kind: CellKind)
        ensures
            kind == self.kind_at(ptr),
    {
        if ptr >= 1 && ptr - 1 < self.memory.len() as u64 {
            self.memory[(ptr - 1) as usize].kind
        } else {
            CellKind::Free
        }
    }

    pub fn is_string(&self, ptr: Ptr) -> (r: bool)
        ensures
            r == self.holds_string(ptr),
    {
        self.kind_of(ptr) == CellKind::Text
    }

    pub fn is_object(&self, ptr: Ptr) -> (r: bool)
        ensures
            r == self.holds_object(ptr),
    {
        self.kind_of(ptr) == CellKind::Table
    }

    pub fn is_array(&self, ptr: Ptr) -> (r: bool)
        ensures
            r == self.holds_array(ptr),
    {
        self.kind_of(ptr) == CellKind::List
    }

    /// Gives back the block of a handle. A handle that names no block is
    /// left alone.
    pub fn free(&mut self, ptr: Ptr)
        requires
            old(self).wf(),
        ensures
            final(self).wf(),
            final(self).max_heap_size == old(self).max_heap_size,
            !final(self).holds(ptr),
            final(self).memory.len() == old(self).memory.len(),
            forall|q: Ptr|
                q != ptr ==> #[trigger] final(self).kind_at(q) == old(self).kind_at(q) && (old(
                    self,
                ).holds(q) ==> final(self).cell(q) == old(self).cell(q)),
            !old(self).holds(ptr) ==> final(self).same(*old(self)),
            old(self).holds(ptr) ==> final(self).allocated_memory == old(self).allocated_memory
                - old(self).cell(ptr).bytes.len(),
    {
        if self.kind_of(ptr) == CellKind::Free {
            return ;
        }
        let index = (ptr - 1) as usize;
        let size = self.memory[index].bytes.len();
        let empty = Cell { kind: CellKind::Free, bytes: Vec::new(), flag: false };
        proof {
            lemma_total_bytes_update(self.memory@, index as int, empty, self.memory.len() as int);
            lemma_total_bytes_bounds(self.memory@, index as int, self.memory.len() as int);
        }
        self.memory[index] = empty;
        self.allocated_memory = self.allocated_memory - size;
        proof {
            assert forall|p: Ptr, q: Ptr|
                self.holds_string(p) && self.holds_string(q) && #[trigger] self.string_bytes(p)
                    == #[trigger] self.string_bytes(q) implies p == q by {
                assert(self.kind_at(p) == old(self).kind_at(p));
                assert(self.kind_at(q) == old(self).kind_at(q));
                assert(self.cell(p) == old(self).cell(p));
                assert(self.cell(q) == old(self).cell(q));
                assert(old(self).string_bytes(p) == old(self).string_bytes(q));
            }
        }
    }

    pub fn free_object(&mut self, ptr: Ptr)
        requires
            old(self).wf(),
        ensures
            final(self).wf(),
            final(self).max_heap_size == old(self).max_heap_size,
            !final(self).holds(ptr),
            final(self).memory.len() == old(self).memory.len(),
            forall|q: Ptr|
                q != ptr ==> #[trigger] final(self).kind_at(q) == old(self).kind_at(q) && (old(
                    self,
                ).holds(q) ==> final(self).cell(q) == old(self).cell(q)),
            !old(self).holds(ptr) ==> final(self).same(*old(self)),
            old(self).holds(ptr) ==> final(self).allocated_memory == old(self).allocated_memory
                - old(self).cell(ptr).bytes.len(),
    {
        self.free(ptr);
    }

    pub fn free_array(&mut self, ptr: Ptr)
        requires
            old(self).wf(),
        ensures
            final(self).wf(),
            final(self).max_heap_size == old(self).max_heap_size,
            !final(self).holds(ptr),
            final(self).memory.len() == old(self).memory.len(),
            forall|q: Ptr|
                q != ptr ==> #[trigger] final(self).kind_at(q) == old(self).kind_at(q) && (old(
                    self,
                ).holds(q) ==> final(self).cell(q) == old(self).cell(q)),
            !old(self).holds(ptr) ==> final(self).same(*old(self)),
            old(self).holds(ptr) ==> final(self).allocated_memory == old(self).allocated_memory
                - old(self).cell(ptr).bytes.len(),
    {
        self.free_object(ptr);
    }

    pub fn free_string(&mut self, ptr: Ptr)
        requires
            old(self).wf(),
        ensures
            final(self).wf(),
            final(self).max_heap_size == old(self).max_heap_size,
            !final(self).holds(ptr),
            final(self).memory.len() == old(self).memory.len(),
            forall|q: Ptr|
                q != ptr ==> #[trigger] final(self).kind_at(q) == old(self).kind_at(q) && (old(
                    self,
                ).holds(q) ==> final(self).cell(q) == old(self).cell(q)),
            !old(self).holds(ptr) ==> final(self).same(*old(self)),
            old(self).holds(ptr) ==> final(self).allocated_memory == old(self).allocated_memory
                - old(self).cell(ptr).bytes.len(),
    {
        self.free(ptr);
    }

    /// Two strings are the same string exactly when their handles are equal.
    pub fn compare_strings(string1: Ptr, string2: Ptr) -> (same: bool)
        ensures
            same == (string1 == string2),
    {
        string1 == string2
    }

    /// Two objects are the same object exactly when their handles are equal.
    pub fn compare_objects(obj1: Ptr, obj2: Ptr) -> (same: bool)
        ensures
            same == (obj1 == obj2),
    {
        obj1 == obj2
    }

    /// The number of bytes of the word of a value.
    pub fn get_object_entry_size() -> (size: usize)
        ensures
            size == 8,
    {
        8
    }

    /// The text of a string.
    pub fn get_string(&self, str_ptr: Ptr) -> (text: String)
        requires
            self.wf(),
            self.holds_string(str_ptr),
        ensures
            valid_utf8(self.string_bytes(str_ptr)) ==> text@ == decode_utf8(
                self.string_bytes(str_ptr),
            ),
    {
        let bytes = self.get_string_bytes(str_ptr);
        text_of_bytes(&bytes)
    }

    /// The bytes of a string.
    pub fn get_string_bytes(&self, str_ptr: Ptr) -> (bytes: Vec<u8>)
        requires
            self.wf(),
            self.holds_string(str_ptr),
        ensures
            bytes@ == self.string_bytes(str_ptr),
    {
        let index = (str_ptr - 1) as usize;
        assert(self.memory[index as int].wf());
        read_bytes_until_null(&self.memory[index].bytes, 1)
    }

    /// The live string that holds the bytes under which a text is interned.
    pub fn check_string_is_interned(&self, string: &str) -> (found: Option<Ptr>)
        requires
            self.wf(),
        ensures
            match found {
                Some(ptr) => self.holds_string(ptr) && self.string_bytes(ptr) == interned_content(
                    string@,
                ),
                None => forall|ptr: Ptr|
                    self.holds_string(ptr) ==> #[trigger] self.string_bytes(ptr)
                        != interned_content(string@),
            },
    {
        let bytes = string.as_bytes_vec();
        let wanted = read_bytes_until_null(&bytes, 0);
        self.find_content(&wanted)
    }

    fn find_content(&self, wanted: &Vec<u8>) -> (found: Option<Ptr>)
        requires
            self.wf(),
        ensures
            match found {
                Some(ptr) => self.holds_string(ptr) && self.string_bytes(ptr) == wanted@,
                None => forall|ptr: Ptr|
                    self.holds_string(ptr) ==> #[trigger] self.string_bytes(ptr) != wanted@,
            },
    {
        let mut i: usize = 0;
        while i < self.memory.len()
            invariant
                self.wf(),
                i <= self.memory.len(),
                forall|ptr: Ptr|
                    1 <= ptr <= i && self.holds_string(ptr) ==> #[trigger] self.string_bytes(ptr)
                        != wanted@,
            decreases self.memory.len() - i,
        {
            if self.memory[i].kind == CellKind::Text {
                assert(self.memory[i as int].wf());
                let content = read_bytes_until_null(&self.memory[i].bytes, 1);
                if bytes_equal(&content, wanted) {
                    return Some((i + 1) as u64);
                }
            }
            i = i + 1;
        }
        None
    }

    /// The index of the first free cell, or the number of cells.
    fn find_free(&self) -> (index: usize)
        ensures
            index <= self.memory.len(),
            index < self.memory.len() ==> self.memory[index as int].kind == CellKind::Free,
            forall|i: int| 0 <= i < index ==> (#[trigger] self.memory[i]).kind != CellKind::Free,
    {
        let mut i: usize = 0;
        while i < self.memory.len()
            invariant
                i <= self.memory.len(),
                forall|j: int| 0 <= j < i ==> (#[trigger] self.memory[j]).kind != CellKind::Free,
            decreases self.memory.len() - i,
        {
            if self.memory[i].kind == CellKind::Free {
                return i;
            }
            i = i + 1;
        }
        i
    }

    /// The handle that the next allocation gives: that of the first free
    /// cell, or of a new cell after the last.
    pub open spec fn next_handle(&self, ptr: Ptr) -> bool {
        &&& 1 <= ptr <= self.memory.len() + 1
        &&& !self.holds(ptr)
        &&& forall|q: Ptr| 1 <= q < ptr ==> #[trigger] self.holds(q)
    }

    /// Puts a block into the first free cell.
    fn install(&mut self, cell: Cell) -> (ptr: Ptr)
        requires
            old(self).wf(),
            cell.wf(),
            cell.kind != CellKind::Free,
            old(self).allocated_memory + cell.bytes.len() <= usize::MAX,
            cell.kind == CellKind::Text ==> forall|q: Ptr|
                old(self).holds_string(q) ==> #[trigger] old(self).string_bytes(q)
                    != cell.content(),
        ensures
            final(self).wf(),
            old(self).next_handle(ptr),
            final(self).cell(ptr) == cell,
            final(self).kind_at(ptr) == cell.kind,
            final(self).max_heap_size == old(self).max_heap_size,
            final(self).allocated_memory == old(self).allocated_memory + cell.bytes.len(),
            final(self).memory.len() >= old(self).memory.len(),
            forall|q: Ptr|
                q != ptr ==> #[trigger] final(self).kind_at(q) == old(self).kind_at(q) && (old(
                    self,
                ).holds(q) ==> final(self).cell(q) == old(self).cell(q)),
    {
        let index = self.find_free();
        let size = cell.bytes.len();
        let ghost fresh = cell;
        if index < self.memory.len() {
            proof {
                assert(self.memory[index as int].wf());
                lemma_total_bytes_update(
                    self.memory@,
                    index as int,
                    cell,
                    self.memory.len() as int,
                );
            }
            self.memory[index] = cell;
        } else {
            proof {
                lemma_total_bytes_push(self.memory@, cell, self.memory.len() as int);
            }
            self.memory.push(cell);
        }
        self.allocated_memory = self.allocated_memory + size;
        let ptr = (index + 1) as u64;
        proof {
            assert forall|q: Ptr| q != ptr implies #[trigger] self.kind_at(q) == old(self).kind_at(
                q,
            ) && (old(self).holds(q) ==> self.cell(q) == old(self).cell(q)) by {}
            assert forall|p: Ptr, q: Ptr|
                self.holds_string(p) && self.holds_string(q) && #[trigger] self.string_bytes(p)
                    == #[trigger] self.string_bytes(q) implies p == q by {
                if p != ptr && q != ptr {
                    assert(self.kind_at(p) == old(self).kind_at(p));
                    assert(self.kind_at(q) == old(self).kind_at(q));
                    assert(old(self).string_bytes(p) == old(self).string_bytes(q));
                } else if p != ptr {
                    assert(self.kind_at(p) == old(self).kind_at(p));
                    assert(old(self).string_bytes(p) == fresh.content());
                } else if q != ptr {
                    assert(self.kind_at(q) == old(self).kind_at(q));
                    assert(old(self).string_bytes(q) == fresh.content());
                }
            }
            assert forall|q: Ptr| 1 <= q < ptr implies #[trigger] old(self).holds(q) by {
                assert(old(self).memory[q - 1].kind != CellKind::Free);
            }
        }
        ptr
    }

    /// Interns a text for the compiler: the collector never frees the string.
    pub fn allocate_compiled_string(&mut self, string: String) -> (r: Result<Ptr, HeapError>)
        requires
            old(self).wf(),
        ensures
            final(self).wf(),
            old(self).interning(
                *final(self),
                interned_content(string@),
                encode_utf8(string@).len() + 2,
                true,
                r,
            ),
    {
        self.allocate_string_internal(string, true)
    }

    /// Interns a text.
    pub fn allocate_string(&mut self, string: String) -> (r: Result<Ptr, HeapError>)
        requires
            old(self).wf(),
        ensures
            final(self).wf(),
            old(self).interning(
                *final(self),
                interned_content(string@),
                encode_utf8(string@).len() + 2,
                false,
                r,
            ),
    {
        self.allocate_string_internal(string, false)
    }

    /// What interning does to a heap: where a live string holds the bytes, it
    /// gives that string and changes nothing, whatever the flag asked for.
    /// Else it gives a new string with the flag, in the first free cell, or
    /// fails and changes nothing where `size` more bytes are more than the heap
    /// may hold.
    pub open spec fn interning(
        &self,
        after: HeapManager,
        content: Seq<u8>,
        size: nat,
        flag: bool,
        r: Result<Ptr, HeapError>,
    ) -> bool {
        if exists|ptr: Ptr| self.holds_string(ptr) && #[trigger] self.string_bytes(ptr) == content {
            &&& r is Ok
            &&& self.holds_string(r->Ok_0)
            &&& self.string_bytes(r->Ok_0) == content
            &&& after.same(*self)
        } else {
            &&& self.adding(after, CellKind::Text, size, flag, r)
            &&& r is Err <==> self.overfull(size)
            &&& r is Ok ==> after.string_bytes(r->Ok_0) == content
        }
    }

    /// What allocating a block of `size` bytes does to a heap: where it fails
    /// it changes nothing; else the first free cell holds the block and no
    /// other cell changes.
    pub open spec fn adding(
        &self,
        after: HeapManager,
        kind: CellKind,
        size: nat,
        flag: bool,
        r: Result<Ptr, HeapError>,
    ) -> bool {
        match r {
            Err(_) => after.same(*self),
            Ok(ptr) => {
                &&& after.cell(ptr).bytes.len() == size
                &&& self.next_handle(ptr)
                &&& after.kind_at(ptr) == kind
                &&& after.cell(ptr).flag == flag
                &&& after.max_heap_size == self.max_heap_size
                &&& after.allocated_memory == self.allocated_memory + after.cell(ptr).bytes.len()
                &&& after.allocated_memory <= after.max_heap_size
                &&& forall|q: Ptr|
                    q != ptr ==> #[trigger] after.kind_at(q) == self.kind_at(q) && (self.holds(q)
                        ==> after.cell(q) == self.cell(q))
            },
        }
    }

    /// True when two heaps hold the same cells and the same counts.
    pub open spec fn same(&self, other: HeapManager) -> bool {
        &&& self.memory@ == other.memory@
        &&& self.allocated_memory == other.allocated_memory
        &&& self.max_heap_size == other.max_heap_size
    }

    /// True when `size` more bytes would be more than the heap may hold.
    pub open spec fn overfull(&self, size: nat) -> bool {
        self.allocated_memory + size > self.max_heap_size
    }

    fn has_room(&self, size: usize) -> (room: bool)
        ensures
            room == !self.overfull(size as nat),
    {
        size <= self.max_heap_size && self.allocated_memory <= self.max_heap_size - size
    }

    fn allocate_string_internal(&mut self, string: String, is_from_compilation: bool) -> (r:
        Result<Ptr, HeapError>)
        requires
            old(self).wf(),
        ensures
            final(self).wf(),
            old(self).interning(
                *final(self),
                interned_content(string@),
                encode_utf8(string@).len() + 2,
                is_from_compilation,
                r,
            ),
    {
        let bytes = string.as_str().as_bytes_vec();
        let wanted = read_bytes_until_null(&bytes, 0);
        if let Some(existing_str) = self.find_content(&wanted) {
            return Ok(existing_str);
        }
        if bytes.len() > usize::MAX - 2 {
            return Err(HeapError::OutOfMemory);
        }
        let internal_string_len = bytes.len() + 1 + 1;
        if !self.has_room(internal_string_len) {
            return Err(HeapError::OutOfMemory);
        }
        let mut block: Vec<u8> = Vec::new();
        block.push(Type::String.to_byte());
        let mut i: usize = 0;
        while i < bytes.len()
            invariant
                i <= bytes.len(),
                block@ == seq![Type::String.tag()] + bytes@.subrange(0, i as int),
            decreases bytes.len() - i,
        {
            block.push(bytes[i]);
            i = i + 1;
            assert(block@ =~= seq![Type::String.tag()] + bytes@.subrange(0, i as int));
        }
        block.push(NULL);
        proof {
            assert(bytes@.subrange(0, i as int) =~= bytes@);
            assert(block@ =~= text_block(bytes@));
            lemma_text_block_content(bytes@);
        }
        let cell = Cell { kind: CellKind::Text, bytes: block, flag: is_from_compilation };
        let ptr = self.install(cell);
        Ok(ptr)
    }

    /// A new string that holds the bytes of one string and then those of
    /// another, or the live string that holds them already.
    pub fn concatenate_strings(&mut self, string1: Ptr, string2: Ptr) -> (r: Result<
        Ptr,
        HeapError,
    >)
        requires
            old(self).wf(),
            old(self).holds_string(string1),
            old(self).holds_string(string2),
        ensures
            final(self).wf(),
            old(self).interning(
                *final(self),
                old(self).string_bytes(string1) + old(self).string_bytes(string2),
                old(self).string_bytes(string1).len() + old(self).string_bytes(string2).len()
                    + 2,
                false,
                r,
            ),
    {
        let mut bytes1 = self.get_string_bytes(string1);
        let bytes2 = self.get_string_bytes(string2);
        let ghost first = bytes1@;
        proof {
            let block1 = self.cell(string1).bytes@;
            let block2 = self.cell(string2).bytes@;
            assert(self.memory[string1 - 1].wf());
            assert(self.memory[string2 - 1].wf());
            lemma_null_position(block1, 1);
            lemma_null_position(block2, 1);
        }
        let mut i: usize = 0;
        while i < bytes2.len()
            invariant
                i <= bytes2.len(),
                bytes1@ == first + bytes2@.subrange(0, i as int),
            decreases bytes2.len() - i,
        {
            bytes1.push(bytes2[i]);
            i = i + 1;
            assert(bytes1@ =~= first + bytes2@.subrange(0, i as int));
        }
        proof {
            assert(bytes2@.subrange(0, i as int) =~= bytes2@);
            assert forall|j: int| 0 <= j < bytes1@.len() implies bytes1@[j] != NULL by {
                if j < first.len() {
                    assert(bytes1@[j] == first[j]);
                } else {
                    assert(bytes1@[j] == bytes2@[j - first.len()]);
                }
            }
            lemma_null_position_is(bytes1@, 0, bytes1@.len() as int);
            assert(null_run(bytes1@, 0) =~= bytes1@);
        }
        self.allocate_bytes(bytes1)
    }

    /// Interns bytes that hold no zero byte.
    fn allocate_bytes(&mut self, bytes: Vec<u8>) -> (r: Result<Ptr, HeapError>)
        requires
            old(self).wf(),
            null_run(bytes@, 0) == bytes@,
        ensures
            final(self).wf(),
            old(self).interning(*final(self), bytes@, bytes@.len() + 2, false, r),
    {
        if let Some(existing_str) = self.find_content(&bytes) {
            return Ok(existing_str);
        }
        if bytes.len() > usize::MAX - 2 {
            return Err(HeapError::OutOfMemory);
        }
        let internal_string_len = bytes.len() + 1 + 1;
        if !self.has_room(internal_string_len) {
            return Err(HeapError::OutOfMemory);
        }
        let mut block: Vec<u8> = Vec::new();
        block.push(Type::String.to_byte());
        let mut i: usize = 0;
        while i < bytes.len()
            invariant
                i <= bytes.len(),
                block@ == seq![Type::String.tag()] + bytes@.subrange(0, i as int),
            decreases bytes.len() - i,
        {
            block.push(bytes[i]);
            i = i + 1;
            assert(block@ =~= seq![Type::String.tag()] + bytes@.subrange(0, i as int));
        }
        block.push(NULL);
        proof {
            assert(bytes@.subrange(0, i as int) =~= bytes@);
            assert(block@ =~= text_block(bytes@));
            lemma_text_block_content(bytes@);
        }
        let cell = Cell { kind: CellKind::Text, bytes: block, flag: false };
        let ptr = self.install(cell);
        Ok(ptr)
    }

    /// What allocating an object of pairs makes of a heap: it fails, and
    /// changes nothing, where the pairs have more keys than an object has
    /// entries or the heap would hold more than it may; else the first free
    /// cell holds the object of the pairs.
    pub open spec fn object_allocated(
        &self,
        after: HeapManager,
        pairs: Seq<(Ptr, Value)>,
        r: Result<Ptr, HeapError>,
    ) -> bool {
        &&& self.adding(after, CellKind::Table, BYTES_SIZE as nat, false, r)
        &&& r is Err <==> distinct_keys(pairs, pairs.len() as int) > TABLE_SIZE || self.overfull(
            BYTES_SIZE as nat,
        )
        &&& r matches Ok(ptr) ==> after.object_map(ptr) == pairs_mapping(pairs, pairs.len() as int)
    }

    /// What allocating an array of values makes of a heap: it fails, and
    /// changes nothing, where the values are more than an array has room for
    /// or the heap would hold more than it may; else the first free cell
    /// holds the array of the values in reverse.
    pub open spec fn array_allocated(
        &self,
        after: HeapManager,
        values: Seq<Value>,
        r: Result<Ptr, HeapError>,
    ) -> bool {
        &&& self.adding(after, CellKind::List, ARRAY_BYTES_SIZE as nat, false, r)
        &&& r is Err <==> values.len() > ARRAY_SIZE || self.overfull(ARRAY_BYTES_SIZE as nat)
        &&& r matches Ok(ptr) ==> after.array_items(ptr) == values.reverse()
    }

    /// What storing a value under a key of an object makes of a heap.
    pub open spec fn property_stored(
        &self,
        after: HeapManager,
        obj: Ptr,
        key: Ptr,
        val: Value,
        stored: bool,
    ) -> bool {
        &&& self.only_changed(after, obj)
        &&& stored <==> (self.object_map(obj).contains_key(key) || !self.object_is_full(obj))
        &&& stored ==> after.object_map(obj) == self.object_map(obj).insert(key, val)
        &&& !stored ==> after.same(*self)
    }

    /// What writing the entries of the second object into the first makes of
    /// a heap.
    pub open spec fn objects_concatenated(
        &self,
        after: HeapManager,
        obj1: Ptr,
        obj2: Ptr,
        r: Result<Ptr, HeapError>,
    ) -> bool {
        &&& self.only_changed(after, obj1)
        &&& r matches Ok(ptr) ==> ptr == obj1 && after.object_map(obj1) == merged(
            self.object_map(obj1),
            self.object_entries(obj2),
            self.object_entries(obj2).len() as int,
        )
        &&& r is Err ==> exists|n: int|
            0 <= n < self.object_entries(obj2).len() && after.object_map(obj1) == #[trigger] merged(
                self.object_map(obj1),
                self.object_entries(obj2),
                n,
            ) && !after.object_map(obj1).contains_key(self.object_entries(obj2)[n].key)
                && after.object_is_full(obj1)
    }

    /// What storing a value at an index of an array makes of a heap.
    pub open spec fn item_stored(
        &self,
        after: HeapManager,
        arr: Ptr,
        ind: usize,
        val: Value,
        stored: bool,
    ) -> bool {
        &&& self.only_changed(after, arr)
        &&& stored <==> ind < self.array_items(arr).len()
        &&& stored ==> after.array_items(arr) == self.array_items(arr).update(ind as int, val)
        &&& !stored ==> after.same(*self)
    }

    /// What storing a value at the index that a string spells makes of a
    /// heap.
    pub open spec fn item_stored_by_name(
        &self,
        after: HeapManager,
        arr: Ptr,
        ind_ptr: Ptr,
        val: Value,
        stored: bool,
    ) -> bool {
        &&& self.only_changed(after, arr)
        &&& stored <==> (spec_parse_index(self.string_bytes(ind_ptr)) matches Some(ind) && ind
            < self.array_items(arr).len())
        &&& stored ==> after.array_items(arr) == self.array_items(arr).update(
            spec_parse_index(self.string_bytes(ind_ptr))->0 as int,
            val,
        )
        &&& !stored ==> after.same(*self)
    }

    /// The value that a kind and the eight bytes of a word stand for.
    pub fn get_value_from_bytes(value_bytes: Vec<u8>, typ: Type) -> (value: Value)
        requires
            value_bytes.len() >= 8,
        ensures
            value == Value::decode(typ, spec_word_at(value_bytes@, 0)),
    {
        Value::from_payload(typ, read_number(&value_bytes, 0))
    }

    /// A new object that holds the pairs, a later pair replacing an earlier
    /// one of the same key. Keys are handles of strings.
    pub fn allocate_object(&mut self, val: Vec<(Ptr, Value)>) -> (r: Result<Ptr, HeapError>)
        requires
            old(self).wf(),
            forall|i: int| 0 <= i < val.len() ==> (#[trigger] val[i]).0 != NULL_PTR,
        ensures
            old(self).object_allocated(*final(self), val@, r),
            final(self).wf(),
            old(self).adding(*final(self), CellKind::Table, BYTES_SIZE as nat, false, r),
            r is Err <==> distinct_keys(val@, val.len() as int) > TABLE_SIZE || old(self).overfull(
                BYTES_SIZE as nat,
            ),
            r matches Ok(ptr) ==> final(self).object_map(ptr) == pairs_mapping(
                val@,
                val.len() as int,
            ),
    {
        let mut map = HashTable::new();
        let mut i: usize = 0;
        while i < val.len()
            invariant
                i <= val.len(),
                *self == *old(self),
                self.wf(),
                map.wf(),
                map@ == pairs_mapping(val@, i as int),
                map.live() == distinct_keys(val@, i as int),
                forall|j: int| 0 <= j < val.len() ==> (#[trigger] val[j]).0 != NULL_PTR,
            decreases val.len() - i,
        {
            let pair = val[i];
            proof {
                map.lemma_is_full();
                lemma_distinct_keys_grow(val@, i as int + 1, val.len() as int);
            }
            if !map.set(pair.0, pair.1) {
                return Err(HeapError::OutOfMemory);
            }
            i = i + 1;
        }
        proof {
            map.lemma_is_full();
        }
        if !self.has_room(BYTES_SIZE) {
            return Err(HeapError::OutOfMemory);
        }
        let cell = Cell { kind: CellKind::Table, bytes: map.entries, flag: false };
        let ptr = self.install(cell);
        Ok(ptr)
    }

    /// The entries of an object, in the order in which they stand in its block.
    pub fn get_object(&self, obj_ptr: Ptr) -> (entries: Vec<HashEntry>)
        requires
            self.wf(),
            self.holds_object(obj_ptr),
        ensures
            entries@ == self.object_entries(obj_ptr),
    {
        let index = (obj_ptr - 1) as usize;
        assert(self.memory[index as int].wf());
        entries_of_block(&self.memory[index].bytes)
    }

    /// The number of keys that an object counts.
    pub fn get_object_count(&self, obj_ptr: Ptr) -> (count: usize)
        requires
            self.wf(),
            self.holds_object(obj_ptr),
        ensures
            count == spec_word_at(self.cell(obj_ptr).bytes@, 1),
    {
        let index = (obj_ptr - 1) as usize;
        assert(self.memory[index as int].wf());
        proof {
            lemma_live_count_bounds(slots_of(self.memory[index as int].bytes@), TABLE_SIZE as int);
        }
        read_number(&self.memory[index].bytes, 1) as usize
    }

    /// The value under a key of an object; null where it has none.
    pub fn get_property_from_object(&self, obj_ptr: Ptr, name: &Ptr) -> (value: Value)
        requires
            self.wf(),
            self.holds_object(obj_ptr),
        ensures
            value == if self.object_map(obj_ptr).contains_key(*name) {
                self.object_map(obj_ptr)[*name]
            } else {
                Value::Null
            },
    {
        let index = (obj_ptr - 1) as usize;
        assert(self.memory[index as int].wf());
        match lookup_in_block(&self.memory[index].bytes, name) {
            Some(value) => value,
            None => Value::Null,
        }
    }

    /// True when an object has no entry left for a new key.
    pub open spec fn object_is_full(&self, ptr: Ptr) -> bool {
        live_count(slots_of(self.cell(ptr).bytes@), TABLE_SIZE as int) == TABLE_SIZE
    }

    /// What changing the block of one object or array leaves as it was.
    pub open spec fn only_changed(&self, after: HeapManager, ptr: Ptr) -> bool {
        &&& after.max_heap_size == self.max_heap_size
        &&& after.allocated_memory == self.allocated_memory
        &&& after.memory.len() == self.memory.len()
        &&& after.cell(ptr).flag == self.cell(ptr).flag
        &&& forall|q: Ptr| #[trigger] after.kind_at(q) == self.kind_at(q)
        &&& forall|q: Ptr| q != ptr && self.holds(q) ==> #[trigger] after.cell(q) == self.cell(q)
    }

    /// Stores a value under a key of an object. The result tells whether it
    /// was stored: it is not where the key is new and the object is full.
    pub fn set_property_for_object(&mut self, obj_ptr: Ptr, key: Ptr, val: Value) -> (stored: bool)
        requires
            old(self).wf(),
            old(self).holds_object(obj_ptr),
            key != NULL_PTR,
        ensures
            old(self).property_stored(*final(self), obj_ptr, key, val, stored),
            final(self).wf(),
            old(self).only_changed(*final(self), obj_ptr),
            stored <==> (old(self).object_map(obj_ptr).contains_key(key) || !old(
                self,
            ).object_is_full(obj_ptr)),
            stored ==> final(self).object_map(obj_ptr) == old(self).object_map(obj_ptr).insert(
                key,
                val,
            ),
            !stored ==> final(self).same(*old(self)),
    {
        let index = (obj_ptr - 1) as usize;
        assert(self.memory[index as int].wf());
        let mut cell = Cell { kind: CellKind::Free, bytes: Vec::new(), flag: false };
        core::mem::swap(&mut self.memory[index], &mut cell);
        let kind = cell.kind;
        let flag = cell.flag;
        let mut map = HashTable::from(cell.bytes);
        let stored = map.set(key, val);
        let cell = Cell { kind, bytes: map.entries, flag };
        proof {
            lemma_total_bytes_update(
                old(self).memory@,
                index as int,
                cell,
                self.memory.len() as int,
            );
        }
        self.memory[index] = cell;
        proof {
            assert(self.memory@ =~= old(self).memory@.update(index as int, cell));
            if !stored {
                assert(cell == old(self).memory[index as int]);
                assert(self.memory@ =~= old(self).memory@);
            }
            self.lemma_strings_kept(*old(self), obj_ptr);
        }
        stored
    }

    /// A heap that differs from a heap as it must be in one cell that holds
    /// no string keeps its strings unique.
    proof fn lemma_strings_kept(&self, before: HeapManager, ptr: Ptr)
        requires
            before.strings_unique(),
            !before.holds_string(ptr),
            self.memory.len() == before.memory.len(),
            forall|q: Ptr| #[trigger] self.kind_at(q) == before.kind_at(q),
            forall|q: Ptr| q != ptr && before.holds(q) ==> #[trigger] self.cell(q) == before.cell(q),
        ensures
            self.strings_unique(),
    {
        assert forall|p: Ptr, q: Ptr|
            self.holds_string(p) && self.holds_string(q) && #[trigger] self.string_bytes(p)
                == #[trigger] self.string_bytes(q) implies p == q by {
            assert(self.kind_at(p) == before.kind_at(p));
            assert(self.kind_at(q) == before.kind_at(q));
            assert(self.cell(p) == before.cell(p));
            assert(self.cell(q) == before.cell(q));
            assert(before.string_bytes(p) == before.string_bytes(q));
        }
    }

    /// Writes every entry of the second object into the first and gives the
    /// first. It fails where the first has no entry left for a new key; the
    /// first then holds the entries written before.
    pub fn concatenate_objects(&mut self, obj1: Ptr, obj2: Ptr) -> (r: Result<Ptr, HeapError>)
        requires
            old(self).wf(),
            old(self).holds_object(obj1),
            old(self).holds_object(obj2),
        ensures
            old(self).objects_concatenated(*final(self), obj1, obj2, r),
            final(self).wf(),
            old(self).only_changed(*final(self), obj1),
            r matches Ok(ptr) ==> ptr == obj1 && final(self).object_map(obj1) == merged(
                old(self).object_map(obj1),
                old(self).object_entries(obj2),
                old(self).object_entries(obj2).len() as int,
            ),
            r is Err ==> exists|n: int|
                0 <= n < old(self).object_entries(obj2).len() && final(self).object_map(obj1)
                    == #[trigger] merged(
                    old(self).object_map(obj1),
                    old(self).object_entries(obj2),
                    n,
                ) && !final(self).object_map(obj1).contains_key(
                    old(self).object_entries(obj2)[n].key,
                ) && final(self).object_is_full(obj1),
    {
        let entries = self.get_object(obj2);
        proof {
            lemma_live_entries_keys(
                slots_of(self.cell(obj2).bytes@),
                TABLE_SIZE as int,
            );
        }
        let mut i: usize = 0;
        while i < entries.len()
            invariant
                i <= entries.len(),
                self.wf(),
                self.holds_object(obj1),
                entries@ == old(self).object_entries(obj2),
                forall|j: int| 0 <= j < entries.len() ==> (#[trigger] entries[j]).key != NULL_PTR,
                old(self).only_changed(*self, obj1),
                self.object_map(obj1) == merged(
                    old(self).object_map(obj1),
                    entries@,
                    i as int,
                ),
            decreases entries.len() - i,
        {
            let entry = entries[i];
            let ghost before = *self;
            if !self.set_property_for_object(obj1, entry.key, entry.value) {
                return Err(HeapError::OutOfMemory);
            }
            proof {
                assert forall|q: Ptr| q != obj1 && old(self).holds(q) implies #[trigger] self.cell(
                    q,
                ) == old(self).cell(q) by {
                    assert(before.kind_at(q) == old(self).kind_at(q));
                    assert(before.cell(q) == old(self).cell(q));
                }
                assert forall|q: Ptr| #[trigger] self.kind_at(q) == old(self).kind_at(q) by {
                    assert(before.kind_at(q) == old(self).kind_at(q));
                }
            }
            i = i + 1;
        }
        Ok(obj1)
    }

    /// A new array that holds the values in reverse: the first value is its
    /// last item.
    pub fn allocate_array(&mut self, val: Vec<Value>) -> (r: Result<Ptr, HeapError>)
        requires
            old(self).wf(),
        ensures
            old(self).array_allocated(*final(self), val@, r),
            final(self).wf(),
            old(self).adding(*final(self), CellKind::List, ARRAY_BYTES_SIZE as nat, false, r),
            r is Err <==> val.len() > ARRAY_SIZE || old(self).overfull(ARRAY_BYTES_SIZE as nat),
            r matches Ok(ptr) ==> final(self).array_items(ptr) == val@.reverse(),
    {
        let len = val.len();
        if len > ARRAY_SIZE {
            return Err(HeapError::OutOfMemory);
        }
        let mut arr = Array::of(len);
        let mut index: usize = 0;
        while index < len
            invariant
                index <= len,
                len == val.len(),
                len <= ARRAY_SIZE,
                arr.wf(),
                arr@.len() == len,
                forall|j: int| 0 <= j < index ==> arr@[len - 1 - j] == val[j],
            decreases len - index,
        {
            let stored = arr.set(len - 1 - index, val[index]);
            assert(stored);
            index = index + 1;
        }
        assert(arr@ =~= val@.reverse());
        if !self.has_room(ARRAY_BYTES_SIZE) {
            return Err(HeapError::OutOfMemory);
        }
        let cell = Cell { kind: CellKind::List, bytes: arr.entries, flag: false };
        let ptr = self.install(cell);
        Ok(ptr)
    }

    /// The values of an array.
    pub fn get_array(&self, obj_ptr: Ptr) -> (values: Vec<Value>)
        requires
            self.wf(),
            self.holds_array(obj_ptr),
        ensures
            values@ == self.array_items(obj_ptr),
    {
        let index = (obj_ptr - 1) as usize;
        assert(self.memory[index as int].wf());
        items_of_block(&self.memory[index].bytes)
    }

    /// The value at the index that a string spells in decimal digits; null
    /// where the array has no such index. Nothing, where the string spells
    /// no index.
    pub fn get_property_from_array(&self, arr_ptr: Ptr, key: Ptr) -> (value: Option<Value>)
        requires
            self.wf(),
            self.holds_array(arr_ptr),
            self.holds_string(key),
        ensures
            value == match spec_parse_index(self.string_bytes(key)) {
                Some(ind) => Some(
                    if ind < self.array_items(arr_ptr).len() {
                        self.array_items(arr_ptr)[ind as int]
                    } else {
                        Value::Null
                    },
                ),
                None => None,
            },
    {
        let digits = self.get_string_bytes(key);
        match parse_index(&digits) {
            Some(ind) => Some(self.get_property_from_array_num(arr_ptr, ind)),
            None => None,
        }
    }

    /// The value at an index of an array; null where it has no such index.
    pub fn get_property_from_array_num(&self, arr_ptr: Ptr, key: usize) -> (value: Value)
        requires
            self.wf(),
            self.holds_array(arr_ptr),
        ensures
            value == if key < self.array_items(arr_ptr).len() {
                self.array_items(arr_ptr)[key as int]
            } else {
                Value::Null
            },
    {
        let index = (arr_ptr - 1) as usize;
        assert(self.memory[index as int].wf());
        match item_of_block(&self.memory[index].bytes, key) {
            Some(value) => value,
            None => Value::Null,
        }
    }

    /// The number of items of an array.
    pub fn get_array_count(&self, arr_ptr: Ptr) -> (count: usize)
        requires
            self.wf(),
            self.holds_array(arr_ptr),
        ensures
            count == self.array_items(arr_ptr).len(),
    {
        let index = (arr_ptr - 1) as usize;
        assert(self.memory[index as int].wf());
        read_number(&self.memory[index].bytes, 1) as usize
    }

    /// Stores a value at the index that a string spells in decimal digits.
    /// The result tells whether it was stored: it is not where the string
    /// spells no index or the array has no such index.
    pub fn set_property_for_array(&mut self, arr_ptr: Ptr, ind_ptr: Ptr, val: Value) -> (stored:
        bool)
        requires
            old(self).wf(),
            old(self).holds_array(arr_ptr),
            old(self).holds_string(ind_ptr),
        ensures
            old(self).item_stored_by_name(*final(self), arr_ptr, ind_ptr, val, stored),
            final(self).wf(),
            old(self).only_changed(*final(self), arr_ptr),
            stored <==> (spec_parse_index(old(self).string_bytes(ind_ptr)) matches Some(ind)
                && ind < old(self).array_items(arr_ptr).len()),
            stored ==> final(self).array_items(arr_ptr) == old(self).array_items(arr_ptr).update(
                spec_parse_index(old(self).string_bytes(ind_ptr))->0 as int,
                val,
            ),
            !stored ==> final(self).same(*old(self)),
    {
        let digits = self.get_string_bytes(ind_ptr);
        match parse_index(&digits) {
            Some(ind) => self.set_property_for_array_num(arr_ptr, ind, val),
            None => false,
        }
    }

    /// Stores a value at an index of an array. The result tells whether it
    /// was stored: it is not where the array has no such index.
    pub fn set_property_for_array_num(&mut self, arr_ptr: Ptr, ind: usize, val: Value) -> (stored:
        bool)
        requires
            old(self).wf(),
            old(self).holds_array(arr_ptr),
        ensures
            old(self).item_stored(*final(self), arr_ptr, ind, val, stored),
            final(self).wf(),
            old(self).only_changed(*final(self), arr_ptr),
            stored <==> ind < old(self).array_items(arr_ptr).len(),
            stored ==> final(self).array_items(arr_ptr) == old(self).array_items(arr_ptr).update(
                ind as int,
                val,
            ),
            !stored ==> final(self).same(*old(self)),
    {
        let index = (arr_ptr - 1) as usize;
        assert(self.memory[index as int].wf());
        let mut cell = Cell { kind: CellKind::Free, bytes: Vec::new(), flag: false };
        core::mem::swap(&mut self.memory[index], &mut cell);
        let kind = cell.kind;
        let flag = cell.flag;
        let mut arr = Array::from(cell.bytes);
        let stored = arr.set(ind, val);
        let cell = Cell { kind, bytes: arr.entries, flag };
        proof {
            lemma_total_bytes_update(
                old(self).memory@,
                index as int,
                cell,
                self.memory.len() as int,
            );
        }
        self.memory[index] = cell;
        proof {
            assert(self.memory@ =~= old(self).memory@.update(index as int, cell));
            if !stored {
                assert(cell == old(self).memory[index as int]);
                assert(self.memory@ =~= old(self).memory@);
            }
            self.lemma_strings_kept(*old(self), arr_ptr);
        }
        stored
    }
}

/// The mapping that the first `n` pairs make, a later pair replacing an
/// earlier one of the same key.
pub open spec fn pairs_mapping(pairs: Seq<(Ptr, Value)>, n: int) -> Map<Ptr, Value>
    decreases n,
{
    if n <= 0 {
        Map::empty()
    } else {
        pairs_mapping(pairs, n - 1).insert(pairs[n - 1].0, pairs[n - 1].1)
    }
}

/// The number of different keys among the first `n` pairs.
pub open spec fn distinct_keys(pairs: Seq<(Ptr, Value)>, n: int) -> int
    decreases n,
{
    if n <= 0 {
        0
    } else {
        distinct_keys(pairs, n - 1) + if pairs_mapping(pairs, n - 1).contains_key(pairs[n - 1].0) {
            0int
        } else {
            1int
        }
    }
}

pub proof fn lemma_distinct_keys_grow(pairs: Seq<(Ptr, Value)>, n: int, m: int)
    requires
        n <= m,
    ensures
        distinct_keys(pairs, n) <= distinct_keys(pairs, m),
    decreases m - n,
{
    if n < m {
        lemma_distinct_keys_grow(pairs, n, m - 1);
    }
}

/// A mapping after the first `n` entries are written into it, in their order.
pub open spec fn merged(map: Map<Ptr, Value>, entries: Seq<HashEntry>, n: int) -> Map<Ptr, Value>
    decreases n,
{
    if n <= 0 {
        map
    } else {
        merged(map, entries, n - 1).insert(entries[n - 1].key, entries[n - 1].value)
    }
}

/// The live entries of a table have keys.
pub proof fn lemma_live_entries_keys(slots: Seq<Slot>, n: int)
    ensures
        forall|j: int|
            0 <= j < live_entries(slots, n).len() ==> (#[trigger] live_entries(slots, n)[j]).key
                != NULL_PTR,
    decreases n,
{
    if n > 0 {
        lemma_live_entries_keys(slots, n - 1);
    }
}

pub open spec fn is_digit(byte: u8) -> bool {
    48 <= byte <= 57
}

/// The number that the first `n` bytes spell in decimal digits.
pub open spec fn digits_value(bytes: Seq<u8>, n: int) -> nat
    decreases n,
{
    if n <= 0 {
        0
    } else {
        (digits_value(bytes, n - 1) * 10 + (bytes[n - 1] - 48)) as nat
    }
}

/// The bytes after the plus sign with which they may begin.
pub open spec fn unsigned_part(bytes: Seq<u8>) -> Seq<u8> {
    if bytes.len() > 0 && bytes[0] == 43 {
        bytes.subrange(1, bytes.len() as int)
    } else {
        bytes
    }
}

pub open spec fn all_digits(digits: Seq<u8>) -> bool {
    forall|i: int| 0 <= i < digits.len() ==> is_digit(#[trigger] digits[i])
}

/// The index that bytes spell: decimal digits, at least one, after a plus
/// sign or none, that spell a number which is an index.
pub open spec fn spec_parse_index(bytes: Seq<u8>) -> Option<usize> {
    let digits = unsigned_part(bytes);
    if digits.len() == 0 || !all_digits(digits) || digits_value(digits, digits.len() as int)
        > usize::MAX {
        None
    } else {
        Some(digits_value(digits, digits.len() as int) as usize)
    }
}

proof fn lemma_digits_value_grows(bytes: Seq<u8>, n: int, m: int)
    requires
        0 <= n <= m <= bytes.len(),
        forall|i: int| 0 <= i < m ==> is_digit(#[trigger] bytes[i]),
    ensures
        digits_value(bytes, n) <= digits_value(bytes, m),
    decreases m - n,
{
    if n < m {
        lemma_digits_value_grows(bytes, n, m - 1);
    }
}

/// The index that bytes spell in decimal digits.
pub fn parse_index(bytes: &Vec<u8>) -> (index: Option<usize>)
    ensures
        index == spec_parse_index(bytes@),
{
    let start: usize = if bytes.len() > 0 && bytes[0] == 43 {
        1
    } else {
        0
    };
    let ghost digits = unsigned_part(bytes@);
    if start == bytes.len() {
        return None;
    }
    let mut value: usize = 0;
    let mut i: usize = start;
    while i < bytes.len()
        invariant
            start <= i <= bytes.len(),
            digits == unsigned_part(bytes@),
            digits.len() == bytes.len() - start,
            forall|j: int| 0 <= j < digits.len() ==> digits[j] == bytes[start + j],
            forall|j: int| 0 <= j < i - start ==> is_digit(#[trigger] digits[j]),
            value == digits_value(digits, i - start),
        decreases bytes.len() - i,
    {
        let byte = bytes[i];
        assert(digits[i - start] == byte);
        if byte < 48 || byte > 57 {
            assert(!is_digit(digits[i - start]));
            return None;
        }
        let digit = (byte - 48) as usize;
        if value > (usize::MAX - digit) / 10 {
            proof {
                assert(digits_value(digits, i - start + 1) == value * 10 + digit);
                if all_digits(digits) {
                    lemma_digits_value_grows(digits, i - start + 1, digits.len() as int);
                }
            }
            return None;
        }
        value = value * 10 + digit;
        i = i + 1;
    }
    Some(value)
}

/// What interning reads of a heap: the bytes of its strings, the handles in
/// use, and the two counts.
pub struct HeapOutline {
    pub strings: Map<Ptr, Seq<u8>>,
    pub live: Set<Ptr>,
    pub allocated: nat,
    pub max: nat,
}

/// True when `ptr` is the first handle that is not in use.
pub open spec fn is_first_free(live: Set<Ptr>, ptr: Ptr) -> bool {
    &&& ptr >= 1
    &&& !live.contains(ptr)
    &&& forall|q: Ptr| 1 <= q < ptr ==> #[trigger] live.contains(q)
}

pub open spec fn first_free(live: Set<Ptr>) -> Ptr {
    choose|ptr: Ptr| is_first_free(live, ptr)
}

/// True when some string holds the bytes.
pub open spec fn is_interned(strings: Map<Ptr, Seq<u8>>, content: Seq<u8>) -> bool {
    exists|ptr: Ptr| strings.contains_key(ptr) && #[trigger] strings[ptr] == content
}

/// The string that holds the bytes.
pub open spec fn holder(strings: Map<Ptr, Seq<u8>>, content: Seq<u8>) -> Ptr {
    choose|ptr: Ptr| strings.contains_key(ptr) && #[trigger] strings[ptr] == content
}

/// Interning, on what it reads of a heap: the string that holds the bytes
/// already, or else a new string at the first free handle, unless `size`
/// more bytes are more than the heap may hold.
pub open spec fn spec_intern(heap: HeapOutline, content: Seq<u8>, size: nat) -> (
    HeapOutline,
    Result<Ptr, HeapError>,
) {
    if is_interned(heap.strings, content) {
        (heap, Ok(holder(heap.strings, content)))
    } else if heap.allocated + size > heap.max {
        (heap, Err(HeapError::OutOfMemory))
    } else {
        let ptr = first_free(heap.live);
        (
            HeapOutline {
                strings: heap.strings.insert(ptr, content),
                live: heap.live.insert(ptr),
                allocated: heap.allocated + size,
                max: heap.max,
            },
            Ok(ptr),
        )
    }
}

impl HeapManager {
    pub open spec fn outline(&self) -> HeapOutline {
        HeapOutline {
            strings: Map::new(|ptr: Ptr| self.holds_string(ptr), |ptr: Ptr| self.string_bytes(ptr)),
            live: Set::new(|ptr: Ptr| self.holds(ptr)),
            allocated: self.allocated_memory as nat,
            max: self.max_heap_size as nat,
        }
    }

    /// No two live strings of a heap hold the same bytes.
    pub proof fn lemma_interning_unique(&self, p: Ptr, q: Ptr)
        requires
            self.wf(),
            self.interned_strings().contains_key(p),
            self.interned_strings().contains_key(q),
            self.string_bytes(p) == self.string_bytes(q),
        ensures
            p == q,
    {
    }

    /// Two heaps that hold the same cells and counts have the same outline.
    pub proof fn lemma_same_outline(&self, other: HeapManager)
        requires
            self.same(other),
        ensures
            self.outline() == other.outline(),
    {
        assert forall|ptr: Ptr| self.kind_at(ptr) == other.kind_at(ptr) by {}
        assert(self.outline().strings =~= other.outline().strings);
        assert(self.outline().live =~= other.outline().live);
    }

    /// What interning makes of a heap is what it makes of its outline.
    pub proof fn lemma_interning_outline(
        &self,
        after: HeapManager,
        content: Seq<u8>,
        size: nat,
        flag: bool,
        r: Result<Ptr, HeapError>,
    )
        requires
            self.wf(),
            self.interning(after, content, size, flag, r),
        ensures
            spec_intern(self.outline(), content, size) == (after.outline(), r),
    {
        let before = self.outline();
        if exists|ptr: Ptr| self.holds_string(ptr) && #[trigger] self.string_bytes(ptr) == content {
            let found = r->Ok_0;
            assert(before.strings.contains_key(found) && before.strings[found] == content);
            let chosen = holder(before.strings, content);
            assert(self.string_bytes(chosen) == self.string_bytes(found));
            after.lemma_same_outline(*self);
            assert(is_interned(before.strings, content));
            assert(chosen == found);
            assert(r == Ok::<Ptr, HeapError>(found));
            assert(spec_intern(self.outline(), content, size) == (after.outline(), r));
        } else {
            if is_interned(before.strings, content) {
                let ptr = choose|ptr: Ptr|
                    before.strings.contains_key(ptr) && #[trigger] before.strings[ptr] == content;
                assert(self.holds_string(ptr) && self.string_bytes(ptr) == content);
            }
            match r {
                Err(e) => {
                    after.lemma_same_outline(*self);
                    assert(!is_interned(before.strings, content));
                    assert(e == HeapError::OutOfMemory);
                    assert(spec_intern(self.outline(), content, size) == (after.outline(), r));
                },
                Ok(ptr) => {
                    assert(is_first_free(before.live, ptr)) by {
                        assert forall|q: Ptr| 1 <= q < ptr implies #[trigger] before.live.contains(
                            q,
                        ) by {
                            assert(self.holds(q));
                        }
                    }
                    let chosen = first_free(before.live);
                    assert(is_first_free(before.live, chosen));
                    if chosen < ptr {
                        assert(before.live.contains(chosen));
                    }
                    if ptr < chosen {
                        assert(before.live.contains(ptr));
                    }
                    assert forall|q: Ptr| q != ptr implies after.kind_at(q) == self.kind_at(q) by {}
                    assert(after.outline().strings =~= before.strings.insert(ptr, content)) by {
                        assert forall|q: Ptr| q != ptr && self.holds_string(q) implies after.cell(q)
                            == self.cell(q) by {
                            assert(after.kind_at(q) == self.kind_at(q));
                        }
                    }
                    assert(after.outline().live =~= before.live.insert(ptr)) by {
                        assert forall|q: Ptr| after.outline().live.contains(q)
                            <==> before.live.insert(ptr).contains(q) by {
                            if q != ptr {
                                assert(after.kind_at(q) == self.kind_at(q));
                            }
                        }
                    }
                    assert(!is_interned(before.strings, content));
                    assert(chosen == ptr);
                    assert(after.outline().allocated == before.allocated + size);
                    assert(spec_intern(self.outline(), content, size) == (after.outline(), r));
                },
            }
        }
    }
}

} // verus!
