use vstd::prelude::*;
use crate::heap::{CellKind, HeapManager};
use crate::runtime_context::RuntimeContext;
use crate::value::{Ptr, Value};

verus! {

/// The collector runs only on a heap of more blocks than this.
pub const GC_THRESHOLD: usize = 10;

/// True when a value names the live block `ptr`, as what the block is.
pub open spec fn refers(heap: HeapManager, value: Value, ptr: Ptr) -> bool {
    match value {
        Value::String(p) => p == ptr && heap.holds_string(ptr),
        Value::Object(p) => p == ptr && heap.holds_object(ptr),
        Value::Array(p) => p == ptr && heap.holds_array(ptr),
        _ => false,
    }
}

/// The values that a block holds: the values of the entries of an object,
/// the items of an array. The keys of an object are not among them.
pub open spec fn children(heap: HeapManager, ptr: Ptr) -> Seq<Value> {
    if heap.holds_object(ptr) {
        Seq::new(heap.object_entries(ptr).len(), |i: int| heap.object_entries(ptr)[i].value)
    } else if heap.holds_array(ptr) {
        heap.array_items(ptr)
    } else {
        Seq::empty()
    }
}

/// True when one of `values` names the block `ptr`.
pub open spec fn named_by(heap: HeapManager, values: Seq<Value>, ptr: Ptr) -> bool {
    exists|i: int| 0 <= i < values.len() && refers(heap, #[trigger] values[i], ptr)
}

/// True when the block `from` holds a value that names the block `to`.
pub open spec fn edge(heap: HeapManager, from: Ptr, to: Ptr) -> bool {
    named_by(heap, children(heap, from), to)
}

/// A path: a root names its first block and each block holds a value that
/// names the next.
pub open spec fn is_path(heap: HeapManager, roots: Seq<Value>, path: Seq<Ptr>) -> bool {
    &&& path.len() > 0
    &&& named_by(heap, roots, path[0])
    &&& forall|k: int| 0 <= k < path.len() - 1 ==> edge(heap, #[trigger] path[k], path[k + 1])
}

/// True when a path leads from the roots to the block `ptr`.
pub open spec fn reachable(heap: HeapManager, roots: Seq<Value>, ptr: Ptr) -> bool {
    exists|path: Seq<Ptr>| #[trigger] is_path(heap, roots, path) && path.last() == ptr
}

/// True when the collector keeps the block `ptr`: it is reachable, or it is
/// a string that the compiler made.
pub open spec fn kept(heap: HeapManager, roots: Seq<Value>, ptr: Ptr) -> bool {
    heap.holds(ptr) && (reachable(heap, roots, ptr) || (heap.holds_string(ptr) && heap.cell(
        ptr,
    ).flag))
}

/// The number of live blocks among the first `n` cells.
pub open spec fn population(heap: HeapManager, n: int) -> int
    decreases n,
{
    if n <= 0 {
        0
    } else {
        population(heap, n - 1) + if heap.memory[n - 1].kind != CellKind::Free {
            1int
        } else {
            0int
        }
    }
}

/// True when the collector has work to do on a heap.
pub open spec fn crowded(heap: HeapManager) -> bool {
    population(heap, heap.memory.len() as int) > GC_THRESHOLD
}

/// What one run of the collector makes of a heap: a heap that is not crowded
/// stays as it is; of a crowded heap the blocks that are kept stay as they
/// are and the others are freed.
pub open spec fn collected(before: HeapManager, after: HeapManager, roots: Seq<Value>) -> bool {
    &&& after.max_heap_size == before.max_heap_size
    &&& after.memory.len() == before.memory.len()
    &&& !crowded(before) ==> after.same(before)
    &&& crowded(before) ==> forall|ptr: Ptr|
        #![trigger after.kind_at(ptr)]
        #![trigger after.cell(ptr)]
        if kept(before, roots, ptr) {
            after.kind_at(ptr) == before.kind_at(ptr) && after.cell(ptr) == before.cell(ptr)
        } else {
            !after.holds(ptr)
        }
}

/// A path can be followed one block further.
pub proof fn lemma_path_extend(heap: HeapManager, roots: Seq<Value>, path: Seq<Ptr>, next: Ptr)
    requires
        is_path(heap, roots, path),
        edge(heap, path.last(), next),
    ensures
        is_path(heap, roots, path.push(next)),
        path.push(next).last() == next,
{
    let longer = path.push(next);
    assert forall|k: int| 0 <= k < longer.len() - 1 implies edge(
        heap,
        #[trigger] longer[k],
        longer[k + 1],
    ) by {
        if k < path.len() - 1 {
            assert(edge(heap, path[k], path[k + 1]));
        }
    }
    assert(longer[0] == path[0]);
}

/// What a block that is reachable holds names blocks that are reachable.
pub proof fn lemma_reachable_step(heap: HeapManager, roots: Seq<Value>, from: Ptr, to: Ptr)
    requires
        reachable(heap, roots, from),
        edge(heap, from, to),
    ensures
        reachable(heap, roots, to),
{
    let path = choose|path: Seq<Ptr>| #[trigger] is_path(heap, roots, path) && path.last() == from;
    lemma_path_extend(heap, roots, path, to);
    assert(is_path(heap, roots, path.push(to)));
}

/// What a root names is reachable.
pub proof fn lemma_reachable_root(heap: HeapManager, roots: Seq<Value>, ptr: Ptr)
    requires
        named_by(heap, roots, ptr),
    ensures
        reachable(heap, roots, ptr),
{
    let path = seq![ptr];
    assert(is_path(heap, roots, path));
    assert(path.last() == ptr);
}

/// Every block of a path is reachable.
pub proof fn lemma_path_prefix(heap: HeapManager, roots: Seq<Value>, path: Seq<Ptr>, k: int)
    requires
        is_path(heap, roots, path),
        0 <= k < path.len(),
    ensures
        reachable(heap, roots, path[k]),
{
    let prefix = path.subrange(0, k + 1);
    assert forall|j: int| 0 <= j < prefix.len() - 1 implies edge(
        heap,
        #[trigger] prefix[j],
        prefix[j + 1],
    ) by {
        assert(edge(heap, path[j], path[j + 1]));
    }
    assert(prefix[0] == path[0]);
    assert(is_path(heap, roots, prefix));
    assert(prefix.last() == path[k]);
}

/// True when the marks hold of the block `ptr`.
pub open spec fn marked(marks: Seq<bool>, ptr: Ptr) -> bool {
    1 <= ptr <= marks.len() && marks[ptr - 1]
}

/// The number of marks among the first `n` that do not hold.
pub open spec fn unmarked_count(marks: Seq<bool>, n: int) -> int
    decreases n,
{
    if n <= 0 {
        0
    } else {
        unmarked_count(marks, n - 1) + if marks[n - 1] {
            0int
        } else {
            1int
        }
    }
}

proof fn lemma_unmarked_count_bounds(marks: Seq<bool>, n: int)
    ensures
        0 <= unmarked_count(marks, n),
    decreases n,
{
    if n > 0 {
        lemma_unmarked_count_bounds(marks, n - 1);
    }
}

proof fn lemma_unmarked_count_update(marks: Seq<bool>, i: int, n: int)
    requires
        0 <= i < marks.len(),
        0 <= n <= marks.len(),
        !marks[i],
    ensures
        unmarked_count(marks.update(i, true), n) == unmarked_count(marks, n) - if i < n {
            1int
        } else {
            0int
        },
        0 <= unmarked_count(marks, n),
    decreases n,
{
    if n > 0 {
        lemma_unmarked_count_update(marks, i, n - 1);
    }
}

/// Marks that hold of what the roots name, and of what every marked block
/// holds, hold of every block of a path.
pub proof fn lemma_closed_marks(
    heap: HeapManager,
    roots: Seq<Value>,
    marks: Seq<bool>,
    path: Seq<Ptr>,
    k: int,
)
    requires
        is_path(heap, roots, path),
        0 <= k < path.len(),
        forall|ptr: Ptr| named_by(heap, roots, ptr) ==> #[trigger] marked(marks, ptr),
        forall|from: Ptr, to: Ptr|
            marked(marks, from) && #[trigger] edge(heap, from, to) ==> marked(marks, to),
    ensures
        marked(marks, path[k]),
    decreases k,
{
    if k > 0 {
        lemma_closed_marks(heap, roots, marks, path, k - 1);
        assert(edge(heap, path[k - 1], path[k]));
    }
}

/// The values that an object or an array holds.
pub fn children_of(heap: &HeapManager, ptr: Ptr) -> (values: Vec<Value>)
    requires
        heap.wf(),
        heap.holds_object(ptr) || heap.holds_array(ptr),
    ensures
        values@ == children(*heap, ptr),
{
    if heap.is_object(ptr) {
        let entries = heap.get_object(ptr);
        let mut values: Vec<Value> = Vec::new();
        let mut i: usize = 0;
        while i < entries.len()
            invariant
                i <= entries.len(),
                values@ == Seq::new(i as nat, |k: int| entries@[k].value),
            decreases entries.len() - i,
        {
            values.push(entries[i].value);
            i = i + 1;
            assert(values@ =~= Seq::new(i as nat, |k: int| entries@[k].value));
        }
        assert(values@ =~= children(*heap, ptr));
        values
    } else {
        heap.get_array(ptr)
    }
}

/// What holds of the marks while the collector marks: they hold only of live
/// blocks that are reachable; every block that waits is a marked object or
/// array; and what a marked block holds is marked too, unless the block
/// waits or is the one at work.
pub open spec fn marking(
    heap: HeapManager,
    roots: Seq<Value>,
    marks: Seq<bool>,
    pending: Seq<Ptr>,
    at_work: Ptr,
) -> bool {
    &&& marks.len() == heap.memory.len()
    &&& forall|ptr: Ptr| #[trigger]
        marked(marks, ptr) ==> heap.holds(ptr) && reachable(heap, roots, ptr)
    &&& forall|i: int|
        0 <= i < pending.len() ==> marked(marks, #[trigger] pending[i]) && (heap.holds_object(
            pending[i],
        ) || heap.holds_array(pending[i]))
    &&& forall|from: Ptr, to: Ptr|
        marked(marks, from) && #[trigger] edge(heap, from, to) && !pending.contains(from) && from
            != at_work ==> marked(marks, to)
}

/// Marks what a value names, and lets the block wait where it is an object or
/// an array that was not marked before.
fn mark_value(
    heap: &HeapManager,
    value: Value,
    marks: &mut Vec<bool>,
    pending: &mut Vec<Ptr>,
    Ghost(roots): Ghost<Seq<Value>>,
    Ghost(at_work): Ghost<Ptr>,
)
    requires
        heap.wf(),
        marking(*heap, roots, old(marks)@, old(pending)@, at_work),
        forall|ptr: Ptr| refers(*heap, value, ptr) ==> reachable(*heap, roots, ptr),
    ensures
        marking(*heap, roots, final(marks)@, final(pending)@, at_work),
        forall|ptr: Ptr| refers(*heap, value, ptr) ==> marked(final(marks)@, ptr),
        forall|ptr: Ptr| marked(old(marks)@, ptr) ==> marked(final(marks)@, ptr),
        final(pending)@ == old(pending)@ && unmarked_count(
            final(marks)@,
            final(marks)@.len() as int,
        ) == unmarked_count(old(marks)@, old(marks)@.len() as int) || unmarked_count(
            final(marks)@,
            final(marks)@.len() as int,
        ) < unmarked_count(old(marks)@, old(marks)@.len() as int),
        forall|i: int|
            0 <= i < old(pending)@.len() ==> final(pending)@.contains(#[trigger] old(pending)@[i]),
{
    let (ptr, kind) = match value {
        Value::String(p) => (p, CellKind::Text),
        Value::Object(p) => (p, CellKind::Table),
        Value::Array(p) => (p, CellKind::List),
        _ => {
            assert forall|i: int| 0 <= i < pending@.len() implies pending@.contains(
                #[trigger] pending@[i],
            ) by {}
            return ;
        },
    };
    assert forall|i: int| 0 <= i < pending@.len() implies pending@.contains(
        #[trigger] pending@[i],
    ) by {}
    if heap.kind_of(ptr) != kind {
        return ;
    }
    assert(refers(*heap, value, ptr));
    let index = (ptr - 1) as usize;
    if marks[index] {
        return ;
    }
    proof {
        lemma_unmarked_count_update(marks@, index as int, marks@.len() as int);
    }
    marks[index] = true;
    if kind != CellKind::Text {
        pending.push(ptr);
    }
    proof {
        assert forall|q: Ptr| marked(old(marks)@, q) implies marked(marks@, q) by {}
        assert forall|q: Ptr| #[trigger] marked(marks@, q) implies heap.holds(q) && reachable(
            *heap,
            roots,
            q,
        ) by {
            if q != ptr {
                assert(marked(old(marks)@, q));
            }
        }
        assert forall|i: int| 0 <= i < old(pending)@.len() implies pending@.contains(
            #[trigger] old(pending)@[i],
        ) by {
            assert(pending@[i] == old(pending)@[i]);
        }
        assert forall|i: int| 0 <= i < pending@.len() implies marked(marks@, #[trigger] pending@[i])
            && (heap.holds_object(pending@[i]) || heap.holds_array(pending@[i])) by {
            if i < old(pending)@.len() {
                assert(pending@[i] == old(pending)@[i]);
                assert(marked(old(marks)@, old(pending)@[i]));
            }
        }
        assert forall|from: Ptr, to: Ptr|
            marked(marks@, from) && #[trigger] edge(*heap, from, to) && !pending@.contains(from)
                && from != at_work implies marked(marks@, to) by {
            if from == ptr {
                if kind == CellKind::Text {
                    assert(children(*heap, from) =~= Seq::<Value>::empty());
                } else {
                    assert(pending@[pending@.len() - 1] == ptr);
                }
            } else {
                assert(marked(old(marks)@, from));
                if old(pending)@.contains(from) {
                    let i = choose|i: int|
                        0 <= i < old(pending)@.len() && old(pending)@[i] == from;
                    assert(pending@.contains(old(pending)@[i]));
                }
                assert(marked(old(marks)@, to));
            }
        }
    }
}

/// The marks of the blocks that are reachable from the roots.
pub fn mark(heap: &HeapManager, roots: &Vec<Value>) -> (marks: Vec<bool>)
    requires
        heap.wf(),
    ensures
        marks.len() == heap.memory.len(),
        forall|ptr: Ptr| #[trigger] marked(marks@, ptr) <==> reachable(*heap, roots@, ptr),
{
    let mut marks: Vec<bool> = Vec::new();
    let mut n: usize = 0;
    while n < heap.memory.len()
        invariant
            n <= heap.memory.len(),
            marks.len() == n,
            forall|i: int| 0 <= i < n ==> !marks[i],
        decreases heap.memory.len() - n,
    {
        marks.push(false);
        n = n + 1;
    }
    let mut pending: Vec<Ptr> = Vec::new();
    let mut r: usize = 0;
    while r < roots.len()
        invariant
            heap.wf(),
            r <= roots.len(),
            marking(*heap, roots@, marks@, pending@, 0),
            forall|i: int, ptr: Ptr|
                0 <= i < r && refers(*heap, #[trigger] roots@[i], ptr) ==> #[trigger] marked(
                    marks@,
                    ptr,
                ),
        decreases roots.len() - r,
    {
        proof {
            assert forall|ptr: Ptr| refers(*heap, roots@[r as int], ptr) implies reachable(
                *heap,
                roots@,
                ptr,
            ) by {
                lemma_reachable_root(*heap, roots@, ptr);
            }
        }
        mark_value(heap, roots[r], &mut marks, &mut pending, Ghost(roots@), Ghost(0));
        r = r + 1;
    }
    while pending.len() > 0
        invariant
            heap.wf(),
            marking(*heap, roots@, marks@, pending@, 0),
            forall|i: int, ptr: Ptr|
                0 <= i < roots.len() && refers(*heap, #[trigger] roots@[i], ptr)
                    ==> #[trigger] marked(marks@, ptr),
        decreases unmarked_count(marks@, marks@.len() as int), pending.len(),
    {
        let ghost start_count = unmarked_count(marks@, marks@.len() as int);
        let ghost start_len = pending.len();
        let ghost start_pending = pending@;
        let ptr = pending.pop().unwrap();
        assert(start_pending[start_len - 1] == ptr);
        assert(marked(marks@, ptr));
        let kids = children_of(heap, ptr);
        proof {
            assert forall|i: int| 0 <= i < pending@.len() implies marked(
                marks@,
                #[trigger] pending@[i],
            ) && (heap.holds_object(pending@[i]) || heap.holds_array(pending@[i])) by {
                assert(pending@[i] == start_pending[i]);
            }
            assert forall|from: Ptr, to: Ptr|
                marked(marks@, from) && #[trigger] edge(*heap, from, to) && !pending@.contains(from)
                    && from != ptr implies marked(marks@, to) by {
                if start_pending.contains(from) {
                    let i = choose|i: int| 0 <= i < start_pending.len() && start_pending[i] == from;
                    assert(i < pending@.len());
                    assert(pending@[i] == from);
                }
            }
        }
        let mut k: usize = 0;
        while k < kids.len()
            invariant
                heap.wf(),
                k <= kids.len(),
                kids@ == children(*heap, ptr),
                marked(marks@, ptr),
                marking(*heap, roots@, marks@, pending@, ptr),
                forall|i: int, q: Ptr|
                    0 <= i < k && refers(*heap, #[trigger] kids@[i], q) ==> #[trigger] marked(
                        marks@,
                        q,
                    ),
                forall|i: int, q: Ptr|
                    0 <= i < roots.len() && refers(*heap, #[trigger] roots@[i], q)
                        ==> #[trigger] marked(marks@, q),
                unmarked_count(marks@, marks@.len() as int) < start_count || (unmarked_count(
                    marks@,
                    marks@.len() as int,
                ) == start_count && pending.len() < start_len),
            decreases kids.len() - k,
        {
            proof {
                assert forall|q: Ptr| refers(*heap, kids@[k as int], q) implies reachable(
                    *heap,
                    roots@,
                    q,
                ) by {
                    assert(edge(*heap, ptr, q));
                    lemma_reachable_step(*heap, roots@, ptr, q);
                }
            }
            mark_value(heap, kids[k], &mut marks, &mut pending, Ghost(roots@), Ghost(ptr));
            k = k + 1;
        }
        proof {
            lemma_unmarked_count_bounds(marks@, marks@.len() as int);
            assert forall|from: Ptr, to: Ptr|
                marked(marks@, from) && #[trigger] edge(*heap, from, to) && !pending@.contains(from)
                    && from != 0 implies marked(marks@, to) by {
                if from == ptr {
                    let i = choose|i: int|
                        0 <= i < kids@.len() && refers(*heap, #[trigger] kids@[i], to);
                    assert(marked(marks@, to));
                }
            }
        }
    }
    proof {
        assert forall|ptr: Ptr| reachable(*heap, roots@, ptr) implies #[trigger] marked(
            marks@,
            ptr,
        ) by {
            let path = choose|path: Seq<Ptr>| #[trigger]
                is_path(*heap, roots@, path) && path.last() == ptr;
            assert forall|q: Ptr| named_by(*heap, roots@, q) implies #[trigger] marked(
                marks@,
                q,
            ) by {
                let i = choose|i: int|
                    0 <= i < roots@.len() && refers(*heap, #[trigger] roots@[i], q);
            }
            assert forall|from: Ptr, to: Ptr|
                marked(marks@, from) && #[trigger] edge(*heap, from, to) implies marked(
                    marks@,
                    to,
                ) by {
                assert(!pending@.contains(from));
                assert(heap.holds(from));
            }
            lemma_closed_marks(*heap, roots@, marks@, path, path.len() - 1);
        }
    }
    marks
}

/// The number of live blocks of a heap.
pub fn population_of(heap: &HeapManager) -> (count: usize)
    ensures
        count == population(*heap, heap.memory.len() as int),
{
    let mut count: usize = 0;
    let mut i: usize = 0;
    while i < heap.memory.len()
        invariant
            i <= heap.memory.len(),
            count == population(*heap, i as int),
            count <= i,
        decreases heap.memory.len() - i,
    {
        if heap.memory[i].kind != CellKind::Free {
            count = count + 1;
        }
        i = i + 1;
    }
    count
}

/// The collector, which holds the heap that it collects.
#[derive(Debug)]
pub struct GC {
    pub heap_manager: HeapManager,
}

impl GC {
    pub fn new(heap_manager: HeapManager) -> (gc: Self)
        ensures
            gc.heap_manager == heap_manager,
    {
        Self { heap_manager }
    }

    /// The marks of the blocks that are reachable from what a program holds
    /// on to.
    pub fn mark(&self, context: &RuntimeContext) -> (marks: Vec<bool>)
        requires
            self.heap_manager.wf(),
        ensures
            marks.len() == self.heap_manager.memory.len(),
            forall|ptr: Ptr| #[trigger]
                marked(marks@, ptr) <==> reachable(self.heap_manager, context.spec_roots(), ptr),
    {
        let roots = context.roots();
        mark(&self.heap_manager, &roots)
    }

    /// Frees the objects and arrays of which the marks do not hold.
    pub fn sweep_objects(&mut self, objects: &Vec<bool>)
        requires
            old(self).heap_manager.wf(),
            objects.len() == old(self).heap_manager.memory.len(),
        ensures
            final(self).heap_manager.wf(),
            swept(
                old(self).heap_manager,
                final(self).heap_manager,
                objects@,
                old(self).heap_manager.memory.len() as int,
                false,
            ),
    {
        self.sweep(objects, false);
    }

    /// Frees the strings of which the marks do not hold, but those that the
    /// compiler made.
    pub fn sweep_strings(&mut self, strings: &Vec<bool>)
        requires
            old(self).heap_manager.wf(),
            strings.len() == old(self).heap_manager.memory.len(),
        ensures
            final(self).heap_manager.wf(),
            swept(
                old(self).heap_manager,
                final(self).heap_manager,
                strings@,
                old(self).heap_manager.memory.len() as int,
                true,
            ),
    {
        self.sweep(strings, true);
    }

    fn sweep(&mut self, marks: &Vec<bool>, strings: bool)
        requires
            old(self).heap_manager.wf(),
            marks.len() == old(self).heap_manager.memory.len(),
        ensures
            final(self).heap_manager.wf(),
            swept(
                old(self).heap_manager,
                final(self).heap_manager,
                marks@,
                old(self).heap_manager.memory.len() as int,
                strings,
            ),
    {
        let mut i: usize = 0;
        while i < marks.len()
            invariant
                i <= marks.len(),
                marks.len() == old(self).heap_manager.memory.len(),
                self.heap_manager.wf(),
                swept(old(self).heap_manager, self.heap_manager, marks@, i as int, strings),
            decreases marks.len() - i,
        {
            let ptr = (i + 1) as u64;
            let kind = self.heap_manager.kind_of(ptr);
            let ghost before = self.heap_manager;
            assert(before.kind_at(ptr) == old(self).heap_manager.kind_at(ptr));
            if !marks[i] {
                if strings {
                    if kind == CellKind::Text && !self.heap_manager.memory[i].flag {
                        self.heap_manager.free_string(ptr);
                    }
                } else {
                    if kind == CellKind::Table || kind == CellKind::List {
                        self.heap_manager.free_object(ptr);
                    }
                }
            }
            proof {
                let first = old(self).heap_manager;
                let now = self.heap_manager;
                assert forall|q: Ptr| #[trigger] now.kind_at(q) == if doomed(
                    first,
                    marks@,
                    i + 1,
                    strings,
                    q,
                ) {
                    CellKind::Free
                } else {
                    first.kind_at(q)
                } by {
                    assert(before.kind_at(q) == if doomed(first, marks@, i as int, strings, q) {
                        CellKind::Free
                    } else {
                        first.kind_at(q)
                    });
                    if q != ptr {
                        assert(now.kind_at(q) == before.kind_at(q));
                        assert(doomed(first, marks@, i + 1, strings, q) == doomed(
                            first,
                            marks@,
                            i as int,
                            strings,
                            q,
                        ));
                    } else {
                        assert(!doomed(first, marks@, i as int, strings, q));
                        assert(before.kind_at(ptr) == first.kind_at(ptr));
                        assert(marked(marks@, ptr) == marks@[i as int]);
                        if before.holds(ptr) {
                            assert(before.cell(ptr) == first.cell(ptr));
                            assert(before.cell(ptr) == before.memory[i as int]);
                        }
                    }
                }
                assert forall|q: Ptr| now.holds(q) implies #[trigger] now.cell(q) == first.cell(
                    q,
                ) by {
                    assert(now.kind_at(q) == before.kind_at(q));
                    assert(before.cell(q) == first.cell(q));
                }
            }
            i = i + 1;
        }
    }

    /// Frees what the program can no longer reach, where the heap is crowded.
    pub fn collect(&mut self, context: &RuntimeContext)
        requires
            old(self).heap_manager.wf(),
        ensures
            final(self).heap_manager.wf(),
            collected(old(self).heap_manager, final(self).heap_manager, context.spec_roots()),
    {
        if population_of(&self.heap_manager) <= GC_THRESHOLD {
            return ;
        }
        let marks = self.mark(context);
        let ghost first = self.heap_manager;
        self.sweep_objects(&marks);
        let ghost second = self.heap_manager;
        self.sweep_strings(&marks);
        proof {
            let last = self.heap_manager;
            let roots = context.spec_roots();
            let n = first.memory.len() as int;
            assert forall|ptr: Ptr|
                #![trigger last.kind_at(ptr)]
                #![trigger last.cell(ptr)]
                if kept(first, roots, ptr) {
                    last.kind_at(ptr) == first.kind_at(ptr) && last.cell(ptr) == first.cell(ptr)
                } else {
                    !last.holds(ptr)
                } by {
                assert(marked(marks@, ptr) <==> reachable(first, roots, ptr));
                assert(second.kind_at(ptr) == if doomed(first, marks@, n, false, ptr) {
                    CellKind::Free
                } else {
                    first.kind_at(ptr)
                });
                assert(last.kind_at(ptr) == if doomed(second, marks@, n, true, ptr) {
                    CellKind::Free
                } else {
                    second.kind_at(ptr)
                });
                if second.holds(ptr) {
                    assert(second.cell(ptr) == first.cell(ptr));
                }
                if last.holds(ptr) {
                    assert(last.cell(ptr) == second.cell(ptr));
                }
                if reachable(first, roots, ptr) {
                    let path = choose|path: Seq<Ptr>| #[trigger]
                        is_path(first, roots, path) && path.last() == ptr;
                    lemma_path_holds(first, roots, path, path.len() - 1);
                }
            }
        }
    }
}

/// True when a sweep that has come to the cell `n` has freed the block `ptr`:
/// the marks do not hold of it, and it is a string that the compiler did not
/// make, where the sweep is one of strings, or else an object or an array.
pub open spec fn doomed(heap: HeapManager, marks: Seq<bool>, n: int, strings: bool, ptr: Ptr) -> bool {
    &&& 1 <= ptr <= n
    &&& !marked(marks, ptr)
    &&& if strings {
        heap.holds_string(ptr) && !heap.cell(ptr).flag
    } else {
        heap.holds_object(ptr) || heap.holds_array(ptr)
    }
}

/// What a sweep that has come to the cell `n` has made of a heap.
pub open spec fn swept(
    before: HeapManager,
    after: HeapManager,
    marks: Seq<bool>,
    n: int,
    strings: bool,
) -> bool {
    &&& after.max_heap_size == before.max_heap_size
    &&& after.memory.len() == before.memory.len()
    &&& forall|ptr: Ptr| #[trigger]
        after.kind_at(ptr) == if doomed(before, marks, n, strings, ptr) {
            CellKind::Free
        } else {
            before.kind_at(ptr)
        }
    &&& forall|ptr: Ptr| after.holds(ptr) ==> #[trigger] after.cell(ptr) == before.cell(ptr)
}

/// Every block of a path is live.
pub proof fn lemma_path_holds(heap: HeapManager, roots: Seq<Value>, path: Seq<Ptr>, k: int)
    requires
        is_path(heap, roots, path),
        0 <= k < path.len(),
    ensures
        heap.holds(path[k]),
{
    if k == 0 {
        let i = choose|i: int| 0 <= i < roots.len() && refers(heap, #[trigger] roots[i], path[0]);
    } else {
        assert(edge(heap, path[k - 1], path[k]));
        let values = children(heap, path[k - 1]);
        let i = choose|i: int|
            0 <= i < values.len() && refers(heap, #[trigger] values[i], path[k]);
    }
}

/// After a run of the collector every block that the program can reach is
/// still a live block of the heap, unchanged.
pub proof fn lemma_pointer_stability(
    before: HeapManager,
    after: HeapManager,
    roots: Seq<Value>,
    ptr: Ptr,
)
    requires
        collected(before, after, roots),
        reachable(before, roots, ptr),
    ensures
        after.heap_layout().contains_key(ptr),
        after.kind_at(ptr) == before.kind_at(ptr),
        after.cell(ptr) == before.cell(ptr),
        reachable(after, roots, ptr),
{
    let path = choose|path: Seq<Ptr>| #[trigger] is_path(before, roots, path) && path.last() == ptr;
    lemma_path_holds(before, roots, path, path.len() - 1);
    lemma_path_survives(before, after, roots, path);
    if crowded(before) {
        assert(kept(before, roots, ptr));
        assert(after.kind_at(ptr) == before.kind_at(ptr));
    } else {
        assert(after.memory@ == before.memory@);
    }
}

/// A path of the heap before a run of the collector is a path of the heap
/// after it.
pub proof fn lemma_path_survives(
    before: HeapManager,
    after: HeapManager,
    roots: Seq<Value>,
    path: Seq<Ptr>,
)
    requires
        collected(before, after, roots),
        is_path(before, roots, path),
    ensures
        is_path(after, roots, path),
{
    assert forall|k: int| 0 <= k < path.len() implies after.kind_at(#[trigger] path[k])
        == before.kind_at(path[k]) && after.cell(path[k]) == before.cell(path[k]) by {
        lemma_path_prefix(before, roots, path, k);
        lemma_path_holds(before, roots, path, k);
        if crowded(before) {
            assert(kept(before, roots, path[k]));
            assert(after.kind_at(path[k]) == before.kind_at(path[k]));
        } else {
            assert(after.memory@ == before.memory@);
        }
    }
    assert(named_by(after, roots, path[0])) by {
        let i = choose|i: int| 0 <= i < roots.len() && refers(before, #[trigger] roots[i], path[0]);
        assert(after.kind_at(path[0]) == before.kind_at(path[0]));
        assert(refers(after, roots[i], path[0]));
    }
    assert forall|k: int| 0 <= k < path.len() - 1 implies edge(
        after,
        #[trigger] path[k],
        path[k + 1],
    ) by {
        assert(edge(before, path[k], path[k + 1]));
        let values = children(before, path[k]);
        let i = choose|i: int|
            0 <= i < values.len() && refers(before, #[trigger] values[i], path[k + 1]);
        assert(after.kind_at(path[k]) == before.kind_at(path[k]));
        assert(after.kind_at(path[k + 1]) == before.kind_at(path[k + 1]));
        assert(children(after, path[k]) =~= values);
        assert(refers(after, children(after, path[k])[i], path[k + 1]));
    }
}

/// No run of the collector frees a string that the compiler made.
pub proof fn lemma_compile_constants_survive(
    before: HeapManager,
    after: HeapManager,
    roots: Seq<Value>,
    ptr: Ptr,
)
    requires
        collected(before, after, roots),
        before.holds_string(ptr),
        before.cell(ptr).flag,
    ensures
        after.holds_string(ptr),
        after.interned_strings()[ptr],
        after.string_bytes(ptr) == before.string_bytes(ptr),
{
    if crowded(before) {
        assert(kept(before, roots, ptr));
        assert(after.kind_at(ptr) == before.kind_at(ptr));
    } else {
        assert(after.memory@ == before.memory@);
    }
}

/// A second run of the collector, with nothing changed in between, frees
/// nothing.
pub proof fn lemma_collect_idempotent(
    first: HeapManager,
    second: HeapManager,
    third: HeapManager,
    roots: Seq<Value>,
    ptr: Ptr,
)
    requires
        collected(first, second, roots),
        collected(second, third, roots),
    ensures
        third.kind_at(ptr) == second.kind_at(ptr),
        second.holds(ptr) ==> third.cell(ptr) == second.cell(ptr),
{
    if !crowded(second) {
        assert(third.memory@ == second.memory@);
    } else if second.holds(ptr) {
        assert(crowded(first)) by {
            if !crowded(first) {
                assert(second.memory@ == first.memory@);
                lemma_population_same(first, second, first.memory.len() as int);
            }
        }
        assert(second.kind_at(ptr) == if kept(first, roots, ptr) {
            first.kind_at(ptr)
        } else {
            CellKind::Free
        });
        assert(kept(first, roots, ptr));
        assert(second.cell(ptr) == first.cell(ptr));
        if reachable(first, roots, ptr) {
            lemma_pointer_stability(first, second, roots, ptr);
        }
        assert(kept(second, roots, ptr));
        assert(third.kind_at(ptr) == second.kind_at(ptr));
    } else {
        assert(!kept(second, roots, ptr));
        assert(!third.holds(ptr));
    }
}

proof fn lemma_population_same(a: HeapManager, b: HeapManager, n: int)
    requires
        a.memory@ == b.memory@,
    ensures
        population(a, n) == population(b, n),
    decreases n,
{
    if n > 0 {
        lemma_population_same(a, b, n - 1);
    }
}

} // verus!
