use vstd::prelude::*;
use vstd::string::*;
use vstd::utf8::*;
use crate::hash_table::HashEntry;
use crate::heap::HeapManager;
use crate::value::Value;

verus! {

/// A part of a printed line: bytes of text, or a number that is still to be
/// written in decimal digits.
#[derive(Debug)]
pub enum Piece {
    Text(Vec<u8>),
    Number(u32),
}

/// What a part of a printed line holds.
pub enum Part {
    Text(Seq<u8>),
    Number(u32),
}

impl Piece {
    pub open spec fn view(&self) -> Part {
        match *self {
            Piece::Text(bytes) => Part::Text(bytes@),
            Piece::Number(bits) => Part::Number(bits),
        }
    }
}

/// What the pieces of a line hold.
pub open spec fn parts(line: Seq<Piece>) -> Seq<Part> {
    Seq::new(line.len(), |i: int| line[i]@)
}

/// The bytes of a text.
pub open spec fn word(text: &str) -> Part {
    Part::Text(encode_utf8(text@))
}

/// What stands for a value that lies deeper than a line goes.
pub open spec fn too_deep() -> Seq<Part> {
    seq![word("...")]
}

/// The parts of the line that shows a value. An array is shown as its items
/// between `[ ` and ` ]`, an object as its keys, each with its value, between
/// `{ ` and ` }`, in the order in which the entries stand in its block; the
/// items and the entries are parted by `, `. What a dangling handle names is
/// shown as nothing. `depth` is the number of objects and arrays that may
/// stand in one another.
pub open spec fn spec_render(heap: HeapManager, value: Value, depth: nat) -> Seq<Part>
    decreases depth, 0nat, 0nat,
{
    match value {
        Value::Number(bits) => seq![Part::Number(bits)],
        Value::Null => seq![word("null")],
        Value::Bool(b) => if b {
            seq![word("true")]
        } else {
            seq![word("false")]
        },
        Value::Function(_) => seq![word("[function]")],
        Value::String(ptr) => seq![spec_render_string(heap, ptr)],
        Value::Object(ptr) => if !heap.holds_object(ptr) {
            seq![word("{ "), word(" }")]
        } else if depth == 0 {
            too_deep()
        } else {
            seq![word("{ ")] + spec_render_entries(
                heap,
                heap.object_entries(ptr),
                heap.object_entries(ptr).len(),
                (depth - 1) as nat,
            ) + seq![word(" }")]
        },
        Value::Array(ptr) => if !heap.holds_array(ptr) {
            seq![word("[ "), word(" ]")]
        } else if depth == 0 {
            too_deep()
        } else {
            seq![word("[ ")] + spec_render_items(
                heap,
                heap.array_items(ptr),
                heap.array_items(ptr).len(),
                (depth - 1) as nat,
            ) + seq![word(" ]")]
        },
    }
}

/// The bytes of a string; none, where the handle names no string.
pub open spec fn spec_render_string(heap: HeapManager, ptr: crate::value::Ptr) -> Part {
    if heap.holds_string(ptr) {
        Part::Text(heap.string_bytes(ptr))
    } else {
        Part::Text(Seq::empty())
    }
}

/// The parts that show the first `n` entries of an object.
pub open spec fn spec_render_entries(
    heap: HeapManager,
    entries: Seq<HashEntry>,
    n: nat,
    depth: nat,
) -> Seq<Part>
    decreases depth, 1nat, n,
{
    if n == 0 {
        Seq::empty()
    } else {
        spec_render_entries(heap, entries, (n - 1) as nat, depth) + (if n > 1 {
            seq![word(", ")]
        } else {
            Seq::empty()
        }) + seq![spec_render_string(heap, entries[n - 1].key), word(": ")] + spec_render(
            heap,
            entries[n - 1].value,
            depth,
        )
    }
}

/// The parts that show the first `n` items of an array.
pub open spec fn spec_render_items(heap: HeapManager, items: Seq<Value>, n: nat, depth: nat) -> Seq<
    Part,
>
    decreases depth, 1nat, n,
{
    if n == 0 {
        Seq::empty()
    } else {
        spec_render_items(heap, items, (n - 1) as nat, depth) + (if n > 1 {
            seq![word(", ")]
        } else {
            Seq::empty()
        }) + spec_render(heap, items[n - 1], depth)
    }
}

fn text(literal: &str) -> (piece: Piece)
    ensures
        piece@ == word(literal),
{
    Piece::Text(literal.as_bytes_vec())
}

fn render_string(heap: &HeapManager, ptr: crate::value::Ptr) -> (piece: Piece)
    requires
        heap.wf(),
    ensures
        piece@ == spec_render_string(*heap, ptr),
{
    if heap.is_string(ptr) {
        Piece::Text(heap.get_string_bytes(ptr))
    } else {
        Piece::Text(Vec::new())
    }
}

fn append(line: &mut Vec<Piece>, mut more: Vec<Piece>)
    ensures
        parts(final(line)@) == parts(old(line)@) + parts(more@),
{
    let ghost first = line@;
    let ghost second = more@;
    line.append(&mut more);
    assert(parts(line@) =~= parts(first) + parts(second));
}

/// The pieces of the line that shows a value.
pub fn render(heap: &HeapManager, value: Value, depth: usize) -> (line: Vec<Piece>)
    requires
        heap.wf(),
    ensures
        parts(line@) == spec_render(*heap, value, depth as nat),
    decreases depth, 0nat,
{
    let mut line: Vec<Piece> = Vec::new();
    match value {
        Value::Number(bits) => {
            line.push(Piece::Number(bits));
            assert(parts(line@) =~= seq![Part::Number(bits)]);
        },
        Value::Null => {
            line.push(text("null"));
            assert(parts(line@) =~= seq![word("null")]);
        },
        Value::Bool(b) => {
            if b {
                line.push(text("true"));
                assert(parts(line@) =~= seq![word("true")]);
            } else {
                line.push(text("false"));
                assert(parts(line@) =~= seq![word("false")]);
            }
        },
        Value::Function(_) => {
            line.push(text("[function]"));
            assert(parts(line@) =~= seq![word("[function]")]);
        },
        Value::String(ptr) => {
            line.push(render_string(heap, ptr));
            assert(parts(line@) =~= seq![spec_render_string(*heap, ptr)]);
        },
        Value::Object(ptr) => {
            if !heap.is_object(ptr) {
                line.push(text("{ "));
                line.push(text(" }"));
                assert(parts(line@) =~= seq![word("{ "), word(" }")]);
            } else if depth == 0 {
                line.push(text("..."));
                assert(parts(line@) =~= too_deep());
            } else {
                let entries = heap.get_object(ptr);
                line.push(text("{ "));
                assert(parts(line@) =~= seq![word("{ ")]);
                let mut i: usize = 0;
                while i < entries.len()
                    invariant
                        heap.wf(),
                        i <= entries.len(),
                        depth > 0,
                        parts(line@) == seq![word("{ ")] + spec_render_entries(
                            *heap,
                            entries@,
                            i as nat,
                            (depth - 1) as nat,
                        ),
                    decreases entries.len() - i,
                {
                    let ghost before = parts(line@);
                    let mut more: Vec<Piece> = Vec::new();
                    if i > 0 {
                        more.push(text(", "));
                    }
                    more.push(render_string(heap, entries[i].key));
                    more.push(text(": "));
                    assert(parts(more@) =~= (if i > 0 {
                        seq![word(", ")]
                    } else {
                        Seq::empty()
                    }) + seq![spec_render_string(*heap, entries@[i as int].key), word(": ")]);
                    append(&mut line, more);
                    let shown = render(heap, entries[i].value, depth - 1);
                    append(&mut line, shown);
                    i = i + 1;
                    assert(parts(line@) =~= seq![word("{ ")] + spec_render_entries(
                        *heap,
                        entries@,
                        i as nat,
                        (depth - 1) as nat,
                    ));
                }
                let ghost inner = parts(line@);
                line.push(text(" }"));
                assert(parts(line@) =~= inner + seq![word(" }")]);
            }
        },
        Value::Array(ptr) => {
            if !heap.is_array(ptr) {
                line.push(text("[ "));
                line.push(text(" ]"));
                assert(parts(line@) =~= seq![word("[ "), word(" ]")]);
            } else if depth == 0 {
                line.push(text("..."));
                assert(parts(line@) =~= too_deep());
            } else {
                let items = heap.get_array(ptr);
                line.push(text("[ "));
                assert(parts(line@) =~= seq![word("[ ")]);
                let mut i: usize = 0;
                while i < items.len()
                    invariant
                        heap.wf(),
                        i <= items.len(),
                        depth > 0,
                        parts(line@) == seq![word("[ ")] + spec_render_items(
                            *heap,
                            items@,
                            i as nat,
                            (depth - 1) as nat,
                        ),
                    decreases items.len() - i,
                {
                    if i > 0 {
                        let mut more: Vec<Piece> = Vec::new();
                        more.push(text(", "));
                        assert(parts(more@) =~= seq![word(", ")]);
                        append(&mut line, more);
                    }
                    let shown = render(heap, items[i], depth - 1);
                    append(&mut line, shown);
                    i = i + 1;
                    assert(parts(line@) =~= seq![word("[ ")] + spec_render_items(
                        *heap,
                        items@,
                        i as nat,
                        (depth - 1) as nat,
                    ));
                }
                let ghost inner = parts(line@);
                line.push(text(" ]"));
                assert(parts(line@) =~= inner + seq![word(" ]")]);
            }
        },
    }
    line
}

} // verus!
