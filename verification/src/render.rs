//! How values are written out: the layout of what `print` prints.
//!
//! The text of a number is left to the caller, who knows how numbers are
//! written: a value is rendered into pieces, of which some are ready text and
//! some are numbers still to be written.

use vstd::prelude::*;
use crate::expr::KeyValue;
use crate::heap::{Heap, HeapView};
use crate::value::{Value, ValueView};

verus! {

/// A piece of what a value is written as.
#[derive(Debug, PartialEq)]
pub enum Piece {
    /// Text, to be written as it is.
    Text(String),
    /// A number, to be written by the caller.
    Number(u64),
}

/// What a [`Piece`] is in contracts.
pub enum PieceView {
    Text(Seq<char>),
    Number(u64),
}

impl View for Piece {
    type V = PieceView;

    open spec fn view(&self) -> PieceView {
        match self {
            Piece::Text(text) => PieceView::Text(text@),
            Piece::Number(bits) => PieceView::Number(*bits),
        }
    }
}

/// The views of a sequence of pieces, one by one.
pub open spec fn piece_views(pieces: Seq<Piece>) -> Seq<PieceView> {
    Seq::new(pieces.len(), |i: int| pieces[i]@)
}

/// A container that is being written: an array or a dictionary, by its handle.
#[derive(Clone, Copy, PartialEq, Eq, Structural)]
pub struct Holder {
    pub dictionary: bool,
    pub handle: usize,
}

/// One piece of text.
pub open spec fn text(content: Seq<char>) -> Seq<PieceView> {
    seq![PieceView::Text(content)]
}

/// What a value is written as, inside the containers of `path` and with `depth`
/// levels of containers still to go into.
///
/// - A number is a piece of its own; a string is its text; a truth value is
///   `true` or `false`; null is `null`; a function is `<function>`.
/// - An array is its elements in square brackets, with `, ` between them.
/// - A dictionary is its entries in curly brackets, with `, ` between them, in
///   the order in which their keys were first written; an entry is its key, `: `
///   and its value.
/// - A container inside itself is not written again, but as `[...]` or `{...}`;
///   so is a container that is not in the heap, and one that lies deeper than
///   `depth`, which none does with the depth of [`rendered`].
pub open spec fn rendering(heap: HeapView, value: ValueView, path: Seq<Holder>, depth: nat) -> Seq<
    PieceView,
>
    decreases depth, 0nat,
{
    match value {
        ValueView::Number(bits) => seq![PieceView::Number(bits)],
        ValueView::Bool(truth) => if truth {
            text("true"@)
        } else {
            text("false"@)
        },
        ValueView::String_(content) => text(content),
        ValueView::Null => text("null"@),
        ValueView::Function { .. } => text("<function>"@),
        ValueView::Array(handle) => if handle < heap.arrays.len() && depth > 0 && !path.contains(
            Holder { dictionary: false, handle },
        ) {
            text("["@) + elements_rendering(
                heap,
                heap.arrays[handle as int],
                0,
                path.push(Holder { dictionary: false, handle }),
                (depth - 1) as nat,
            ) + text("]"@)
        } else {
            text("[...]"@)
        },
        ValueView::Dictionary(handle) => if handle < heap.dictionaries.len() && depth > 0
            && !path.contains(Holder { dictionary: true, handle }) {
            text("{"@) + entries_rendering(
                heap,
                heap.dictionaries[handle as int],
                0,
                path.push(Holder { dictionary: true, handle }),
                (depth - 1) as nat,
            ) + text("}"@)
        } else {
            text("{...}"@)
        },
    }
}

/// What the elements of an array from position `from` on are written as.
pub open spec fn elements_rendering(
    heap: HeapView,
    elements: Seq<ValueView>,
    from: int,
    path: Seq<Holder>,
    depth: nat,
) -> Seq<PieceView>
    decreases depth, elements.len() - from + 1,
{
    if 0 <= from < elements.len() {
        (if from > 0 {
            text(", "@)
        } else {
            Seq::empty()
        }) + rendering(heap, elements[from], path, depth) + elements_rendering(
            heap,
            elements,
            from + 1,
            path,
            depth,
        )
    } else {
        Seq::empty()
    }
}

/// What the entries of a dictionary from position `from` on are written as.
pub open spec fn entries_rendering(
    heap: HeapView,
    entries: Seq<KeyValue<ValueView>>,
    from: int,
    path: Seq<Holder>,
    depth: nat,
) -> Seq<PieceView>
    decreases depth, entries.len() - from + 1,
{
    if 0 <= from < entries.len() {
        (if from > 0 {
            text(", "@)
        } else {
            Seq::empty()
        }) + rendering(heap, entries[from].key, path, depth) + text(": "@) + rendering(
            heap,
            entries[from].value,
            path,
            depth,
        ) + entries_rendering(heap, entries, from + 1, path, depth)
    } else {
        Seq::empty()
    }
}

/// How many levels of containers a value of the heap is written into: as many as
/// the heap has containers.
pub open spec fn depth_of(heap: HeapView) -> nat {
    if heap.arrays.len() + heap.dictionaries.len() <= usize::MAX {
        heap.arrays.len() + heap.dictionaries.len()
    } else {
        usize::MAX as nat
    }
}

/// What a value of the heap is written as.
pub open spec fn rendered(heap: HeapView, value: ValueView) -> Seq<PieceView> {
    rendering(heap, value, Seq::empty(), depth_of(heap))
}

/// Whether `holder` is a container of the heap.
pub open spec fn held(heap: HeapView, holder: Holder) -> bool {
    if holder.dictionary {
        holder.handle < heap.dictionaries.len()
    } else {
        holder.handle < heap.arrays.len()
    }
}

/// The containers of `path` are containers of the heap, each once.
pub open spec fn open_path(heap: HeapView, path: Seq<Holder>) -> bool {
    &&& path.no_duplicates()
    &&& forall|i: int| 0 <= i < path.len() ==> held(heap, #[trigger] path[i])
}

/// How many containers the heap has.
pub open spec fn containers(heap: HeapView) -> nat {
    heap.arrays.len() + heap.dictionaries.len()
}

/// The place of a container among all containers of the heap: the arrays first.
pub open spec fn place(heap: HeapView, holder: Holder) -> int {
    if holder.dictionary {
        heap.arrays.len() + holder.handle
    } else {
        holder.handle as int
    }
}

/// A path holds no more containers than the heap has.
pub proof fn lemma_path_fits(heap: HeapView, path: Seq<Holder>)
    requires
        open_path(heap, path),
    ensures
        path.len() <= containers(heap),
{
    let places = Seq::new(path.len(), |i: int| place(heap, path[i]));
    assert forall|i: int, j: int| 0 <= i < places.len() && 0 <= j < places.len() && i != j
        implies places[i] != places[j] by {
        assert(held(heap, path[i]) && held(heap, path[j]));
        assert(path[i] != path[j]);
    }
    places.unique_seq_to_set();
    vstd::set_lib::lemma_int_range(0, containers(heap) as int);
    assert forall|p: int| places.to_set().contains(p) implies vstd::set_lib::set_int_range(
        0,
        containers(heap) as int,
    ).contains(p) by {
        let i = choose|i: int| 0 <= i < places.len() && places[i] == p;
        assert(held(heap, path[i]));
    }
    vstd::set_lib::lemma_len_subset(
        places.to_set(),
        vstd::set_lib::set_int_range(0, containers(heap) as int),
    );
}

/// Depth beyond the number of containers changes nothing: with at least as many
/// levels to go into as the heap has containers that are not on the path, a
/// value is written the same with more levels.
pub proof fn lemma_deep_enough(
    heap: HeapView,
    value: ValueView,
    path: Seq<Holder>,
    depth: nat,
    more: nat,
)
    requires
        open_path(heap, path),
        depth + path.len() >= containers(heap),
        more >= depth,
    ensures
        rendering(heap, value, path, more) == rendering(heap, value, path, depth),
    decreases depth, 0nat,
{
    let holder = match value {
        ValueView::Array(handle) => Some(Holder { dictionary: false, handle }),
        ValueView::Dictionary(handle) => Some(Holder { dictionary: true, handle }),
        _ => None,
    };
    match holder {
        Some(holder) => {
            if held(heap, holder) && !path.contains(holder) {
                let inner = path.push(holder);
                assert(open_path(heap, inner)) by {
                    assert forall|i: int, j: int|
                        0 <= i < inner.len() && 0 <= j < inner.len() && i != j implies inner[i]
                        != inner[j] by {
                        if i < path.len() && j < path.len() {
                            assert(path[i] != path[j]);
                        } else if i < path.len() {
                            assert(path.contains(path[i]));
                        } else {
                            assert(path.contains(path[j]));
                        }
                    }
                }
                lemma_path_fits(heap, inner);
                if holder.dictionary {
                    lemma_deep_enough_entries(
                        heap,
                        heap.dictionaries[holder.handle as int],
                        0,
                        inner,
                        (depth - 1) as nat,
                        (more - 1) as nat,
                    );
                } else {
                    lemma_deep_enough_elements(
                        heap,
                        heap.arrays[holder.handle as int],
                        0,
                        inner,
                        (depth - 1) as nat,
                        (more - 1) as nat,
                    );
                }
            }
        },
        None => {},
    }
}

/// [`lemma_deep_enough`], for the elements of an array.
pub proof fn lemma_deep_enough_elements(
    heap: HeapView,
    elements: Seq<ValueView>,
    from: int,
    path: Seq<Holder>,
    depth: nat,
    more: nat,
)
    requires
        open_path(heap, path),
        depth + path.len() >= containers(heap),
        more >= depth,
    ensures
        elements_rendering(heap, elements, from, path, more) == elements_rendering(
            heap,
            elements,
            from,
            path,
            depth,
        ),
    decreases depth, elements.len() - from + 1,
{
    if 0 <= from < elements.len() {
        lemma_deep_enough(heap, elements[from], path, depth, more);
        lemma_deep_enough_elements(heap, elements, from + 1, path, depth, more);
    }
}

/// [`lemma_deep_enough`], for the entries of a dictionary.
pub proof fn lemma_deep_enough_entries(
    heap: HeapView,
    entries: Seq<KeyValue<ValueView>>,
    from: int,
    path: Seq<Holder>,
    depth: nat,
    more: nat,
)
    requires
        open_path(heap, path),
        depth + path.len() >= containers(heap),
        more >= depth,
    ensures
        entries_rendering(heap, entries, from, path, more) == entries_rendering(
            heap,
            entries,
            from,
            path,
            depth,
        ),
    decreases depth, entries.len() - from + 1,
{
    if 0 <= from < entries.len() {
        lemma_deep_enough(heap, entries[from].key, path, depth, more);
        lemma_deep_enough(heap, entries[from].value, path, depth, more);
        lemma_deep_enough_entries(heap, entries, from + 1, path, depth, more);
    }
}

/// No value lies deeper than it is written: with more levels than the heap has
/// containers, every value is written as [`rendered`] says. Only a container
/// inside itself, and one that is not in the heap, is ever written as `[...]` or
/// `{...}`.
pub proof fn lemma_rendered_whole(heap: HeapView, value: ValueView, more: nat)
    requires
        containers(heap) <= usize::MAX,
        more >= containers(heap),
    ensures
        rendering(heap, value, Seq::empty(), more) == rendered(heap, value),
{
    lemma_deep_enough(heap, value, Seq::empty(), containers(heap), more);
}

/// Whether `holder` is in `path`.
fn on_path(path: &Vec<Holder>, holder: Holder) -> (found: bool)
    ensures
        found == path@.contains(holder),
{
    let mut k: usize = 0;
    while k < path.len()
        invariant
            k <= path@.len(),
            forall|j: int| 0 <= j < k ==> path@[j] != holder,
        decreases path@.len() - k,
    {
        if path[k] == holder {
            return true;
        }
        k += 1;
    }
    false
}

/// Adds a piece of text to `pieces`.
fn put(pieces: &mut Vec<Piece>, content: &str)
    ensures
        piece_views(final(pieces)@) == piece_views(old(pieces)@) + text(content@),
{
    pieces.push(Piece::Text(content.to_owned()));
    assert(piece_views(pieces@) =~= piece_views(old(pieces)@) + text(content@));
}

/// Adds what `value` is written as to `pieces`.
fn render_into(
    heap: &Heap,
    value: &Value,
    path: &mut Vec<Holder>,
    depth: usize,
    pieces: &mut Vec<Piece>,
)
    ensures
        final(path)@ == old(path)@,
        piece_views(final(pieces)@) == piece_views(old(pieces)@) + rendering(
            heap@,
            value@,
            old(path)@,
            depth as nat,
        ),
    decreases depth,
{
    let ghost before = piece_views(pieces@);
    match value {
        Value::Number(bits) => {
            pieces.push(Piece::Number(*bits));
            assert(piece_views(pieces@) =~= before + seq![PieceView::Number(*bits)]);
        },
        Value::Bool(truth) => {
            if *truth {
                put(pieces, "true");
            } else {
                put(pieces, "false");
            }
        },
        Value::String_(content) => {
            pieces.push(Piece::Text(content.clone()));
            assert(piece_views(pieces@) =~= before + text(content@));
        },
        Value::Null => put(pieces, "null"),
        Value::Function { .. } => put(pieces, "<function>"),
        Value::Array(handle) => {
            let holder = Holder { dictionary: false, handle: *handle };
            if heap.has_array(*handle) && depth > 0 && !on_path(path, holder) {
                let ghost outer = path@;
                put(pieces, "[");
                path.push(holder);
                let ghost inner = path@;
                let ghost elements = heap@.arrays[*handle as int];
                let ghost opened = piece_views(pieces@);
                let length = heap.array_len(*handle);
                let mut i: usize = 0;
                while i < length
                    invariant
                        i <= length,
                        depth > 0,
                        *handle < heap@.arrays.len(),
                        elements == heap@.arrays[*handle as int],
                        length == elements.len(),
                        path@ == inner,
                        piece_views(pieces@) + elements_rendering(
                            heap@,
                            elements,
                            i as int,
                            inner,
                            (depth - 1) as nat,
                        ) == opened + elements_rendering(
                            heap@,
                            elements,
                            0,
                            inner,
                            (depth - 1) as nat,
                        ),
                    decreases length - i,
                {
                    let ghost so_far = piece_views(pieces@);
                    if i > 0 {
                        put(pieces, ", ");
                    }
                    render_into(heap, heap.element_at(*handle, i), path, depth - 1, pieces);
                    proof {
                        let separator = if i > 0 {
                            text(", "@)
                        } else {
                            Seq::empty()
                        };
                        let one = rendering(heap@, elements[i as int], inner, (depth - 1) as nat);
                        let rest = elements_rendering(
                            heap@,
                            elements,
                            i + 1,
                            inner,
                            (depth - 1) as nat,
                        );
                        assert(piece_views(pieces@) =~= so_far + separator + one);
                        assert(so_far + (separator + one + rest) =~= so_far + separator + one
                            + rest);
                    }
                    i += 1;
                }
                path.pop();
                let ghost filled = piece_views(pieces@);
                put(pieces, "]");
                proof {
                    assert(path@ =~= outer);
                    let inside = elements_rendering(heap@, elements, 0, inner, (depth - 1) as nat);
                    assert(filled + Seq::<PieceView>::empty() =~= filled);
                    assert(filled == opened + inside);
                    assert(before + text("["@) + inside + text("]"@) =~= before + (text("["@)
                        + inside + text("]"@)));
                }
            } else {
                put(pieces, "[...]");
            }
        },
        Value::Dictionary(handle) => {
            let holder = Holder { dictionary: true, handle: *handle };
            if heap.has_dictionary(*handle) && depth > 0 && !on_path(path, holder) {
                let ghost outer = path@;
                put(pieces, "{");
                path.push(holder);
                let ghost inner = path@;
                let ghost entries = heap@.dictionaries[*handle as int];
                let ghost opened = piece_views(pieces@);
                let length = heap.dictionary_len(*handle);
                let mut i: usize = 0;
                while i < length
                    invariant
                        i <= length,
                        depth > 0,
                        *handle < heap@.dictionaries.len(),
                        entries == heap@.dictionaries[*handle as int],
                        length == entries.len(),
                        path@ == inner,
                        piece_views(pieces@) + entries_rendering(
                            heap@,
                            entries,
                            i as int,
                            inner,
                            (depth - 1) as nat,
                        ) == opened + entries_rendering(
                            heap@,
                            entries,
                            0,
                            inner,
                            (depth - 1) as nat,
                        ),
                    decreases length - i,
                {
                    let ghost so_far = piece_views(pieces@);
                    if i > 0 {
                        put(pieces, ", ");
                    }
                    render_into(heap, heap.key_at(*handle, i), path, depth - 1, pieces);
                    put(pieces, ": ");
                    render_into(heap, heap.value_at(*handle, i), path, depth - 1, pieces);
                    proof {
                        let separator = if i > 0 {
                            text(", "@)
                        } else {
                            Seq::empty()
                        };
                        let key = rendering(heap@, entries[i as int].key, inner, (depth - 1) as nat);
                        let value = rendering(
                            heap@,
                            entries[i as int].value,
                            inner,
                            (depth - 1) as nat,
                        );
                        let rest = entries_rendering(
                            heap@,
                            entries,
                            i + 1,
                            inner,
                            (depth - 1) as nat,
                        );
                        assert(piece_views(pieces@) =~= so_far + separator + key + text(": "@)
                            + value);
                        assert(so_far + (separator + key + text(": "@) + value + rest) =~= so_far
                            + separator + key + text(": "@) + value + rest);
                    }
                    i += 1;
                }
                path.pop();
                let ghost filled = piece_views(pieces@);
                put(pieces, "}");
                proof {
                    assert(path@ =~= outer);
                    let inside = entries_rendering(heap@, entries, 0, inner, (depth - 1) as nat);
                    assert(filled + Seq::<PieceView>::empty() =~= filled);
                    assert(filled == opened + inside);
                    assert(before + text("{"@) + inside + text("}"@) =~= before + (text("{"@)
                        + inside + text("}"@)));
                }
            } else {
                put(pieces, "{...}");
            }
        },
    }
}

/// What `value` is written as, with the arrays and dictionaries of `heap`: the
/// pieces of [`rendered`].
pub fn render(heap: &Heap, value: &Value) -> (pieces: Vec<Piece>)
    ensures
        piece_views(pieces@) == rendered(heap@, value@),
{
    let arrays = heap.arrays();
    let dictionaries = heap.dictionaries();
    let depth = if arrays <= usize::MAX - dictionaries {
        arrays + dictionaries
    } else {
        usize::MAX
    };
    let mut pieces: Vec<Piece> = Vec::new();
    let mut path: Vec<Holder> = Vec::new();
    proof {
        assert(piece_views(pieces@) =~= Seq::empty());
    }
    render_into(heap, value, &mut path, depth, &mut pieces);
    proof {
        assert(Seq::<PieceView>::empty() + rendered(heap@, value@) =~= rendered(heap@, value@));
    }
    pieces
}

} // verus!
