//! The heap: the storage of arrays and dictionaries, and the rules of indexing.
//!
//! An array or a dictionary value is a handle: the position of its storage here.
//! Two values with the same handle are the same container, so what is written
//! through one is read through the other.

use vstd::prelude::*;
use vstd::string::StrSliceExecFns;
use vstd::string::StringExecFns;
use crate::error::{error_view, result_view, ErrorType, ErrorView};
use crate::expr::KeyValue;
use crate::number;
use crate::value::{Value, ValueView};

verus! {

/// The name of the type of a value, as errors give it.
pub open spec fn kind_name_of(value: ValueView) -> Seq<char> {
    match value {
        ValueView::Number(_) => "Number"@,
        ValueView::Bool(_) => "Bool"@,
        ValueView::String_(_) => "String"@,
        ValueView::Null => "Null"@,
        ValueView::Array(_) => "Array"@,
        ValueView::Dictionary(_) => "Dictionary"@,
        ValueView::Function { .. } => "Function"@,
    }
}

/// The name of the type of `value`.
pub fn kind_name(value: &Value) -> (name: String)
    ensures
        name@ == kind_name_of(value@),
{
    match value {
        Value::Number(_) => "Number".to_owned(),
        Value::Bool(_) => "Bool".to_owned(),
        Value::String_(_) => "String".to_owned(),
        Value::Null => "Null".to_owned(),
        Value::Array(_) => "Array".to_owned(),
        Value::Dictionary(_) => "Dictionary".to_owned(),
        Value::Function { .. } => "Function".to_owned(),
    }
}

/// What checking `index` as an index into a container of `length` places gives,
/// on line `line`: the position where the index is a natural number below the
/// length, else the error that says what the index is: no number, no natural
/// number, or out of bounds.
pub open spec fn index_model(index: ValueView, length: nat, line: usize) -> Result<
    usize,
    ErrorView,
> {
    match index {
        ValueView::Number(bits) => match number::natural_of(bits) {
            Some(n) => if n < length {
                Ok(n as usize)
            } else {
                Err(ErrorView::OutOfBoundsIndex { index: number::saturated(n), line })
            },
            None => Err(ErrorView::NonNaturalIndex { got: index, line }),
        },
        _ => Err(ErrorView::NonNumberIndex { got: kind_name_of(index), line }),
    }
}

/// Checks `index` as an index into an array or a string of `length` places: it has
/// to be a number, a natural number, and below the length.
pub fn check_index(index: &Value, length: usize, line: usize) -> (result: Result<usize, ErrorType>)
    ensures
        error_view(result) == index_model(index@, length as nat, line),
{
    match index {
        Value::Number(bits) => match number::natural(*bits) {
            Some(n) => if n < length {
                Ok(n)
            } else {
                Err(ErrorType::OutOfBoundsIndex { index: n, line })
            },
            None => Err(ErrorType::NonNaturalIndex { got: index.clone(), line }),
        },
        _ => Err(ErrorType::NonNumberIndex { got: kind_name(index), line }),
    }
}

/// What reading the character of `text` at `index` gives: the character as a
/// string of its own, or the error of the index.
pub open spec fn read_string_model(text: Seq<char>, index: ValueView, line: usize) -> Result<
    ValueView,
    ErrorView,
> {
    match index_model(index, text.len(), line) {
        Ok(i) => Ok(ValueView::String_(seq![text[i as int]])),
        Err(error) => Err(error),
    }
}

/// Reads the character of `text` at `index`, as a string of its own, where the
/// index is a natural number below the length of the text.
pub fn read_string(text: &String, index: &Value, line: usize) -> (result: Result<Value, ErrorType>)
    ensures
        result_view(result) == read_string_model(text@, index@, line),
{
    let length = text.as_str().unicode_len();
    let i = check_index(index, length, line)?;
    let found = text.as_str().substring_char(i, i + 1).to_owned();
    assert(found@ =~= seq![text@[i as int]]);
    Ok(Value::String_(found))
}

/// What writing `value` over the character of `text` at `index` gives: the text
/// with the string `value` in place of that character. The index is checked
/// first; then `value` has to be a string.
pub open spec fn write_string_model(
    text: Seq<char>,
    index: ValueView,
    value: ValueView,
    line: usize,
) -> Result<Seq<char>, ErrorView> {
    match index_model(index, text.len(), line) {
        Ok(i) => match value {
            ValueView::String_(inserted) => Ok(
                text.subrange(0, i as int) + inserted + text.subrange(i + 1, text.len() as int),
            ),
            _ => Err(ErrorView::InsertNonStringIntoString { line }),
        },
        Err(error) => Err(error),
    }
}

/// The text `text` with the string `value` in place of its character at `index`.
pub fn write_string(text: &String, index: &Value, value: &Value, line: usize) -> (result: Result<
    String,
    ErrorType,
>)
    ensures
        result_view(result) == write_string_model(text@, index@, value@, line),
{
    let length = text.as_str().unicode_len();
    let i = check_index(index, length, line)?;
    match value {
        Value::String_(inserted) => {
            let mut written = text.as_str().substring_char(0, i).to_owned();
            written.append(inserted.as_str());
            written.append(text.as_str().substring_char(i + 1, length));
            Ok(written)
        },
        _ => Err(ErrorType::InsertNonStringIntoString { line }),
    }
}

/// Whether a value can be the key of a dictionary entry: a number, a truth value,
/// a string or null.
pub open spec fn is_key(value: ValueView) -> bool {
    value is Number || value is Bool || value is String_ || value is Null
}

/// The names of the types that can be keys, as an error gives them.
pub open spec fn key_types() -> Seq<char> {
    "Number, Bool, String or Null"@
}

/// What checking `key` as a key gives, on line `line`: nothing for a key, and for
/// a function, a dictionary or an array the error that says what it is.
pub open spec fn key_model(key: ValueView, line: usize) -> Result<(), ErrorView> {
    match key {
        ValueView::Function { .. } => Err(ErrorView::CannotHashFunction { line }),
        ValueView::Dictionary(_) => Err(ErrorView::CannotHashDictionary { line }),
        ValueView::Array(_) => Err(
            ErrorView::ExpectedType { expected: key_types(), got: kind_name_of(key), line },
        ),
        _ => Ok(()),
    }
}

/// Checks that `key` can be the key of a dictionary entry.
pub fn check_key(key: &Value, line: usize) -> (result: Result<(), ErrorType>)
    ensures
        error_view(result) == key_model(key@, line),
        result is Ok <==> is_key(key@),
{
    match key {
        Value::Function { .. } => Err(ErrorType::CannotHashFunction { line }),
        Value::Dictionary(_) => Err(ErrorType::CannotHashDictionary { line }),
        Value::Array(_) => Err(
            ErrorType::ExpectedType {
                expected: "Number, Bool, String or Null".to_owned(),
                got: kind_name(key),
                line,
            },
        ),
        _ => Ok(()),
    }
}

/// Whether two keys are equal, as `==` says of them: two numbers that are equal
/// as numbers, so that zero is one key whatever its sign; two equal truth values;
/// two equal strings; null and null. A number that is no number equals no key,
/// itself included: what is written for it is never read.
pub open spec fn keys_equal(a: ValueView, b: ValueView) -> bool {
    match (a, b) {
        (ValueView::Number(x), ValueView::Number(y)) => number::equal(x, y),
        _ => is_key(a) && a == b,
    }
}

/// Whether two values are equal keys.
pub fn same_key(a: &Value, b: &Value) -> (same: bool)
    ensures
        same == keys_equal(a@, b@),
{
    match (a, b) {
        (Value::Number(x), Value::Number(y)) => number::same(*x, *y),
        (Value::Bool(x), Value::Bool(y)) => *x == *y,
        (Value::String_(x), Value::String_(y)) => *x == *y,
        (Value::Null, Value::Null) => true,
        _ => false,
    }
}

/// The position of the entry of `key` among `entries` from position `from` on:
/// that of the first entry whose key equals it.
pub open spec fn entry_from(entries: Seq<KeyValue<ValueView>>, from: int, key: ValueView) -> Option<
    int,
>
    decreases entries.len() - from,
{
    if 0 <= from < entries.len() {
        if keys_equal(entries[from].key, key) {
            Some(from)
        } else {
            entry_from(entries, from + 1, key)
        }
    } else {
        None
    }
}

/// The value that `entries` hold for `key`.
pub open spec fn value_of(entries: Seq<KeyValue<ValueView>>, key: ValueView) -> Option<ValueView> {
    match entry_from(entries, 0, key) {
        Some(i) => Some(entries[i].value),
        None => None,
    }
}

/// The entries after `value` is written for `key`: the entry of the key holds the
/// value in its old place and under its old key where there was one, else a new
/// entry comes last.
pub open spec fn with_entry(
    entries: Seq<KeyValue<ValueView>>,
    key: ValueView,
    value: ValueView,
) -> Seq<KeyValue<ValueView>> {
    match entry_from(entries, 0, key) {
        Some(i) => entries.update(i, KeyValue { key: entries[i].key, value }),
        None => entries.push(KeyValue { key, value }),
    }
}

/// The entries are those of a dictionary: every key can be a key, and no two
/// entries have equal keys.
pub open spec fn keyed(entries: Seq<KeyValue<ValueView>>) -> bool {
    &&& forall|j: int| 0 <= j < entries.len() ==> is_key(#[trigger] entries[j].key)
    &&& forall|i: int, j: int|
        0 <= i < j < entries.len() ==> !keys_equal(
            (#[trigger] entries[i]).key,
            (#[trigger] entries[j]).key,
        )
}

/// What a [`Heap`] is in contracts: the elements of each array, and the entries
/// of each dictionary in the order in which their keys were first written.
pub struct HeapView {
    pub arrays: Seq<Seq<ValueView>>,
    pub dictionaries: Seq<Seq<KeyValue<ValueView>>>,
}

/// What reading the element of the array `handle` at `index` gives.
pub open spec fn read_array_model(heap: HeapView, handle: int, index: ValueView, line: usize)
    -> Result<ValueView, ErrorView> {
    match index_model(index, heap.arrays[handle].len(), line) {
        Ok(i) => Ok(heap.arrays[handle][i as int]),
        Err(error) => Err(error),
    }
}

/// The heap after `value` is written to the element of the array `handle` at
/// `index`, and what the write gives. An array never grows by a write.
pub open spec fn write_array_model(
    heap: HeapView,
    handle: int,
    index: ValueView,
    value: ValueView,
    line: usize,
) -> (HeapView, Result<(), ErrorView>) {
    match index_model(index, heap.arrays[handle].len(), line) {
        Ok(i) => (
            HeapView {
                arrays: heap.arrays.update(handle, heap.arrays[handle].update(i as int, value)),
                dictionaries: heap.dictionaries,
            },
            Ok(()),
        ),
        Err(error) => (heap, Err(error)),
    }
}

/// What reading the value that the dictionary `handle` holds for `key` gives:
/// the value; where `key` cannot be a key, the error of the key; where the
/// dictionary has no entry for it, the error that names the key.
pub open spec fn read_dictionary_model(heap: HeapView, handle: int, key: ValueView, line: usize)
    -> Result<ValueView, ErrorView> {
    match key_model(key, line) {
        Ok(_) => match value_of(heap.dictionaries[handle], key) {
            Some(value) => Ok(value),
            None => Err(ErrorView::KeyError { key, line }),
        },
        Err(error) => Err(error),
    }
}

/// The heap after `value` is written for `key` in the dictionary `handle`, and
/// what the write gives.
pub open spec fn write_dictionary_model(
    heap: HeapView,
    handle: int,
    key: ValueView,
    value: ValueView,
    line: usize,
) -> (HeapView, Result<(), ErrorView>) {
    match key_model(key, line) {
        Ok(_) => (
            HeapView {
                arrays: heap.arrays,
                dictionaries: heap.dictionaries.update(
                    handle,
                    with_entry(heap.dictionaries[handle], key, value),
                ),
            },
            Ok(()),
        ),
        Err(error) => (heap, Err(error)),
    }
}

/// The views of a sequence of values, one by one.
pub open spec fn value_views(values: Seq<Value>) -> Seq<ValueView> {
    Seq::new(values.len(), |i: int| values[i]@)
}

/// The views of a sequence of entries, one by one.
pub open spec fn entry_views(entries: Seq<KeyValue<Value>>) -> Seq<KeyValue<ValueView>> {
    Seq::new(entries.len(), |i: int| KeyValue { key: entries[i].key@, value: entries[i].value@ })
}

/// The storage of arrays and dictionaries.
pub struct Heap {
    arrays: Vec<Vec<Value>>,
    dictionaries: Vec<Vec<KeyValue<Value>>>,
}

impl View for Heap {
    type V = HeapView;

    closed spec fn view(&self) -> HeapView {
        HeapView {
            arrays: Seq::new(self.arrays@.len(), |i: int| value_views(self.arrays@[i]@)),
            dictionaries: Seq::new(
                self.dictionaries@.len(),
                |i: int| entry_views(self.dictionaries@[i]@),
            ),
        }
    }
}

impl Heap {
    /// A heap without arrays and dictionaries.
    pub fn new() -> (heap: Heap)
        ensures
            heap.wf(),
            heap@ == (HeapView { arrays: Seq::empty(), dictionaries: Seq::empty() }),
    {
        let heap = Heap { arrays: Vec::new(), dictionaries: Vec::new() };
        assert(heap@.arrays =~= Seq::empty());
        assert(heap@.dictionaries =~= Seq::empty());
        heap
    }

    /// The number of arrays.
    pub fn arrays(&self) -> (count: usize)
        ensures
            count == self@.arrays.len(),
    {
        self.arrays.len()
    }

    /// The number of dictionaries.
    pub fn dictionaries(&self) -> (count: usize)
        ensures
            count == self@.dictionaries.len(),
    {
        self.dictionaries.len()
    }

    /// Whether `handle` is the handle of an array.
    pub fn has_array(&self, handle: usize) -> (yes: bool)
        ensures
            yes == (handle < self@.arrays.len()),
    {
        handle < self.arrays.len()
    }

    /// Whether `handle` is the handle of a dictionary.
    pub fn has_dictionary(&self, handle: usize) -> (yes: bool)
        ensures
            yes == (handle < self@.dictionaries.len()),
    {
        handle < self.dictionaries.len()
    }

    /// Stores a new array of `elements`. Gives its handle.
    pub fn new_array(&mut self, elements: Vec<Value>) -> (handle: usize)
        requires
            old(self).wf(),
        ensures
            final(self).wf(),
            handle == old(self)@.arrays.len(),
            final(self)@.arrays == old(self)@.arrays.push(value_views(elements@)),
            final(self)@.dictionaries == old(self)@.dictionaries,
    {
        let handle = self.arrays.len();
        self.arrays.push(elements);
        assert(self@.arrays =~= old(self)@.arrays.push(value_views(elements@)));
        assert(self@.dictionaries =~= old(self)@.dictionaries);
        handle
    }

    /// Stores a new dictionary without entries. Gives its handle.
    pub fn new_dictionary(&mut self) -> (handle: usize)
        requires
            old(self).wf(),
        ensures
            final(self).wf(),
            handle == old(self)@.dictionaries.len(),
            final(self)@.dictionaries == old(self)@.dictionaries.push(Seq::empty()),
            final(self)@.arrays == old(self)@.arrays,
    {
        let handle = self.dictionaries.len();
        let entries: Vec<KeyValue<Value>> = Vec::new();
        assert(entry_views(entries@) =~= Seq::empty());
        self.dictionaries.push(entries);
        assert(self@.dictionaries =~= old(self)@.dictionaries.push(Seq::empty()));
        assert(self@.arrays =~= old(self)@.arrays);
        handle
    }

    /// The number of elements of the array `handle`.
    pub fn array_len(&self, handle: usize) -> (length: usize)
        requires
            handle < self@.arrays.len(),
        ensures
            length == self@.arrays[handle as int].len(),
    {
        self.arrays[handle].len()
    }

    /// A copy of the element of the array `handle` at position `i`.
    pub fn element(&self, handle: usize, i: usize) -> (copy: Value)
        requires
            handle < self@.arrays.len(),
            i < self@.arrays[handle as int].len(),
        ensures
            copy@ == self@.arrays[handle as int][i as int],
    {
        self.arrays[handle][i].clone()
    }

    /// The element of the array `handle` at position `i`.
    pub fn element_at(&self, handle: usize, i: usize) -> (found: &Value)
        requires
            handle < self@.arrays.len(),
            i < self@.arrays[handle as int].len(),
        ensures
            found@ == self@.arrays[handle as int][i as int],
    {
        &self.arrays[handle][i]
    }

    /// The key of the entry of the dictionary `handle` at position `i`.
    pub fn key_at(&self, handle: usize, i: usize) -> (found: &Value)
        requires
            handle < self@.dictionaries.len(),
            i < self@.dictionaries[handle as int].len(),
        ensures
            found@ == self@.dictionaries[handle as int][i as int].key,
    {
        &self.dictionaries[handle][i].key
    }

    /// The value of the entry of the dictionary `handle` at position `i`.
    pub fn value_at(&self, handle: usize, i: usize) -> (found: &Value)
        requires
            handle < self@.dictionaries.len(),
            i < self@.dictionaries[handle as int].len(),
        ensures
            found@ == self@.dictionaries[handle as int][i as int].value,
    {
        &self.dictionaries[handle][i].value
    }

    /// The number of entries of the dictionary `handle`.
    pub fn dictionary_len(&self, handle: usize) -> (length: usize)
        requires
            handle < self@.dictionaries.len(),
        ensures
            length == self@.dictionaries[handle as int].len(),
    {
        self.dictionaries[handle].len()
    }

    /// A copy of the entry of the dictionary `handle` at position `i`.
    pub fn entry_at(&self, handle: usize, i: usize) -> (copy: KeyValue<Value>)
        requires
            self.wf(),
            handle < self@.dictionaries.len(),
            i < self@.dictionaries[handle as int].len(),
        ensures
            is_key(copy.key@),
            copy.key@ == self@.dictionaries[handle as int][i as int].key,
            copy.value@ == self@.dictionaries[handle as int][i as int].value,
    {
        proof {
            assert(keyed(self@.dictionaries[handle as int]));
            assert(is_key(self@.dictionaries[handle as int][i as int].key));
        }
        let entry = &self.dictionaries[handle][i];
        KeyValue { key: entry.key.clone(), value: entry.value.clone() }
    }

    /// A copy of the value that the dictionary `handle` holds for `key`, if it
    /// holds one.
    pub fn find(&self, handle: usize, key: &Value) -> (found: Option<Value>)
        requires
            self.wf(),
            handle < self@.dictionaries.len(),
        ensures
            match value_of(self@.dictionaries[handle as int], key@) {
                Some(value) => found matches Some(copy) && copy@ == value,
                None => found is None,
            },
    {
        match self.entry(handle, key) {
            Some(i) => Some(self.dictionaries[handle][i].value.clone()),
            None => None,
        }
    }

    /// Reads the element of the array `handle` at `index`: a copy of it where the
    /// index is a natural number below the array's length, else the error that
    /// [`check_index`] gives.
    pub fn read_array(&self, handle: usize, index: &Value, line: usize) -> (result: Result<
        Value,
        ErrorType,
    >)
        requires
            handle < self@.arrays.len(),
        ensures
            result_view(result) == read_array_model(self@, handle as int, index@, line),
    {
        let i = check_index(index, self.arrays[handle].len(), line)?;
        Ok(self.arrays[handle][i].clone())
    }

    /// Writes `value` to the element of the array `handle` at `index`, where the
    /// index is a natural number below the array's length; else nothing changes
    /// and the error is the one that [`check_index`] gives. An array never grows
    /// by a write.
    pub fn write_array(&mut self, handle: usize, index: &Value, value: Value, line: usize) -> (result:
        Result<(), ErrorType>)
        requires
            old(self).wf(),
            handle < old(self)@.arrays.len(),
        ensures
            final(self).wf(),
            (final(self)@, error_view(result)) == write_array_model(
                old(self)@,
                handle as int,
                index@,
                value@,
                line,
            ),
    {
        let ghost value_view = value@;
        let i = check_index(index, self.arrays[handle].len(), line)?;
        self.arrays[handle][i] = value;
        proof {
            assert(self@.arrays[handle as int] =~= old(self)@.arrays[handle as int].update(
                i as int,
                value_view,
            ));
            assert(self@.arrays =~= old(self)@.arrays.update(
                handle as int,
                old(self)@.arrays[handle as int].update(i as int, value_view),
            ));
            assert(self@.dictionaries =~= old(self)@.dictionaries);
        }
        Ok(())
    }

    /// The position of the entry of `key` in the dictionary `handle`.
    fn entry(&self, handle: usize, key: &Value) -> (found: Option<usize>)
        requires
            self.wf(),
            handle < self@.dictionaries.len(),
        ensures
            match found {
                Some(i) => entry_from(self@.dictionaries[handle as int], 0, key@) == Some(i as int)
                    && i < self@.dictionaries[handle as int].len(),
                None => entry_from(self@.dictionaries[handle as int], 0, key@) is None,
            },
    {
        let entries = &self.dictionaries[handle];
        let mut i: usize = 0;
        while i < entries.len()
            invariant
                i <= entries@.len(),
                handle < self.dictionaries@.len(),
                *entries == self.dictionaries@[handle as int],
                entry_from(entry_views(entries@), 0, key@) == entry_from(
                    entry_views(entries@),
                    i as int,
                    key@,
                ),
            decreases entries@.len() - i,
        {
            if same_key(&entries[i].key, key) {
                return Some(i);
            }
            i += 1;
        }
        None
    }

    /// The heap is in order: the entries of every dictionary are as [`keyed`]
    /// says.
    pub closed spec fn wf(&self) -> bool {
        forall|h: int| 0 <= h < self@.dictionaries.len() ==> keyed(#[trigger] self@.dictionaries[h])
    }

    /// What [`Heap::wf`] holds of.
    pub proof fn lemma_wf(&self)
        ensures
            self.wf() == (forall|h: int|
                0 <= h < self@.dictionaries.len() ==> keyed(#[trigger] self@.dictionaries[h])),
    {
    }

    /// Reads the value that the dictionary `handle` holds for `key`: a copy of it.
    /// Where `key` cannot be a key, the error that [`check_key`] gives; where the
    /// dictionary has no entry for it, the error that names the key.
    pub fn read_dictionary(&self, handle: usize, key: &Value, line: usize) -> (result: Result<
        Value,
        ErrorType,
    >)
        requires
            self.wf(),
            handle < self@.dictionaries.len(),
        ensures
            result_view(result) == read_dictionary_model(self@, handle as int, key@, line),
    {
        check_key(key, line)?;
        match self.entry(handle, key) {
            Some(i) => Ok(self.dictionaries[handle][i].value.clone()),
            None => Err(ErrorType::KeyError { key: key.clone(), line }),
        }
    }

    /// Writes `value` for `key` in the dictionary `handle`: over the value of the
    /// key's entry where there is one, else as a new entry. Where `key` cannot be
    /// a key, nothing changes and the error is the one that [`check_key`] gives.
    pub fn write_dictionary(&mut self, handle: usize, key: Value, value: Value, line: usize) -> (result:
        Result<(), ErrorType>)
        requires
            old(self).wf(),
            handle < old(self)@.dictionaries.len(),
        ensures
            final(self).wf(),
            (final(self)@, error_view(result)) == write_dictionary_model(
                old(self)@,
                handle as int,
                key@,
                value@,
                line,
            ),
    {
        let ghost key_view = key@;
        let ghost value_view = value@;
        check_key(&key, line)?;
        match self.entry(handle, &key) {
            Some(i) => {
                self.dictionaries[handle][i].value = value;
                proof {
                    assert(self@.dictionaries[handle as int] =~= with_entry(
                        old(self)@.dictionaries[handle as int],
                        key_view,
                        value_view,
                    ));
                }
            },
            None => {
                self.dictionaries[handle].push(KeyValue { key, value });
                proof {
                    assert(self@.dictionaries[handle as int] =~= with_entry(
                        old(self)@.dictionaries[handle as int],
                        key_view,
                        value_view,
                    ));
                }
            },
        }
        proof {
            assert(self@.arrays =~= old(self)@.arrays);
            assert(self@.dictionaries =~= old(self)@.dictionaries.update(
                handle as int,
                with_entry(old(self)@.dictionaries[handle as int], key_view, value_view),
            ));
            lemma_with_entry_keyed(old(self)@.dictionaries[handle as int], key_view, value_view);
            assert forall|h: int| 0 <= h < self@.dictionaries.len() implies keyed(
                #[trigger] self@.dictionaries[h],
            ) by {
                if h != handle {
                    assert(self@.dictionaries[h] == old(self)@.dictionaries[h]);
                }
            }
        }
        Ok(())
    }
}

/// Keys round-trip: a value that is written for a number, a truth value, a string
/// or null is the value that is read for every key equal to it afterwards; what
/// the dictionary holds for every key not equal to it stays as it is; and a
/// function or a dictionary as a key fails, on writing and on reading, with the
/// error that says which it is.
pub proof fn lemma_key_round_trip(
    heap: HeapView,
    handle: int,
    key: ValueView,
    value: ValueView,
    second: ValueView,
    line: usize,
)
    requires
        0 <= handle < heap.dictionaries.len(),
    ensures
        is_key(key) ==> {
            let written = write_dictionary_model(heap, handle, key, value, line);
            &&& written.1 is Ok
            &&& keys_equal(key, second) ==> read_dictionary_model(written.0, handle, second, line)
                == Ok::<ValueView, ErrorView>(value)
            &&& is_key(second) && !keys_equal(key, second) ==> read_dictionary_model(
                written.0,
                handle,
                second,
                line,
            ) == read_dictionary_model(heap, handle, second, line)
        },
        key is Function ==> {
            &&& write_dictionary_model(heap, handle, key, value, line) == (
                heap,
                Err::<(), ErrorView>(ErrorView::CannotHashFunction { line }),
            )
            &&& read_dictionary_model(heap, handle, key, line) == Err::<ValueView, ErrorView>(
                ErrorView::CannotHashFunction { line },
            )
        },
        key is Dictionary ==> {
            &&& write_dictionary_model(heap, handle, key, value, line) == (
                heap,
                Err::<(), ErrorView>(ErrorView::CannotHashDictionary { line }),
            )
            &&& read_dictionary_model(heap, handle, key, line) == Err::<ValueView, ErrorView>(
                ErrorView::CannotHashDictionary { line },
            )
        },
{
    lemma_write_then_read(heap.dictionaries[handle], key, value, second);
}

/// The errors of an index are of distinct kinds: for an array of `length`
/// elements, a natural number from `length` on is out of bounds, on reading and
/// on writing; a number below zero, or with a fractional part, is no natural
/// number; and what is no number is no number.
pub proof fn lemma_index_errors(
    heap: HeapView,
    handle: int,
    index: ValueView,
    value: ValueView,
    line: usize,
)
    requires
        0 <= handle < heap.arrays.len(),
        heap.arrays[handle].len() <= usize::MAX,
    ensures
        ({
            let length = heap.arrays[handle].len();
            let read = read_array_model(heap, handle, index, line);
            let written = write_array_model(heap, handle, index, value, line);
            &&& written.1 is Ok <==> read is Ok
            &&& read is Err ==> written == (heap, Err::<(), ErrorView>(read->Err_0))
            &&& match index {
                ValueView::Number(bits) => match number::natural_of(bits) {
                    Some(n) => if n < length {
                        read == Ok::<ValueView, ErrorView>(heap.arrays[handle][n as int])
                    } else {
                        read == Err::<ValueView, ErrorView>(
                            ErrorView::OutOfBoundsIndex { index: number::saturated(n), line },
                        )
                    },
                    None => read == Err::<ValueView, ErrorView>(
                        ErrorView::NonNaturalIndex { got: index, line },
                    ),
                },
                _ => read == Err::<ValueView, ErrorView>(
                    ErrorView::NonNumberIndex { got: kind_name_of(index), line },
                ),
            }
        }),
        index matches ValueView::Number(bits) ==> (number::is_negative(bits) && !number::is_zero(
            bits,
        ) ==> number::natural_of(bits) is None),
{
}

/// Equality of keys goes both ways and carries over a key in the middle.
pub proof fn lemma_keys_equal(a: ValueView, b: ValueView, c: ValueView)
    ensures
        keys_equal(a, b) == keys_equal(b, a),
        keys_equal(a, b) && keys_equal(b, c) ==> keys_equal(a, c),
        keys_equal(a, b) ==> is_key(a) && is_key(b),
{
}

/// An entry that is found holds a key equal to the one it was found for, and is
/// the first that does.
pub proof fn lemma_entry_found(entries: Seq<KeyValue<ValueView>>, from: int, key: ValueView)
    ensures
        match entry_from(entries, from, key) {
            Some(i) => from <= i < entries.len() && keys_equal(entries[i].key, key) && forall|
                j: int,
            | from <= j < i ==> !keys_equal(entries[j].key, key),
            None => forall|j: int|
                0 <= from <= j < entries.len() ==> !keys_equal(entries[j].key, key),
        },
    decreases entries.len() - from,
{
    if 0 <= from < entries.len() && !keys_equal(entries[from].key, key) {
        lemma_entry_found(entries, from + 1, key);
    }
}

/// The entries of a dictionary are those of a dictionary after a write for a key.
pub proof fn lemma_with_entry_keyed(
    entries: Seq<KeyValue<ValueView>>,
    key: ValueView,
    value: ValueView,
)
    requires
        keyed(entries),
        is_key(key),
    ensures
        keyed(with_entry(entries, key, value)),
{
    let after = with_entry(entries, key, value);
    lemma_entry_found(entries, 0, key);
    match entry_from(entries, 0, key) {
        Some(found) => {
            assert forall|j: int| 0 <= j < after.len() implies is_key(#[trigger] after[j].key) by {
                assert(is_key(entries[j].key));
            }
            assert forall|i: int, j: int| 0 <= i < j < after.len() implies !keys_equal(
                (#[trigger] after[i]).key,
                (#[trigger] after[j]).key,
            ) by {
                assert(!keys_equal(entries[i].key, entries[j].key));
            }
        },
        None => {
            assert forall|j: int| 0 <= j < after.len() implies is_key(#[trigger] after[j].key) by {
                if j < entries.len() {
                    assert(is_key(entries[j].key));
                }
            }
            assert forall|i: int, j: int| 0 <= i < j < after.len() implies !keys_equal(
                (#[trigger] after[i]).key,
                (#[trigger] after[j]).key,
            ) by {
                if j < entries.len() {
                    assert(!keys_equal(entries[i].key, entries[j].key));
                }
            }
        },
    }
}

/// What is written for a key is what is read for every key equal to it, and what
/// is held for every key not equal to it stays as it is.
pub proof fn lemma_write_then_read(
    entries: Seq<KeyValue<ValueView>>,
    key: ValueView,
    value: ValueView,
    second: ValueView,
)
    ensures
        keys_equal(key, second) ==> value_of(with_entry(entries, key, value), second) == Some(
            value,
        ),
        !keys_equal(key, second) ==> value_of(with_entry(entries, key, value), second) == value_of(
            entries,
            second,
        ),
{
    let after = with_entry(entries, key, value);
    lemma_entry_found(entries, 0, key);
    lemma_entry_written(entries, after, 0, key, second);
}

/// How the entries after a write are searched, next to those before it.
proof fn lemma_entry_written(
    entries: Seq<KeyValue<ValueView>>,
    after: Seq<KeyValue<ValueView>>,
    from: int,
    key: ValueView,
    second: ValueView,
)
    requires
        0 <= from <= entries.len(),
        after.len() >= entries.len(),
        after.len() <= entries.len() + 1,
        forall|j: int| 0 <= j < entries.len() ==> (#[trigger] after[j]).key == entries[j].key,
        forall|j: int|
            0 <= j < entries.len() && !keys_equal(entries[j].key, key) ==> after[j].value
                == entries[j].value,
        after.len() == entries.len() + 1 ==> after[entries.len() as int].key == key && forall|
            j: int,
        | 0 <= j < entries.len() ==> !keys_equal(entries[j].key, key),
    ensures
        !keys_equal(key, second) ==> match entry_from(entries, from, second) {
            Some(i) => entry_from(after, from, second) == Some(i) && after[i].value
                == entries[i].value,
            None => entry_from(after, from, second) is None,
        },
        keys_equal(key, second) ==> match entry_from(entries, from, key) {
            Some(i) => entry_from(after, from, second) == Some(i),
            None => after.len() == entries.len() + 1 ==> entry_from(after, from, second) == Some(
                entries.len() as int,
            ),
        },
    decreases entries.len() - from,
{
    if from < entries.len() {
        lemma_keys_equal(entries[from].key, key, second);
        lemma_keys_equal(entries[from].key, second, key);
        lemma_keys_equal(key, second, key);
        if !keys_equal(entries[from].key, second) {
            lemma_entry_written(entries, after, from + 1, key, second);
        }
    } else {
        if after.len() == entries.len() + 1 {
            assert(entry_from(after, from + 1, second) is None);
        }
    }
}

} // verus!
