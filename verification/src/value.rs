//! The values that travel between the server and its helper processes.

use vstd::prelude::*;

verus! {

/// One protocol value: a tagged union after the Redis serialization protocol.
#[derive(Debug, PartialEq, Eq)]
pub enum Value {
    /// The null bulk string.
    Null,
    /// The null array.
    NullArray,
    /// A simple string, ended by a line terminator on the wire.
    String(String),
    /// An error message.
    Error(String),
    /// A signed integer.
    Integer(i64),
    /// A length-prefixed string.
    Bulk(String),
    /// A length-prefixed run of arbitrary bytes.
    BufBulk(Vec<u8>),
    /// A counted sequence of values.
    Array(Vec<Value>),
}

/// The mathematical content of a [`Value`].
pub enum ValueView {
    Null,
    NullArray,
    String(Seq<char>),
    Error(Seq<char>),
    Integer(int),
    Bulk(Seq<char>),
    BufBulk(Seq<u8>),
    Array(Seq<ValueView>),
}

impl View for Value {
    type V = ValueView;

    open spec fn view(&self) -> ValueView
        decreases self,
    {
        match self {
            Value::Null => ValueView::Null,
            Value::NullArray => ValueView::NullArray,
            Value::String(text) => ValueView::String(text@),
            Value::Error(text) => ValueView::Error(text@),
            Value::Integer(number) => ValueView::Integer(*number as int),
            Value::Bulk(text) => ValueView::Bulk(text@),
            Value::BufBulk(bytes) => ValueView::BufBulk(bytes@),
            Value::Array(items) => ValueView::Array(
                Seq::new(
                    items@.len(),
                    |i: int|
                        if 0 <= i < items@.len() {
                            items@[i].view()
                        } else {
                            ValueView::Null
                        },
                ),
            ),
        }
    }
}

impl Clone for Value {
    fn clone(&self) -> (copy: Value)
        ensures
            copy@ == self@,
        decreases self,
    {
        match self {
            Value::Null => Value::Null,
            Value::NullArray => Value::NullArray,
            Value::String(text) => Value::String(text.clone()),
            Value::Error(text) => Value::Error(text.clone()),
            Value::Integer(number) => Value::Integer(*number),
            Value::Bulk(text) => Value::Bulk(text.clone()),
            Value::BufBulk(bytes) => Value::BufBulk(bytes.clone()),
            Value::Array(items) => {
                let mut copies: Vec<Value> = Vec::new();
                let mut i: usize = 0;
                while i < items.len()
                    invariant
                        i <= items.len(),
                        copies.len() == i,
                        *self == Value::Array(*items),
                        forall|k: int| 0 <= k < i ==> copies@[k]@ == items@[k]@,
                    decreases items.len() - i,
                {
                    proof {
                        assert(decreases_to!(*self => self->Array_0));
                        assert(decreases_to!(*items => items@[i as int]));
                    }
                    let copy = items[i].clone();
                    copies.push(copy);
                    i += 1;
                }
                proof {
                    lemma_array_view(copies);
                    lemma_array_view(*items);
                    assert(views(copies@) =~= views(items@));
                }
                Value::Array(copies)
            },
        }
    }
}

/// The views of a run of values, element by element.
pub open spec fn views(values: Seq<Value>) -> Seq<ValueView> {
    Seq::new(values.len(), |i: int| values[i]@)
}

/// The view of an array is the array of its elements' views.
pub proof fn lemma_array_view(items: Vec<Value>)
    ensures
        Value::Array(items)@ == ValueView::Array(views(items@)),
{
    assert(Value::Array(items)@->Array_0 =~= views(items@));
}

} // verus!
