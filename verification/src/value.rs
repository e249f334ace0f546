//! Runtime values.
//!
//! A value is an integer, a decimal or an array of values. The contracts
//! speak of a value in two ways. Its [`Datum`] is the value itself, with
//! the digits of its decimals. Its view is its [`Outline`], which keeps
//! the integers and the nesting of the arrays and leaves the digits out.

use crate::error::RuntimeErrorKind;
use vstd::pervasive::unreached;
use vstd::prelude::*;

verus! {

/// A runtime value.
#[derive(Debug)]
pub enum Value {
    Number(i64),
    /// A decimal, as the bits of its IEEE 754 encoding.
    Decimal(u64),
    Array(Vec<Value>),
}

/// The outline of a value: the value without the digits of its decimals.
pub enum Outline {
    Number(int),
    Decimal,
    Array(Seq<Outline>),
}

/// What the arithmetic gives of outlines: the outline of the result, or the
/// kind of the error.
pub type Outcome = Result<Outline, RuntimeErrorKind>;

/// What an operation produces: the datum of its result, or the kind of
/// its error.
pub type Produced = Result<Datum, RuntimeErrorKind>;

/// The views of a sequence of values.
pub open spec fn value_views(items: Seq<Value>) -> Seq<Outline>
    decreases items,
{
    Seq::new(
        items.len(),
        |i: int|
            if 0 <= i < items.len() {
                items[i].view()
            } else {
                Outline::Decimal
            },
    )
}

impl View for Value {
    type V = Outline;

    open spec fn view(&self) -> Outline
        decreases self,
    {
        match self {
            Value::Number(n) => Outline::Number(*n as int),
            Value::Decimal(_) => Outline::Decimal,
            Value::Array(items) => Outline::Array(value_views(items@)),
        }
    }
}

/// A value with the digits of its decimals.
pub enum Datum {
    Number(int),
    /// A decimal, as the bits of its IEEE 754 encoding.
    Decimal(u64),
    Array(Seq<Datum>),
}

/// The data of a sequence of values.
pub open spec fn datums(items: Seq<Value>) -> Seq<Datum>
    decreases items,
{
    Seq::new(
        items.len(),
        |i: int|
            if 0 <= i < items.len() {
                items[i].datum()
            } else {
                Datum::Number(0)
            },
    )
}

impl Value {
    /// The value with the digits of its decimals.
    pub open spec fn datum(&self) -> Datum
        decreases self,
    {
        match self {
            Value::Number(n) => Datum::Number(*n as int),
            Value::Decimal(bits) => Datum::Decimal(*bits),
            Value::Array(items) => Datum::Array(datums(items@)),
        }
    }
}

/// A datum without the digits of its decimals.
pub open spec fn outline(datum: Datum) -> Outline
    decreases datum, 1nat,
{
    match datum {
        Datum::Number(n) => Outline::Number(n),
        Datum::Decimal(_) => Outline::Decimal,
        Datum::Array(items) => Outline::Array(outlines(items)),
    }
}

/// The data of a sequence without the digits of their decimals.
pub open spec fn outlines(items: Seq<Datum>) -> Seq<Outline>
    decreases items, 0nat,
{
    Seq::new(
        items.len(),
        |i: int|
            if 0 <= i < items.len() {
                outline(items[i])
            } else {
                Outline::Decimal
            },
    )
}

/// No decimal occurs in the outline.
pub open spec fn decimal_free(view: Outline) -> bool
    decreases view,
{
    match view {
        Outline::Number(_) => true,
        Outline::Decimal => false,
        Outline::Array(items) => forall|i: int|
            0 <= i < items.len() ==> decimal_free(#[trigger] items[i]),
    }
}

/// An outline in which no decimal occurs is the outline of one datum only.
pub proof fn lemma_outline_determines(a: Datum, b: Datum)
    requires
        outline(a) == outline(b),
        decimal_free(outline(a)),
    ensures
        a == b,
    decreases a,
{
    match (a, b) {
        (Datum::Array(xs), Datum::Array(ys)) => {
            let whole = outline(a);
            let views = whole->Array_0;
            assert(views == outlines(xs));
            assert(views == outlines(ys));
            assert forall|i: int| 0 <= i < xs.len() implies xs[i] == ys[i] by {
                assert(decimal_free(whole->Array_0[i]));
                assert(views[i] == outline(xs[i]));
                assert(views[i] == outline(ys[i]));
                lemma_outline_determines(xs[i], ys[i]);
            }
            assert(xs =~= ys);
        },
        _ => {},
    }
}

/// The view of a value is its datum without the digits of the decimals.
pub proof fn lemma_view_is_outline(value: Value)
    ensures
        value@ == outline(value.datum()),
    decreases value,
{
    match value {
        Value::Array(items) => {
            assert forall|i: int| 0 <= i < items.len() implies value_views(items@)[i] == outlines(
                datums(items@),
            )[i] by {
                assert(value->Array_0 == items);
                lemma_view_is_outline(items[i]);
            }
            assert(value_views(items@) =~= outlines(datums(items@)));
        },
        _ => {},
    }
}

impl Value {
    /// The elements of an array.
    pub fn as_array(&self) -> (items: &Vec<Value>)
        requires
            self is Array,
        ensures
            *self is Array && self->Array_0 == *items,
    {
        match self {
            Value::Array(items) => items,
            _ => unreached(),
        }
    }

    /// A copy of the value.
    pub fn duplicate(&self) -> (copy: Value)
        ensures
            copy.datum() == self.datum(),
            copy@ == self@,
        decreases self,
    {
        match self {
            Value::Number(n) => Value::Number(*n),
            Value::Decimal(bits) => Value::Decimal(*bits),
            Value::Array(items) => {
                let mut out: Vec<Value> = Vec::new();
                let mut i: usize = 0;
                while i < items.len()
                    invariant
                        i <= items.len(),
                        self is Array && self->Array_0 == *items,
                        out.len() == i,
                        forall|k: int| 0 <= k < i ==> out[k]@ == items[k]@,
                        forall|k: int| 0 <= k < i ==> out[k].datum() == items[k].datum(),
                    decreases items.len() - i,
                {
                    let copy = items[i].duplicate();
                    out.push(copy);
                    i += 1;
                }
                assert(value_views(out@) =~= value_views(items@));
                assert(datums(out@) =~= datums(items@));
                Value::Array(out)
            },
        }
    }
}

} // verus!
