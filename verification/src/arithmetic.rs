//! The arithmetic on values.
//!
//! The decimals of a result are computed by the caller's arithmetic unit,
//! so what an operator gives is stated in two parts. [`applied`] says of
//! the outlines of the operands whether the operation fails, and else what
//! integers and what arrays result. [`applies`] adds of each decimal in a
//! result what the unit was asked for it.

use crate::ast::Operator;
use crate::decimal::{flipped, DecimalArith};
use crate::error::{Error, RuntimeErrorKind};
use crate::value::{
    decimal_free, lemma_outline_determines, outline, Datum, Outcome, Outline, Produced, Value,
};
use vstd::prelude::*;

verus! {

/// Whether `res` is what `expected` describes: a value with that outline,
/// or a runtime error of that kind.
pub open spec fn yields(res: Result<Value, Error>, expected: Outcome) -> bool {
    match expected {
        Ok(view) => res matches Ok(value) && value@ == view,
        Err(kind) => res == Err::<Value, Error>(Error::RuntimeError(kind)),
    }
}

/// The values of a sequence of outcomes, or the first error among them.
pub open spec fn gather(results: Seq<Outcome>) -> Result<Seq<Outline>, RuntimeErrorKind>
    decreases results.len(),
{
    if results.len() == 0 {
        Ok(Seq::empty())
    } else {
        match gather(results.drop_last()) {
            Err(kind) => Err(kind),
            Ok(front) => match results.last() {
                Err(kind) => Err(kind),
                Ok(last) => Ok(front.push(last)),
            },
        }
    }
}

/// The array of the values of a sequence of outcomes, or the first error
/// among them.
pub open spec fn array_of(results: Seq<Outcome>) -> Outcome {
    match gather(results) {
        Ok(items) => Ok(Outline::Array(items)),
        Err(kind) => Err(kind),
    }
}

/// The integer `n` as a value, where it fits in 64 bits.
pub open spec fn number(n: int) -> Outcome {
    if i64::MIN <= n <= i64::MAX {
        Ok(Outline::Number(n))
    } else {
        Err(RuntimeErrorKind::Overflow)
    }
}

/// The negation of a value: of an array, the array of the negations of its
/// elements.
pub open spec fn negated(v: Outline) -> Outcome
    decreases v, 1nat,
{
    match v {
        Outline::Number(n) => number(-n),
        Outline::Decimal => Ok(Outline::Decimal),
        Outline::Array(items) => array_of(negated_each(items)),
    }
}

/// The negations of the elements of an array.
pub open spec fn negated_each(items: Seq<Outline>) -> Seq<Outcome>
    decreases items, 0nat,
{
    Seq::new(
        items.len(),
        |i: int|
            if 0 <= i < items.len() {
                negated(items[i])
            } else {
                Err(RuntimeErrorKind::Overflow)
            },
    )
}

/// What an operator gives of two values of which neither is an array.
///
/// Two integers are added, subtracted and multiplied as integers. Their
/// quotient and their power are decimals, and so is every result in which a
/// decimal takes part.
pub open spec fn scalar(op: Operator, l: Outline, r: Outline) -> Outcome {
    match (l, r) {
        (Outline::Number(a), Outline::Number(b)) => match op {
            Operator::Add => number(a + b),
            Operator::Sub => number(a - b),
            Operator::Mul => number(a * b),
            Operator::Div => Ok(Outline::Decimal),
            Operator::Exp => Ok(Outline::Decimal),
        },
        _ => Ok(Outline::Decimal),
    }
}

/// Why an operator cannot be applied element by element, if it cannot.
///
/// Nothing is divided by an array and no array is an exponent. Two arrays
/// are combined element by element only by `+` and `-`, and only where they
/// have one length.
pub open spec fn broadcast_error(op: Operator, l: Outline, r: Outline) -> Option<
    RuntimeErrorKind,
> {
    if r is Array && op == Operator::Div {
        Some(RuntimeErrorKind::MatrixDivision)
    } else if r is Array && op == Operator::Exp {
        Some(RuntimeErrorKind::InvalidExponent)
    } else if l is Array && r is Array && (op == Operator::Mul || l->Array_0.len()
        != r->Array_0.len()) {
        Some(RuntimeErrorKind::ShapeMismatch)
    } else {
        None
    }
}

/// The number of elements of the array among two operands.
pub open spec fn extent(l: Outline, r: Outline) -> nat {
    match l {
        Outline::Array(items) => items.len(),
        _ => match r {
            Outline::Array(items) => items.len(),
            _ => 0,
        },
    }
}

/// The element at `i` of an array; any other value itself.
pub open spec fn item(v: Outline, i: int) -> Outline {
    match v {
        Outline::Array(items) => items[i],
        _ => v,
    }
}

/// What `+`, `-`, `/` or `^` gives of two values, and `*` of two values of
/// which at most one is an array.
///
/// Where an operand is an array, each of its elements is combined with the
/// other operand, or with the element in the same place of the other array,
/// and the results make up an array. The first error among them is the
/// error of the whole.
pub open spec fn pointwise(op: Operator, l: Outline, r: Outline) -> Outcome
    decreases l, r, 1nat,
{
    if l is Array || r is Array {
        match broadcast_error(op, l, r) {
            Some(kind) => Err(kind),
            None => array_of(pointwise_each(op, l, r)),
        }
    } else {
        scalar(op, l, r)
    }
}

/// The outcomes for the elements of the array among two operands.
pub open spec fn pointwise_each(op: Operator, l: Outline, r: Outline) -> Seq<Outcome>
    decreases l, r, 0nat,
{
    Seq::new(
        extent(l, r),
        |i: int|
            if 0 <= i < extent(l, r) && (l is Array || r is Array) && (l is Array && r is Array
                ==> l->Array_0.len() == r->Array_0.len()) {
                pointwise(op, item(l, i), item(r, i))
            } else {
                Err(RuntimeErrorKind::ShapeMismatch)
            },
    )
}

/// Every row is an array, and all rows have the length of the first.
pub open spec fn rectangular(rows: Seq<Outline>) -> bool {
    &&& rows.len() > 0
    &&& forall|i: int|
        0 <= i < rows.len() ==> #[trigger] rows[i] is Array && rows[i]->Array_0.len()
            == rows[0]->Array_0.len()
}

/// The number of columns of a matrix.
pub open spec fn width(rows: Seq<Outline>) -> nat {
    rows[0]->Array_0.len()
}

/// The sum of a sequence of terms, added one after the other to the
/// integer 0; the first error among the terms and the additions is the
/// error of the whole.
pub open spec fn accumulate(terms: Seq<Outcome>) -> Outcome
    decreases terms.len(),
{
    if terms.len() == 0 {
        Ok(Outline::Number(0))
    } else {
        match accumulate(terms.drop_last()) {
            Err(kind) => Err(kind),
            Ok(sum) => match terms.last() {
                Err(kind) => Err(kind),
                Ok(term) => pointwise(Operator::Add, sum, term),
            },
        }
    }
}

/// The product of two values: of two arrays their matrix product, of any
/// others what `*` gives element by element.
pub open spec fn product(l: Outline, r: Outline) -> Outcome
    decreases l, r, 0nat,
{
    match (l, r) {
        (Outline::Array(ls), Outline::Array(rs)) => matrix_product(ls, rs),
        _ => pointwise(Operator::Mul, l, r),
    }
}

/// The product of two matrices, each given by its rows.
///
/// Both must be rectangular and have a row and a column at least, and the
/// left must have as many columns as the right has rows. The cell in row
/// `i` and column `j` is the sum over `k` of the products of the left
/// cell `(i, k)` and the right cell `(k, j)`.
pub open spec fn matrix_product(ls: Seq<Outline>, rs: Seq<Outline>) -> Outcome
    decreases ls, rs, 4nat,
{
    if ls.len() == 0 || rs.len() == 0 {
        Err(RuntimeErrorKind::EmptyMatrix)
    } else if !rectangular(ls) || !rectangular(rs) {
        Err(RuntimeErrorKind::NotRectangular)
    } else if width(ls) == 0 || width(rs) == 0 {
        Err(RuntimeErrorKind::EmptyMatrix)
    } else if width(ls) != rs.len() {
        Err(RuntimeErrorKind::ShapeMismatch)
    } else {
        array_of(product_rows(ls, rs))
    }
}

/// The rows of a matrix product.
pub open spec fn product_rows(ls: Seq<Outline>, rs: Seq<Outline>) -> Seq<Outcome>
    decreases ls, rs, 3nat,
{
    Seq::new(
        ls.len(),
        |i: int|
            if 0 <= i < ls.len() && ls[i] is Array {
                array_of(product_cells(ls[i]->Array_0, rs))
            } else {
                Err(RuntimeErrorKind::NotRectangular)
            },
    )
}

/// The cells of one row of a matrix product: `row` is the row of the left
/// matrix.
pub open spec fn product_cells(row: Seq<Outline>, rs: Seq<Outline>) -> Seq<Outcome>
    decreases row, rs, 2nat,
{
    Seq::new(
        width(rs),
        |j: int|
            if 0 <= j < width(rs) {
                accumulate(product_terms(row, rs, j))
            } else {
                Err(RuntimeErrorKind::NotRectangular)
            },
    )
}

/// The products whose sum is one cell of a matrix product: those of the
/// cells of `row` and of the cells in column `j` of the right matrix.
pub open spec fn product_terms(row: Seq<Outline>, rs: Seq<Outline>, j: int) -> Seq<Outcome>
    decreases row, rs, 1nat,
{
    Seq::new(
        row.len(),
        |k: int|
            if 0 <= k < row.len() && k < rs.len() && rs[k] is Array && 0 <= j
                < rs[k]->Array_0.len() {
                product(row[k], rs[k]->Array_0[j])
            } else {
                Err(RuntimeErrorKind::NotRectangular)
            },
    )
}

/// What a binary operator gives of two values.
pub open spec fn applied(op: Operator, l: Outline, r: Outline) -> Outcome {
    match op {
        Operator::Mul => product(l, r),
        _ => pointwise(op, l, r),
    }
}

/// Gathering one outcome more: a value extends the values gathered so far.
pub(crate) proof fn lemma_gather_push(results: Seq<Outcome>, i: int)
    requires
        0 <= i < results.len(),
        gather(results.take(i)) is Ok,
        results[i] is Ok,
    ensures
        gather(results.take(i + 1)) == Ok::<Seq<Outline>, RuntimeErrorKind>(
            gather(results.take(i))->Ok_0.push(results[i]->Ok_0),
        ),
{
    assert(results.take(i + 1).drop_last() =~= results.take(i));
}

/// The first error of a sequence of outcomes is the error of the whole.
pub(crate) proof fn lemma_gather_err(results: Seq<Outcome>, i: int)
    requires
        0 <= i < results.len(),
        gather(results.take(i)) is Ok,
        results[i] is Err,
    ensures
        gather(results) == Err::<Seq<Outline>, RuntimeErrorKind>(results[i]->Err_0),
    decreases results.len(),
{
    if i == results.len() - 1 {
        assert(results.drop_last() =~= results.take(i));
    } else {
        assert(results.drop_last().take(i) =~= results.take(i));
        lemma_gather_err(results.drop_last(), i);
    }
}

/// Outcomes that are all values gather to as many values, one for each.
proof fn lemma_gather_ok(results: Seq<Outcome>)
    requires
        gather(results) is Ok,
    ensures
        gather(results)->Ok_0.len() == results.len(),
        forall|i: int|
            0 <= i < results.len() ==> (#[trigger] results[i]) == Ok::<
                Outline,
                RuntimeErrorKind,
            >(gather(results)->Ok_0[i]),
    decreases results.len(),
{
    if results.len() > 0 {
        lemma_gather_ok(results.drop_last());
        let front = gather(results.drop_last())->Ok_0;
        assert forall|i: int| 0 <= i < results.len() implies (#[trigger] results[i]) == Ok::<
            Outline,
            RuntimeErrorKind,
        >(gather(results)->Ok_0[i]) by {
            if i < results.len() - 1 {
                assert(results[i] == results.drop_last()[i]);
            }
        }
    }
}

/// An error among the terms of a sum, or in adding them, is the error of
/// the sum.
pub(crate) proof fn lemma_accumulate_err(terms: Seq<Outcome>, k: int)
    requires
        0 <= k <= terms.len(),
        accumulate(terms.take(k)) is Err,
    ensures
        accumulate(terms) == accumulate(terms.take(k)),
    decreases terms.len(),
{
    if k == terms.len() {
        assert(terms.take(k) =~= terms);
    } else {
        assert(terms.drop_last().take(k) =~= terms.take(k));
        lemma_accumulate_err(terms.drop_last(), k);
    }
}

/// Nothing can be divided by an array, whatever is divided.
pub proof fn lemma_division_by_array(l: Outline, r: Outline)
    requires
        r is Array,
    ensures
        applied(Operator::Div, l, r) == Err::<Outline, RuntimeErrorKind>(
            RuntimeErrorKind::MatrixDivision,
        ),
{
}

/// Two arrays of different lengths can be neither added nor subtracted.
pub proof fn lemma_length_mismatch(op: Operator, l: Outline, r: Outline)
    requires
        op == Operator::Add || op == Operator::Sub,
        l is Array,
        r is Array,
        l->Array_0.len() != r->Array_0.len(),
    ensures
        applied(op, l, r) == Err::<Outline, RuntimeErrorKind>(RuntimeErrorKind::ShapeMismatch),
{
}

/// Broadcasting: where `+`, `-`, `/` or `^` is applied with an array among
/// its operands and gives a value, the value is an array as long as the
/// operand, and each of its elements is what the operator gives of the
/// element in that place and the other operand, or the other operand's
/// element in that place.
pub proof fn lemma_pointwise_elements(op: Operator, l: Outline, r: Outline)
    requires
        l is Array || r is Array,
        pointwise(op, l, r) is Ok,
    ensures
        pointwise(op, l, r)->Ok_0 is Array,
        pointwise(op, l, r)->Ok_0->Array_0.len() == extent(l, r),
        l is Array && r is Array ==> l->Array_0.len() == r->Array_0.len(),
        forall|i: int|
            0 <= i < extent(l, r) ==> pointwise(op, item(l, i), item(r, i)) == Ok::<
                Outline,
                RuntimeErrorKind,
            >(#[trigger] pointwise(op, l, r)->Ok_0->Array_0[i]),
{
    let each = pointwise_each(op, l, r);
    lemma_gather_ok(each);
    assert forall|i: int| 0 <= i < extent(l, r) implies pointwise(op, item(l, i), item(r, i))
        == Ok::<Outline, RuntimeErrorKind>(#[trigger] pointwise(op, l, r)->Ok_0->Array_0[i]) by {
        assert(each[i] == pointwise(op, item(l, i), item(r, i)));
    }
}

/// Negation distributes over an array: where the negation of an array is a
/// value, it is the array of the negations of the elements.
pub proof fn lemma_negation_distributes(items: Seq<Outline>)
    requires
        negated(Outline::Array(items)) is Ok,
    ensures
        negated(Outline::Array(items))->Ok_0 is Array,
        negated(Outline::Array(items))->Ok_0->Array_0.len() == items.len(),
        forall|i: int|
            0 <= i < items.len() ==> negated(items[i]) == Ok::<Outline, RuntimeErrorKind>(
                #[trigger] negated(Outline::Array(items))->Ok_0->Array_0[i],
            ),
{
    let each = negated_each(items);
    lemma_gather_ok(each);
    assert forall|i: int| 0 <= i < items.len() implies negated(items[i]) == Ok::<
        Outline,
        RuntimeErrorKind,
    >(#[trigger] negated(Outline::Array(items))->Ok_0->Array_0[i]) by {
        assert(each[i] == negated(items[i]));
    }
}

/// Two matrices whose inner dimensions differ cannot be multiplied.
pub proof fn lemma_matrix_shape_mismatch(ls: Seq<Outline>, rs: Seq<Outline>)
    requires
        rectangular(ls),
        rectangular(rs),
        width(ls) > 0,
        width(rs) > 0,
        width(ls) != rs.len(),
    ensures
        applied(Operator::Mul, Outline::Array(ls), Outline::Array(rs)) == Err::<
            Outline,
            RuntimeErrorKind,
        >(RuntimeErrorKind::ShapeMismatch),
{
}

/// The shape and the cells of a matrix product: where the product of a
/// matrix of `r1` rows and `c1` columns and a matrix of `c1` rows and `c2`
/// columns is a value, it is a matrix of `r1` rows and `c2` columns, and
/// its cell in row `i` and column `j` is the sum of the products of the
/// cells in row `i` of the left and in column `j` of the right matrix.
pub proof fn lemma_matrix_product_cells(ls: Seq<Outline>, rs: Seq<Outline>)
    requires
        rectangular(ls),
        rectangular(rs),
        width(ls) == rs.len(),
        product(Outline::Array(ls), Outline::Array(rs)) is Ok,
    ensures
        product(Outline::Array(ls), Outline::Array(rs))->Ok_0 is Array,
        rectangular(product(Outline::Array(ls), Outline::Array(rs))->Ok_0->Array_0),
        product(Outline::Array(ls), Outline::Array(rs))->Ok_0->Array_0.len() == ls.len(),
        width(product(Outline::Array(ls), Outline::Array(rs))->Ok_0->Array_0) == width(rs),
        forall|i: int, j: int|
            0 <= i < ls.len() && 0 <= j < width(rs) ==> accumulate(
                product_terms(ls[i]->Array_0, rs, j),
            ) == Ok::<Outline, RuntimeErrorKind>(
                #[trigger] product(
                    Outline::Array(ls),
                    Outline::Array(rs),
                )->Ok_0->Array_0[i]->Array_0[j],
            ),
{
    let rows = product_rows(ls, rs);
    let out = product(Outline::Array(ls), Outline::Array(rs))->Ok_0->Array_0;
    lemma_gather_ok(rows);
    assert forall|i: int| 0 <= i < ls.len() implies (#[trigger] out[i]) is Array
        && out[i]->Array_0.len() == width(rs) && forall|j: int|
        0 <= j < width(rs) ==> accumulate(product_terms(ls[i]->Array_0, rs, j)) == Ok::<
            Outline,
            RuntimeErrorKind,
        >(#[trigger] out[i]->Array_0[j]) by {
        let cells = product_cells(ls[i]->Array_0, rs);
        assert(ls[i] is Array);
        assert(rows[i] == array_of(cells));
        lemma_gather_ok(cells);
        assert forall|j: int| 0 <= j < width(rs) implies accumulate(
            product_terms(ls[i]->Array_0, rs, j),
        ) == Ok::<Outline, RuntimeErrorKind>(#[trigger] out[i]->Array_0[j]) by {
            assert(cells[j] == accumulate(product_terms(ls[i]->Array_0, rs, j)));
        }
    }
    assert(out[0] is Array);
}

/// The sum of the products of the first `k` integers of `row` and of the
/// integers in column `j` of the matrix with the rows `rs`.
pub open spec fn dot(row: Seq<Outline>, rs: Seq<Outline>, j: int, k: nat) -> int
    decreases k,
{
    if k == 0 {
        0
    } else {
        dot(row, rs, j, (k - 1) as nat) + row[k - 1]->Number_0 * rs[k - 1]->Array_0[j]->Number_0
    }
}

/// The dot product of integers: where the sum of the products of the
/// integers of a row and of the integers of a column is a value, it is the
/// integer that the sum of the products is in mathematics.
pub proof fn lemma_integer_dot_product(row: Seq<Outline>, rs: Seq<Outline>, j: int, k: nat)
    requires
        k <= row.len() <= rs.len(),
        forall|t: int| 0 <= t < k ==> (#[trigger] row[t]) is Number,
        forall|t: int|
            0 <= t < k ==> (#[trigger] rs[t]) is Array && 0 <= j < rs[t]->Array_0.len()
                && rs[t]->Array_0[j] is Number,
        accumulate(product_terms(row, rs, j).take(k as int)) is Ok,
    ensures
        accumulate(product_terms(row, rs, j).take(k as int)) == Ok::<Outline, RuntimeErrorKind>(
            Outline::Number(dot(row, rs, j, k)),
        ),
    decreases k,
{
    let terms = product_terms(row, rs, j);
    if k == 0 {
        assert(terms.take(0) =~= Seq::empty());
    } else {
        assert(terms.take(k as int).drop_last() =~= terms.take(k - 1));
        assert(terms.take(k as int).last() == terms[k - 1]);
        lemma_integer_dot_product(row, rs, j, (k - 1) as nat);
        assert(row[k - 1] is Number);
        assert(rs[k - 1] is Array);
    }
}

/// The datum with every number and every decimal in it negated.
pub open spec fn flipped_all(datum: Datum) -> Datum
    decreases datum,
{
    match datum {
        Datum::Number(n) => Datum::Number(-n),
        Datum::Decimal(bits) => Datum::Decimal(flipped(bits)),
        Datum::Array(items) => Datum::Array(
            Seq::new(
                items.len(),
                |i: int|
                    if 0 <= i < items.len() {
                        flipped_all(items[i])
                    } else {
                        Datum::Number(0)
                    },
            ),
        ),
    }
}

/// The negation of a datum: every number and every decimal in it negated,
/// where every number in it can be.
pub open spec fn negated_datum(datum: Datum) -> Produced {
    match negated(outline(datum)) {
        Ok(_) => Ok(flipped_all(datum)),
        Err(kind) => Err(kind),
    }
}

/// Whether `bits` is the decimal that the arithmetic unit has for a value
/// that is no array: the value itself, or the unit's conversion of the
/// integer.
pub open spec fn converts<A: DecimalArith>(arith: &A, value: Datum, bits: u64) -> bool {
    match value {
        Datum::Number(n) => call_ensures(A::from_int, (arith, n as i64), bits),
        Datum::Decimal(own) => bits == own,
        Datum::Array(_) => false,
    }
}

/// Whether `c` is what the arithmetic unit gave when it was asked to apply
/// the operator to the decimals `a` and `b`.
pub open spec fn computes<A: DecimalArith>(arith: &A, op: Operator, a: u64, b: u64, c: u64) -> bool {
    match op {
        Operator::Add => call_ensures(A::sum, (arith, a, b), c),
        Operator::Sub => call_ensures(A::difference, (arith, a, b), c),
        Operator::Mul => call_ensures(A::product, (arith, a, b), c),
        Operator::Div => call_ensures(A::quotient, (arith, a, b), c),
        Operator::Exp => call_ensures(A::power, (arith, a, b), c),
    }
}

/// Whether the integers are combined as integers: by `+`, `-` or `*`.
pub open spec fn integral(op: Operator, l: Datum, r: Datum) -> bool {
    l is Number && r is Number && (op == Operator::Add || op == Operator::Sub || op
        == Operator::Mul)
}

/// Whether `out` is what the operator gives, with the unit `arith`, of two
/// values of which neither is an array.
///
/// Two integers give the integer that `+`, `-` or `*` denotes. Any others
/// give the decimal that the unit answers when it is asked to apply the
/// operator to the two as decimals, the left one first.
pub open spec fn scalar_by<A: DecimalArith>(
    arith: &A,
    op: Operator,
    l: Datum,
    r: Datum,
    out: Datum,
) -> bool {
    if integral(op, l, r) {
        out == Datum::Number(
            match op {
                Operator::Add => l->Number_0 + r->Number_0,
                Operator::Sub => l->Number_0 - r->Number_0,
                _ => l->Number_0 * r->Number_0,
            },
        )
    } else {
        out is Decimal && exists|a: u64, b: u64|
            #![trigger converts(arith, l, a), converts(arith, r, b)]
            converts(arith, l, a) && converts(arith, r, b) && computes(
                arith,
                op,
                a,
                b,
                out->Decimal_0,
            )
    }
}

/// The element at `i` of an array; any other datum itself.
pub open spec fn item_of(datum: Datum, i: int) -> Datum {
    match datum {
        Datum::Array(items) => items[i],
        _ => datum,
    }
}

/// Whether `out` is what the operator gives, with the unit `arith`, of two
/// values element by element: each element of an array among them is
/// combined with the other operand, or with the element in the same place
/// of the other array.
pub open spec fn pointwise_by<A: DecimalArith>(
    arith: &A,
    op: Operator,
    l: Datum,
    r: Datum,
    out: Datum,
) -> bool
    decreases l, r,
{
    if l is Array || r is Array {
        &&& out is Array
        &&& l is Array ==> out->Array_0.len() == l->Array_0.len()
        &&& r is Array ==> out->Array_0.len() == r->Array_0.len()
        &&& forall|i: int|
            0 <= i < out->Array_0.len() && (l is Array ==> i < l->Array_0.len()) && (r is Array
                ==> i < r->Array_0.len()) ==> pointwise_by(
                arith,
                op,
                item_of(l, i),
                item_of(r, i),
                #[trigger] out->Array_0[i],
            )
    } else {
        scalar_by(arith, op, l, r, out)
    }
}

/// Whether `out` is the product, with the unit `arith`, of two values: of
/// two matrices the matrix of the sums of products, of any others what `*`
/// gives element by element.
pub open spec fn product_by<A: DecimalArith>(arith: &A, l: Datum, r: Datum, out: Datum) -> bool
    decreases l, r, 0nat,
{
    match (l, r) {
        (Datum::Array(ls), Datum::Array(rs)) => {
            &&& out is Array
            &&& out->Array_0.len() == ls.len()
            &&& forall|i: int|
                0 <= i < ls.len() ==> {
                    let cells = #[trigger] out->Array_0[i];
                    &&& ls[i] is Array
                    &&& cells is Array
                    &&& forall|j: int|
                        0 <= j < cells->Array_0.len() ==> cell_by(
                            arith,
                            ls[i]->Array_0,
                            rs,
                            j,
                            ls[i]->Array_0.len(),
                            #[trigger] cells->Array_0[j],
                        )
                }
        },
        _ => pointwise_by(arith, Operator::Mul, l, r, out),
    }
}

/// Whether `sum` is the sum, with the unit `arith`, of the products of
/// the first `k` cells of `row` and of the cells in column `j` of the
/// matrix with the rows `rs`: the products are added one after the other
/// to the integer 0.
pub open spec fn cell_by<A: DecimalArith>(
    arith: &A,
    row: Seq<Datum>,
    rs: Seq<Datum>,
    j: int,
    k: nat,
    sum: Datum,
) -> bool
    decreases row, rs, k,
{
    if k == 0 {
        sum == Datum::Number(0)
    } else if k <= row.len() && k <= rs.len() && rs[k - 1] is Array && 0 <= j
        < rs[k - 1]->Array_0.len() {
        exists|before: Datum, term: Datum|
            #![trigger pointwise_by(arith, Operator::Add, before, term, sum)]
            cell_by(arith, row, rs, j, (k - 1) as nat, before) && product_by(
                arith,
                row[k - 1],
                rs[k - 1]->Array_0[j],
                term,
            ) && pointwise_by(arith, Operator::Add, before, term, sum)
    } else {
        false
    }
}

/// The outline of a value with a decimal in the place of every integer.
pub open spec fn decimals(view: Outline) -> Outline
    decreases view,
{
    match view {
        Outline::Array(items) => Outline::Array(
            Seq::new(
                items.len(),
                |i: int|
                    if 0 <= i < items.len() {
                        decimals(items[i])
                    } else {
                        Outline::Decimal
                    },
            ),
        ),
        _ => Outline::Decimal,
    }
}

/// Whether `out` is the value `l` to the power of the integer `n`, with
/// the unit `arith`: every integer and every decimal in `l` is raised by
/// the unit, an integer after the unit has converted it.
pub open spec fn raised_by<A: DecimalArith>(arith: &A, l: Datum, n: i32, out: Datum) -> bool
    decreases l,
{
    match l {
        Datum::Array(items) => {
            &&& out is Array
            &&& out->Array_0.len() == items.len()
            &&& forall|i: int|
                0 <= i < items.len() ==> raised_by(arith, items[i], n, #[trigger] out->Array_0[i])
        },
        _ => out is Decimal && exists|a: u64|
            #![trigger converts(arith, l, a)]
            converts(arith, l, a) && call_ensures(A::power_int, (arith, a, n), out->Decimal_0),
    }
}

/// Whether `outcome` is what a binary operator gives of two values with
/// the unit `arith`.
///
/// The arithmetic on the outlines says whether there is an error and
/// which, and else what the result is but for the digits of its decimals.
/// A decimal in the result is what the unit answered.
pub open spec fn applies<A: DecimalArith>(
    arith: &A,
    op: Operator,
    l: Datum,
    r: Datum,
    outcome: Produced,
) -> bool {
    match applied(op, outline(l), outline(r)) {
        Err(kind) => outcome == Err::<Datum, RuntimeErrorKind>(kind),
        Ok(view) => {
            &&& outcome is Ok
            &&& outline(outcome->Ok_0) == view
            &&& match op {
                Operator::Mul => product_by(arith, l, r, outcome->Ok_0),
                _ => pointwise_by(arith, op, l, r, outcome->Ok_0),
            }
        },
    }
}

/// Nothing can be divided by an array, whatever is divided and whatever
/// the arithmetic unit answers.
pub proof fn lemma_no_division_by_array<A: DecimalArith>(
    arith: &A,
    l: Datum,
    r: Datum,
    outcome: Produced,
)
    requires
        r is Array,
        applies(arith, Operator::Div, l, r, outcome),
    ensures
        outcome == Err::<Datum, RuntimeErrorKind>(RuntimeErrorKind::MatrixDivision),
{
}

/// Integers are computed without the arithmetic unit: a result in which no
/// decimal occurs is the one that the arithmetic on the outlines gives,
/// whatever the unit answers.
pub proof fn lemma_integers_are_determined<A: DecimalArith>(
    arith: &A,
    op: Operator,
    l: Datum,
    r: Datum,
    one: Produced,
    other: Produced,
)
    requires
        applies(arith, op, l, r, one),
        applies(arith, op, l, r, other),
        applied(op, outline(l), outline(r)) matches Ok(view) ==> decimal_free(view),
    ensures
        one == other,
{
    if applied(op, outline(l), outline(r)) is Ok {
        lemma_outline_determines(one->Ok_0, other->Ok_0);
    }
}

/// What `res` holds, as the contracts say it: the datum of a value, or
/// the kind of a runtime error. The arithmetic and the evaluator give no
/// other error.
pub open spec fn outcome_of(res: Result<Value, Error>) -> Produced {
    match res {
        Ok(value) => Ok(value.datum()),
        Err(Error::RuntimeError(kind)) => Err(kind),
        Err(Error::ParserError(_)) => Err(RuntimeErrorKind::NoScope),
    }
}

} // verus!
