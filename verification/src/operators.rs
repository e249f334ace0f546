//! The operators on values: they compute what the arithmetic describes.

use crate::arithmetic::{
    accumulate, applied, applies, array_of, broadcast_error, cell_by, computes, converts, decimals,
    extent, flipped_all, gather, item, item_of, lemma_accumulate_err, lemma_gather_err,
    lemma_gather_push, matrix_product, negated, negated_each, outcome_of, pointwise, pointwise_by,
    pointwise_each, product, product_by, product_cells, product_rows, product_terms, raised_by,
    rectangular, scalar, scalar_by, width, yields,
};
use crate::ast::Operator;
use crate::decimal::{negate, DecimalArith};
use crate::error::{Error, RuntimeErrorKind};
use crate::value::{datums, lemma_view_is_outline, value_views, Datum, Outline, Value};
use vstd::pervasive::unreached;
use vstd::prelude::*;

verus! {

impl Value {
    /// The value as a decimal: an integer is converted.
    fn to_decimal<A: DecimalArith>(&self, arith: &A) -> (bits: u64)
        requires
            !(self is Array),
        ensures
            converts(arith, self.datum(), bits),
    {
        match self {
            Value::Number(n) => arith.from_int(*n),
            Value::Decimal(bits) => *bits,
            Value::Array(_) => unreached(),
        }
    }

    /// Applies an operator to two values of which neither is an array.
    fn scalar<A: DecimalArith>(op: Operator, l: &Value, r: &Value, arith: &A) -> (res: Result<
        Value,
        Error,
    >)
        requires
            !(l is Array),
            !(r is Array),
        ensures
            yields(res, scalar(op, l@, r@)),
            res matches Ok(value) ==> scalar_by(arith, op, l.datum(), r.datum(), value.datum()),
    {
        if let Value::Number(a) = l {
            if let Value::Number(b) = r {
                let exact = match op {
                    Operator::Add => Some(a.checked_add(*b)),
                    Operator::Sub => Some(a.checked_sub(*b)),
                    Operator::Mul => Some(a.checked_mul(*b)),
                    _ => None,
                };
                if let Some(checked) = exact {
                    return match checked {
                        Some(n) => Ok(Value::Number(n)),
                        None => Err(Error::RuntimeError(RuntimeErrorKind::Overflow)),
                    };
                }
            }
        }
        let a = l.to_decimal(arith);
        let b = r.to_decimal(arith);
        let bits = match op {
            Operator::Add => arith.sum(a, b),
            Operator::Sub => arith.difference(a, b),
            Operator::Mul => arith.product(a, b),
            Operator::Div => arith.quotient(a, b),
            Operator::Exp => arith.power(a, b),
        };
        assert(converts(arith, l.datum(), a) && converts(arith, r.datum(), b) && computes(
            arith,
            op,
            a,
            b,
            bits,
        ));
        Ok(Value::Decimal(bits))
    }

    /// Applies `+`, `-`, `/` or `^` to two values, or `*` to two values of
    /// which at most one is an array.
    pub fn pointwise<A: DecimalArith>(op: Operator, l: &Value, r: &Value, arith: &A) -> (res:
        Result<Value, Error>)
        ensures
            yields(res, pointwise(op, l@, r@)),
            res matches Ok(value) ==> pointwise_by(arith, op, l.datum(), r.datum(), value.datum()),
        decreases l, r,
    {
        let left_len = match l {
            Value::Array(items) => Some(items.len()),
            _ => None,
        };
        let right_len = match r {
            Value::Array(items) => Some(items.len()),
            _ => None,
        };
        if left_len.is_none() && right_len.is_none() {
            return Value::scalar(op, l, r, arith);
        }
        if right_len.is_some() {
            match op {
                Operator::Div => {
                    return Err(Error::RuntimeError(RuntimeErrorKind::MatrixDivision));
                },
                Operator::Exp => {
                    return Err(Error::RuntimeError(RuntimeErrorKind::InvalidExponent));
                },
                _ => {},
            }
        }
        let count = match (left_len, right_len) {
            (Some(a), Some(b)) => {
                if a != b {
                    return Err(Error::RuntimeError(RuntimeErrorKind::ShapeMismatch));
                }
                match op {
                    Operator::Mul => {
                        return Err(Error::RuntimeError(RuntimeErrorKind::ShapeMismatch));
                    },
                    _ => {},
                }
                a
            },
            (Some(a), None) => a,
            (None, Some(b)) => b,
            (None, None) => 0,
        };
        let ghost each = pointwise_each(op, l@, r@);
        let mut out: Vec<Value> = Vec::new();
        let mut i: usize = 0;
        assert(each.take(0) =~= Seq::empty());
        assert(value_views(out@) =~= Seq::empty());
        while i < count
            invariant
                i <= count,
                count == extent(l@, r@),
                l is Array || r is Array,
                l is Array ==> left_len == Some(l->Array_0.len()),
                r is Array ==> right_len == Some(r->Array_0.len()),
                l is Array && r is Array ==> l->Array_0.len() == r->Array_0.len(),
                broadcast_error(op, l@, r@) is None,
                each == pointwise_each(op, l@, r@),
                gather(each.take(i as int)) == Ok::<Seq<Outline>, RuntimeErrorKind>(
                    value_views(out@),
                ),
                out.len() == i,
                forall|k: int|
                    0 <= k < i ==> pointwise_by(
                        arith,
                        op,
                        item_of(l.datum(), k),
                        item_of(r.datum(), k),
                        (#[trigger] out[k]).datum(),
                    ),
            decreases count - i,
        {
            let a = match l {
                Value::Array(items) => &items[i],
                _ => l,
            };
            let b = match r {
                Value::Array(items) => &items[i],
                _ => r,
            };
            assert(a@ == item(l@, i as int));
            assert(b@ == item(r@, i as int));
            assert(a.datum() == item_of(l.datum(), i as int));
            assert(b.datum() == item_of(r.datum(), i as int));
            let result = Value::pointwise(op, a, b, arith);
            assert(each[i as int] == pointwise(op, a@, b@));
            match result {
                Err(error) => {
                    proof {
                        lemma_gather_err(each, i as int);
                    }
                    return Err(error);
                },
                Ok(value) => {
                    proof {
                        lemma_gather_push(each, i as int);
                        assert(value_views(out@.push(value)) =~= value_views(out@).push(value@));
                    }
                    out.push(value);
                },
            }
            i += 1;
        }
        assert(each.take(i as int) =~= each);
        let whole = Value::Array(out);
        assert(whole.datum()->Array_0 == datums(out@));
        assert forall|k: int|
            0 <= k < datums(out@).len() implies pointwise_by(
            arith,
            op,
            item_of(l.datum(), k),
            item_of(r.datum(), k),
            #[trigger] datums(out@)[k],
        ) by {
            assert(datums(out@)[k] == out[k].datum());
        }
        Ok(whole)
    }

    /// The number of columns of a matrix, if the value is the rows of one:
    /// arrays that all have the length of the first.
    pub fn columns(rows: &Vec<Value>) -> (columns: Option<usize>)
        ensures
            columns is Some <==> rectangular(value_views(rows@)),
            columns matches Some(n) ==> n == width(value_views(rows@)),
    {
        let ghost views = value_views(rows@);
        if rows.len() == 0 {
            return None;
        }
        let first = match &rows[0] {
            Value::Array(items) => items.len(),
            _ => {
                assert(!(views[0] is Array));
                return None;
            },
        };
        assert(views[0] == rows[0]@);
        let mut i: usize = 1;
        while i < rows.len()
            invariant
                1 <= i <= rows.len(),
                views == value_views(rows@),
                views[0] is Array,
                first == views[0]->Array_0.len(),
                forall|k: int|
                    0 <= k < i ==> #[trigger] views[k] is Array && views[k]->Array_0.len() == first,
            decreases rows.len() - i,
        {
            assert(views[i as int] == rows[i as int]@);
            match &rows[i] {
                Value::Array(items) => {
                    if items.len() != first {
                        assert(views[i as int]->Array_0.len() != first);
                        return None;
                    }
                },
                _ => {
                    assert(!(views[i as int] is Array));
                    return None;
                },
            }
            i += 1;
        }
        Some(first)
    }

    /// One cell of a matrix product: the sum of the products of the cells of
    /// `row` and of the cells in column `j` of the matrix with the rows `rs`.
    fn product_cell<A: DecimalArith>(row: &Vec<Value>, rs: &Vec<Value>, j: usize, arith: &A) -> (res:
        Result<Value, Error>)
        requires
            rectangular(value_views(rs@)),
            row.len() == rs.len(),
            j < width(value_views(rs@)),
        ensures
            yields(res, accumulate(product_terms(value_views(row@), value_views(rs@), j as int))),
            res matches Ok(value) ==> cell_by(
                arith,
                datums(row@),
                datums(rs@),
                j as int,
                row.len() as nat,
                value.datum(),
            ),
        decreases row, rs, 0nat,
    {
        let ghost terms = product_terms(value_views(row@), value_views(rs@), j as int);
        let ghost cells = datums(row@);
        let ghost rows = datums(rs@);
        let mut sum = Value::Number(0);
        let mut k: usize = 0;
        assert(terms.take(0) =~= Seq::empty());
        while k < row.len()
            invariant
                k <= row.len(),
                rectangular(value_views(rs@)),
                row.len() == rs.len(),
                j < width(value_views(rs@)),
                terms == product_terms(value_views(row@), value_views(rs@), j as int),
                accumulate(terms.take(k as int)) == Ok::<Outline, RuntimeErrorKind>(sum@),
                cells == datums(row@),
                rows == datums(rs@),
                cell_by(arith, cells, rows, j as int, k as nat, sum.datum()),
            decreases row.len() - k,
        {
            assert(value_views(rs@)[k as int] is Array);
            assert(value_views(rs@)[k as int] == rs[k as int]@);
            let column = rs[k].as_array();
            assert(value_views(column@) == rs[k as int]@->Array_0);
            assert(terms.take(k + 1).drop_last() =~= terms.take(k as int));
            assert(terms[k as int] == product(row[k as int]@, column[j as int]@));
            assert(rows[k as int] == rs[k as int].datum());
            assert(rows[k as int]->Array_0 == datums(column@));
            assert(datums(column@)[j as int] == column[j as int].datum());
            assert(cells[k as int] == row[k as int].datum());
            let ghost before = sum.datum();
            let term = match Value::product(&row[k], &column[j], arith) {
                Ok(term) => term,
                Err(error) => {
                    proof {
                        lemma_accumulate_err(terms, k + 1);
                    }
                    return Err(error);
                },
            };
            sum = match Value::pointwise(Operator::Add, &sum, &term, arith) {
                Ok(sum) => sum,
                Err(error) => {
                    proof {
                        lemma_accumulate_err(terms, k + 1);
                    }
                    return Err(error);
                },
            };
            proof {
                let next: nat = (k + 1) as nat;
                assert((next - 1) as nat == k as nat);
                assert(next <= cells.len() && next <= rows.len());
                assert(rows[next - 1] is Array && 0 <= j < rows[next - 1]->Array_0.len());
                assert(cell_by(arith, cells, rows, j as int, (next - 1) as nat, before)
                    && product_by(
                    arith,
                    cells[next - 1],
                    rows[next - 1]->Array_0[j as int],
                    term.datum(),
                ) && pointwise_by(arith, Operator::Add, before, term.datum(), sum.datum()));
                assert(cell_by(arith, cells, rows, j as int, next, sum.datum()));
            }
            k += 1;
        }
        assert(terms.take(k as int) =~= terms);
        Ok(sum)
    }

    /// The product of two matrices, each given by its rows.
    fn matrix_product<A: DecimalArith>(ls: &Vec<Value>, rs: &Vec<Value>, arith: &A) -> (res:
        Result<Value, Error>)
        ensures
            yields(res, matrix_product(value_views(ls@), value_views(rs@))),
            res matches Ok(value) ==> product_by(
                arith,
                Datum::Array(datums(ls@)),
                Datum::Array(datums(rs@)),
                value.datum(),
            ),
        decreases ls, rs, 1nat,
    {
        if ls.len() == 0 || rs.len() == 0 {
            return Err(Error::RuntimeError(RuntimeErrorKind::EmptyMatrix));
        }
        let (inner, columns) = match (Value::columns(ls), Value::columns(rs)) {
            (Some(inner), Some(columns)) => (inner, columns),
            _ => {
                return Err(Error::RuntimeError(RuntimeErrorKind::NotRectangular));
            },
        };
        if inner == 0 || columns == 0 {
            return Err(Error::RuntimeError(RuntimeErrorKind::EmptyMatrix));
        }
        if inner != rs.len() {
            return Err(Error::RuntimeError(RuntimeErrorKind::ShapeMismatch));
        }
        let ghost lviews = value_views(ls@);
        let ghost rviews = value_views(rs@);
        let ghost rows = product_rows(lviews, rviews);
        assert(matrix_product(lviews, rviews) == array_of(rows));
        let mut out: Vec<Value> = Vec::new();
        let mut i: usize = 0;
        assert(rows.take(0) =~= Seq::empty());
        assert(value_views(out@) =~= Seq::empty());
        while i < ls.len()
            invariant
                i <= ls.len(),
                lviews == value_views(ls@),
                rviews == value_views(rs@),
                rectangular(lviews),
                rectangular(rviews),
                inner == width(lviews),
                columns == width(rviews),
                inner == rs.len(),
                rows == product_rows(lviews, rviews),
                matrix_product(lviews, rviews) == array_of(rows),
                gather(rows.take(i as int)) == Ok::<Seq<Outline>, RuntimeErrorKind>(
                    value_views(out@),
                ),
                out.len() == i,
                forall|a: int|
                    0 <= a < i ==> {
                        let cells = (#[trigger] out[a]).datum();
                        &&& cells is Array
                        &&& forall|b: int|
                            0 <= b < cells->Array_0.len() ==> cell_by(
                                arith,
                                datums(ls@)[a]->Array_0,
                                datums(rs@),
                                b,
                                datums(ls@)[a]->Array_0.len(),
                                #[trigger] cells->Array_0[b],
                            )
                    },
            decreases ls.len() - i,
        {
            assert(lviews[i as int] is Array);
            assert(lviews[i as int] == ls[i as int]@);
            let row = ls[i].as_array();
            assert(value_views(row@) == lviews[i as int]->Array_0);
            assert(datums(ls@)[i as int] == ls[i as int].datum());
            assert(datums(ls@)[i as int]->Array_0 == datums(row@));
            let ghost cells = product_cells(value_views(row@), rviews);
            assert(rows[i as int] == array_of(cells));
            let mut cell_values: Vec<Value> = Vec::new();
            let mut j: usize = 0;
            assert(cells.take(0) =~= Seq::empty());
            assert(value_views(cell_values@) =~= Seq::empty());
            while j < columns
                invariant
                    j <= columns,
                    i < ls.len(),
                    ls[i as int] is Array && ls[i as int]->Array_0 == *row,
                    rviews == value_views(rs@),
                    rectangular(rviews),
                    columns == width(rviews),
                    row.len() == rs.len(),
                    cells == product_cells(value_views(row@), rviews),
                    rows == product_rows(lviews, rviews),
                    matrix_product(value_views(ls@), rviews) == array_of(rows),
                    rows.len() == ls.len(),
                    rows[i as int] == array_of(cells),
                    gather(rows.take(i as int)) is Ok,
                    gather(cells.take(j as int)) == Ok::<Seq<Outline>, RuntimeErrorKind>(
                        value_views(cell_values@),
                    ),
                    cell_values.len() == j,
                    forall|b: int|
                        0 <= b < j ==> cell_by(
                            arith,
                            datums(row@),
                            datums(rs@),
                            b,
                            row.len() as nat,
                            (#[trigger] cell_values[b]).datum(),
                        ),
                decreases columns - j,
            {
                let result = Value::product_cell(row, rs, j, arith);
                assert(cells[j as int] == accumulate(
                    product_terms(value_views(row@), rviews, j as int),
                ));
                match result {
                    Err(error) => {
                        proof {
                            lemma_gather_err(cells, j as int);
                            lemma_gather_err(rows, i as int);
                        }
                        return Err(error);
                    },
                    Ok(cell) => {
                        proof {
                            lemma_gather_push(cells, j as int);
                            assert(value_views(cell_values@.push(cell)) =~= value_views(
                                cell_values@,
                            ).push(cell@));
                        }
                        cell_values.push(cell);
                    },
                }
                j += 1;
            }
            assert(cells.take(j as int) =~= cells);
            let row_value = Value::Array(cell_values);
            proof {
                lemma_gather_push(rows, i as int);
                assert(value_views(out@.push(row_value)) =~= value_views(out@).push(row_value@));
                let made = row_value.datum()->Array_0;
                assert(made == datums(cell_values@));
                assert forall|b: int| 0 <= b < made.len() implies cell_by(
                    arith,
                    datums(ls@)[i as int]->Array_0,
                    datums(rs@),
                    b,
                    datums(ls@)[i as int]->Array_0.len(),
                    #[trigger] made[b],
                ) by {
                    assert(made[b] == cell_values[b].datum());
                }
            }
            out.push(row_value);
            i += 1;
        }
        assert(rows.take(i as int) =~= rows);
        let whole = Value::Array(out);
        proof {
            let made = whole.datum()->Array_0;
            assert(made == datums(out@));
            assert forall|a: int| 0 <= a < ls.len() implies {
                let cells = #[trigger] made[a];
                &&& datums(ls@)[a] is Array
                &&& cells is Array
                &&& forall|b: int|
                    0 <= b < cells->Array_0.len() ==> cell_by(
                        arith,
                        datums(ls@)[a]->Array_0,
                        datums(rs@),
                        b,
                        datums(ls@)[a]->Array_0.len(),
                        #[trigger] cells->Array_0[b],
                    )
            } by {
                assert(made[a] == out[a].datum());
                assert(lviews[a] is Array);
                assert(lviews[a] == ls[a]@);
                assert(datums(ls@)[a] == ls[a].datum());
            }
        }
        Ok(whole)
    }

    /// The product of two values: of two arrays their matrix product.
    pub fn product<A: DecimalArith>(l: &Value, r: &Value, arith: &A) -> (res: Result<Value, Error>)
        ensures
            yields(res, product(l@, r@)),
            res matches Ok(value) ==> product_by(arith, l.datum(), r.datum(), value.datum()),
        decreases l, r, 2nat,
    {
        if let Value::Array(ls) = l {
            if let Value::Array(rs) = r {
                return Value::matrix_product(ls, rs, arith);
            }
        }
        Value::pointwise(Operator::Mul, l, r, arith)
    }

    /// Applies a binary operator to two values.
    pub fn apply<A: DecimalArith>(op: Operator, l: &Value, r: &Value, arith: &A) -> (res: Result<
        Value,
        Error,
    >)
        ensures
            yields(res, applied(op, l@, r@)),
            applies(arith, op, l.datum(), r.datum(), outcome_of(res)),
    {
        proof {
            lemma_view_is_outline(*l);
            lemma_view_is_outline(*r);
        }
        let res = match op {
            Operator::Mul => Value::product(l, r, arith),
            _ => Value::pointwise(op, l, r, arith),
        };
        proof {
            if res is Ok {
                lemma_view_is_outline(res->Ok_0);
            }
        }
        res
    }

    /// The value negated; an array with every element negated. A decimal
    /// changes its sign and nothing else.
    pub fn negation(&self) -> (res: Result<Value, Error>)
        ensures
            yields(res, negated(self@)),
            res matches Ok(value) ==> value.datum() == flipped_all(self.datum()),
        decreases self,
    {
        match self {
            Value::Number(n) => {
                if *n == i64::MIN {
                    Err(Error::RuntimeError(RuntimeErrorKind::Overflow))
                } else {
                    Ok(Value::Number(-*n))
                }
            },
            Value::Decimal(bits) => Ok(Value::Decimal(negate(*bits))),
            Value::Array(items) => {
                let ghost each = negated_each(value_views(items@));
                let mut out: Vec<Value> = Vec::new();
                let mut i: usize = 0;
                assert(each.take(0) =~= Seq::empty());
                assert(value_views(out@) =~= Seq::empty());
                while i < items.len()
                    invariant
                        i <= items.len(),
                        self is Array && self->Array_0 == *items,
                        each == negated_each(value_views(items@)),
                        gather(each.take(i as int)) == Ok::<Seq<Outline>, RuntimeErrorKind>(
                            value_views(out@),
                        ),
                        out.len() == i,
                        forall|k: int| 0 <= k < i ==> out[k].datum() == flipped_all(items[k].datum()),
                    decreases items.len() - i,
                {
                    let result = items[i].negation();
                    assert(each[i as int] == negated(items[i as int]@));
                    match result {
                        Err(error) => {
                            proof {
                                lemma_gather_err(each, i as int);
                            }
                            return Err(error);
                        },
                        Ok(value) => {
                            proof {
                                lemma_gather_push(each, i as int);
                                assert(value_views(out@.push(value)) =~= value_views(out@).push(
                                    value@,
                                ));
                            }
                            out.push(value);
                        },
                    }
                    i += 1;
                }
                assert(each.take(i as int) =~= each);
                assert(datums(out@) =~= flipped_all(self.datum())->Array_0);
                Ok(Value::Array(out))
            },
        }
    }

    /// `self + rhs`.
    pub fn add<A: DecimalArith>(self, rhs: Value, arith: &A) -> (res: Result<Value, Error>)
        ensures
            yields(res, pointwise(Operator::Add, self@, rhs@)),
            applies(arith, Operator::Add, self.datum(), rhs.datum(), outcome_of(res)),
    {
        Value::apply(Operator::Add, &self, &rhs, arith)
    }

    /// `self - rhs`.
    pub fn sub<A: DecimalArith>(self, rhs: Value, arith: &A) -> (res: Result<Value, Error>)
        ensures
            yields(res, pointwise(Operator::Sub, self@, rhs@)),
            applies(arith, Operator::Sub, self.datum(), rhs.datum(), outcome_of(res)),
    {
        Value::apply(Operator::Sub, &self, &rhs, arith)
    }

    /// `self * rhs`: of two arrays the matrix product.
    pub fn mul<A: DecimalArith>(self, rhs: Value, arith: &A) -> (res: Result<Value, Error>)
        ensures
            yields(res, product(self@, rhs@)),
            applies(arith, Operator::Mul, self.datum(), rhs.datum(), outcome_of(res)),
    {
        Value::apply(Operator::Mul, &self, &rhs, arith)
    }

    /// `self / rhs`. Nothing is divided by an array.
    pub fn div<A: DecimalArith>(self, rhs: Value, arith: &A) -> (res: Result<Value, Error>)
        ensures
            yields(res, pointwise(Operator::Div, self@, rhs@)),
            applies(arith, Operator::Div, self.datum(), rhs.datum(), outcome_of(res)),
    {
        Value::apply(Operator::Div, &self, &rhs, arith)
    }

    /// `-self`.
    pub fn neg(self) -> (res: Result<Value, Error>)
        ensures
            yields(res, negated(self@)),
            res matches Ok(value) ==> value.datum() == flipped_all(self.datum()),
    {
        self.negation()
    }

    /// `l` to the power of the integer `n`.
    fn raise<A: DecimalArith>(l: &Value, n: i32, arith: &A) -> (res: Value)
        ensures
            res@ == decimals(l@),
            raised_by(arith, l.datum(), n, res.datum()),
        decreases l,
    {
        match l {
            Value::Array(items) => {
                let mut out: Vec<Value> = Vec::new();
                let mut i: usize = 0;
                while i < items.len()
                    invariant
                        i <= items.len(),
                        l is Array && l->Array_0 == *items,
                        out.len() == i,
                        forall|k: int| 0 <= k < i ==> (#[trigger] out[k])@ == decimals(items[k]@),
                        forall|k: int|
                            0 <= k < i ==> raised_by(
                                arith,
                                items[k].datum(),
                                n,
                                (#[trigger] out[k]).datum(),
                            ),
                    decreases items.len() - i,
                {
                    let raised = Value::raise(&items[i], n, arith);
                    out.push(raised);
                    i += 1;
                }
                let whole = Value::Array(out);
                proof {
                    assert(whole@->Array_0 =~= decimals(l@)->Array_0);
                    let made = whole.datum()->Array_0;
                    let given = l.datum()->Array_0;
                    assert forall|k: int| 0 <= k < given.len() implies raised_by(
                        arith,
                        given[k],
                        n,
                        #[trigger] made[k],
                    ) by {
                        assert(made[k] == out[k].datum());
                        assert(given[k] == items[k].datum());
                    }
                }
                whole
            },
            _ => {
                let a = l.to_decimal(arith);
                Value::Decimal(arith.power_int(a, n))
            },
        }
    }

    /// `self` to the power of an integer: a decimal, or an array of such
    /// powers.
    pub fn powi<A: DecimalArith>(self, rhs: i32, arith: &A) -> (res: Value)
        ensures
            res@ == decimals(self@),
            raised_by(arith, self.datum(), rhs, res.datum()),
    {
        Value::raise(&self, rhs, arith)
    }

    /// `self` to the power of a decimal given by its bits.
    pub fn powf<A: DecimalArith>(self, rhs: u64, arith: &A) -> (res: Result<Value, Error>)
        ensures
            yields(res, pointwise(Operator::Exp, self@, Outline::Decimal)),
            applies(arith, Operator::Exp, self.datum(), Datum::Decimal(rhs), outcome_of(res)),
    {
        Value::apply(Operator::Exp, &self, &Value::Decimal(rhs), arith)
    }

    /// `self` to the power of `right`. No array is an exponent.
    pub fn pow<A: DecimalArith>(self, right: Value, arith: &A) -> (res: Result<Value, Error>)
        ensures
            yields(res, pointwise(Operator::Exp, self@, right@)),
            applies(arith, Operator::Exp, self.datum(), right.datum(), outcome_of(res)),
    {
        Value::apply(Operator::Exp, &self, &right, arith)
    }
}

} // verus!
