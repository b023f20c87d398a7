//! ORACLE's builtin procedures that compute on their arguments alone.
//!
//! Integer arithmetic wraps at the edges of `i64`, as the kernel's does.
//! The procedures that call back into the evaluator (`map`, `filter`,
//! `fold`), print, or read the environment live with the evaluator.

use vstd::prelude::*;

verus! {

use vstd::wrapping::i64_specs::{wrapping_add, wrapping_mul, wrapping_sub};
use crate::num::{quot, rem, divide, remainder};
use crate::text::{chars_of, dec_str, push_dec, push_str, string_of};
use super::value::{Builtin, Datum, Value, data_of, datum_of, lemma_data_of, copy_value, type_text, truthy, display_text};

// ---------------------------------------------------------------------
// Arguments.
// ---------------------------------------------------------------------

/// A result as plain values.
pub open spec fn result_of(r: Result<Value, String>) -> Result<Datum, Seq<char>> {
    match r {
        Ok(v) => Ok(v.view()),
        Err(e) => Err(e@),
    }
}

pub open spec fn int_of(d: Datum) -> Result<i64, Seq<char>> {
    match d {
        Datum::Int(i) => Ok(i as i64),
        _ => Err("expected an int, got "@ + type_text(d)),
    }
}

pub open spec fn list_of(d: Datum) -> Result<Seq<Datum>, Seq<char>> {
    match d {
        Datum::List(items) => Ok(items),
        Datum::Nil => Ok(Seq::empty()),
        _ => Err("expected a list, got "@ + type_text(d)),
    }
}

pub open spec fn str_of(d: Datum) -> Result<Seq<char>, Seq<char>> {
    match d {
        Datum::Str(t) => Ok(t),
        Datum::Symbol(t) => Ok(t),
        _ => Err("expected a string, got "@ + type_text(d)),
    }
}

/// Every argument as an integer, or the complaint about the first that
/// is not one.
pub open spec fn ints_of(args: Seq<Datum>) -> Result<Seq<i64>, Seq<char>>
    decreases args.len(),
{
    if args.len() == 0 {
        Ok(Seq::empty())
    } else {
        match ints_of(args.drop_last()) {
            Err(e) => Err(e),
            Ok(xs) => match int_of(args.last()) {
                Err(e) => Err(e),
                Ok(i) => Ok(xs.push(i)),
            },
        }
    }
}

/// The complaint about a wrong number of arguments.
pub open spec fn arity_error(b: Builtin, count: nat) -> Seq<char> {
    b.name_spec() + " expects "@ + dec_str(count) + " argument(s)"@
}

/// Structural equality: `nil`, booleans, integers, strings, symbols and
/// lists compare by contents; procedures are never equal.
pub open spec fn datum_eq(a: Datum, b: Datum) -> bool
    decreases a,
{
    match a {
        Datum::Nil => b is Nil,
        Datum::Bool(x) => b == Datum::Bool(x),
        Datum::Int(x) => b == Datum::Int(x),
        Datum::Str(x) => b == Datum::Str(x),
        Datum::Symbol(x) => b == Datum::Symbol(x),
        Datum::List(xs) => match b {
            Datum::List(ys) => items_eq(xs, ys),
            _ => false,
        },
        _ => false,
    }
}

pub open spec fn items_eq(xs: Seq<Datum>, ys: Seq<Datum>) -> bool
    decreases xs,
{
    if xs.len() != ys.len() {
        false
    } else if xs.len() == 0 {
        true
    } else {
        items_eq(xs.drop_last(), ys.drop_last()) && datum_eq(xs.last(), ys.last())
    }
}

// ---------------------------------------------------------------------
// Arithmetic over wrapping `i64`.
// ---------------------------------------------------------------------

pub open spec fn sum_of(xs: Seq<i64>) -> i64
    decreases xs.len(),
{
    if xs.len() == 0 { 0 } else { wrapping_add(sum_of(xs.drop_last()), xs.last()) }
}

pub open spec fn product_of(xs: Seq<i64>) -> i64
    decreases xs.len(),
{
    if xs.len() == 0 { 1 } else { wrapping_mul(product_of(xs.drop_last()), xs.last()) }
}

/// `first` minus each of `rest`, left to right.
pub open spec fn difference_of(first: i64, rest: Seq<i64>) -> i64
    decreases rest.len(),
{
    if rest.len() == 0 { first } else { wrapping_sub(difference_of(first, rest.drop_last()), rest.last()) }
}

/// The quotient rounded toward zero; the one that does not fit wraps.
pub open spec fn div64(a: i64, b: i64) -> i64 {
    if a == i64::MIN && b == -1 { i64::MIN } else { quot(a as int, b as int) as i64 }
}

/// `first` divided by each of `rest`, left to right; nothing when one of
/// them is zero.
pub open spec fn quotient_of(first: i64, rest: Seq<i64>) -> Option<i64>
    decreases rest.len(),
{
    if rest.len() == 0 {
        Some(first)
    } else {
        match quotient_of(first, rest.drop_last()) {
            None => None,
            Some(q) => if rest.last() == 0 { None } else { Some(div64(q, rest.last())) },
        }
    }
}

pub open spec fn min_of(xs: Seq<i64>) -> i64
    decreases xs.len(),
{
    if xs.len() <= 1 {
        xs[0]
    } else {
        let m = min_of(xs.drop_last());
        if xs.last() < m { xs.last() } else { m }
    }
}

pub open spec fn max_of(xs: Seq<i64>) -> i64
    decreases xs.len(),
{
    if xs.len() <= 1 {
        xs[0]
    } else {
        let m = max_of(xs.drop_last());
        if xs.last() > m { xs.last() } else { m }
    }
}

pub open spec fn abs64(x: i64) -> i64 {
    if x < 0 { wrapping_sub(0, x) } else { x }
}

/// The arithmetic builtins.
pub open spec fn arith_spec(b: Builtin, args: Seq<Datum>) -> Result<Datum, Seq<char>> {
    match b {
        Builtin::Add => match ints_of(args) {
            Err(e) => Err(e),
            Ok(xs) => Ok(Datum::Int(sum_of(xs) as int)),
        },
        Builtin::Sub => match ints_of(args) {
            Err(e) => Err(e),
            Ok(xs) => if xs.len() == 0 {
                Err("- expects at least one argument"@)
            } else if xs.len() == 1 {
                Ok(Datum::Int(wrapping_sub(0, xs[0]) as int))
            } else {
                Ok(Datum::Int(difference_of(xs[0], xs.skip(1)) as int))
            },
        },
        Builtin::Mul => match ints_of(args) {
            Err(e) => Err(e),
            Ok(xs) => Ok(Datum::Int(product_of(xs) as int)),
        },
        Builtin::Div => match ints_of(args) {
            Err(e) => Err(e),
            Ok(xs) => if xs.len() == 0 {
                Err("/ expects at least one argument"@)
            } else {
                match quotient_of(xs[0], xs.skip(1)) {
                    None => Err("division by zero"@),
                    Some(q) => Ok(Datum::Int(q as int)),
                }
            },
        },
        Builtin::Mod => if args.len() != 2 {
            Err(arity_error(b, 2))
        } else {
            match int_of(args[1]) {
                Err(e) => Err(e),
                Ok(d) => if d == 0 {
                    Err("division by zero"@)
                } else {
                    match int_of(args[0]) {
                        Err(e) => Err(e),
                        Ok(a) => Ok(Datum::Int(rem(a as int, d as int))),
                    }
                },
            }
        },
        Builtin::Min => match ints_of(args) {
            Err(e) => Err(e),
            Ok(xs) => if xs.len() == 0 { Err("min expects at least one argument"@) } else { Ok(Datum::Int(min_of(xs) as int)) },
        },
        Builtin::Max => match ints_of(args) {
            Err(e) => Err(e),
            Ok(xs) => if xs.len() == 0 { Err("max expects at least one argument"@) } else { Ok(Datum::Int(max_of(xs) as int)) },
        },
        _ => if args.len() != 1 {
            Err(arity_error(b, 1))
        } else {
            match int_of(args[0]) {
                Err(e) => Err(e),
                Ok(x) => Ok(Datum::Int(abs64(x) as int)),
            }
        },
    }
}

pub open spec fn is_arith(b: Builtin) -> bool {
    b == Builtin::Add || b == Builtin::Sub || b == Builtin::Mul || b == Builtin::Div || b == Builtin::Mod
        || b == Builtin::Min || b == Builtin::Max || b == Builtin::Abs
}

proof fn lemma_ints_prefix_err(args: Seq<Datum>, k: int, e: Seq<char>)
    requires
        0 <= k <= args.len(),
        ints_of(args.take(k)) == Err::<Seq<i64>, Seq<char>>(e),
    ensures
        ints_of(args) == Err::<Seq<i64>, Seq<char>>(e),
    decreases args.len() - k,
{
    if k < args.len() {
        assert(args.take(k + 1).drop_last() =~= args.take(k));
        lemma_ints_prefix_err(args, k + 1, e);
    } else {
        assert(args.take(k) =~= args);
    }
}

proof fn lemma_quotient_prefix_none(first: i64, rest: Seq<i64>, k: int)
    requires
        0 <= k <= rest.len(),
        quotient_of(first, rest.take(k)) is None,
    ensures
        quotient_of(first, rest) is None,
    decreases rest.len() - k,
{
    if k < rest.len() {
        assert(rest.take(k + 1).drop_last() =~= rest.take(k));
        lemma_quotient_prefix_none(first, rest, k + 1);
    } else {
        assert(rest.take(k) =~= rest);
    }
}

/// Each argument as an integer.
fn ints(args: &[Value]) -> (r: Result<Vec<i64>, String>)
    ensures
        match ints_of(data_of(args@)) {
            Ok(xs) => r matches Ok(v) && v@ == xs,
            Err(e) => r matches Err(m) && m@ == e,
        },
{
    let ghost d = data_of(args@);
    proof {
        lemma_data_of(args@);
        assert(d.take(0) =~= Seq::<Datum>::empty());
    }
    let mut out: Vec<i64> = Vec::new();
    let mut i: usize = 0;
    while i < args.len()
        invariant
            i <= args@.len(),
            d == data_of(args@),
            d.len() == args@.len(),
            forall|j: int| 0 <= j < args@.len() ==> #[trigger] d[j] == datum_of(args@[j]),
            ints_of(d.take(i as int)) == Ok::<Seq<i64>, Seq<char>>(out@),
        decreases args@.len() - i,
    {
        proof {
            assert(d.take(i + 1).drop_last() =~= d.take(i as int));
            assert(d.take(i + 1).last() == args@[i as int].view());
        }
        match args[i].as_int() {
            Ok(x) => {
                out.push(x);
            },
            Err(e) => {
                proof {
                    lemma_ints_prefix_err(d, i + 1, e@);
                }
                return Err(e);
            },
        }
        i += 1;
    }
    proof {
        assert(d.take(args@.len() as int) =~= d);
    }
    Ok(out)
}

fn arity(b: Builtin, count: usize) -> (e: String)
    ensures
        e@ == arity_error(b, count as nat),
{
    let mut out: Vec<char> = Vec::new();
    push_str(&mut out, b.name());
    push_str(&mut out, " expects ");
    push_dec(&mut out, count as u64);
    push_str(&mut out, " argument(s)");
    string_of(out.as_slice())
}

fn message(text: &str) -> (e: String)
    ensures
        e@ == text@,
{
    crate::text::to_string(text)
}

fn wrapping_div(a: i64, b: i64) -> (q: i64)
    requires
        b != 0,
    ensures
        q == div64(a, b),
{
    let q = divide(a, b);
    proof {
        if !(a == i64::MIN && b == -1) {
            assert(-0x8000_0000_0000_0000 <= quot(a as int, b as int) <= 0x7fff_ffff_ffff_ffff);
        }
    }
    q
}

/// The arithmetic builtins.
pub fn arith(b: Builtin, args: &[Value]) -> (r: Result<Value, String>)
    requires
        is_arith(b),
    ensures
        result_of(r) == arith_spec(b, data_of(args@)),
{
    let ghost d = data_of(args@);
    proof {
        lemma_data_of(args@);
    }
    match b {
        Builtin::Add | Builtin::Mul | Builtin::Sub | Builtin::Div | Builtin::Min | Builtin::Max => {
            let xs = match ints(args) {
                Ok(xs) => xs,
                Err(e) => {
                    return Err(e);
                },
            };
            let n = xs.len();
            match b {
                Builtin::Add => {
                    let mut acc: i64 = 0;
                    let mut i: usize = 0;
                    while i < n
                        invariant
                            i <= n == xs@.len(),
                            acc == sum_of(xs@.take(i as int)),
                        decreases n - i,
                    {
                        proof {
                            assert(xs@.take(i + 1).drop_last() =~= xs@.take(i as int));
                        }
                        acc = acc.wrapping_add(xs[i]);
                        i += 1;
                    }
                    proof {
                        assert(xs@.take(n as int) =~= xs@);
                    }
                    Ok(Value::Int(acc))
                },
                Builtin::Mul => {
                    let mut acc: i64 = 1;
                    let mut i: usize = 0;
                    while i < n
                        invariant
                            i <= n == xs@.len(),
                            acc == product_of(xs@.take(i as int)),
                        decreases n - i,
                    {
                        proof {
                            assert(xs@.take(i + 1).drop_last() =~= xs@.take(i as int));
                        }
                        acc = acc.wrapping_mul(xs[i]);
                        i += 1;
                    }
                    proof {
                        assert(xs@.take(n as int) =~= xs@);
                    }
                    Ok(Value::Int(acc))
                },
                Builtin::Sub => {
                    if n == 0 {
                        return Err(message("- expects at least one argument"));
                    }
                    if n == 1 {
                        return Ok(Value::Int(0i64.wrapping_sub(xs[0])));
                    }
                    let ghost rest = xs@.skip(1);
                    let mut acc: i64 = xs[0];
                    let mut i: usize = 1;
                    proof {
                        assert(rest.take(0) =~= Seq::<i64>::empty());
                    }
                    while i < n
                        invariant
                            1 <= i <= n == xs@.len(),
                            rest == xs@.skip(1),
                            acc == difference_of(xs@[0], rest.take(i - 1)),
                        decreases n - i,
                    {
                        proof {
                            assert(rest.take(i as int).drop_last() =~= rest.take(i - 1));
                            assert(rest.take(i as int).last() == xs@[i as int]);
                        }
                        acc = acc.wrapping_sub(xs[i]);
                        i += 1;
                    }
                    proof {
                        assert(rest.take(n - 1) =~= rest);
                    }
                    Ok(Value::Int(acc))
                },
                Builtin::Div => {
                    if n == 0 {
                        return Err(message("/ expects at least one argument"));
                    }
                    let ghost rest = xs@.skip(1);
                    let mut acc: i64 = xs[0];
                    let mut i: usize = 1;
                    proof {
                        assert(rest.take(0) =~= Seq::<i64>::empty());
                    }
                    while i < n
                        invariant
                            1 <= i <= n == xs@.len(),
                            rest == xs@.skip(1),
                            quotient_of(xs@[0], rest.take(i - 1)) == Some(acc),
                            ints_of(data_of(args@)) == Ok::<Seq<i64>, Seq<char>>(xs@),
                            b == Builtin::Div,
                        decreases n - i,
                    {
                        proof {
                            assert(rest.take(i as int).drop_last() =~= rest.take(i - 1));
                            assert(rest.take(i as int).last() == xs@[i as int]);
                        }
                        if xs[i] == 0 {
                            proof {
                                assert(quotient_of(xs@[0], rest.take(i as int)) is None);
                                lemma_quotient_prefix_none(xs@[0], rest, i as int);
                            }
                            return Err(message("division by zero"));
                        }
                        acc = wrapping_div(acc, xs[i]);
                        i += 1;
                    }
                    proof {
                        assert(rest.take(n - 1) =~= rest);
                    }
                    Ok(Value::Int(acc))
                },
                _ => {
                    if n == 0 {
                        if b == Builtin::Min {
                            return Err(message("min expects at least one argument"));
                        } else {
                            return Err(message("max expects at least one argument"));
                        }
                    }
                    let mut acc: i64 = xs[0];
                    let mut i: usize = 1;
                    proof {
                        assert(xs@.take(1).len() == 1);
                    }
                    while i < n
                        invariant
                            1 <= i <= n == xs@.len(),
                            b == Builtin::Min ==> acc == min_of(xs@.take(i as int)),
                            b == Builtin::Max ==> acc == max_of(xs@.take(i as int)),
                            b == Builtin::Min || b == Builtin::Max,
                        decreases n - i,
                    {
                        proof {
                            assert(xs@.take(i + 1).drop_last() =~= xs@.take(i as int));
                            assert(xs@.take(i + 1).last() == xs@[i as int]);
                        }
                        if b == Builtin::Min {
                            if xs[i] < acc {
                                acc = xs[i];
                            }
                        } else {
                            if xs[i] > acc {
                                acc = xs[i];
                            }
                        }
                        i += 1;
                    }
                    proof {
                        assert(xs@.take(n as int) =~= xs@);
                    }
                    Ok(Value::Int(acc))
                },
            }
        },
        Builtin::Mod => {
            if args.len() != 2 {
                return Err(arity(b, 2));
            }
            let divisor = match args[1].as_int() {
                Ok(x) => x,
                Err(e) => {
                    return Err(e);
                },
            };
            if divisor == 0 {
                return Err(message("division by zero"));
            }
            let a = match args[0].as_int() {
                Ok(x) => x,
                Err(e) => {
                    return Err(e);
                },
            };
            let r = remainder(a, divisor);
            Ok(Value::Int(r))
        },
        _ => {
            if args.len() != 1 {
                return Err(arity(b, 1));
            }
            let x = match args[0].as_int() {
                Ok(x) => x,
                Err(e) => {
                    return Err(e);
                },
            };
            Ok(Value::Int(if x < 0 { 0i64.wrapping_sub(x) } else { x }))
        },
    }
}


// ---------------------------------------------------------------------
// Comparison and types.
// ---------------------------------------------------------------------

pub open spec fn is_test(b: Builtin) -> bool {
    b == Builtin::NumEq || b == Builtin::NumNe || b == Builtin::Lt || b == Builtin::Gt || b == Builtin::Le
        || b == Builtin::Ge || b == Builtin::Not || b == Builtin::Type || b == Builtin::IsNil
        || b == Builtin::IsList || b == Builtin::IsInt || b == Builtin::IsStr || b == Builtin::IsFn
}

pub open spec fn test_arity(b: Builtin) -> nat {
    if b == Builtin::NumEq || b == Builtin::NumNe || b == Builtin::Lt || b == Builtin::Gt || b == Builtin::Le || b == Builtin::Ge {
        2
    } else {
        1
    }
}

pub open spec fn order_holds(b: Builtin, x: i64, y: i64) -> bool {
    match b {
        Builtin::Lt => x < y,
        Builtin::Gt => x > y,
        Builtin::Le => x <= y,
        _ => x >= y,
    }
}

/// Comparisons, negation, and questions about types.
pub open spec fn test_spec(b: Builtin, args: Seq<Datum>) -> Result<Datum, Seq<char>> {
    if args.len() != test_arity(b) {
        Err(arity_error(b, test_arity(b)))
    } else {
        match b {
            Builtin::NumEq => Ok(Datum::Bool(datum_eq(args[0], args[1]))),
            Builtin::NumNe => Ok(Datum::Bool(!datum_eq(args[0], args[1]))),
            Builtin::Not => Ok(Datum::Bool(!truthy(args[0]))),
            Builtin::Type => Ok(Datum::Str(type_text(args[0]))),
            Builtin::IsNil => Ok(Datum::Bool(args[0] is Nil)),
            Builtin::IsList => Ok(Datum::Bool(args[0] is List)),
            Builtin::IsInt => Ok(Datum::Bool(args[0] is Int)),
            Builtin::IsStr => Ok(Datum::Bool(args[0] is Str)),
            Builtin::IsFn => Ok(Datum::Bool(args[0] is Lambda || args[0] is Builtin)),
            _ => match int_of(args[0]) {
                Err(e) => Err(e),
                Ok(x) => match int_of(args[1]) {
                    Err(e) => Err(e),
                    Ok(y) => Ok(Datum::Bool(order_holds(b, x, y))),
                },
            },
        }
    }
}

/// Structural equality of two values.
pub fn equal(a: &Value, b: &Value) -> (r: bool)
    ensures
        r == datum_eq(a.view(), b.view()),
    decreases a,
{
    match (a, b) {
        (Value::Nil, Value::Nil) => true,
        (Value::Bool(x), Value::Bool(y)) => *x == *y,
        (Value::Int(x), Value::Int(y)) => *x == *y,
        (Value::Str(x), Value::Str(y)) => crate::fs::same_text(x.as_str(), y.as_str()),
        (Value::Symbol(x), Value::Symbol(y)) => crate::fs::same_text(x.as_str(), y.as_str()),
        (Value::List(xs), Value::List(ys)) => equal_items(xs, ys),
        _ => false,
    }
}

/// Element-wise equality of two lists.
fn equal_items(xs: &Vec<Value>, ys: &Vec<Value>) -> (r: bool)
    ensures
        r == items_eq(data_of(xs@), data_of(ys@)),
    decreases xs,
{
    proof {
        lemma_data_of(xs@);
        lemma_data_of(ys@);
    }
    if xs.len() != ys.len() {
        return false;
    }
    let ghost dx = data_of(xs@);
    let ghost dy = data_of(ys@);
    proof {
        assert(dx.take(0) =~= Seq::<Datum>::empty());
        assert(dy.take(0) =~= Seq::<Datum>::empty());
    }
    let mut i: usize = 0;
    while i < xs.len()
        invariant
            i <= xs@.len() == ys@.len(),
            dx == data_of(xs@),
            dy == data_of(ys@),
            dx.len() == xs@.len() && dy.len() == ys@.len(),
            forall|j: int| 0 <= j < xs@.len() ==> #[trigger] dx[j] == datum_of(xs@[j]),
            forall|j: int| 0 <= j < ys@.len() ==> #[trigger] dy[j] == datum_of(ys@[j]),
            items_eq(dx.take(i as int), dy.take(i as int)),
        decreases xs@.len() - i,
    {
        proof {
            assert(decreases_to!(xs => xs@));
            assert(decreases_to!(xs@ => xs@[i as int]));
            assert(dx.take(i + 1).drop_last() =~= dx.take(i as int));
            assert(dy.take(i + 1).drop_last() =~= dy.take(i as int));
        }
        if !equal(&xs[i], &ys[i]) {
            proof {
                lemma_items_eq_prefix(dx, dy, i + 1);
            }
            return false;
        }
        i += 1;
    }
    proof {
        assert(dx.take(xs@.len() as int) =~= dx);
        assert(dy.take(ys@.len() as int) =~= dy);
    }
    true
}

/// Lists that differ in a prefix of the same length differ.
proof fn lemma_items_eq_prefix(xs: Seq<Datum>, ys: Seq<Datum>, k: int)
    requires
        xs.len() == ys.len(),
        0 <= k <= xs.len(),
        !items_eq(xs.take(k), ys.take(k)),
    ensures
        !items_eq(xs, ys),
    decreases xs.len() - k,
{
    if k < xs.len() {
        assert(xs.take(k + 1).drop_last() =~= xs.take(k));
        assert(ys.take(k + 1).drop_last() =~= ys.take(k));
        lemma_items_eq_prefix(xs, ys, k + 1);
    } else {
        assert(xs.take(k) =~= xs);
        assert(ys.take(k) =~= ys);
    }
}

/// Comparisons, negation, and questions about types.
pub fn test(b: Builtin, args: &[Value]) -> (r: Result<Value, String>)
    requires
        is_test(b),
    ensures
        result_of(r) == test_spec(b, data_of(args@)),
{
    proof {
        lemma_data_of(args@);
    }
    let two = b == Builtin::NumEq || b == Builtin::NumNe || b == Builtin::Lt || b == Builtin::Gt
        || b == Builtin::Le || b == Builtin::Ge;
    let count: usize = if two { 2 } else { 1 };
    if args.len() != count {
        return Err(arity(b, count));
    }
    match b {
        Builtin::NumEq => Ok(Value::Bool(equal(&args[0], &args[1]))),
        Builtin::NumNe => Ok(Value::Bool(!equal(&args[0], &args[1]))),
        Builtin::Not => Ok(Value::Bool(!args[0].is_truthy())),
        Builtin::Type => Ok(Value::string(args[0].kind_name())),
        Builtin::IsNil => Ok(Value::Bool(matches!(args[0], Value::Nil))),
        Builtin::IsList => Ok(Value::Bool(matches!(args[0], Value::List(_)))),
        Builtin::IsInt => Ok(Value::Bool(matches!(args[0], Value::Int(_)))),
        Builtin::IsStr => Ok(Value::Bool(matches!(args[0], Value::Str(_)))),
        Builtin::IsFn => Ok(Value::Bool(matches!(args[0], Value::Lambda(_)) || matches!(args[0], Value::Builtin(_)))),
        _ => {
            let x = match args[0].as_int() {
                Ok(x) => x,
                Err(e) => {
                    return Err(e);
                },
            };
            let y = match args[1].as_int() {
                Ok(y) => y,
                Err(e) => {
                    return Err(e);
                },
            };
            let holds = match b {
                Builtin::Lt => x < y,
                Builtin::Gt => x > y,
                Builtin::Le => x <= y,
                _ => x >= y,
            };
            Ok(Value::Bool(holds))
        },
    }
}

// ---------------------------------------------------------------------
// Lists.
// ---------------------------------------------------------------------

pub open spec fn is_list_op(b: Builtin) -> bool {
    b == Builtin::List || b == Builtin::Car || b == Builtin::Cdr || b == Builtin::Cons || b == Builtin::Append
        || b == Builtin::Length || b == Builtin::Nth || b == Builtin::Reverse || b == Builtin::Range
}

/// The lists of every argument joined, or the complaint about the first
/// argument that is not a list.
pub open spec fn joined_lists(args: Seq<Datum>) -> Result<Seq<Datum>, Seq<char>>
    decreases args.len(),
{
    if args.len() == 0 {
        Ok(Seq::empty())
    } else {
        match joined_lists(args.drop_last()) {
            Err(e) => Err(e),
            Ok(xs) => match list_of(args.last()) {
                Err(e) => Err(e),
                Ok(ys) => Ok(xs + ys),
            },
        }
    }
}

/// The integers from `start` up to, not including, `end`.
pub open spec fn range_items(start: int, end: int) -> Seq<Datum> {
    Seq::new(if end > start { (end - start) as nat } else { 0 }, |k: int| Datum::Int(start + k))
}

pub open spec fn list_spec(b: Builtin, args: Seq<Datum>) -> Result<Datum, Seq<char>> {
    match b {
        Builtin::List => Ok(Datum::List(args)),
        Builtin::Append => match joined_lists(args) {
            Err(e) => Err(e),
            Ok(xs) => Ok(Datum::List(xs)),
        },
        Builtin::Range => {
            let bounds: Result<(int, int), Seq<char>> = if args.len() == 1 {
                match int_of(args[0]) {
                    Err(e) => Err(e),
                    Ok(e) => Ok((0, e as int)),
                }
            } else if args.len() == 2 {
                match int_of(args[0]) {
                    Err(e) => Err(e),
                    Ok(s) => match int_of(args[1]) {
                        Err(e) => Err(e),
                        Ok(e) => Ok((s as int, e as int)),
                    },
                }
            } else {
                Err("range expects one or two arguments"@)
            };
            match bounds {
                Err(e) => Err(e),
                Ok((s, e)) => if e - s > 100000 {
                    Err("range is too large"@)
                } else {
                    Ok(Datum::List(range_items(s, e)))
                },
            }
        },
        Builtin::Cons | Builtin::Nth => if args.len() != 2 {
            Err(arity_error(b, 2))
        } else if b == Builtin::Cons {
            match list_of(args[1]) {
                Err(e) => Err(e),
                Ok(items) => Ok(Datum::List(seq![args[0]] + items)),
            }
        } else {
            match int_of(args[1]) {
                Err(e) => Err(e),
                Ok(index) => match list_of(args[0]) {
                    Err(e) => Err(e),
                    Ok(items) => if index < 0 || index >= items.len() { Ok(Datum::Nil) } else { Ok(items[index as int]) },
                },
            }
        },
        _ => if args.len() != 1 {
            Err(arity_error(b, 1))
        } else if b == Builtin::Length && args[0] is Str {
            Ok(Datum::Int(args[0]->Str_0.len() as i64 as int))
        } else {
            match list_of(args[0]) {
                Err(e) => Err(e),
                Ok(items) => match b {
                    Builtin::Car => Ok(if items.len() == 0 { Datum::Nil } else { items[0] }),
                    Builtin::Cdr => Ok(Datum::List(if items.len() == 0 { items } else { items.skip(1) })),
                    Builtin::Length => Ok(Datum::Int(items.len() as i64 as int)),
                    _ => Ok(Datum::List(items.reverse())),
                },
            }
        },
    }
}

proof fn lemma_joined_prefix_err(args: Seq<Datum>, k: int, e: Seq<char>)
    requires
        0 <= k <= args.len(),
        joined_lists(args.take(k)) == Err::<Seq<Datum>, Seq<char>>(e),
    ensures
        joined_lists(args) == Err::<Seq<Datum>, Seq<char>>(e),
    decreases args.len() - k,
{
    if k < args.len() {
        assert(args.take(k + 1).drop_last() =~= args.take(k));
        lemma_joined_prefix_err(args, k + 1, e);
    } else {
        assert(args.take(k) =~= args);
    }
}

/// Copies of the values, in order.
fn copies(items: &[Value]) -> (r: Vec<Value>)
    ensures
        data_of(r@) == data_of(items@),
{
    let mut out: Vec<Value> = Vec::new();
    extend_copies(&mut out, items);
    proof {
        assert(data_of(Seq::<Value>::empty()) =~= Seq::<Datum>::empty());
        assert(Seq::<Datum>::empty() + data_of(items@) =~= data_of(items@));
    }
    out
}

/// Append copies of `items` to `out`.
fn extend_copies(out: &mut Vec<Value>, items: &[Value])
    ensures
        data_of(final(out)@) == data_of(old(out)@) + data_of(items@),
{
    let ghost start = data_of(out@);
    proof {
        lemma_data_of(items@);
        assert(data_of(items@).take(0) =~= Seq::<Datum>::empty());
    }
    let mut i: usize = 0;
    while i < items.len()
        invariant
            i <= items@.len(),
            data_of(items@).len() == items@.len(),
            forall|j: int| 0 <= j < items@.len() ==> #[trigger] data_of(items@)[j] == datum_of(items@[j]),
            data_of(out@) == start + data_of(items@).take(i as int),
        decreases items@.len() - i,
    {
        let c = copy_value(&items[i]);
        let ghost before = out@;
        out.push(c);
        proof {
            assert(out@.drop_last() =~= before);
            assert(data_of(items@).take(i + 1) =~= data_of(items@).take(i as int).push(datum_of(items@[i as int])));
            assert(data_of(out@) =~= start + data_of(items@).take(i + 1));
        }
        i += 1;
    }
    proof {
        assert(data_of(items@).take(items@.len() as int) =~= data_of(items@));
    }
}

proof fn lemma_data_of_skip(s: Seq<Value>)
    requires
        s.len() > 0,
    ensures
        data_of(s.skip(1)) == data_of(s).skip(1),
{
    lemma_data_of(s);
    lemma_data_of(s.skip(1));
    assert(data_of(s.skip(1)) =~= data_of(s).skip(1));
}

fn op_range(b: Builtin, args: &[Value]) -> (r: Result<Value, String>)
    requires
        b == Builtin::Range,
    ensures
        result_of(r) == list_spec(b, data_of(args@)),
{
    let ghost d = data_of(args@);
    proof {
        lemma_data_of(args@);
    }
        let (start, end): (i64, i64) = if args.len() == 1 {
            match args[0].as_int() {
                Ok(e) => (0, e),
                Err(e) => {
                    return Err(e);
                },
            }
        } else if args.len() == 2 {
            let s = match args[0].as_int() {
                Ok(s) => s,
                Err(e) => {
                    return Err(e);
                },
            };
            let e = match args[1].as_int() {
                Ok(e) => e,
                Err(e) => {
                    return Err(e);
                },
            };
            (s, e)
        } else {
            return Err(message("range expects one or two arguments"));
        };
        if (end as i128) - (start as i128) > 100000 {
            return Err(message("range is too large"));
        }
        let mut out: Vec<Value> = Vec::new();
        let mut k: i64 = start;
        proof {
            assert(data_of(out@) =~= range_items(start as int, start as int));
        }
        while k < end
            invariant
                start <= k,
                k <= end || start >= end,
                start >= end ==> k == start,
                end - start <= 100000,
                data_of(out@) == range_items(start as int, k as int),
            decreases end - k,
        {
            let ghost before = out@;
            out.push(Value::Int(k));
            proof {
                assert(out@.drop_last() =~= before);
                super::value::lemma_data_of_push(before, Value::Int(k));
                assert(data_of(out@) =~= range_items(start as int, k + 1));
            }
            k = k + 1;
        }
        proof {
            if end <= start {
                assert(range_items(start as int, end as int) =~= Seq::<Datum>::empty());
                assert(range_items(start as int, k as int) =~= Seq::<Datum>::empty());
            }
        }
        Ok(Value::List(out))
    
}

fn op_pair(b: Builtin, args: &[Value]) -> (r: Result<Value, String>)
    requires
        b == Builtin::Cons || b == Builtin::Nth,
    ensures
        result_of(r) == list_spec(b, data_of(args@)),
{
    let ghost d = data_of(args@);
    proof {
        lemma_data_of(args@);
    }
        if args.len() != 2 {
            return Err(arity(b, 2));
        }
        if b == Builtin::Cons {
            let items = match args[1].as_list() {
                Ok(items) => items,
                Err(e) => {
                    return Err(e);
                },
            };
            let mut out: Vec<Value> = Vec::new();
            let c = copy_value(&args[0]);
            let ghost empty = out@;
            out.push(c);
            proof {
                super::value::lemma_data_of_push(empty, c);
                assert(data_of(empty) =~= Seq::<Datum>::empty());
                assert(data_of(out@) =~= seq![d[0]]);
            }
            extend_copies(&mut out, items);
            proof {
                lemma_data_of(items@);
                if args@[1].view() is Nil {
                    assert(data_of(items@) =~= Seq::<Datum>::empty());
                }
            }
            Ok(Value::List(out))
        } else {
            let index = match args[1].as_int() {
                Ok(x) => x,
                Err(e) => {
                    return Err(e);
                },
            };
            let items = match args[0].as_list() {
                Ok(items) => items,
                Err(e) => {
                    return Err(e);
                },
            };
            proof {
                lemma_data_of(items@);
            }
            if index < 0 || index as u64 >= items.len() as u64 {
                return Ok(Value::Nil);
            }
            Ok(copy_value(&items[index as usize]))
        }
    
}

fn op_unary(b: Builtin, args: &[Value]) -> (r: Result<Value, String>)
    requires
        b == Builtin::Car || b == Builtin::Cdr || b == Builtin::Length || b == Builtin::Reverse,
    ensures
        result_of(r) == list_spec(b, data_of(args@)),
{
    let ghost d = data_of(args@);
    proof {
        lemma_data_of(args@);
    }
        if args.len() != 1 {
            return Err(arity(b, 1));
        }
        if b == Builtin::Length {
            if let Value::Str(text) = &args[0] {
                let chars = chars_of(text.as_str());
                return Ok(Value::Int(chars.len() as i64));
            }
        }
        let items = match args[0].as_list() {
            Ok(items) => items,
            Err(e) => {
                return Err(e);
            },
        };
        proof {
            lemma_data_of(items@);
            if args@[0].view() is Nil {
                assert(data_of(items@) =~= Seq::<Datum>::empty());
            }
        }
        match b {
            Builtin::Car => {
                if items.len() == 0 {
                    Ok(Value::Nil)
                } else {
                    Ok(copy_value(&items[0]))
                }
            },
            Builtin::Cdr => {
                let mut out: Vec<Value> = Vec::new();
                if items.len() == 0 {
                    proof {
                        assert(data_of(out@) =~= Seq::<Datum>::empty());
                    }
                    return Ok(Value::List(out));
                }
                let mut i: usize = 1;
                proof {
                    assert(data_of(out@) =~= Seq::<Datum>::empty());
                }
                while i < items.len()
                    invariant
                        1 <= i <= items@.len(),
                        data_of(items@).len() == items@.len(),
                        forall|j: int| 0 <= j < items@.len() ==> #[trigger] data_of(items@)[j] == datum_of(items@[j]),
                        data_of(out@) == data_of(items@).subrange(1, i as int),
                    decreases items@.len() - i,
                {
                    let ghost before = out@;
                    out.push(copy_value(&items[i]));
                    proof {
                        assert(out@.drop_last() =~= before);
                        assert(data_of(out@) =~= data_of(items@).subrange(1, i + 1));
                    }
                    i += 1;
                }
                proof {
                    if items@.len() > 0 {
                        assert(data_of(items@).subrange(1, items@.len() as int) =~= data_of(items@).skip(1));
                    }
                }
                Ok(Value::List(out))
            },
            Builtin::Length => Ok(Value::Int(items.len() as i64)),
            _ => {
                let mut out: Vec<Value> = Vec::new();
                let mut i: usize = items.len();
                proof {
                    assert(data_of(out@) =~= Seq::<Datum>::empty());
                    assert(data_of(items@).reverse().take(0) =~= Seq::<Datum>::empty());
                }
                while i > 0
                    invariant
                        i <= items@.len(),
                        data_of(items@).len() == items@.len(),
                        forall|j: int| 0 <= j < items@.len() ==> #[trigger] data_of(items@)[j] == datum_of(items@[j]),
                        data_of(out@) == data_of(items@).reverse().take(items@.len() - i),
                    decreases i,
                {
                    i -= 1;
                    let ghost before = out@;
                    out.push(copy_value(&items[i]));
                    proof {
                        assert(out@.drop_last() =~= before);
                        assert(data_of(out@) =~= data_of(items@).reverse().take(items@.len() - i));
                    }
                }
                proof {
                    assert(data_of(items@).reverse().take(items@.len() as int) =~= data_of(items@).reverse());
                }
                Ok(Value::List(out))
            },
        }

}

/// Building, taking apart and measuring lists.
pub fn list_op(b: Builtin, args: &[Value]) -> (r: Result<Value, String>)
    requires
        is_list_op(b),
    ensures
        result_of(r) == list_spec(b, data_of(args@)),
{
    let ghost d = data_of(args@);
    proof {
        lemma_data_of(args@);
    }
    match b {
        Builtin::List => Ok(Value::List(copies(args))),
        Builtin::Append => {
            let mut out: Vec<Value> = Vec::new();
            let mut i: usize = 0;
            proof {
                assert(d.take(0) =~= Seq::<Datum>::empty());
                assert(data_of(out@) =~= Seq::<Datum>::empty());
            }
            while i < args.len()
                invariant
                    i <= args@.len(),
                    d == data_of(args@),
                    d.len() == args@.len(),
                    forall|j: int| 0 <= j < args@.len() ==> #[trigger] d[j] == datum_of(args@[j]),
                    joined_lists(d.take(i as int)) == Ok::<Seq<Datum>, Seq<char>>(data_of(out@)),
                    b == Builtin::Append,
                decreases args@.len() - i,
            {
                proof {
                    assert(d.take(i + 1).drop_last() =~= d.take(i as int));
                    assert(d.take(i + 1).last() == args@[i as int].view());
                }
                match args[i].as_list() {
                    Ok(items) => {
                        extend_copies(&mut out, items);
                        proof {
                            if args@[i as int].view() is Nil {
                                assert(data_of(items@) =~= Seq::<Datum>::empty());
                            }
                        }
                    },
                    Err(e) => {
                        proof {
                            lemma_joined_prefix_err(d, i + 1, e@);
                        }
                        return Err(e);
                    },
                }
                i += 1;
            }
            proof {
                assert(d.take(args@.len() as int) =~= d);
            }
            Ok(Value::List(out))
        },
        Builtin::Range => op_range(b, args),
        Builtin::Cons | Builtin::Nth => op_pair(b, args),
        _ => op_unary(b, args),
    }
}


// ---------------------------------------------------------------------
// Strings.
// ---------------------------------------------------------------------

/// What `str::to_uppercase` gives for these characters.
pub uninterp spec fn upper_text(s: Seq<char>) -> Seq<char>;

/// What `str::to_lowercase` gives for these characters.
pub uninterp spec fn lower_text(s: Seq<char>) -> Seq<char>;

/// `str::to_uppercase`: the string with every character mapped to its
/// uppercase form under Unicode's rules. Its result is named, not stated.
#[verifier::external_body]
fn to_upper(s: &str) -> (r: String)
    ensures
        r@ == upper_text(s@),
{
    s.to_uppercase()
}

/// `str::to_lowercase`: the string with every character mapped to its
/// lowercase form under Unicode's rules. Its result is named, not stated.
#[verifier::external_body]
pub(crate) fn to_lower(s: &str) -> (r: String)
    ensures
        r@ == lower_text(s@),
{
    s.to_lowercase()
}

/// `char::from_u32`: the character with this code point, or nothing for a
/// surrogate or a code past U+10FFFF.
#[verifier::external_body]
fn char_from(code: u32) -> (r: Option<char>)
    ensures
        r is Some <==> (code < 0xD800 || (0xE000 <= code && code <= 0x10FFFF)),
        r matches Some(c) ==> c as u32 == code,
{
    char::from_u32(code)
}

pub open spec fn is_string_op(b: Builtin) -> bool {
    b == Builtin::Str || b == Builtin::StrLen || b == Builtin::Substr || b == Builtin::Upper
        || b == Builtin::Lower || b == Builtin::Split || b == Builtin::Chr || b == Builtin::Ord
}

/// Every argument as `display` shows it, run together.
pub open spec fn shown_together(args: Seq<Datum>) -> Seq<char>
    decreases args.len(),
{
    if args.len() == 0 { Seq::empty() } else { shown_together(args.drop_last()) + display_text(args.last()) }
}

/// Where `sep` next occurs in `t` at or after `i`.
pub open spec fn find_from(t: Seq<char>, sep: Seq<char>, i: int) -> Option<int>
    decreases t.len() - i,
{
    if i < 0 || i >= t.len() || i + sep.len() > t.len() {
        None
    } else if t.subrange(i, i + sep.len()) == sep {
        Some(i)
    } else {
        find_from(t, sep, i + 1)
    }
}

pub proof fn lemma_find_bounds(t: Seq<char>, sep: Seq<char>, i: int)
    ensures
        find_from(t, sep, i) matches Some(m) ==> i <= m && m + sep.len() <= t.len(),
    decreases t.len() - i,
{
    if !(i < 0 || i >= t.len() || i + sep.len() > t.len()) && t.subrange(i, i + sep.len()) != sep {
        lemma_find_bounds(t, sep, i + 1);
    }
}

/// The pieces of `t[start..]` between occurrences of `sep`, found left
/// to right without overlap, as `str::split` gives them.
pub open spec fn split_from(t: Seq<char>, sep: Seq<char>, start: int) -> Seq<Seq<char>>
    decreases t.len() - start,
{
    if sep.len() == 0 || start < 0 || start > t.len() {
        Seq::empty()
    } else {
        match find_from(t, sep, start) {
            None => seq![t.subrange(start, t.len() as int)],
            Some(m) => {
                proof {
                    lemma_find_bounds(t, sep, start);
                }
                seq![t.subrange(start, m)] + split_from(t, sep, m + sep.len())
            },
        }
    }
}

/// The character with code `code` cut to 32 bits, or `?` where there is
/// none.
pub open spec fn chr_text(code: i64) -> Seq<char> {
    let u = code as u32;
    if u < 0xD800 || (0xE000 <= u && u <= 0x10FFFF) { seq![u as char] } else { seq!['?'] }
}

pub open spec fn string_arity(b: Builtin) -> nat {
    if b == Builtin::Substr { 3 } else if b == Builtin::Split { 2 } else { 1 }
}

pub open spec fn max0(x: int) -> int {
    if x < 0 { 0 } else { x }
}

pub open spec fn min_int(a: int, b: int) -> int {
    if a < b { a } else { b }
}

pub open spec fn string_spec(b: Builtin, args: Seq<Datum>) -> Result<Datum, Seq<char>> {
    if b == Builtin::Str {
        Ok(Datum::Str(shown_together(args)))
    } else if args.len() != string_arity(b) {
        Err(arity_error(b, string_arity(b)))
    } else if b == Builtin::Chr {
        match int_of(args[0]) {
            Err(e) => Err(e),
            Ok(code) => Ok(Datum::Str(chr_text(code))),
        }
    } else {
        match str_of(args[0]) {
            Err(e) => Err(e),
            Ok(t) => match b {
                Builtin::StrLen => Ok(Datum::Int(t.len() as i64 as int)),
                Builtin::Upper => Ok(Datum::Str(upper_text(t))),
                Builtin::Lower => Ok(Datum::Str(lower_text(t))),
                Builtin::Ord => Ok(Datum::Int(if t.len() > 0 { t[0] as u32 as int } else { 0 })),
                Builtin::Substr => match int_of(args[1]) {
                    Err(e) => Err(e),
                    Ok(start) => match int_of(args[2]) {
                        Err(e) => Err(e),
                        Ok(count) => {
                            let from = min_int(max0(start as int), t.len() as int);
                            let to = min_int(max0(start as int) + max0(count as int), t.len() as int);
                            Ok(Datum::Str(t.subrange(from, to)))
                        },
                    },
                },
                _ => match str_of(args[1]) {
                    Err(e) => Err(e),
                    Ok(sep) => if sep.len() == 0 {
                        Err("split needs a non-empty separator"@)
                    } else {
                        Ok(Datum::List(split_from(t, sep, 0).map_values(|p: Seq<char>| Datum::Str(p))))
                    },
                },
            },
        }
    }
}

/// Does `sep` occur in `t` at `i`?
fn occurs_at(t: &[char], sep: &[char], i: usize) -> (r: bool)
    requires
        i + sep@.len() <= t@.len(),
    ensures
        r == (t@.subrange(i as int, i + sep@.len()) == sep@),
{
    let mut k: usize = 0;
    while k < sep.len()
        invariant
            k <= sep@.len(),
            i + sep@.len() <= t@.len(),
            forall|j: int| 0 <= j < k ==> t@[i + j] == sep@[j],
        decreases sep@.len() - k,
    {
        let tn = t.len();
        proof {
            assert(i + k < tn);
        }
        if t[i + k] != sep[k] {
            proof {
                assert(t@.subrange(i as int, i + sep@.len())[k as int] != sep@[k as int]);
            }
            return false;
        }
        k += 1;
    }
    proof {
        assert(t@.subrange(i as int, i + sep@.len()) =~= sep@);
    }
    true
}

fn copy_range(t: &[char], from: usize, to: usize) -> (r: String)
    requires
        from <= to <= t@.len(),
    ensures
        r@ == t@.subrange(from as int, to as int),
{
    let mut out: Vec<char> = Vec::new();
    let mut i: usize = from;
    while i < to
        invariant
            from <= i <= to <= t@.len(),
            out@ == t@.subrange(from as int, i as int),
        decreases to - i,
    {
        out.push(t[i]);
        i += 1;
        proof {
            assert(out@ =~= t@.subrange(from as int, i as int));
        }
    }
    string_of(out.as_slice())
}

/// The pieces of `t` between occurrences of `sep`.
fn split_text(t: &[char], sep: &[char]) -> (r: Vec<Value>)
    requires
        sep@.len() > 0,
    ensures
        data_of(r@) == split_from(t@, sep@, 0).map_values(|p: Seq<char>| Datum::Str(p)),
{
    let n = t.len();
    let m = sep.len();
    let mut out: Vec<Value> = Vec::new();
    let mut start: usize = 0;
    let mut i: usize = 0;
    let ghost whole = split_from(t@, sep@, 0);
    proof {
        assert(data_of(out@) =~= Seq::<Datum>::empty());
        assert(Seq::<Seq<char>>::empty() + split_from(t@, sep@, 0) =~= whole);
    }
    let ghost mut done: Seq<Seq<char>> = Seq::empty();
    while m <= n - i
        invariant
            m == sep@.len() > 0,
            n == t@.len(),
            start <= i,
            i <= n,
            start <= n,
            find_from(t@, sep@, start as int) == find_from(t@, sep@, i as int),
            data_of(out@) == done.map_values(|p: Seq<char>| Datum::Str(p)),
            done + split_from(t@, sep@, start as int) == whole,
            whole == split_from(t@, sep@, 0),
        decreases n - i,
    {
        if occurs_at(t, sep, i) {
            proof {
                lemma_find_bounds(t@, sep@, start as int);
            }
            let piece = copy_range(t, start, i);
            let ghost before = out@;
            let v = Value::Str(piece);
            out.push(v);
            proof {
                super::value::lemma_data_of_push(before, v);
                assert(split_from(t@, sep@, start as int) == seq![t@.subrange(start as int, i as int)] + split_from(t@, sep@, i + m));
                assert(done.push(t@.subrange(start as int, i as int)).map_values(|p: Seq<char>| Datum::Str(p))
                    =~= done.map_values(|p: Seq<char>| Datum::Str(p)).push(Datum::Str(t@.subrange(start as int, i as int))));
                assert(done.push(t@.subrange(start as int, i as int)) + split_from(t@, sep@, i + m)
                    =~= done + (seq![t@.subrange(start as int, i as int)] + split_from(t@, sep@, i + m)));
                done = done.push(t@.subrange(start as int, i as int));
            }
            start = i + m;
            i = i + m;
        } else {
            i += 1;
        }
    }
    proof {
        assert(find_from(t@, sep@, i as int) is None);
        assert(split_from(t@, sep@, start as int) == seq![t@.subrange(start as int, n as int)]);
    }
    let piece = copy_range(t, start, n);
    let ghost before = out@;
    let v = Value::Str(piece);
    out.push(v);
    proof {
        super::value::lemma_data_of_push(before, v);
        assert(done.push(t@.subrange(start as int, n as int)).map_values(|p: Seq<char>| Datum::Str(p))
            =~= done.map_values(|p: Seq<char>| Datum::Str(p)).push(Datum::Str(t@.subrange(start as int, n as int))));
        assert(done.push(t@.subrange(start as int, n as int)) =~= done + seq![t@.subrange(start as int, n as int)]);
    }
    out
}

/// Building and taking apart strings.
pub fn string_op(b: Builtin, args: &[Value]) -> (r: Result<Value, String>)
    requires
        is_string_op(b),
    ensures
        result_of(r) == string_spec(b, data_of(args@)),
{
    let ghost d = data_of(args@);
    proof {
        lemma_data_of(args@);
    }
    if b == Builtin::Str {
        let mut out: Vec<char> = Vec::new();
        let mut i: usize = 0;
        proof {
            assert(d.take(0) =~= Seq::<Datum>::empty());
        }
        while i < args.len()
            invariant
                i <= args@.len(),
                d == data_of(args@),
                d.len() == args@.len(),
                forall|j: int| 0 <= j < args@.len() ==> #[trigger] d[j] == datum_of(args@[j]),
                out@ == shown_together(d.take(i as int)),
            decreases args@.len() - i,
        {
            let shown = args[i].display();
            let text = chars_of(shown.as_str());
            let ghost before = out@;
            let mut k: usize = 0;
            while k < text.len()
                invariant
                    k <= text@.len(),
                    out@ == before + text@.take(k as int),
                decreases text@.len() - k,
            {
                out.push(text[k]);
                k += 1;
                proof {
                    assert(out@ =~= before + text@.take(k as int));
                }
            }
            proof {
                assert(text@.take(text@.len() as int) =~= text@);
                assert(d.take(i + 1).drop_last() =~= d.take(i as int));
                assert(d.take(i + 1).last() == d[i as int]);
            }
            i += 1;
        }
        proof {
            assert(d.take(args@.len() as int) =~= d);
        }
        return Ok(Value::Str(string_of(out.as_slice())));
    }
    let count: usize = if b == Builtin::Substr { 3 } else if b == Builtin::Split { 2 } else { 1 };
    if args.len() != count {
        return Err(arity(b, count));
    }
    if b == Builtin::Chr {
        let code = match args[0].as_int() {
            Ok(x) => x,
            Err(e) => {
                return Err(e);
            },
        };
        let u = code as u32;
        let c = match char_from(u) {
            Some(c) => c,
            None => '?',
        };
        proof {
            if u < 0xD800 || (0xE000 <= u && u <= 0x10FFFF) {
                vstd::utf8::char_u32_cast(c, u);
            }
        }
        let mut out: Vec<char> = Vec::new();
        out.push(c);
        proof {
            assert(out@ =~= chr_text(code));
        }
        return Ok(Value::Str(string_of(out.as_slice())));
    }
    let text: &str = match args[0].as_str() {
        Ok(t) => t,
        Err(e) => {
            return Err(e);
        },
    };
    match b {
        Builtin::StrLen => {
            let chars = chars_of(text);
            Ok(Value::Int(chars.len() as i64))
        },
        Builtin::Upper => Ok(Value::Str(to_upper(text))),
        Builtin::Lower => Ok(Value::Str(to_lower(text))),
        Builtin::Ord => {
            let chars = chars_of(text);
            if chars.len() > 0 {
                Ok(Value::Int(chars[0] as u32 as i64))
            } else {
                Ok(Value::Int(0))
            }
        },
        Builtin::Substr => {
            let start = match args[1].as_int() {
                Ok(x) => x,
                Err(e) => {
                    return Err(e);
                },
            };
            let count = match args[2].as_int() {
                Ok(x) => x,
                Err(e) => {
                    return Err(e);
                },
            };
            let chars = chars_of(text);
            let n = chars.len();
            let s0: u64 = if start < 0 { 0 } else { start as u64 };
            let c0: u64 = if count < 0 { 0 } else { count as u64 };
            let from: usize = if s0 >= n as u64 { n } else { s0 as usize };
            let to: usize = if s0 + c0 >= n as u64 { n } else { (s0 + c0) as usize };
            Ok(Value::Str(copy_range(chars.as_slice(), from, to)))
        },
        _ => {
            let separator: &str = match args[1].as_str() {
                Ok(t) => t,
                Err(e) => {
                    return Err(e);
                },
            };
            let sep = chars_of(separator);
            if sep.len() == 0 {
                return Err(message("split needs a non-empty separator"));
            }
            let chars = chars_of(text);
            Ok(Value::List(split_text(chars.as_slice(), sep.as_slice())))
        },
    }
}

/// Every builtin that computes on its arguments alone: all but `map`,
/// `filter`, `fold`, `print` and `env`.
pub open spec fn is_pure(b: Builtin) -> bool {
    is_arith(b) || is_test(b) || is_list_op(b) || is_string_op(b)
}

pub open spec fn pure_spec(b: Builtin, args: Seq<Datum>) -> Result<Datum, Seq<char>> {
    if is_arith(b) {
        arith_spec(b, args)
    } else if is_test(b) {
        test_spec(b, args)
    } else if is_list_op(b) {
        list_spec(b, args)
    } else {
        string_spec(b, args)
    }
}

/// Apply a builtin that computes on its arguments alone.
pub fn apply_pure(b: Builtin, args: &[Value]) -> (r: Result<Value, String>)
    requires
        is_pure(b),
    ensures
        result_of(r) == pure_spec(b, data_of(args@)),
{
    match b {
        Builtin::Add | Builtin::Sub | Builtin::Mul | Builtin::Div | Builtin::Mod | Builtin::Min
        | Builtin::Max | Builtin::Abs => arith(b, args),
        Builtin::NumEq | Builtin::NumNe | Builtin::Lt | Builtin::Gt | Builtin::Le | Builtin::Ge
        | Builtin::Not | Builtin::Type | Builtin::IsNil | Builtin::IsList | Builtin::IsInt
        | Builtin::IsStr | Builtin::IsFn => test(b, args),
        Builtin::List | Builtin::Car | Builtin::Cdr | Builtin::Cons | Builtin::Append | Builtin::Length
        | Builtin::Nth | Builtin::Reverse | Builtin::Range => list_op(b, args),
        _ => string_op(b, args),
    }
}

/// Every builtin, with a one-line description for the language reference.
pub open spec fn catalogue() -> Seq<(Seq<char>, Seq<char>)> {
    seq![
        ("+ - * / mod"@, "integer arithmetic"@),
        ("= /= < > <= >="@, "comparison"@),
        ("not"@, "logical negation"@),
        ("list"@, "build a list"@),
        ("car cdr"@, "first element / everything after it"@),
        ("cons"@, "prepend an element to a list"@),
        ("append"@, "join lists"@),
        ("length"@, "number of elements"@),
        ("nth"@, "element by index"@),
        ("reverse"@, "reverse a list"@),
        ("map"@, "apply a function to each element"@),
        ("filter"@, "keep the elements a predicate accepts"@),
        ("fold"@, "reduce a list with an accumulator"@),
        ("range"@, "(range n) or (range from to)"@),
        ("str"@, "concatenate anything into a string"@),
        ("str-len"@, "length of a string"@),
        ("substr"@, "(substr s start len)"@),
        ("upper lower"@, "change case"@),
        ("split"@, "split a string on a separator"@),
        ("chr ord"@, "character and code point"@),
        ("print"@, "write a line to the terminal"@),
        ("type"@, "name the type of a value"@),
        ("nil? list? int? str? fn?"@, "type predicates"@),
        ("uptime ticks"@, "milliseconds and timer ticks since boot"@),
        ("time"@, "wall clock from the CMOS RTC"@),
        ("mem"@, "memory statistics as a list"@),
        ("cpu"@, "CPU brand string"@),
        ("threads"@, "list of running threads"@),
        ("pci"@, "enumerate the PCI bus"@),
        ("beep"@, "(beep frequency milliseconds)"@),
        ("peek poke"@, "read and write physical memory"@),
        ("ls cat write-file rm"@, "the in-memory filesystem"@),
        ("env"@, "every name currently bound"@),
    ]
}

/// Entry `i` of the catalogue.
pub fn catalogue_entry(i: usize) -> (r: (&'static str, &'static str))
    requires
        i < 33,
    ensures
        (r.0@, r.1@) == catalogue()[i as int],
{
    match i {
        0 => ("+ - * / mod", "integer arithmetic"),
        1 => ("= /= < > <= >=", "comparison"),
        2 => ("not", "logical negation"),
        3 => ("list", "build a list"),
        4 => ("car cdr", "first element / everything after it"),
        5 => ("cons", "prepend an element to a list"),
        6 => ("append", "join lists"),
        7 => ("length", "number of elements"),
        8 => ("nth", "element by index"),
        9 => ("reverse", "reverse a list"),
        10 => ("map", "apply a function to each element"),
        11 => ("filter", "keep the elements a predicate accepts"),
        12 => ("fold", "reduce a list with an accumulator"),
        13 => ("range", "(range n) or (range from to)"),
        14 => ("str", "concatenate anything into a string"),
        15 => ("str-len", "length of a string"),
        16 => ("substr", "(substr s start len)"),
        17 => ("upper lower", "change case"),
        18 => ("split", "split a string on a separator"),
        19 => ("chr ord", "character and code point"),
        20 => ("print", "write a line to the terminal"),
        21 => ("type", "name the type of a value"),
        22 => ("nil? list? int? str? fn?", "type predicates"),
        23 => ("uptime ticks", "milliseconds and timer ticks since boot"),
        24 => ("time", "wall clock from the CMOS RTC"),
        25 => ("mem", "memory statistics as a list"),
        26 => ("cpu", "CPU brand string"),
        27 => ("threads", "list of running threads"),
        28 => ("pci", "enumerate the PCI bus"),
        29 => ("beep", "(beep frequency milliseconds)"),
        30 => ("peek poke", "read and write physical memory"),
        31 => ("ls cat write-file rm", "the in-memory filesystem"),
        _ => ("env", "every name currently bound"),
    }
}

} // verus!
