//! Small exercises on characters, points, slices, primes and Fibonacci
//! numbers.
use crate::vehicle::{decimal, decimal_string};
use vstd::prelude::*;
use vstd::string::StringExecFns;

verus! {

/// `c` lies in `'a'..'z'`: a lower-case letter other than `z`.
pub open spec fn in_lower_span(c: u8) -> bool {
    97 <= c < 122
}

/// The byte `c` as a character, shifted to upper case where it lies in
/// `'a'..'z'` (the upper bound excluded).
pub fn uppercase(c: u8) -> (r: char)
    ensures
        r as u32 == if in_lower_span(c) {
            c - 32
        } else {
            c as int
        },
{
    if 97 <= c && c < 122 {
        (c - 32) as char
    } else {
        c as char
    }
}

/// The byte `c`, shifted to upper case where it lies in `'a'..'z'` (the
/// upper bound excluded).
pub fn uppercases(c: u8) -> (r: u8)
    ensures
        r == if in_lower_span(c) {
            c - 32
        } else {
            c as int
        },
{
    if 97 <= c && c < 122 {
        c - 32
    } else {
        c
    }
}

/// Whether `c` lies in `'a'..'z'`, `'A'..'Z'` or `'0'..'9'`, each with its
/// upper bound excluded.
pub fn is_alphanumeric(c: char) -> (r: bool)
    ensures
        r == (('a' <= c && c < 'z') || ('A' <= c && c < 'Z') || ('0' <= c && c < '9')),
{
    ('a' <= c && c < 'z') || ('A' <= c && c < 'Z') || ('0' <= c && c < '9')
}

/// A point of the integer plane.
#[derive(Clone, Copy, Debug, PartialEq, Eq, Structural)]
pub struct Point {
    pub x: i32,
    pub y: i32,
}

impl Point {
    pub fn new(x: i32, y: i32) -> (r: Point)
        ensures
            r == (Point { x, y }),
    {
        Point { x, y }
    }

    pub fn origin() -> (r: Point)
        ensures
            r == (Point { x: 0, y: 0 }),
    {
        Point { x: 0, y: 0 }
    }

    /// Moves the point by `(dx, dy)`.
    pub fn translate(&mut self, dx: i32, dy: i32)
        requires
            i32::MIN <= old(self).x + dx <= i32::MAX,
            i32::MIN <= old(self).y + dy <= i32::MAX,
        ensures
            final(self).x == old(self).x + dx,
            final(self).y == old(self).y + dy,
    {
        self.x = self.x + dx;
        self.y = self.y + dy;
    }

    /// The sum of two points, coordinate by coordinate.
    pub fn add(self, point: Point) -> (r: Point)
        requires
            i32::MIN <= self.x + point.x <= i32::MAX,
            i32::MIN <= self.y + point.y <= i32::MAX,
        ensures
            r.x == self.x + point.x,
            r.y == self.y + point.y,
    {
        Point { x: self.x + point.x, y: self.y + point.y }
    }
}

/// Moves `point` one step along the x axis.
pub fn inc_x(point: &mut Point)
    requires
        old(point).x < i32::MAX,
    ensures
        final(point).x == old(point).x + 1,
        final(point).y == old(point).y,
{
    point.x = point.x + 1;
}

/// The larger of `a` and `b`.
pub fn max(a: i32, b: i32) -> (r: i32)
    ensures
        r == if a > b {
            a
        } else {
            b
        },
{
    if a > b {
        a
    } else {
        b
    }
}

/// The first element of a slice that is not empty.
pub fn first<T>(slice: &[T]) -> (r: &T)
    requires
        slice@.len() > 0,
    ensures
        *r == slice@[0],
{
    &slice[0]
}

/// The position of the first element of `slice` equal to `target`.
pub fn index(slice: &[i32], target: &i32) -> (r: Option<usize>)
    ensures
        r matches Some(i) ==> i < slice@.len() && slice@[i as int] == *target && forall|j: int|
            0 <= j < i ==> slice@[j] != *target,
        r is None ==> forall|j: int| 0 <= j < slice@.len() ==> slice@[j] != *target,
{
    let n = slice.len();
    let mut i: usize = 0;
    while i < n
        invariant
            n == slice@.len(),
            i <= n,
            forall|j: int| 0 <= j < i ==> slice@[j] != *target,
        decreases n - i,
    {
        if slice[i] == *target {
            return Some(i);
        }
        i = i + 1;
    }
    None
}

/// The least and the greatest element of `slice`, if it has any.
pub fn min_max(slice: &[i32]) -> (r: Option<(i32, i32)>)
    ensures
        r is None <==> slice@.len() == 0,
        r matches Some((lo, hi)) ==> (exists|i: int| 0 <= i < slice@.len() && slice@[i] == lo)
            && (exists|i: int| 0 <= i < slice@.len() && slice@[i] == hi) && forall|i: int|
            0 <= i < slice@.len() ==> lo <= #[trigger] slice@[i] <= hi,
{
    let n = slice.len();
    if n == 0 {
        return None;
    }
    let mut lo = slice[0];
    let mut hi = slice[0];
    let mut i: usize = 1;
    while i < n
        invariant
            n == slice@.len(),
            1 <= i <= n,
            exists|k: int| 0 <= k < i && slice@[k] == lo,
            exists|k: int| 0 <= k < i && slice@[k] == hi,
            forall|k: int| 0 <= k < i ==> lo <= #[trigger] slice@[k] <= hi,
        decreases n - i,
    {
        let e = slice[i];
        if e < lo {
            lo = e;
        }
        if e > hi {
            hi = e;
        }
        i = i + 1;
    }
    Some((lo, hi))
}

/// `n` is a prime number.
pub open spec fn is_prime(n: int) -> bool {
    n > 1 && forall|a: int| 2 <= a < n ==> #[trigger] (n % a) != 0
}

/// `n` itself where it is prime, else nothing.
pub fn primis(n: i32) -> (r: Option<i32>)
    ensures
        r == if is_prime(n as int) {
            Some(n)
        } else {
            None
        },
{
    if n <= 1 {
        return None;
    }
    let mut a: i32 = 2;
    while a < n
        invariant
            2 <= a <= n,
            forall|b: int| 2 <= b < a ==> #[trigger] (n as int % b) != 0,
        decreases n - a,
    {
        if n % a == 0 {
            return None;
        }
        a = a + 1;
    }
    Some(n)
}

/// The Fibonacci numbers: 0, 1, 1, 2, 3, 5, ...
pub open spec fn fib(n: nat) -> nat
    decreases n,
{
    if n == 0 {
        0
    } else if n == 1 {
        1
    } else {
        fib((n - 1) as nat) + fib((n - 2) as nat)
    }
}

pub proof fn lemma_fib_monotonic(m: nat, n: nat)
    requires
        m <= n,
    ensures
        fib(m) <= fib(n),
    decreases n,
{
    if m < n {
        lemma_fib_monotonic(m, (n - 1) as nat);
    }
}

/// The `i`-th Fibonacci number, where it fits in an `i64`.
pub fn fib_sync(i: i64) -> (r: i64)
    requires
        i >= 0,
        fib(i as nat) <= i64::MAX,
    ensures
        r == fib(i as nat),
    decreases i,
{
    if i == 0 {
        0
    } else if i == 1 {
        1
    } else {
        proof {
            lemma_fib_monotonic((i - 1) as nat, i as nat);
            lemma_fib_monotonic((i - 2) as nat, i as nat);
        }
        fib_sync(i - 1) + fib_sync(i - 2)
    }
}

/// An arithmetic expression of at most one operation.
#[derive(Clone, Copy, Debug, PartialEq, Eq, Structural)]
pub enum Expr {
    Null,
    Add(i32, i32),
    Sub(i32, i32),
    Mul(i32, i32),
    Div { dividend: i32, divisor: i32 },
    Val(i32),
}

/// `n` in decimal, with a minus sign where it is negative.
pub open spec fn int_text(n: int) -> Seq<char> {
    if n < 0 {
        seq!['-'] + decimal((-n) as nat)
    } else {
        decimal(n as nat)
    }
}

/// `n` written in decimal, with a minus sign where it is negative.
pub fn int_string(n: i32) -> (r: String)
    ensures
        r@ == int_text(n as int),
{
    if n < 0 {
        let magnitude = (-(n as i64)) as u32;
        let mut s = String::from_str("-");
        let digits = decimal_string(magnitude);
        s.append(digits.as_str());
        proof {
            reveal_strlit("-");
        }
        s
    } else {
        decimal_string(n as u32)
    }
}

/// The line that names an expression and its operands.
pub open spec fn expr_text(e: Expr) -> Seq<char> {
    match e {
        Expr::Null => "Null"@,
        Expr::Add(x, y) => "Add: "@ + int_text(x as int) + " + "@ + int_text(y as int),
        Expr::Sub(x, y) => "Sub: "@ + int_text(x as int) + " - "@ + int_text(y as int),
        Expr::Mul(x, y) => "Mul: "@ + int_text(x as int) + " * "@ + int_text(y as int),
        Expr::Div { dividend, divisor } => "Div: "@ + int_text(dividend as int) + " / "@ + int_text(
            divisor as int,
        ),
        Expr::Val(x) => "Val: "@ + int_text(x as int),
    }
}

fn binary_text(label: &str, x: i32, op: &str, y: i32) -> (r: String)
    ensures
        r@ == label@ + int_text(x as int) + op@ + int_text(y as int),
{
    let mut s = String::from_str(label);
    let a = int_string(x);
    s.append(a.as_str());
    s.append(op);
    let b = int_string(y);
    s.append(b.as_str());
    s
}

/// The line that names `expr` and its operands, such as `Add: 40 + 2`.
pub fn match_expr(expr: &Expr) -> (r: String)
    ensures
        r@ == expr_text(*expr),
{
    match expr {
        Expr::Null => String::from_str("Null"),
        Expr::Add(x, y) => binary_text("Add: ", *x, " + ", *y),
        Expr::Sub(x, y) => binary_text("Sub: ", *x, " - ", *y),
        Expr::Mul(x, y) => binary_text("Mul: ", *x, " * ", *y),
        Expr::Div { dividend, divisor } => binary_text("Div: ", *dividend, " / ", *divisor),
        Expr::Val(x) => {
            let mut s = String::from_str("Val: ");
            let a = int_string(*x);
            s.append(a.as_str());
            s
        },
    }
}

} // verus!
