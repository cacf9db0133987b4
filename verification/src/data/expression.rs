//! The expression tree and its structural equality.
use vstd::prelude::*;
use std::rc::Rc;
use crate::data::number::{Number, NumberView};

verus! {

/// A shared, immutable expression.
pub type Expr = Rc<Expression>;

/// A node of the expression tree.
#[derive(Debug)]
pub enum Expression {
    Nil,
    Boolean(bool),
    Number(Number),
    Character(char),
    String(String),
    Symbol(String),
    Pair(Expr, Expr),
    Vector(Vec<Expr>),
    ByteVector(Vec<u8>),
}

/// The mathematical content of an expression.
pub enum Datum {
    Nil,
    Boolean(bool),
    Number(NumberView),
    Character(char),
    String(Seq<char>),
    Symbol(Seq<char>),
    Pair(Box<Datum>, Box<Datum>),
    Vector(Seq<Datum>),
    ByteVector(Seq<u8>),
}

impl Datum {
    /// What every expression of this library satisfies: its numbers are in
    /// normal form.
    pub open spec fn wf(self) -> bool
        decreases self,
    {
        match self {
            Datum::Number(n) => n.wf(),
            Datum::Pair(car, cdr) => car.wf() && cdr.wf(),
            Datum::Vector(items) => forall|i: int|
                0 <= i < items.len() ==> (#[trigger] items[i]).wf(),
            _ => true,
        }
    }

    /// Structural equality: deep, and by value. Numbers are equal where
    /// they are numerically equal, whatever their kinds; pairs and vectors
    /// where their parts are; all else where variant and content agree.
    pub open spec fn equals(self, other: Datum) -> bool
        decreases self,
    {
        match (self, other) {
            (Datum::Nil, Datum::Nil) => true,
            (Datum::Boolean(a), Datum::Boolean(b)) => a == b,
            (Datum::Number(a), Datum::Number(b)) => a.equals(b),
            (Datum::Character(a), Datum::Character(b)) => a == b,
            (Datum::String(a), Datum::String(b)) => a == b,
            (Datum::Symbol(a), Datum::Symbol(b)) => a == b,
            (Datum::Pair(a, d), Datum::Pair(b, e)) => a.equals(*b) && d.equals(*e),
            (Datum::Vector(a), Datum::Vector(b)) => {
                &&& a.len() == b.len()
                &&& forall|i: int| 0 <= i < a.len() ==> (#[trigger] a[i]).equals(b[i])
            },
            (Datum::ByteVector(a), Datum::ByteVector(b)) => a == b,
            _ => false,
        }
    }

    /// The proper list of the given items: a chain of pairs that ends in
    /// `Nil`.
    pub open spec fn list(items: Seq<Datum>) -> Datum
        decreases items.len(),
    {
        if items.len() == 0 {
            Datum::Nil
        } else {
            Datum::Pair(Box::new(items[0]), Box::new(Datum::list(items.skip(1))))
        }
    }
}

/// No number of the expression is a not-a-number value or has one as a
/// part.
pub open spec fn without_not_a_number(d: Datum) -> bool
    decreases d,
{
    match d {
        Datum::Number(n) => !(n.real_part() is NotANumber) && !(n.imaginary_part() is NotANumber),
        Datum::Pair(car, cdr) => without_not_a_number(*car) && without_not_a_number(*cdr),
        Datum::Vector(items) => forall|i: int|
            0 <= i < items.len() ==> without_not_a_number(#[trigger] items[i]),
        _ => true,
    }
}

/// An expression without a not-a-number value equals itself.
pub proof fn lemma_equality_reflexive(d: Datum)
    requires
        without_not_a_number(d),
    ensures
        d.equals(d),
    decreases d,
{
    match d {
        Datum::Pair(car, cdr) => {
            lemma_equality_reflexive(*car);
            lemma_equality_reflexive(*cdr);
        },
        Datum::Vector(items) => {
            assert forall|i: int| 0 <= i < items.len() implies (#[trigger] items[i]).equals(
                items[i],
            ) by {
                lemma_equality_reflexive(items[i]);
            }
        },
        _ => {},
    }
}

/// Structural equality is symmetric.
pub proof fn lemma_equality_symmetric(a: Datum, b: Datum)
    ensures
        a.equals(b) == b.equals(a),
    decreases a,
{
    match (a, b) {
        (Datum::Pair(x, y), Datum::Pair(u, v)) => {
            lemma_equality_symmetric(*x, *u);
            lemma_equality_symmetric(*y, *v);
        },
        (Datum::Vector(p), Datum::Vector(q)) => {
            if p.len() == q.len() {
                assert forall|i: int| 0 <= i < p.len() implies (#[trigger] p[i]).equals(q[i])
                    == q[i].equals(p[i]) by {
                    lemma_equality_symmetric(p[i], q[i]);
                }
                if a.equals(b) {
                    assert forall|i: int| 0 <= i < q.len() implies (#[trigger] q[i]).equals(
                        p[i],
                    ) by {
                        assert(p[i].equals(q[i]));
                    }
                }
                if b.equals(a) {
                    assert forall|i: int| 0 <= i < p.len() implies (#[trigger] p[i]).equals(
                        q[i],
                    ) by {
                        assert(q[i].equals(p[i]));
                    }
                }
            }
        },
        _ => {},
    }
}

/// The contents of a vector of expressions.
pub open spec fn data_of(items: Seq<Expr>) -> Seq<Datum> {
    Seq::new(items.len(), |i: int| items[i].datum())
}

impl Expression {
    /// The mathematical content of the expression.
    pub open spec fn datum(&self) -> Datum
        decreases self,
    {
        match self {
            Expression::Nil => Datum::Nil,
            Expression::Boolean(b) => Datum::Boolean(*b),
            Expression::Number(n) => Datum::Number(n@),
            Expression::Character(c) => Datum::Character(*c),
            Expression::String(s) => Datum::String(s@),
            Expression::Symbol(s) => Datum::Symbol(s@),
            Expression::Pair(car, cdr) => Datum::Pair(
                Box::new(car.datum()),
                Box::new(cdr.datum()),
            ),
            Expression::Vector(items) => Datum::Vector(
                Seq::new(
                    items@.len(),
                    |i: int|
                        if 0 <= i < items@.len() {
                            items@[i].datum()
                        } else {
                            Datum::Nil
                        },
                ),
            ),
            Expression::ByteVector(bytes) => Datum::ByteVector(bytes@),
        }
    }

    /// The content of a vector is that of its items.
    pub proof fn lemma_vector_datum(items: Vec<Expr>)
        ensures
            Expression::Vector(items).datum() == Datum::Vector(data_of(items@)),
    {
        assert(Expression::Vector(items).datum()->Vector_0 =~= data_of(items@));
    }

    /// Structural equality, deep and by value.
    pub fn equals(&self, other: &Expression) -> (r: bool)
        ensures
            r == self@.equals(other@),
        decreases self,
    {
        match (self, other) {
            (Expression::Nil, Expression::Nil) => true,
            (Expression::Boolean(a), Expression::Boolean(b)) => *a == *b,
            (Expression::Number(a), Expression::Number(b)) => a.equals(b),
            (Expression::Character(a), Expression::Character(b)) => *a == *b,
            (Expression::String(a), Expression::String(b)) => *a == *b,
            (Expression::Symbol(a), Expression::Symbol(b)) => *a == *b,
            (Expression::Pair(a, d), Expression::Pair(b, e)) => a.equals(b) && d.equals(e),
            (Expression::Vector(a), Expression::Vector(b)) => {
                if a.len() != b.len() {
                    return false;
                }
                let ghost left = self@->Vector_0;
                let ghost right = other@->Vector_0;
                let mut i: usize = 0;
                while i < a.len()
                    invariant
                        i <= a@.len(),
                        a@.len() == b@.len(),
                        *self == Expression::Vector(*a),
                        *other == Expression::Vector(*b),
                        left == self@->Vector_0,
                        right == other@->Vector_0,
                        forall|j: int| 0 <= j < i ==> (#[trigger] left[j]).equals(right[j]),
                    decreases a@.len() - i,
                {
                    proof {
                        assert(decreases_to!(*a => a[i as int]));
                        assert(left[i as int] == a@[i as int].datum());
                        assert(right[i as int] == b@[i as int].datum());
                    }
                    if !a[i].equals(&b[i]) {
                        assert(!left[i as int].equals(right[i as int]));
                        assert(!self@.equals(other@));
                        return false;
                    }
                    i += 1;
                }
                proof {
                    assert(left.len() == a@.len());
                    assert(right.len() == b@.len());
                    assert(self@ == Datum::Vector(left));
                    assert(other@ == Datum::Vector(right));
                    assert(self@.equals(other@));
                }
                true
            },
            (Expression::ByteVector(a), Expression::ByteVector(b)) => {
                crate::data::integer::bytes_equal(a, b)
            },
            _ => false,
        }
    }
}

impl View for Expression {
    type V = Datum;

    open spec fn view(&self) -> Datum {
        self.datum()
    }
}

impl PartialEq for Expression {
    fn eq(&self, other: &Expression) -> (r: bool) {
        self.equals(other)
    }
}

impl vstd::std_specs::cmp::PartialEqSpecImpl for Expression {
    open spec fn obeys_eq_spec() -> bool {
        true
    }

    open spec fn eq_spec(&self, other: &Expression) -> bool {
        self@.equals(other@)
    }
}

/// Hands out another reference to a shared expression with `Rc::clone`: the
/// expression pointed to is the same.
#[verifier::external_body]
pub(crate) fn share(e: &Expr) -> (r: Expr)
    ensures
        r == *e,
{
    Rc::clone(e)
}

/// The empty list.
pub fn nil() -> (r: Expr)
    ensures
        r@ == Datum::Nil,
{
    Rc::new(Expression::Nil)
}

/// A truth value.
pub fn boolean(value: bool) -> (r: Expr)
    ensures
        r@ == Datum::Boolean(value),
{
    Rc::new(Expression::Boolean(value))
}

/// A number.
pub fn number(value: Number) -> (r: Expr)
    ensures
        r@ == Datum::Number(value@),
{
    Rc::new(Expression::Number(value))
}

/// A character.
pub fn character(value: char) -> (r: Expr)
    ensures
        r@ == Datum::Character(value),
{
    Rc::new(Expression::Character(value))
}

/// A string.
pub fn string(value: &str) -> (r: Expr)
    ensures
        r@ == Datum::String(value@),
{
    Rc::new(Expression::String(value.to_owned()))
}

/// A symbol of the given name.
pub fn symbol(name: &str) -> (r: Expr)
    ensures
        r@ == Datum::Symbol(name@),
{
    Rc::new(Expression::Symbol(name.to_owned()))
}

/// A pair.
pub fn pair(car: Expr, cdr: Expr) -> (r: Expr)
    ensures
        r@ == Datum::Pair(Box::new(car@), Box::new(cdr@)),
{
    Rc::new(Expression::Pair(car, cdr))
}

/// A vector of the given items.
pub fn vector(items: Vec<Expr>) -> (r: Expr)
    ensures
        r@ == Datum::Vector(data_of(items@)),
{
    proof {
        Expression::lemma_vector_datum(items);
    }
    Rc::new(Expression::Vector(items))
}

/// A vector of bytes.
pub fn byte_vector(bytes: Vec<u8>) -> (r: Expr)
    ensures
        r@ == Datum::ByteVector(bytes@),
{
    Rc::new(Expression::ByteVector(bytes))
}

/// The proper list of the given items.
pub fn list(items: Vec<Expr>) -> (r: Expr)
    ensures
        r@ == Datum::list(data_of(items@)),
{
    let mut head: Expr = nil();
    let mut i: usize = items.len();
    proof {
        assert(data_of(items@).skip(i as int) =~= Seq::<Datum>::empty());
    }
    while i > 0
        invariant
            i <= items@.len(),
            head@ == Datum::list(data_of(items@).skip(i as int)),
        decreases i,
    {
        i -= 1;
        proof {
            let rest = data_of(items@).skip(i as int);
            assert(rest.skip(1) =~= data_of(items@).skip(i + 1));
            assert(rest[0] == items@[i as int].datum());
        }
        head = pair(share(&items[i]), head);
    }
    proof {
        assert(data_of(items@).skip(0) =~= data_of(items@));
    }
    head
}

} // verus!
