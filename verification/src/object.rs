//! Expressions: the parse tree and the values that evaluation yields.
use vstd::prelude::*;

verus! {

/// The mathematical value of an expression.
pub enum Expr {
    Void,
    Integer(i64),
    Bool(bool),
    Symbol(Seq<char>),
    List(Seq<Expr>),
    Lambda(Seq<Seq<char>>, Seq<Expr>),
}

/// An expression: both a node of the parse tree and a runtime value.
#[derive(Debug, PartialEq)]
pub enum Object {
    Void,
    Integer(i64),
    Bool(bool),
    Symbol(String),
    List(Vec<Object>),
    Lambda(Vec<String>, Vec<Object>),
}

/// The values of a sequence of expressions, element by element.
pub open spec fn exprs_of(items: Seq<Object>) -> Seq<Expr> {
    Seq::new(items.len(), |i: int| items[i]@)
}

/// The texts of a sequence of strings, element by element.
pub open spec fn texts_of(names: Seq<String>) -> Seq<Seq<char>> {
    Seq::new(names.len(), |i: int| names[i]@)
}

impl Object {
    /// The mathematical value of this expression.
    pub open spec fn value(self) -> Expr
        decreases self,
    {
        match self {
            Object::Void => Expr::Void,
            Object::Integer(n) => Expr::Integer(n),
            Object::Bool(b) => Expr::Bool(b),
            Object::Symbol(s) => Expr::Symbol(s@),
            Object::List(items) => Expr::List(
                Seq::new(
                    items@.len(),
                    |i: int|
                        if 0 <= i < items.len() {
                            items[i].value()
                        } else {
                            Expr::Void
                        },
                ),
            ),
            Object::Lambda(params, body) => Expr::Lambda(
                texts_of(params@),
                Seq::new(
                    body@.len(),
                    |i: int|
                        if 0 <= i < body.len() {
                            body[i].value()
                        } else {
                            Expr::Void
                        },
                ),
            ),
        }
    }
}

impl View for Object {
    type V = Expr;

    open spec fn view(&self) -> Expr {
        self.value()
    }
}

impl Clone for Object {
    fn clone(&self) -> (copy: Self)
        ensures
            copy@ == self@,
        decreases self,
    {
        match self {
            Object::Void => Object::Void,
            Object::Integer(n) => Object::Integer(*n),
            Object::Bool(b) => Object::Bool(*b),
            Object::Symbol(s) => Object::Symbol(s.clone()),
            Object::List(items) => {
                let copy = clone_objects(items);
                proof {
                    lemma_list_view(*items);
                    lemma_list_view(copy);
                }
                Object::List(copy)
            },
            Object::Lambda(params, body) => {
                let params_copy = clone_names(params);
                let body_copy = clone_objects(body);
                proof {
                    lemma_lambda_view(*params, *body);
                    lemma_lambda_view(params_copy, body_copy);
                }
                Object::Lambda(params_copy, body_copy)
            },
        }
    }
}

/// The value of a list is the list of its elements' values.
pub proof fn lemma_list_view(items: Vec<Object>)
    ensures
        Object::List(items)@ == Expr::List(exprs_of(items@)),
{
    assert(Object::List(items)@->List_0 =~= exprs_of(items@));
}

/// The value of a procedure holds its parameters' texts and its body's values.
pub proof fn lemma_lambda_view(params: Vec<String>, body: Vec<Object>)
    ensures
        Object::Lambda(params, body)@ == Expr::Lambda(texts_of(params@), exprs_of(body@)),
{
    assert(Object::Lambda(params, body)@->Lambda_1 =~= exprs_of(body@));
}

/// A deep copy of a vector of expressions.
pub fn clone_objects(items: &Vec<Object>) -> (copy: Vec<Object>)
    ensures
        exprs_of(copy@) == exprs_of(items@),
    decreases items,
{
    let mut copy: Vec<Object> = Vec::new();
    let mut i: usize = 0;
    while i < items.len()
        invariant
            i <= items.len(),
            copy@.len() == i,
            forall|j: int| 0 <= j < i ==> copy@[j]@ == items@[j]@,
        decreases items.len() - i,
    {
        copy.push(items[i].clone());
        i += 1;
    }
    assert(exprs_of(copy@) =~= exprs_of(items@));
    copy
}

/// A copy of a vector of names.
pub fn clone_names(names: &Vec<String>) -> (copy: Vec<String>)
    ensures
        texts_of(copy@) == texts_of(names@),
{
    let mut copy: Vec<String> = Vec::new();
    let mut i: usize = 0;
    while i < names.len()
        invariant
            i <= names.len(),
            copy@.len() == i,
            forall|j: int| 0 <= j < i ==> copy@[j]@ == names@[j]@,
        decreases names.len() - i,
    {
        copy.push(names[i].clone());
        i += 1;
    }
    assert(texts_of(copy@) =~= texts_of(names@));
    copy
}

} // verus!
