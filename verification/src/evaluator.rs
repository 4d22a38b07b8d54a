//! The evaluator: walks an expression against an environment.
use crate::meta::{bind, extended, lookup, Meta};
use crate::object::{
    clone_objects, exprs_of, lemma_lambda_view, lemma_list_view, texts_of, Expr, Object,
};
use crate::parser::{fault_text, parse, parse_fault_message, parse_text, ParseFault};
use crate::text::{join, same_text};
use vstd::prelude::*;

verus! {

/// A chain of layers of bindings, innermost first.
pub type Env = Seq<Map<Seq<char>, Expr>>;

/// How deep `eval` lets forms and procedure calls nest.
pub const MAX_DEPTH: usize = 400;

/// A binary operator on integers.
#[derive(Debug, Clone, Copy, PartialEq, Eq)]
pub enum Operator {
    Add,
    Sub,
    Mul,
    Div,
    Less,
    Greater,
    Equal,
    NotEqual,
}

/// The place of a value of the wrong variant.
#[derive(Debug, Clone, Copy, PartialEq, Eq)]
pub enum Operand {
    Left,
    Right,
    Condition,
}

/// The mathematical value of a failure of evaluation.
pub enum Fault {
    Parse(ParseFault),
    UnboundSymbol(Seq<char>),
    ArityError,
    TypeError(Operand),
    InvalidForm,
    NotAProcedure,
    DivisionByZero,
    Overflow,
    DepthExceeded,
}

/// A failure of evaluation.
#[derive(Debug, PartialEq)]
pub enum EvalError {
    /// The text is not a form.
    Parse(ParseFault),
    /// A name that no layer of the environment binds.
    UnboundSymbol(String),
    /// A special form, operator or call with the wrong number of elements.
    ArityError,
    /// An operand that is no integer, or a condition that is no boolean.
    TypeError(Operand),
    /// A special form of the wrong shape.
    InvalidForm,
    /// A call of a name that is bound to something other than a procedure.
    NotAProcedure,
    /// A division by zero.
    DivisionByZero,
    /// An arithmetic result outside the signed 64-bit integers.
    Overflow,
    /// Forms and calls nested deeper than the limit.
    DepthExceeded,
}

impl View for EvalError {
    type V = Fault;

    open spec fn view(&self) -> Fault {
        match self {
            EvalError::Parse(f) => Fault::Parse(*f),
            EvalError::UnboundSymbol(s) => Fault::UnboundSymbol(s@),
            EvalError::ArityError => Fault::ArityError,
            EvalError::TypeError(o) => Fault::TypeError(*o),
            EvalError::InvalidForm => Fault::InvalidForm,
            EvalError::NotAProcedure => Fault::NotAProcedure,
            EvalError::DivisionByZero => Fault::DivisionByZero,
            EvalError::Overflow => Fault::Overflow,
            EvalError::DepthExceeded => Fault::DepthExceeded,
        }
    }
}

/// The message that describes a failure.
pub open spec fn message_of(fault: Fault) -> Seq<char> {
    match fault {
        Fault::Parse(f) => "parse error: "@ + fault_text(f),
        Fault::UnboundSymbol(name) => "unbound symbol: "@ + name,
        Fault::ArityError => "invalid number of arguments"@,
        Fault::TypeError(Operand::Left) => "left operation must be an integer"@,
        Fault::TypeError(Operand::Right) => "right operation must be an integer"@,
        Fault::TypeError(Operand::Condition) => "condition must be a boolean"@,
        Fault::InvalidForm => "invalid form"@,
        Fault::NotAProcedure => "not a lambda"@,
        Fault::DivisionByZero => "division by zero"@,
        Fault::Overflow => "integer overflow"@,
        Fault::DepthExceeded => "nesting too deep"@,
    }
}

impl EvalError {
    /// The message that describes this failure.
    pub fn message(&self) -> (r: String)
        ensures
            r@ == message_of(self@),
    {
        match self {
            EvalError::Parse(f) => parse_fault_message(*f),
            EvalError::UnboundSymbol(name) => join("unbound symbol: ", name.as_str()),
            EvalError::ArityError => "invalid number of arguments".to_owned(),
            EvalError::TypeError(Operand::Left) => "left operation must be an integer".to_owned(),
            EvalError::TypeError(Operand::Right) => "right operation must be an integer".to_owned(),
            EvalError::TypeError(Operand::Condition) => "condition must be a boolean".to_owned(),
            EvalError::InvalidForm => "invalid form".to_owned(),
            EvalError::NotAProcedure => "not a lambda".to_owned(),
            EvalError::DivisionByZero => "division by zero".to_owned(),
            EvalError::Overflow => "integer overflow".to_owned(),
            EvalError::DepthExceeded => "nesting too deep".to_owned(),
        }
    }
}

/// What an evaluation yields: a value or a failure, and the environment after it.
pub struct Outcome {
    pub result: Result<Expr, Fault>,
    pub env: Env,
}

/// What the evaluation of several expressions yields.
pub struct Gathered {
    pub result: Result<Seq<Expr>, Fault>,
    pub env: Env,
}

/// The outcome of an evaluation that yields a value.
pub open spec fn done(value: Expr, env: Env) -> Outcome {
    Outcome { result: Ok(value), env }
}

/// The outcome of an evaluation that fails.
pub open spec fn fail(fault: Fault, env: Env) -> Outcome {
    Outcome { result: Err(fault), env }
}

/// The operator that a symbol names.
pub open spec fn operator_of(s: Seq<char>) -> Option<Operator> {
    if s == "+"@ {
        Some(Operator::Add)
    } else if s == "-"@ {
        Some(Operator::Sub)
    } else if s == "*"@ {
        Some(Operator::Mul)
    } else if s == "/"@ {
        Some(Operator::Div)
    } else if s == "<"@ {
        Some(Operator::Less)
    } else if s == ">"@ {
        Some(Operator::Greater)
    } else if s == "="@ {
        Some(Operator::Equal)
    } else if s == "!="@ {
        Some(Operator::NotEqual)
    } else {
        None
    }
}

/// The quotient of two integers, rounded toward zero.
pub open spec fn quotient(a: int, b: int) -> int {
    if a == 0 {
        0
    } else if a > 0 && b > 0 {
        a / b
    } else if a < 0 && b < 0 {
        (-a) / (-b)
    } else if a < 0 {
        -((-a) / b)
    } else {
        -(a / (-b))
    }
}

/// An integer as a value, where it is a signed 64-bit integer.
pub open spec fn integer(v: int) -> Result<Expr, Fault> {
    if i64::MIN <= v <= i64::MAX {
        Ok(Expr::Integer(v as i64))
    } else {
        Err(Fault::Overflow)
    }
}

/// What an operator makes of two integers.
pub open spec fn apply(op: Operator, a: i64, b: i64) -> Result<Expr, Fault> {
    match op {
        Operator::Add => integer(a + b),
        Operator::Sub => integer(a - b),
        Operator::Mul => integer(a * b),
        Operator::Div => if b == 0 {
            Err(Fault::DivisionByZero)
        } else {
            integer(quotient(a as int, b as int))
        },
        Operator::Less => Ok(Expr::Bool(a < b)),
        Operator::Greater => Ok(Expr::Bool(a > b)),
        Operator::Equal => Ok(Expr::Bool(a == b)),
        Operator::NotEqual => Ok(Expr::Bool(a != b)),
    }
}

/// Whether every expression of a sequence is a symbol.
pub open spec fn all_symbols(items: Seq<Expr>) -> bool {
    forall|i: int| 0 <= i < items.len() ==> (#[trigger] items[i]) is Symbol
}

/// The names of a sequence of symbols.
pub open spec fn names_of(items: Seq<Expr>) -> Seq<Seq<char>> {
    Seq::new(items.len(), |i: int| items[i]->Symbol_0)
}

/// The procedure that a `lambda` form describes.
pub open spec fn make_lambda(items: Seq<Expr>) -> Result<Expr, Fault> {
    if items.len() != 3 {
        Err(Fault::ArityError)
    } else {
        match (items[1], items[2]) {
            (Expr::List(params), Expr::List(body)) => if all_symbols(params) {
                Ok(Expr::Lambda(names_of(params), body))
            } else {
                Err(Fault::InvalidForm)
            },
            _ => Err(Fault::InvalidForm),
        }
    }
}

/// The chain after binding, in its innermost layer, each parameter from the
/// `i`-th on to the value at the same position.
pub open spec fn bind_all(env: Env, params: Seq<Seq<char>>, values: Seq<Expr>, i: int) -> Env
    decreases params.len() - i,
{
    if i < 0 || i >= params.len() {
        env
    } else {
        bind_all(bind(env, params[i], values[i]), params, values, i + 1)
    }
}

/// The value of an expression in an environment, with `depth` levels of
/// nesting allowed.
pub open spec fn eval_expr(e: Expr, env: Env, depth: nat) -> Outcome
    decreases depth, 1nat, 0nat,
{
    match e {
        Expr::Symbol(s) => match lookup(env, s) {
            Some(v) => done(v, env),
            None => fail(Fault::UnboundSymbol(s), env),
        },
        Expr::Lambda(_, _) => done(Expr::Void, env),
        Expr::List(items) => if depth == 0 {
            fail(Fault::DepthExceeded, env)
        } else {
            eval_form(items, env, (depth - 1) as nat)
        },
        _ => done(e, env),
    }
}

/// The values of the expressions from the `i`-th on, each evaluated in the
/// environment that the one before it left, appended to `acc`; void values
/// are left out unless `keep_void`. The first failure ends it.
pub open spec fn eval_from(
    items: Seq<Expr>,
    i: int,
    acc: Seq<Expr>,
    keep_void: bool,
    env: Env,
    depth: nat,
) -> Gathered
    decreases depth, 2nat, items.len() - i,
{
    if i < 0 || i >= items.len() {
        Gathered { result: Ok(acc), env }
    } else {
        let one = eval_expr(items[i], env, depth);
        match one.result {
            Err(f) => Gathered { result: Err(f), env: one.env },
            Ok(v) => eval_from(
                items,
                i + 1,
                if v is Void && !keep_void {
                    acc
                } else {
                    acc.push(v)
                },
                keep_void,
                one.env,
                depth,
            ),
        }
    }
}

/// The value of an operator applied to two operands.
pub open spec fn eval_binary(items: Seq<Expr>, env: Env, depth: nat) -> Outcome
    decreases depth, 3nat, 0nat,
{
    if items.len() != 3 {
        fail(Fault::ArityError, env)
    } else {
        let left = eval_expr(items[1], env, depth);
        if left.result is Err {
            left
        } else {
            let right = eval_expr(items[2], left.env, depth);
            if right.result is Err {
                right
            } else {
                Outcome {
                    result: match (left.result->Ok_0, right.result->Ok_0, items[0]) {
                        (Expr::Integer(a), Expr::Integer(b), Expr::Symbol(s)) => match operator_of(
                            s,
                        ) {
                            Some(op) => apply(op, a, b),
                            None => Err(Fault::InvalidForm),
                        },
                        (Expr::Integer(_), Expr::Integer(_), _) => Err(Fault::InvalidForm),
                        (Expr::Integer(_), _, _) => Err(Fault::TypeError(Operand::Right)),
                        _ => Err(Fault::TypeError(Operand::Left)),
                    },
                    env: right.env,
                }
            }
        }
    }
}

/// The effect of a definition: the value is bound in the innermost layer.
pub open spec fn eval_definition(items: Seq<Expr>, env: Env, depth: nat) -> Outcome
    decreases depth, 3nat, 0nat,
{
    if items.len() != 3 {
        fail(Fault::ArityError, env)
    } else {
        match items[1] {
            Expr::Symbol(name) => {
                let value = eval_expr(items[2], env, depth);
                match value.result {
                    Err(_) => value,
                    Ok(v) => done(Expr::Void, bind(value.env, name, v)),
                }
            },
            _ => fail(Fault::InvalidForm, env),
        }
    }
}

/// The value of a conditional: that of the branch that the condition picks.
pub open spec fn eval_cond(items: Seq<Expr>, env: Env, depth: nat) -> Outcome
    decreases depth, 3nat, 0nat,
{
    if items.len() != 4 {
        fail(Fault::ArityError, env)
    } else {
        let cond = eval_expr(items[1], env, depth);
        match cond.result {
            Err(_) => cond,
            Ok(Expr::Bool(b)) => eval_expr(
                if b {
                    items[2]
                } else {
                    items[3]
                },
                cond.env,
                depth,
            ),
            Ok(_) => fail(Fault::TypeError(Operand::Condition), cond.env),
        }
    }
}

/// The value of a call of the procedure that `name` is bound to.
///
/// The arguments are evaluated in the caller's environment, in order. The
/// body is evaluated as a list in a new layer inside the caller's
/// environment as the arguments left it; that layer is dropped afterwards.
pub open spec fn eval_call(name: Seq<char>, items: Seq<Expr>, env: Env, depth: nat) -> Outcome
    decreases depth, 3nat, 0nat,
{
    match lookup(env, name) {
        None => fail(Fault::UnboundSymbol(name), env),
        Some(Expr::Lambda(params, body)) => if params.len() != items.len() - 1 {
            fail(Fault::ArityError, env)
        } else {
            let args = eval_from(items, 1, Seq::empty(), true, env, depth);
            match args.result {
                Err(f) => fail(f, args.env),
                Ok(values) => Outcome {
                    result: eval_expr(
                        Expr::List(body),
                        bind_all(extended(args.env), params, values, 0),
                        depth,
                    ).result,
                    env: args.env,
                },
            }
        },
        Some(_) => fail(Fault::NotAProcedure, env),
    }
}

/// The value of a list: a special form or a call where its head is a
/// symbol, else the list of its elements' values that are not void.
pub open spec fn eval_form(items: Seq<Expr>, env: Env, depth: nat) -> Outcome
    decreases depth, 4nat, 0nat,
{
    if items.len() == 0 {
        done(Expr::Void, env)
    } else {
        match items[0] {
            Expr::Symbol(s) => if operator_of(s) is Some {
                eval_binary(items, env, depth)
            } else if s == "define"@ {
                eval_definition(items, env, depth)
            } else if s == "if"@ {
                eval_cond(items, env, depth)
            } else if s == "lambda"@ {
                Outcome { result: make_lambda(items), env }
            } else {
                eval_call(s, items, env, depth)
            },
            _ => {
                let all = eval_from(items, 0, Seq::empty(), false, env, depth);
                Outcome {
                    result: match all.result {
                        Ok(values) => Ok(Expr::List(values)),
                        Err(f) => Err(f),
                    },
                    env: all.env,
                }
            },
        }
    }
}

/// The value of the first form of a text.
pub open spec fn eval_text(s: Seq<char>, env: Env) -> Outcome {
    match parse_text(s) {
        Err(f) => fail(Fault::Parse(f), env),
        Ok(form) => eval_expr(form, env, MAX_DEPTH as nat),
    }
}

/// Whether a result of the evaluator stands for a result of the model.
pub open spec fn agrees(r: Result<Object, EvalError>, s: Result<Expr, Fault>) -> bool {
    match s {
        Ok(v) => r is Ok && r->Ok_0@ == v,
        Err(f) => r is Err && r->Err_0@ == f,
    }
}

/// Whether two chains have the same layers around their innermost ones.
pub open spec fn same_outer(a: Env, b: Env) -> bool {
    &&& a.len() == b.len()
    &&& forall|i: int| 1 <= i < a.len() ==> a[i] == b[i]
}

/// The operator that a symbol names.
pub fn operator(s: &str) -> (r: Option<Operator>)
    ensures
        r == operator_of(s@),
{
    if same_text(s, "+") {
        Some(Operator::Add)
    } else if same_text(s, "-") {
        Some(Operator::Sub)
    } else if same_text(s, "*") {
        Some(Operator::Mul)
    } else if same_text(s, "/") {
        Some(Operator::Div)
    } else if same_text(s, "<") {
        Some(Operator::Less)
    } else if same_text(s, ">") {
        Some(Operator::Greater)
    } else if same_text(s, "=") {
        Some(Operator::Equal)
    } else if same_text(s, "!=") {
        Some(Operator::NotEqual)
    } else {
        None
    }
}

/// Applies an operator to two integers. Arithmetic fails where the result
/// is no signed 64-bit integer; division by zero fails too.
pub fn apply_operator(op: Operator, a: i64, b: i64) -> (r: Result<Object, EvalError>)
    ensures
        agrees(r, apply(op, a, b)),
{
    let value: Option<i64> = match op {
        Operator::Add => a.checked_add(b),
        Operator::Sub => a.checked_sub(b),
        Operator::Mul => a.checked_mul(b),
        Operator::Div => {
            if b == 0 {
                return Err(EvalError::DivisionByZero);
            }
            a.checked_div(b)
        },
        Operator::Less => {
            return Ok(Object::Bool(a < b));
        },
        Operator::Greater => {
            return Ok(Object::Bool(a > b));
        },
        Operator::Equal => {
            return Ok(Object::Bool(a == b));
        },
        Operator::NotEqual => {
            return Ok(Object::Bool(a != b));
        },
    };
    match value {
        Some(n) => Ok(Object::Integer(n)),
        None => Err(EvalError::Overflow),
    }
}

/// Parses the first form of a text and evaluates it in the environment,
/// with nesting up to `MAX_DEPTH`.
pub fn eval(param: &str, meta: &mut Meta) -> (r: Result<Object, EvalError>)
    ensures
        agrees(r, eval_text(param@, old(meta)@).result),
        final(meta)@ == eval_text(param@, old(meta)@).env,
        same_outer(final(meta)@, old(meta)@),
{
    match parse(param) {
        Err(e) => Err(EvalError::Parse(e.kind)),
        Ok(form) => eval_obj(&form, meta, MAX_DEPTH),
    }
}

/// Evaluates an expression in the environment, with `depth` levels of
/// nesting allowed.
pub fn eval_obj(obj: &Object, meta: &mut Meta, depth: usize) -> (r: Result<Object, EvalError>)
    ensures
        agrees(r, eval_expr(obj@, old(meta)@, depth as nat).result),
        final(meta)@ == eval_expr(obj@, old(meta)@, depth as nat).env,
        same_outer(final(meta)@, old(meta)@),
    decreases depth, 1nat, 0nat,
{
    match obj {
        Object::Void => Ok(Object::Void),
        Object::Integer(n) => Ok(Object::Integer(*n)),
        Object::Bool(b) => Ok(Object::Bool(*b)),
        Object::Symbol(s) => eval_symbol(s.as_str(), meta),
        Object::Lambda(params, body) => {
            proof {
                lemma_lambda_view(*params, *body);
            }
            Ok(Object::Void)
        },
        Object::List(list) => {
            proof {
                lemma_list_view(*list);
            }
            if depth == 0 {
                Err(EvalError::DepthExceeded)
            } else {
                eval_list(list, meta, depth - 1)
            }
        },
    }
}

/// Looks a symbol up in the environment.
pub fn eval_symbol(s: &str, meta: &mut Meta) -> (r: Result<Object, EvalError>)
    ensures
        agrees(
            r,
            match lookup(old(meta)@, s@) {
                Some(v) => Ok(v),
                None => Err(Fault::UnboundSymbol(s@)),
            },
        ),
        *final(meta) == *old(meta),
{
    match meta.get(s) {
        Some(v) => Ok(v),
        None => Err(EvalError::UnboundSymbol(s.to_owned())),
    }
}

/// Evaluates the elements of a list from the `from`-th on, in order, and
/// gathers their values; void values are left out unless `keep_void`.
pub fn eval_each(
    list: &Vec<Object>,
    from: usize,
    keep_void: bool,
    meta: &mut Meta,
    depth: usize,
) -> (r: Result<Vec<Object>, EvalError>)
    ensures
        ({
            let all = eval_from(
                exprs_of(list@),
                from as int,
                Seq::empty(),
                keep_void,
                old(meta)@,
                depth as nat,
            );
            &&& final(meta)@ == all.env
            &&& match all.result {
                Ok(values) => r is Ok && exprs_of(r->Ok_0@) == values,
                Err(f) => r is Err && r->Err_0@ == f,
            }
        }),
        same_outer(final(meta)@, old(meta)@),
        keep_void && from <= list.len() && r is Ok ==> r->Ok_0.len() == list.len() - from,
    decreases depth, 2nat, list.len() - from,
{
    let ghost items = exprs_of(list@);
    let ghost env0 = meta@;
    let mut values: Vec<Object> = Vec::new();
    let mut i: usize = from;
    assert(exprs_of(values@) =~= Seq::empty());
    while i < list.len()
        invariant
            from <= i,
            items == exprs_of(list@),
            env0 == old(meta)@,
            from <= list.len() ==> i <= list.len(),
            keep_void ==> values.len() == i - from,
            same_outer(meta@, env0),
            eval_from(items, from as int, Seq::empty(), keep_void, env0, depth as nat) == eval_from(
                items,
                i as int,
                exprs_of(values@),
                keep_void,
                meta@,
                depth as nat,
            ),
        decreases list.len() - i,
    {
        let ghost before = values@;
        match eval_obj(&list[i], meta, depth) {
            Err(e) => {
                return Err(e);
            },
            Ok(v) => {
                match v {
                    Object::Void => {
                        if keep_void {
                            values.push(v);
                            assert(exprs_of(values@) =~= exprs_of(before).push(Expr::Void));
                        }
                    },
                    _ => {
                        values.push(v);
                        assert(exprs_of(values@) =~= exprs_of(before).push(v@));
                    },
                }
            },
        }
        i += 1;
    }
    Ok(values)
}

/// Evaluates a list: a special form or a call where its head is a symbol,
/// else its elements one by one.
pub fn eval_list(list: &Vec<Object>, meta: &mut Meta, depth: usize) -> (r: Result<
    Object,
    EvalError,
>)
    ensures
        agrees(r, eval_form(exprs_of(list@), old(meta)@, depth as nat).result),
        final(meta)@ == eval_form(exprs_of(list@), old(meta)@, depth as nat).env,
        same_outer(final(meta)@, old(meta)@),
    decreases depth, 4nat, 0nat,
{
    if list.len() == 0 {
        return Ok(Object::Void);
    }
    match &list[0] {
        Object::Symbol(s) => {
            let name = s.as_str();
            if operator(name).is_some() {
                eval_binary_op(list, meta, depth)
            } else if same_text(name, "define") {
                eval_define(list, meta, depth)
            } else if same_text(name, "if") {
                eval_if(list, meta, depth)
            } else if same_text(name, "lambda") {
                eval_function_definition(list)
            } else {
                eval_function_call(name, list, meta, depth)
            }
        },
        _ => {
            match eval_each(list, 0, false, meta, depth) {
                Ok(values) => {
                    proof {
                        lemma_list_view(values);
                    }
                    Ok(Object::List(values))
                },
                Err(e) => Err(e),
            }
        },
    }
}

/// Calls the procedure that a name is bound to, with the elements of the
/// list after the first as its arguments.
pub fn eval_function_call(s: &str, list: &Vec<Object>, meta: &mut Meta, depth: usize) -> (r:
    Result<Object, EvalError>)
    ensures
        agrees(r, eval_call(s@, exprs_of(list@), old(meta)@, depth as nat).result),
        final(meta)@ == eval_call(s@, exprs_of(list@), old(meta)@, depth as nat).env,
        same_outer(final(meta)@, old(meta)@),
    decreases depth, 3nat, 0nat,
{
    let (params, body) = match meta.get(s) {
        None => {
            return Err(EvalError::UnboundSymbol(s.to_owned()));
        },
        Some(Object::Lambda(params, body)) => {
            proof {
                lemma_lambda_view(params, body);
            }
            (params, body)
        },
        Some(_) => {
            return Err(EvalError::NotAProcedure);
        },
    };
    if list.len() == 0 || params.len() != list.len() - 1 {
        return Err(EvalError::ArityError);
    }
    let values = match eval_each(list, 1, true, meta, depth) {
        Err(e) => {
            return Err(e);
        },
        Ok(values) => values,
    };
    let ghost caller_env = meta@;
    let mut caller = Meta::new();
    std::mem::swap(meta, &mut caller);
    let mut child = Meta::extend(caller);
    let mut k: usize = 0;
    while k < params.len()
        invariant
            k <= params.len(),
            params.len() == values.len(),
            same_outer(child@, extended(caller_env)),
            bind_all(extended(caller_env), texts_of(params@), exprs_of(values@), 0) == bind_all(
                child@,
                texts_of(params@),
                exprs_of(values@),
                k as int,
            ),
        decreases params.len() - k,
    {
        child.set(params[k].as_str(), values[k].clone());
        k += 1;
    }
    let form = Object::List(body);
    proof {
        lemma_list_view(body);
    }
    let r = eval_obj(&form, &mut child, depth);
    // The layer of the call is dropped; the caller's environment comes back.
    if let Some(outer) = child.into_parent() {
        assert(outer@ =~= caller_env);
        *meta = outer;
    }
    r
}

/// Evaluates an operator form: the operator and its two operands.
pub fn eval_binary_op(list: &Vec<Object>, meta: &mut Meta, depth: usize) -> (r: Result<
    Object,
    EvalError,
>)
    ensures
        agrees(r, eval_binary(exprs_of(list@), old(meta)@, depth as nat).result),
        final(meta)@ == eval_binary(exprs_of(list@), old(meta)@, depth as nat).env,
        same_outer(final(meta)@, old(meta)@),
    decreases depth, 3nat, 0nat,
{
    if list.len() != 3 {
        return Err(EvalError::ArityError);
    }
    let left = eval_obj(&list[1], meta, depth)?;
    let right = eval_obj(&list[2], meta, depth)?;
    let left_val: i64 = match left {
        Object::Integer(n) => n,
        _ => {
            return Err(EvalError::TypeError(Operand::Left));
        },
    };
    let right_val: i64 = match right {
        Object::Integer(n) => n,
        _ => {
            return Err(EvalError::TypeError(Operand::Right));
        },
    };
    match &list[0] {
        Object::Symbol(s) => match operator(s.as_str()) {
            Some(op) => apply_operator(op, left_val, right_val),
            None => Err(EvalError::InvalidForm),
        },
        _ => Err(EvalError::InvalidForm),
    }
}

/// Evaluates a definition: binds the value of the third element to the
/// symbol that is the second, in the innermost layer.
pub fn eval_define(list: &Vec<Object>, meta: &mut Meta, depth: usize) -> (r: Result<
    Object,
    EvalError,
>)
    ensures
        agrees(r, eval_definition(exprs_of(list@), old(meta)@, depth as nat).result),
        final(meta)@ == eval_definition(exprs_of(list@), old(meta)@, depth as nat).env,
        same_outer(final(meta)@, old(meta)@),
    decreases depth, 3nat, 0nat,
{
    if list.len() != 3 {
        return Err(EvalError::ArityError);
    }
    match &list[1] {
        Object::Symbol(s) => {
            let val = eval_obj(&list[2], meta, depth)?;
            proof {
                meta.lemma_has_layer();
            }
            meta.set(s.as_str(), val);
            Ok(Object::Void)
        },
        _ => Err(EvalError::InvalidForm),
    }
}

/// Evaluates a conditional: the condition, then the one branch that it picks.
pub fn eval_if(list: &Vec<Object>, meta: &mut Meta, depth: usize) -> (r: Result<Object, EvalError>)
    ensures
        agrees(r, eval_cond(exprs_of(list@), old(meta)@, depth as nat).result),
        final(meta)@ == eval_cond(exprs_of(list@), old(meta)@, depth as nat).env,
        same_outer(final(meta)@, old(meta)@),
    decreases depth, 3nat, 0nat,
{
    if list.len() != 4 {
        return Err(EvalError::ArityError);
    }
    let cond = eval_obj(&list[1], meta, depth)?;
    match cond {
        Object::Bool(b) => {
            if b {
                eval_obj(&list[2], meta, depth)
            } else {
                eval_obj(&list[3], meta, depth)
            }
        },
        _ => Err(EvalError::TypeError(Operand::Condition)),
    }
}

/// Makes the procedure that a `lambda` form describes: its second element
/// lists the parameters, its third is the body.
pub fn eval_function_definition(list: &Vec<Object>) -> (r: Result<Object, EvalError>)
    ensures
        agrees(r, make_lambda(exprs_of(list@))),
{
    if list.len() != 3 {
        return Err(EvalError::ArityError);
    }
    match (&list[1], &list[2]) {
        (Object::List(names), Object::List(body)) => {
            proof {
                lemma_list_view(*names);
                lemma_list_view(*body);
            }
            let mut params: Vec<String> = Vec::new();
            let mut i: usize = 0;
            while i < names.len()
                invariant
                    i <= names.len(),
                    params.len() == i,
                    list.len() == 3,
                    exprs_of(list@)[1] == Expr::List(exprs_of(names@)),
                    exprs_of(list@)[2] is List,
                    forall|j: int|
                        0 <= j < i ==> (#[trigger] names@[j])@ is Symbol && params@[j]@
                            == names@[j]@->Symbol_0,
                decreases names.len() - i,
            {
                match &names[i] {
                    Object::Symbol(s) => {
                        params.push(s.clone());
                    },
                    _ => {
                        assert(!(exprs_of(names@)[i as int] is Symbol));
                        return Err(EvalError::InvalidForm);
                    },
                }
                i += 1;
            }
            let body_copy = clone_objects(body);
            proof {
                lemma_lambda_view(params, body_copy);
                assert(texts_of(params@) =~= names_of(exprs_of(names@)));
                assert forall|j: int| 0 <= j < names@.len() implies (#[trigger] exprs_of(
                    names@,
                )[j]) is Symbol by {
                    assert(names@[j]@ is Symbol);
                }
            }
            Ok(Object::Lambda(params, body_copy))
        },
        _ => Err(EvalError::InvalidForm),
    }
}

} // verus!
