//! What holds of the evaluator on every input.
use crate::evaluator::{
    apply, done, eval_binary, eval_call, eval_cond, eval_definition, eval_expr, eval_form,
    eval_from, fail, operator_of, quotient, same_outer, Env, Fault, Operator, Outcome,
};
use crate::meta::{bind, lookup};
use crate::object::Expr;
use vstd::prelude::*;

verus! {

/// The form that applies the operator named `name` to two integers.
pub open spec fn binary_form(name: Seq<char>, a: i64, b: i64) -> Expr {
    Expr::List(seq![Expr::Symbol(name), Expr::Integer(a), Expr::Integer(b)])
}

/// Each operator symbol names its operator, and the names of the other
/// special forms name none.
pub proof fn theorem_operator_names()
    ensures
        operator_of("+"@) == Some(Operator::Add),
        operator_of("-"@) == Some(Operator::Sub),
        operator_of("*"@) == Some(Operator::Mul),
        operator_of("/"@) == Some(Operator::Div),
        operator_of("<"@) == Some(Operator::Less),
        operator_of(">"@) == Some(Operator::Greater),
        operator_of("="@) == Some(Operator::Equal),
        operator_of("!="@) == Some(Operator::NotEqual),
        operator_of("define"@) is None,
        operator_of("if"@) is None,
        operator_of("lambda"@) is None,
{
    reveal_strlit("+");
    reveal_strlit("-");
    reveal_strlit("*");
    reveal_strlit("/");
    reveal_strlit("<");
    reveal_strlit(">");
    reveal_strlit("=");
    reveal_strlit("!=");
    reveal_strlit("define");
    reveal_strlit("if");
    reveal_strlit("lambda");
    assert("+"@[0] == '+' && "-"@[0] == '-' && "*"@[0] == '*' && "/"@[0] == '/');
    assert("<"@[0] == '<' && ">"@[0] == '>' && "="@[0] == '=' && "!="@[0] == '!');
    assert("define"@[0] == 'd' && "if"@[0] == 'i' && "lambda"@[0] == 'l');
}

/// An operator form on two integers, with one level of nesting allowed,
/// yields what the operator makes of them and leaves the environment as it was.
pub proof fn theorem_operator_form(name: Seq<char>, a: i64, b: i64, env: Env, depth: nat)
    requires
        depth >= 1,
        operator_of(name) is Some,
    ensures
        eval_expr(binary_form(name, a, b), env, depth) == (Outcome {
            result: apply(operator_of(name)->Some_0, a, b),
            env,
        }),
{
    let items = seq![Expr::Symbol(name), Expr::Integer(a), Expr::Integer(b)];
    let d = (depth - 1) as nat;
    assert(eval_expr(items[1], env, d) == done(Expr::Integer(a), env));
    assert(eval_expr(items[2], env, d) == done(Expr::Integer(b), env));
    assert(eval_binary(items, env, d) == (Outcome {
        result: apply(operator_of(name)->Some_0, a, b),
        env,
    }));
    assert(eval_form(items, env, d) == eval_binary(items, env, d));
}

/// An operator form whose operands evaluate to integers, one after the
/// other, yields what the operator makes of the two, in the environment that
/// the operands left.
pub proof fn theorem_nested_operator_form(
    name: Seq<char>,
    left: Expr,
    right: Expr,
    env: Env,
    depth: nat,
)
    requires
        depth >= 1,
        operator_of(name) is Some,
        eval_expr(left, env, (depth - 1) as nat).result matches Ok(v) && v is Integer,
        eval_expr(
            right,
            eval_expr(left, env, (depth - 1) as nat).env,
            (depth - 1) as nat,
        ).result matches Ok(v) && v is Integer,
    ensures
        ({
            let d = (depth - 1) as nat;
            let first = eval_expr(left, env, d);
            let second = eval_expr(right, first.env, d);
            eval_expr(Expr::List(seq![Expr::Symbol(name), left, right]), env, depth) == (Outcome {
                result: apply(
                    operator_of(name)->Some_0,
                    first.result->Ok_0->Integer_0,
                    second.result->Ok_0->Integer_0,
                ),
                env: second.env,
            })
        }),
{
    let items = seq![Expr::Symbol(name), left, right];
    let d = (depth - 1) as nat;
    assert(items[1] == left && items[2] == right);
    assert(eval_form(items, env, d) == eval_binary(items, env, d));
}

/// A conditional whose condition evaluates to a boolean yields what the
/// branch that the boolean picks yields, evaluated in the environment that
/// the condition left: the other branch plays no part.
pub proof fn theorem_conditional(
    cond: Expr,
    then_branch: Expr,
    else_branch: Expr,
    env: Env,
    depth: nat,
)
    requires
        depth >= 1,
        eval_expr(cond, env, (depth - 1) as nat).result matches Ok(v) && v is Bool,
    ensures
        ({
            let d = (depth - 1) as nat;
            let tested = eval_expr(cond, env, d);
            let form = Expr::List(seq![Expr::Symbol("if"@), cond, then_branch, else_branch]);
            eval_expr(form, env, depth) == eval_expr(
                if tested.result->Ok_0->Bool_0 {
                    then_branch
                } else {
                    else_branch
                },
                tested.env,
                d,
            )
        }),
{
    theorem_operator_names();
    reveal_strlit("if");
    reveal_strlit("define");
    assert("if"@[0] == 'i' && "define"@[0] == 'd');
    let items = seq![Expr::Symbol("if"@), cond, then_branch, else_branch];
    let d = (depth - 1) as nat;
    assert(items[1] == cond && items[2] == then_branch && items[3] == else_branch);
    assert(eval_form(items, env, d) == eval_cond(items, env, d));
}

/// `(+ a b)`, `(- a b)` and `(* a b)` yield the sum, the difference and the
/// product, wherever that is a signed 64-bit integer.
pub proof fn theorem_arithmetic(a: i64, b: i64, env: Env, depth: nat)
    requires
        depth >= 1,
    ensures
        i64::MIN <= a + b <= i64::MAX ==> eval_expr(binary_form("+"@, a, b), env, depth) == done(
            Expr::Integer((a + b) as i64),
            env,
        ),
        i64::MIN <= a - b <= i64::MAX ==> eval_expr(binary_form("-"@, a, b), env, depth) == done(
            Expr::Integer((a - b) as i64),
            env,
        ),
        i64::MIN <= a * b <= i64::MAX ==> eval_expr(binary_form("*"@, a, b), env, depth) == done(
            Expr::Integer((a * b) as i64),
            env,
        ),
{
    theorem_operator_names();
    theorem_operator_form("+"@, a, b, env, depth);
    theorem_operator_form("-"@, a, b, env, depth);
    theorem_operator_form("*"@, a, b, env, depth);
}

/// Arithmetic whose result is no signed 64-bit integer fails with `Overflow`.
pub proof fn theorem_overflow(a: i64, b: i64, env: Env, depth: nat)
    requires
        depth >= 1,
    ensures
        !(i64::MIN <= a + b <= i64::MAX) ==> eval_expr(binary_form("+"@, a, b), env, depth)
            == fail(Fault::Overflow, env),
        !(i64::MIN <= a - b <= i64::MAX) ==> eval_expr(binary_form("-"@, a, b), env, depth)
            == fail(Fault::Overflow, env),
        !(i64::MIN <= a * b <= i64::MAX) ==> eval_expr(binary_form("*"@, a, b), env, depth)
            == fail(Fault::Overflow, env),
        a == i64::MIN && b == -1 ==> eval_expr(binary_form("/"@, a, b), env, depth) == fail(
            Fault::Overflow,
            env,
        ),
{
    theorem_operator_names();
    theorem_operator_form("+"@, a, b, env, depth);
    theorem_operator_form("-"@, a, b, env, depth);
    theorem_operator_form("*"@, a, b, env, depth);
    theorem_operator_form("/"@, a, b, env, depth);
    if a == i64::MIN && b == -1 {
        assert(quotient(a as int, b as int) == 0x8000_0000_0000_0000) by {
            assert((-(a as int)) / 1 == -(a as int));
        }
    }
}

/// `(/ a b)` fails with `DivisionByZero` where `b` is zero, and else yields
/// the quotient rounded toward zero, wherever that is a signed 64-bit integer.
pub proof fn theorem_division(a: i64, b: i64, env: Env, depth: nat)
    requires
        depth >= 1,
    ensures
        b == 0 ==> eval_expr(binary_form("/"@, a, b), env, depth) == fail(
            Fault::DivisionByZero,
            env,
        ),
        b != 0 && !(a == i64::MIN && b == -1) ==> eval_expr(binary_form("/"@, a, b), env, depth)
            == done(Expr::Integer(quotient(a as int, b as int) as i64), env),
{
    theorem_operator_names();
    theorem_operator_form("/"@, a, b, env, depth);
    if b != 0 && !(a == i64::MIN && b == -1) {
        theorem_quotient(a as int, b as int);
    }
}

/// The quotient rounded toward zero is the one integer `q` with
/// `a == q * b + r` for a remainder `r` that is smaller than `b` in
/// magnitude and is zero or has the sign of `a`.
pub proof fn theorem_quotient(a: int, b: int)
    requires
        b != 0,
    ensures
        ({
            let q = quotient(a, b);
            let r = a - q * b;
            &&& a >= 0 ==> 0 <= r
            &&& a <= 0 ==> r <= 0
            &&& b > 0 ==> -b < r < b
            &&& b < 0 ==> b < r < -b
        }),
{
    let q = quotient(a, b);
    if a == 0 {
        assert(q * b == 0) by (nonlinear_arith)
            requires
                q == 0,
        ;
    } else if a > 0 && b > 0 {
        lemma_floor(a, b);
    } else if a < 0 && b < 0 {
        lemma_floor(-a, -b);
        assert(q * b == -(q * (-b))) by (nonlinear_arith);
    } else if a < 0 {
        lemma_floor(-a, b);
        assert(q * b == -((-q) * b)) by (nonlinear_arith);
    } else {
        lemma_floor(a, -b);
        assert(q * b == (-q) * (-b)) by (nonlinear_arith);
    }
}

/// Division of a natural number by a positive one: the quotient and what is left.
proof fn lemma_floor(x: int, y: int)
    requires
        x >= 0,
        y > 0,
    ensures
        0 <= x - (x / y) * y < y,
{
    assert(0 <= x - (x / y) * y < y) by (nonlinear_arith)
        requires
            x >= 0,
            y > 0,
    ;
}

/// `(< a b)`, `(> a b)`, `(= a b)` and `(!= a b)` yield the boolean that the
/// comparison of the two integers gives.
pub proof fn theorem_comparison(a: i64, b: i64, env: Env, depth: nat)
    requires
        depth >= 1,
    ensures
        eval_expr(binary_form("<"@, a, b), env, depth) == done(Expr::Bool(a < b), env),
        eval_expr(binary_form(">"@, a, b), env, depth) == done(Expr::Bool(a > b), env),
        eval_expr(binary_form("="@, a, b), env, depth) == done(Expr::Bool(a == b), env),
        eval_expr(binary_form("!="@, a, b), env, depth) == done(Expr::Bool(a != b), env),
{
    theorem_operator_names();
    theorem_operator_form("<"@, a, b, env, depth);
    theorem_operator_form(">"@, a, b, env, depth);
    theorem_operator_form("="@, a, b, env, depth);
    theorem_operator_form("!="@, a, b, env, depth);
}

/// A name reads back the value that it was last bound to, and binding it
/// changes the value of no other name.
pub proof fn theorem_bind_then_lookup(env: Env, name: Seq<char>, value: Expr, other: Seq<char>)
    requires
        env.len() >= 1,
    ensures
        lookup(bind(env, name, value), name) == Some(value),
        other != name ==> lookup(bind(env, name, value), other) == lookup(env, other),
{
    assert(bind(env, name, value).skip(1) =~= env.skip(1));
}

/// After `(define name n)`, the symbol `name` evaluates to `n` in the same
/// environment.
pub proof fn theorem_define_then_use(name: Seq<char>, n: i64, env: Env, depth: nat)
    requires
        env.len() >= 1,
        depth >= 1,
    ensures
        ({
            let form = Expr::List(seq![Expr::Symbol("define"@), Expr::Symbol(name), Expr::Integer(n)]);
            let defined = eval_expr(form, env, depth);
            &&& defined == done(Expr::Void, bind(env, name, Expr::Integer(n)))
            &&& eval_expr(Expr::Symbol(name), defined.env, depth) == done(
                Expr::Integer(n),
                defined.env,
            )
        }),
{
    theorem_operator_names();
    let items = seq![Expr::Symbol("define"@), Expr::Symbol(name), Expr::Integer(n)];
    let d = (depth - 1) as nat;
    assert(eval_expr(items[2], env, d) == done(Expr::Integer(n), env));
    assert(eval_definition(items, env, d) == done(
        Expr::Void,
        bind(env, name, Expr::Integer(n)),
    ));
    assert(eval_form(items, env, d) == eval_definition(items, env, d));
    theorem_bind_then_lookup(env, name, Expr::Integer(n), name);
}

/// Whether a symbol at the head of a list makes the list a call: it names no
/// operator and no other special form.
pub open spec fn is_call_head(name: Seq<char>) -> bool {
    operator_of(name) is None && name != "define"@ && name != "if"@ && name != "lambda"@
}

/// A call of a name that nothing binds fails with `UnboundSymbol`; a call of
/// a name bound to something other than a procedure fails with
/// `NotAProcedure`; a call with the wrong number of arguments fails with
/// `ArityError`. None of them changes the environment.
pub proof fn theorem_failed_call(name: Seq<char>, args: Seq<Expr>, env: Env, depth: nat)
    requires
        depth >= 1,
        is_call_head(name),
    ensures
        ({
            let out = eval_expr(Expr::List(seq![Expr::Symbol(name)] + args), env, depth);
            match lookup(env, name) {
                None => out == fail(Fault::UnboundSymbol(name), env),
                Some(Expr::Lambda(params, _)) => params.len() != args.len() ==> out == fail(
                    Fault::ArityError,
                    env,
                ),
                Some(_) => out == fail(Fault::NotAProcedure, env),
            }
        }),
{
    let items = seq![Expr::Symbol(name)] + args;
    let d = (depth - 1) as nat;
    assert(items[0] == Expr::Symbol(name));
    assert(eval_form(items, env, d) == eval_call(name, items, env, d));
}

/// Evaluation changes no layer but the innermost: it keeps the number of
/// layers, and every layer around the innermost one as it was.
pub proof fn theorem_outer_layers_kept(e: Expr, env: Env, depth: nat)
    requires
        env.len() >= 1,
    ensures
        same_outer(eval_expr(e, env, depth).env, env),
    decreases depth, 1nat, 0nat,
{
    match e {
        Expr::List(items) => {
            if depth > 0 {
                lemma_form_outer(items, env, (depth - 1) as nat);
            }
        },
        _ => {},
    }
}

/// Evaluating the elements of a list one after the other keeps the outer layers.
proof fn lemma_from_outer(
    items: Seq<Expr>,
    i: int,
    acc: Seq<Expr>,
    keep_void: bool,
    env: Env,
    depth: nat,
)
    requires
        env.len() >= 1,
    ensures
        same_outer(eval_from(items, i, acc, keep_void, env, depth).env, env),
    decreases depth, 2nat, items.len() - i,
{
    if 0 <= i < items.len() {
        theorem_outer_layers_kept(items[i], env, depth);
        let one = eval_expr(items[i], env, depth);
        match one.result {
            Ok(v) => {
                let next = if v is Void && !keep_void {
                    acc
                } else {
                    acc.push(v)
                };
                lemma_from_outer(items, i + 1, next, keep_void, one.env, depth);
            },
            Err(_) => {},
        }
    }
}

/// An operator form keeps the outer layers.
proof fn lemma_binary_outer(items: Seq<Expr>, env: Env, depth: nat)
    requires
        env.len() >= 1,
    ensures
        same_outer(eval_binary(items, env, depth).env, env),
    decreases depth, 3nat, 0nat,
{
    if items.len() == 3 {
        theorem_outer_layers_kept(items[1], env, depth);
        let left = eval_expr(items[1], env, depth);
        if left.result is Ok {
            theorem_outer_layers_kept(items[2], left.env, depth);
        }
    }
}

/// A definition binds in the innermost layer and keeps the outer ones.
proof fn lemma_definition_outer(items: Seq<Expr>, env: Env, depth: nat)
    requires
        env.len() >= 1,
    ensures
        same_outer(eval_definition(items, env, depth).env, env),
    decreases depth, 3nat, 0nat,
{
    if items.len() == 3 && items[1] is Symbol {
        theorem_outer_layers_kept(items[2], env, depth);
    }
}

/// A conditional keeps the outer layers.
proof fn lemma_cond_outer(items: Seq<Expr>, env: Env, depth: nat)
    requires
        env.len() >= 1,
    ensures
        same_outer(eval_cond(items, env, depth).env, env),
    decreases depth, 3nat, 0nat,
{
    if items.len() == 4 {
        theorem_outer_layers_kept(items[1], env, depth);
        let cond = eval_expr(items[1], env, depth);
        match cond.result {
            Ok(Expr::Bool(b)) => {
                theorem_outer_layers_kept(
                    if b {
                        items[2]
                    } else {
                        items[3]
                    },
                    cond.env,
                    depth,
                );
            },
            _ => {},
        }
    }
}

/// A list, whatever its head, keeps the outer layers.
proof fn lemma_form_outer(items: Seq<Expr>, env: Env, depth: nat)
    requires
        env.len() >= 1,
    ensures
        same_outer(eval_form(items, env, depth).env, env),
    decreases depth, 4nat, 0nat,
{
    if items.len() > 0 {
        match items[0] {
            Expr::Symbol(s) => {
                if operator_of(s) is Some {
                    lemma_binary_outer(items, env, depth);
                } else if s == "define"@ {
                    lemma_definition_outer(items, env, depth);
                } else if s == "if"@ {
                    lemma_cond_outer(items, env, depth);
                } else if s == "lambda"@ {
                } else {
                    lemma_from_outer(items, 1, Seq::empty(), true, env, depth);
                }
            },
            _ => {
                lemma_from_outer(items, 0, Seq::empty(), false, env, depth);
            },
        }
    }
}

} // verus!
