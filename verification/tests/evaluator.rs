use lisp_sh::evaluator::{
    apply_operator, eval, eval_function_definition, eval_obj, operator, EvalError, Operand,
    Operator, MAX_DEPTH,
};
use lisp_sh::meta::Meta;
use lisp_sh::object::Object;
use lisp_sh::parser::ParseFault;

fn run(text: &str) -> Result<Object, EvalError> {
    let mut env = Meta::new();
    eval(text, &mut env)
}

fn number(n: i64) -> Result<Object, EvalError> {
    Ok(Object::Integer(n))
}

fn boolean(b: bool) -> Result<Object, EvalError> {
    Ok(Object::Bool(b))
}

#[test]
fn test_eval_binary_op() {
    let mut meta = Meta::new();
    let item = eval("(+ 1 2)", &mut meta);
    println!("item: {:?}", item);
    assert_eq!(item, Ok(Object::Integer(3)));
}

#[test]
fn test_area_of_a_circle() {
    let mut env = Meta::new();
    let program = "(
                        (define r 10)
                        (define pi 314)
                        (* pi (* r r))
                      )";
    let result = eval(program, &mut env).unwrap();
    println!("res: {:?}", result);
    assert_eq!(result, Object::List(vec![Object::Integer(314 * 10 * 10)]));
}

#[test]
fn arithmetic_on_two_integers() {
    assert_eq!(run("(+ 17 25)"), number(42));
    assert_eq!(run("(- 17 25)"), number(-8));
    assert_eq!(run("(* 17 25)"), number(425));
    assert_eq!(run("(* -3 7)"), number(-21));
    assert_eq!(run("(+ -9223372036854775808 9223372036854775807)"), number(-1));
}

#[test]
fn division_rounds_toward_zero() {
    assert_eq!(run("(/ 7 2)"), number(3));
    assert_eq!(run("(/ -7 2)"), number(-3));
    assert_eq!(run("(/ 7 -2)"), number(-3));
    assert_eq!(run("(/ -7 -2)"), number(3));
    assert_eq!(run("(/ 0 5)"), number(0));
    assert_eq!(run("(/ 0 -5)"), number(0));
    assert_eq!(run("(/ 6 3)"), number(2));
}

#[test]
fn division_by_zero_is_an_error() {
    assert_eq!(run("(/ 1 0)"), Err(EvalError::DivisionByZero));
    assert_eq!(run("(/ 0 0)"), Err(EvalError::DivisionByZero));
    assert_eq!(run("(/ -9223372036854775808 0)"), Err(EvalError::DivisionByZero));
}

#[test]
fn results_out_of_range_are_errors() {
    assert_eq!(run("(+ 9223372036854775807 1)"), Err(EvalError::Overflow));
    assert_eq!(run("(- -9223372036854775808 1)"), Err(EvalError::Overflow));
    assert_eq!(run("(* 4611686018427387904 2)"), Err(EvalError::Overflow));
    assert_eq!(run("(/ -9223372036854775808 -1)"), Err(EvalError::Overflow));
    assert_eq!(run("(* 4611686018427387904 -2)"), number(i64::MIN));
}

#[test]
fn comparisons_give_booleans() {
    assert_eq!(run("(< 1 2)"), boolean(true));
    assert_eq!(run("(< 2 2)"), boolean(false));
    assert_eq!(run("(> 3 2)"), boolean(true));
    assert_eq!(run("(> -3 2)"), boolean(false));
    assert_eq!(run("(= 5 5)"), boolean(true));
    assert_eq!(run("(= 5 6)"), boolean(false));
    assert_eq!(run("(!= 5 6)"), boolean(true));
    assert_eq!(run("(!= 5 5)"), boolean(false));
}

#[test]
fn apply_operator_on_values() {
    assert_eq!(apply_operator(Operator::Add, 2, 3), number(5));
    assert_eq!(apply_operator(Operator::Sub, 2, 3), number(-1));
    assert_eq!(apply_operator(Operator::Mul, 2, 3), number(6));
    assert_eq!(apply_operator(Operator::Div, 9, 2), number(4));
    assert_eq!(apply_operator(Operator::Less, 2, 3), boolean(true));
    assert_eq!(apply_operator(Operator::Greater, 2, 3), boolean(false));
    assert_eq!(apply_operator(Operator::Equal, 2, 3), boolean(false));
    assert_eq!(apply_operator(Operator::NotEqual, 2, 3), boolean(true));
    assert_eq!(operator("+"), Some(Operator::Add));
    assert_eq!(operator("-"), Some(Operator::Sub));
    assert_eq!(operator("*"), Some(Operator::Mul));
    assert_eq!(operator("/"), Some(Operator::Div));
    assert_eq!(operator("<"), Some(Operator::Less));
    assert_eq!(operator(">"), Some(Operator::Greater));
    assert_eq!(operator("="), Some(Operator::Equal));
    assert_eq!(operator("!="), Some(Operator::NotEqual));
    assert_eq!(operator("=="), None);
    assert_eq!(operator("define"), None);
}

#[test]
fn operators_take_two_integer_operands() {
    assert_eq!(run("(+ 1)"), Err(EvalError::ArityError));
    assert_eq!(run("(+ 1 2 3)"), Err(EvalError::ArityError));
    assert_eq!(run("(*)"), Err(EvalError::ArityError));
    assert_eq!(run("(+ (< 1 2) 3)"), Err(EvalError::TypeError(Operand::Left)));
    assert_eq!(run("(+ 3 (< 1 2))"), Err(EvalError::TypeError(Operand::Right)));
    assert_eq!(run("(+ (< 1 2) (< 1 2))"), Err(EvalError::TypeError(Operand::Left)));
    assert_eq!(run("(+ x 1)"), Err(EvalError::UnboundSymbol("x".to_string())));
}

#[test]
fn define_then_use() {
    let mut env = Meta::new();
    assert_eq!(eval("(define x 10)", &mut env), Ok(Object::Void));
    assert_eq!(eval_obj(&Object::Symbol("x".to_string()), &mut env, 0), number(10));
    assert_eq!(eval("(+ x 1)", &mut env), number(11));
    assert_eq!(eval("(define x (* x x))", &mut env), Ok(Object::Void));
    assert_eq!(env.get("x"), Some(Object::Integer(100)));
}

#[test]
fn malformed_definitions() {
    assert_eq!(run("(define x)"), Err(EvalError::ArityError));
    assert_eq!(run("(define x 1 2)"), Err(EvalError::ArityError));
    assert_eq!(run("(define 5 1)"), Err(EvalError::InvalidForm));
    assert_eq!(run("(define (x) 1)"), Err(EvalError::InvalidForm));
    assert_eq!(run("(define x y)"), Err(EvalError::UnboundSymbol("y".to_string())));
}

#[test]
fn if_takes_one_branch() {
    assert_eq!(run("(if (> 3 2) 1 2)"), number(1));
    assert_eq!(run("(if (> 2 3) 1 2)"), number(2));
    let mut env = Meta::new();
    assert_eq!(
        eval("(if (> 3 2) (define a 1) (define b 2))", &mut env),
        Ok(Object::Void)
    );
    assert_eq!(env.get("a"), Some(Object::Integer(1)));
    assert_eq!(env.get("b"), None);
    assert_eq!(eval("(if (< 3 2) (define c 1) (/ 1 0))", &mut env), Err(EvalError::DivisionByZero));
    assert_eq!(env.get("c"), None);
    assert_eq!(eval("(if (< 3 2) (/ 1 0) 7)", &mut env), number(7));
}

#[test]
fn malformed_conditionals() {
    assert_eq!(run("(if (> 3 2) 1)"), Err(EvalError::ArityError));
    assert_eq!(run("(if (> 3 2) 1 2 3)"), Err(EvalError::ArityError));
    assert_eq!(run("(if 1 2 3)"), Err(EvalError::TypeError(Operand::Condition)));
    assert_eq!(run("(if () 2 3)"), Err(EvalError::TypeError(Operand::Condition)));
}

#[test]
fn define_and_call_square() {
    let mut env = Meta::new();
    assert_eq!(eval("(define square (lambda (n) (* n n)))", &mut env), Ok(Object::Void));
    assert_eq!(eval("(square 5)", &mut env), number(25));
    assert_eq!(eval("(square (square 3))", &mut env), number(81));
    assert_eq!(env.get("n"), None);
}

#[test]
fn lambda_form_gives_a_procedure() {
    let mut env = Meta::new();
    assert_eq!(
        eval("(lambda (a b) (+ a b))", &mut env),
        Ok(Object::Lambda(
            vec!["a".to_string(), "b".to_string()],
            vec![
                Object::Symbol("+".to_string()),
                Object::Symbol("a".to_string()),
                Object::Symbol("b".to_string()),
            ],
        ))
    );
    assert_eq!(env, Meta::new());
    assert_eq!(run("(lambda () 1)"), Err(EvalError::InvalidForm));
    assert_eq!(run("(lambda x (1))"), Err(EvalError::InvalidForm));
    assert_eq!(run("(lambda (1) (1))"), Err(EvalError::InvalidForm));
    assert_eq!(run("(lambda (a (b)) (1))"), Err(EvalError::InvalidForm));
    assert_eq!(run("(lambda (a))"), Err(EvalError::ArityError));
    assert_eq!(run("(lambda (a) (a) (a))"), Err(EvalError::ArityError));
    assert_eq!(
        eval_function_definition(&vec![
            Object::Symbol("lambda".to_string()),
            Object::List(vec![]),
            Object::List(vec![]),
        ]),
        Ok(Object::Lambda(vec![], vec![]))
    );
}

#[test]
fn a_bare_procedure_evaluates_to_void() {
    let mut env = Meta::new();
    let f = Object::Lambda(vec!["a".to_string()], vec![Object::Integer(1)]);
    assert_eq!(eval_obj(&f, &mut env, 3), Ok(Object::Void));
    assert_eq!(eval_obj(&Object::Void, &mut env, 0), Ok(Object::Void));
    assert_eq!(eval_obj(&Object::Bool(true), &mut env, 0), boolean(true));
    assert_eq!(eval_obj(&Object::Integer(-4), &mut env, 0), number(-4));
}

#[test]
fn calls_of_what_is_no_procedure() {
    assert_eq!(run("(foo 1)"), Err(EvalError::UnboundSymbol("foo".to_string())));
    let mut env = Meta::new();
    assert_eq!(eval("(define x 10)", &mut env), Ok(Object::Void));
    assert_eq!(eval("(x 1)", &mut env), Err(EvalError::NotAProcedure));
    assert_eq!(eval("(x)", &mut env), Err(EvalError::NotAProcedure));
}

#[test]
fn argument_count_must_match() {
    let mut env = Meta::new();
    assert_eq!(eval("(define square (lambda (n) (* n n)))", &mut env), Ok(Object::Void));
    assert_eq!(eval("(square 1 2)", &mut env), Err(EvalError::ArityError));
    assert_eq!(eval("(square)", &mut env), Err(EvalError::ArityError));
    assert_eq!(eval("(square (define leak 1) 2)", &mut env), Err(EvalError::ArityError));
    assert_eq!(env.get("leak"), None);
}

#[test]
fn nested_arithmetic() {
    assert_eq!(run("(+ (* 2 3) (- 10 4))"), number(12));
    assert_eq!(run("(- (/ 100 (+ 3 2)) (* (- 0 2) 4))"), number(28));
}

#[test]
fn a_list_with_no_symbol_at_its_head_is_data() {
    assert_eq!(
        run("(1 (+ 1 1) 3)"),
        Ok(Object::List(vec![Object::Integer(1), Object::Integer(2), Object::Integer(3)]))
    );
    assert_eq!(
        run("((define a 1) (define b 2) a b)"),
        Ok(Object::List(vec![Object::Integer(1), Object::Integer(2)]))
    );
    assert_eq!(run("((define a 1))"), Ok(Object::List(vec![])));
    assert_eq!(run("()"), Ok(Object::Void));
    assert_eq!(run("(())"), Ok(Object::List(vec![])));
    assert_eq!(run("(1 zz 3)"), Err(EvalError::UnboundSymbol("zz".to_string())));
}

#[test]
fn free_names_are_looked_up_at_the_call() {
    let mut env = Meta::new();
    assert_eq!(eval("(define addk (lambda (n) (+ n k)))", &mut env), Ok(Object::Void));
    assert_eq!(eval("(addk 1)", &mut env), Err(EvalError::UnboundSymbol("k".to_string())));
    assert_eq!(eval("(define k 10)", &mut env), Ok(Object::Void));
    assert_eq!(eval("(addk 1)", &mut env), number(11));
    assert_eq!(eval("(define outer (lambda (k) (addk 1)))", &mut env), Ok(Object::Void));
    assert_eq!(eval("(outer 100)", &mut env), number(101));
    assert_eq!(env.get("k"), Some(Object::Integer(10)));
}

#[test]
fn a_body_of_several_forms_gives_their_values() {
    let mut env = Meta::new();
    assert_eq!(
        eval("(define f (lambda (a) ((define t (* a 2)) (+ t 1) (- t 1))))", &mut env),
        Ok(Object::Void)
    );
    assert_eq!(
        eval("(f 5)", &mut env),
        Ok(Object::List(vec![Object::Integer(11), Object::Integer(9)]))
    );
    assert_eq!(env.get("t"), None);
    assert_eq!(env.get("a"), None);
}

#[test]
fn arguments_are_evaluated_in_the_callers_environment() {
    let mut env = Meta::new();
    assert_eq!(eval("(define second (lambda (a b) (+ b 0)))", &mut env), Ok(Object::Void));
    assert_eq!(eval("(define a 7)", &mut env), Ok(Object::Void));
    assert_eq!(eval("(second 1 a)", &mut env), number(7));
    assert_eq!(eval("(second (define made 3) made)", &mut env), number(3));
    assert_eq!(env.get("made"), Some(Object::Integer(3)));
}

#[test]
fn bindings_before_a_failure_persist() {
    let mut env = Meta::new();
    assert_eq!(
        eval("((define kept 1) (/ 1 0) (define lost 2))", &mut env),
        Err(EvalError::DivisionByZero)
    );
    assert_eq!(env.get("kept"), Some(Object::Integer(1)));
    assert_eq!(env.get("lost"), None);
}

#[test]
fn recursion_within_the_limit() {
    let mut env = Meta::new();
    assert_eq!(
        eval(
            "(define fact (lambda (n) (if (< n 2) 1 (* n (fact (- n 1))))))",
            &mut env
        ),
        Ok(Object::Void)
    );
    assert_eq!(eval("(fact 10)", &mut env), number(3628800));
    assert_eq!(eval("(fact 21)", &mut env), Err(EvalError::Overflow));
}

#[test]
fn endless_recursion_ends_at_the_limit() {
    let mut env = Meta::new();
    assert_eq!(eval("(define loop (lambda (n) (loop n)))", &mut env), Ok(Object::Void));
    assert_eq!(eval("(loop 1)", &mut env), Err(EvalError::DepthExceeded));
    assert_eq!(env.get("n"), None);
    assert_eq!(eval("(+ 1 1)", &mut env), number(2));
    assert_eq!(MAX_DEPTH, 400);
}

#[test]
fn depth_counts_nested_lists() {
    let mut env = Meta::new();
    let sum = Object::List(vec![
        Object::Symbol("+".to_string()),
        Object::Integer(1),
        Object::List(vec![
            Object::Symbol("+".to_string()),
            Object::Integer(2),
            Object::Integer(3),
        ]),
    ]);
    assert_eq!(eval_obj(&sum, &mut env, 0), Err(EvalError::DepthExceeded));
    assert_eq!(eval_obj(&sum, &mut env, 1), Err(EvalError::DepthExceeded));
    assert_eq!(eval_obj(&sum, &mut env, 2), number(6));
}

#[test]
fn text_that_is_no_form() {
    assert_eq!(run("+ 1 2"), Err(EvalError::Parse(ParseFault::MissingOpen)));
    assert_eq!(run(""), Err(EvalError::Parse(ParseFault::MissingOpen)));
    assert_eq!(run("(+ 1 2"), Err(EvalError::Parse(ParseFault::Unclosed)));
}

#[test]
fn operator_form_with_another_head() {
    let mut env = Meta::new();
    let odd = vec![Object::Symbol("plus".to_string()), Object::Integer(1), Object::Integer(2)];
    assert_eq!(
        lisp_sh::evaluator::eval_binary_op(&odd, &mut env, 3),
        Err(EvalError::InvalidForm)
    );
    let headless = vec![Object::Integer(0), Object::Integer(1), Object::Integer(2)];
    assert_eq!(
        lisp_sh::evaluator::eval_binary_op(&headless, &mut env, 3),
        Err(EvalError::InvalidForm)
    );
    let typed = vec![Object::Symbol("plus".to_string()), Object::Bool(true), Object::Integer(2)];
    assert_eq!(
        lisp_sh::evaluator::eval_binary_op(&typed, &mut env, 3),
        Err(EvalError::TypeError(Operand::Left))
    );
}

#[test]
fn eval_each_keeps_or_drops_void() {
    let mut env = Meta::new();
    let items = vec![
        Object::Integer(1),
        Object::Void,
        Object::Lambda(vec![], vec![]),
        Object::Bool(false),
    ];
    assert_eq!(
        lisp_sh::evaluator::eval_each(&items, 0, false, &mut env, 1),
        Ok(vec![Object::Integer(1), Object::Bool(false)])
    );
    assert_eq!(
        lisp_sh::evaluator::eval_each(&items, 1, true, &mut env, 1),
        Ok(vec![Object::Void, Object::Void, Object::Bool(false)])
    );
    assert_eq!(lisp_sh::evaluator::eval_each(&items, 4, true, &mut env, 1), Ok(vec![]));
    assert_eq!(lisp_sh::evaluator::eval_each(&items, 9, false, &mut env, 1), Ok(vec![]));
}

#[test]
fn parameters_with_one_name_take_the_last_argument() {
    let mut env = Meta::new();
    assert_eq!(eval("(define f (lambda (a a) (+ a 0)))", &mut env), Ok(Object::Void));
    assert_eq!(eval("(f 1 2)", &mut env), number(2));
}

#[test]
fn definitions_inside_a_call_shadow() {
    let mut env = Meta::new();
    assert_eq!(eval("(define x 1)", &mut env), Ok(Object::Void));
    assert_eq!(eval("(define f (lambda (n) ((define x n) (+ x 0))))", &mut env), Ok(Object::Void));
    assert_eq!(eval("(f 5)", &mut env), Ok(Object::List(vec![Object::Integer(5)])));
    assert_eq!(env.get("x"), Some(Object::Integer(1)));
}
