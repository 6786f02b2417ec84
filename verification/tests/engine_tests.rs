use steel::engine::Engine;
use steel::errors::ErrorKind;
use steel::values::Value;

fn run_one(src: &str) -> Value {
    let mut vm = Engine::new_base();
    let mut res = vm.run(src).expect("evaluation should succeed");
    res.pop().expect("at least one value")
}

#[test]
fn addition_of_three() {
    let v = run_one("(+ 1 2 3)");
    assert!(matches!(v, Value::IntV(6)));
}

#[test]
fn factorial_of_five() {
    let v = run_one("(define (fact n) (if (= n 0) 1 (* n (fact (- n 1))))) (fact 5)");
    assert!(matches!(v, Value::IntV(120)));
}

#[test]
fn deep_tail_recursion_completes() {
    let v = run_one("(define (count n) (if (= n 0) 'done (count (- n 1)))) (count 100000)");
    match v {
        Value::SymbolV(s) => assert_eq!(s, "done"),
        other => panic!("expected a symbol, got {:?}", other),
    }
}

#[test]
fn user_macro_expands() {
    let v = run_one(
        "(define-syntax my-if (syntax-rules () ((_ a b c) (if a b c)))) (my-if #t 1 2)",
    );
    assert!(matches!(v, Value::IntV(1)));
}

#[test]
fn mutual_recursion_through_internal_defines() {
    let v = run_one(
        "(define (outer) (define (even? n) (if (= n 0) #t (odd? (- n 1)))) (define (odd? n) (if (= n 0) #f (even? (- n 1)))) (even? 10)) (outer)",
    );
    assert!(matches!(v, Value::BoolV(true)));
}

#[test]
fn try_recovers_from_division_by_zero() {
    let v = run_one("(try! (/ 1 0) (quote recovered))");
    match v {
        Value::SymbolV(s) => assert_eq!(s, "recovered"),
        other => panic!("expected a symbol, got {:?}", other),
    }
}

#[test]
fn division_by_zero_is_an_error() {
    let mut vm = Engine::new_base();
    let err = vm.run("(/ 1 0)").unwrap_err();
    assert_eq!(err.error_kind(), ErrorKind::Generic);
}

#[test]
fn addition_overflow_is_an_error() {
    let mut vm = Engine::new_base();
    let err = vm.run("(+ 9223372036854775807 1)").unwrap_err();
    assert_eq!(err.error_kind(), ErrorKind::Generic);
}

#[test]
fn free_identifier_is_reported() {
    let mut vm = Engine::new_raw();
    let err = vm.run("(undefined-name 1)").unwrap_err();
    assert_eq!(err.error_kind(), ErrorKind::FreeIdentifier);
}

#[test]
fn unbalanced_source_is_a_parse_error() {
    let mut vm = Engine::new_base();
    let err = vm.run("(+ 1 2").unwrap_err();
    assert_eq!(err.error_kind(), ErrorKind::Parse);
}

#[test]
fn quote_arity_is_checked() {
    let mut vm = Engine::new_base();
    let err = vm.run("(quote a b)").unwrap_err();
    assert_eq!(err.error_kind(), ErrorKind::ArityMismatch);
}

#[test]
fn set_rebinds_nearest_binding() {
    let v = run_one("(define x 1) (set! x 41) (+ x 1)");
    assert!(matches!(v, Value::IntV(42)));
}

#[test]
fn set_of_unbound_name_fails() {
    let mut vm = Engine::new_base();
    let err = vm.run("(set! nope 1)").unwrap_err();
    assert_eq!(err.error_kind(), ErrorKind::FreeIdentifier);
}

#[test]
fn let_binds_in_parallel() {
    let v = run_one("(let ((a 10) (b 20)) (+ a b))");
    assert!(matches!(v, Value::IntV(30)));
}

#[test]
fn malformed_let_is_bad_syntax() {
    let mut vm = Engine::new_base();
    let err = vm.run("(let ((a)) a)").unwrap_err();
    assert_eq!(err.error_kind(), ErrorKind::BadSyntax);
}

#[test]
fn begin_evaluates_in_order_and_returns_last() {
    let v = run_one("(define x 1) (begin (set! x 5) (+ x 1))");
    assert!(matches!(v, Value::IntV(6)));
}

#[test]
fn map_prime_returns_results_in_order() {
    let v = run_one("(map' (lambda (x) (* x x)) (list 1 2 3))");
    let items = steel::primitives::collect_list_items(&v);
    assert_eq!(items.len(), 3);
    assert!(matches!(items[0], Value::IntV(1)));
    assert!(matches!(items[1], Value::IntV(4)));
    assert!(matches!(items[2], Value::IntV(9)));
}

#[test]
fn filter_prime_keeps_only_passing_elements() {
    let v = run_one("(filter' (lambda (x) (< x 3)) (list 1 2 3 4))");
    let items = steel::primitives::collect_list_items(&v);
    assert_eq!(items.len(), 2);
    assert!(matches!(items[0], Value::IntV(1)));
    assert!(matches!(items[1], Value::IntV(2)));
}

#[test]
fn apply_splices_the_final_list() {
    let v = run_one("(apply + 1 2 (list 3 4))");
    assert!(matches!(v, Value::IntV(10)));
}

#[test]
fn eval_runs_a_quoted_form() {
    let v = run_one("(eval (quote (+ 1 2)))");
    assert!(matches!(v, Value::IntV(3)));
}

#[test]
fn eval_of_a_procedure_is_a_contract_violation() {
    let mut vm = Engine::new_base();
    let err = vm.run("(eval (lambda (x) x))").unwrap_err();
    assert_eq!(err.error_kind(), ErrorKind::ContractViolation);
}

#[test]
fn struct_installs_factory_predicate_and_accessors() {
    let mut vm = Engine::new_base();
    let res = vm
        .run("(struct point (x y)) (define p (point 3 4)) (point-y p)")
        .expect("struct machinery");
    assert!(matches!(res[res.len() - 1], Value::IntV(4)));
    let res2 = vm.run("(point? p)").expect("predicate");
    assert!(matches!(res2[0], Value::BoolV(true)));
    let res3 = vm.run("(point-x (set-point-x! p 7))").expect("setter");
    assert!(matches!(res3[0], Value::IntV(7)));
}

#[test]
fn prelude_defines_derived_helpers() {
    let mut vm = Engine::new();
    let res = vm.run("(cadr (list 1 2 3))").expect("prelude helper");
    assert!(matches!(res[0], Value::IntV(2)));
}

#[test]
fn registered_values_are_visible() {
    let mut vm = Engine::new_base();
    vm.register_value("answer", Value::IntV(42));
    let res = vm.run("(+ answer 0)").expect("registered binding");
    assert!(matches!(res[0], Value::IntV(42)));
    let back = vm.extract_value("answer").expect("extract");
    assert!(matches!(back, Value::IntV(42)));
    let n: i64 = vm.extract("answer").expect("typed extract");
    assert_eq!(n, 42);
}

#[test]
fn registered_type_predicate_tests_kinds() {
    let mut vm = Engine::new_base();
    vm.register_type::<i64>("int?");
    let res = vm.run("(int? 1)").expect("predicate");
    assert!(matches!(res[0], Value::BoolV(true)));
    let res2 = vm.run("(int? #t)").expect("predicate");
    assert!(matches!(res2[0], Value::BoolV(false)));
}

#[test]
fn require_splices_a_registered_module() {
    let mut vm = Engine::new_base();
    vm.register_module("lib/util", "(define seven 7)")
        .expect("module registration");
    let res = vm
        .run("(require \"lib/util\") (+ seven 1)")
        .expect("require");
    assert!(matches!(res[res.len() - 1], Value::IntV(8)));
}

#[test]
fn require_of_unknown_path_fails() {
    let mut vm = Engine::new_base();
    let err = vm.run("(require \"nowhere\")").unwrap_err();
    assert_eq!(err.error_kind(), ErrorKind::Generic);
}

#[test]
fn comparison_chain_and_booleans() {
    let v = run_one("(< 1 2 3)");
    assert!(matches!(v, Value::BoolV(true)));
    let v2 = run_one("(<= 2 2 1)");
    assert!(matches!(v2, Value::BoolV(false)));
}

#[test]
fn characters_and_strings_evaluate_to_themselves() {
    let v = run_one("#\\a");
    assert!(matches!(v, Value::CharV('a')));
    let v2 = run_one("\"hi\\\"there\"");
    match v2 {
        Value::StringV(s) => assert_eq!(s, "hi\"there"),
        other => panic!("expected a string, got {:?}", other),
    }
}

#[test]
fn no_matching_syntax_rule_is_bad_syntax() {
    let mut vm = Engine::new_base();
    let err = vm
        .run("(define-syntax pairify (syntax-rules () ((_ a) (list a a)))) (pairify 1 2)")
        .unwrap_err();
    assert_eq!(err.error_kind(), ErrorKind::BadSyntax);
}

#[test]
fn lambda_arity_is_fatal() {
    let mut vm = Engine::new_base();
    let err = vm.run("((lambda (x y) x) 1)").unwrap_err();
    assert_eq!(err.error_kind(), ErrorKind::ArityMismatch);
}

#[test]
fn applying_a_non_procedure_is_a_type_error() {
    let mut vm = Engine::new_base();
    let err = vm.run("(1 2 3)").unwrap_err();
    assert_eq!(err.error_kind(), ErrorKind::TypeMismatch);
}

#[test]
fn raw_engine_binds_nothing() {
    let mut vm = Engine::new_raw();
    let err = vm.run("(+ 1 2 3)").unwrap_err();
    assert_eq!(err.error_kind(), ErrorKind::FreeIdentifier);
    let mut base = Engine::new_base();
    let vs = base.run("(+ 1 2 3)").unwrap();
    assert!(matches!(vs[0], Value::IntV(6)));
}

#[test]
fn meta_engine_lists_every_default_name() {
    let mut vm = Engine::new_with_meta();
    let mut names = Vec::new();
    let mut cur = vm.extract_value("*env*").expect("*env* is bound");
    while let Value::Pair(a, d) = cur {
        match *a {
            Value::SymbolV(s) => names.push(s),
            other => panic!("not a symbol: {:?}", other),
        }
        cur = *d;
    }
    let expected = vec![
        "+", "-", "*", "/", "=", "<", ">", "<=", ">=", "list", "cons", "car", "cdr", "null?",
    ];
    assert_eq!(names, expected);
}
