use lib::oracle::eval::Interpreter;
use lib::oracle::value::Value;

fn run(source: &str) -> Result<Value, String> {
    let mut interpreter = Interpreter::new();
    interpreter.run(source)
}

fn integer(source: &str) -> i64 {
    match run(source) {
        Ok(Value::Int(v)) => v,
        Ok(other) => panic!("not an int: {}", other.write_form()),
        Err(e) => panic!("error: {}", e),
    }
}

fn shown(source: &str) -> String {
    match run(source) {
        Ok(v) => v.write_form(),
        Err(e) => panic!("error: {}", e),
    }
}

fn error(source: &str) -> String {
    match run(source) {
        Ok(v) => panic!("expected an error, got {}", v.write_form()),
        Err(e) => e,
    }
}

#[test]
fn arithmetic_folds_left_to_right() {
    assert_eq!(integer("(+ 1 2 3)"), 6);
    assert_eq!(integer("(- 10 3 2)"), 5);
    assert_eq!(integer("(- 5)"), -5);
    assert_eq!(integer("(* 2 3 4)"), 24);
    assert_eq!(integer("(/ 100 5 2)"), 10);
    assert_eq!(integer("(/ -7 2)"), -3);
    assert_eq!(integer("(mod -7 3)"), -1);
    assert_eq!(integer("(min 3 1 2)"), 1);
    assert_eq!(integer("(max 3 1 2)"), 3);
    assert_eq!(integer("(abs -4)"), 4);
    assert_eq!(integer("(+)"), 0);
}

#[test]
fn arithmetic_errors() {
    assert_eq!(error("(/ 7 0)"), "division by zero");
    assert_eq!(error("(mod 7 0)"), "division by zero");
    assert_eq!(error("(-)"), "- expects at least one argument");
    assert_eq!(error("(+ 1 \"a\")"), "expected an int, got string");
    assert_eq!(error("(abs 1 2)"), "abs expects 1 argument(s)");
}

#[test]
fn arithmetic_wraps_at_the_edges() {
    assert_eq!(integer("(+ 9223372036854775807 1)"), i64::MIN);
}

#[test]
fn definitions_and_calls() {
    assert_eq!(integer("(define (square x) (* x x)) (square 7)"), 49);
    assert_eq!(integer("(define x 4) (set! x (+ x 1)) x"), 5);
    assert_eq!(integer("(let ((x 2) (y 3)) (* x y))"), 6);
    assert_eq!(integer("(define (sum &rest xs) (fold + 0 xs)) (sum 1 2 3 4)"), 10);
    assert_eq!(error("(define (f a b) a) (f 1)"), "f expects 2 argument(s), got 1");
    assert_eq!(error("(set! nowhere 1)"), "set!: nowhere is not bound");
    assert_eq!(error("(nosuch)"), "unbound name: nosuch");
}

#[test]
fn control_forms() {
    assert_eq!(integer("(if (< 1 2) 10 20)"), 10);
    assert_eq!(shown("(if false 1)"), "nil");
    assert_eq!(integer("(define n 0) (while (< n 5) (set! n (+ n 1))) n"), 5);
    assert_eq!(integer("(cond ((= 1 2) 1) (else 2))"), 2);
    assert_eq!(shown("(and 1 false 3)"), "false");
    assert_eq!(integer("(or false nil 7)"), 7);
    assert_eq!(integer("(begin 1 2 3)"), 3);
    assert_eq!(shown("(quote (a \"b\" 1))"), "(a \"b\" 1)");
    assert_eq!(shown("'x"), "x");
}

#[test]
fn tail_calls_run_in_constant_depth() {
    assert_eq!(shown("(define (count n) (if (= n 0) 'done (count (- n 1)))) (count 20000)"), "done");
}

#[test]
fn deep_recursion_is_stopped() {
    assert_eq!(integer("(define (f n) (if (= n 0) 0 (+ 1 (f (- n 1))))) (f 50)"), 50);
    assert_eq!(
        error("(define (f n) (if (= n 0) 0 (+ 1 (f (- n 1))))) (f 300)"),
        "recursion too deep (ORACLE gave up at 256 frames)"
    );
}

#[test]
fn lists() {
    assert_eq!(shown("(map (lambda (x) (* x x)) (range 4))"), "(0 1 4 9)");
    assert_eq!(shown("(filter (lambda (n) (= 0 (mod n 3))) (range 10))"), "(0 3 6 9)");
    assert_eq!(integer("(fold + 0 (range 101))"), 5050);
    assert_eq!(shown("(range 2 5)"), "(2 3 4)");
    assert_eq!(shown("(reverse (list 1 2 3))"), "(3 2 1)");
    assert_eq!(shown("(append (list 1) nil (list 2))"), "(1 2)");
    assert_eq!(shown("(cons 0 (list 1))"), "(0 1)");
    assert_eq!(integer("(car (list 5 6))"), 5);
    assert_eq!(shown("(cdr (list 5 6))"), "(6)");
    assert_eq!(shown("(car nil)"), "nil");
    assert_eq!(integer("(nth (list 1 2 3) 1)"), 2);
    assert_eq!(shown("(nth (list 1 2 3) 9)"), "nil");
    assert_eq!(integer("(length (list 1 2 3))"), 3);
    assert_eq!(error("(range 200000)"), "range is too large");
    assert_eq!(error("(car 5)"), "expected a list, got int");
}

#[test]
fn equality_is_structural() {
    assert_eq!(shown("(= (list 1 \"a\") (list 1 \"a\"))"), "true");
    assert_eq!(shown("(= (list 1) (list 2))"), "false");
    assert_eq!(shown("(= car car)"), "false");
    assert_eq!(shown("(/= 1 2)"), "true");
}

#[test]
fn strings() {
    assert_eq!(shown("(str \"a\" 1 (list 1 2))"), "\"a1(1 2)\"");
    assert_eq!(integer("(length \"h\u{e9}llo\")"), 6);
    assert_eq!(integer("(str-len \"abc\")"), 3);
    assert_eq!(shown("(substr \"hello\" 1 3)"), "\"ell\"");
    assert_eq!(shown("(substr \"hello\" 3 99)"), "\"lo\"");
    assert_eq!(shown("(upper \"abc\")"), "\"ABC\"");
    assert_eq!(shown("(lower \"ABC\")"), "\"abc\"");
    assert_eq!(shown("(split \"a,b,,c\" \",\")"), "(\"a\" \"b\" \"\" \"c\")");
    assert_eq!(shown("(chr 65)"), "\"A\"");
    assert_eq!(shown("(chr 55296)"), "\"?\"");
    assert_eq!(integer("(ord \"A\")"), 65);
    assert_eq!(shown("(type \"x\")"), "\"string\"");
    assert_eq!(error("(split \"abc\" \"\")"), "split needs a non-empty separator");
}

#[test]
fn printing_is_collected() {
    let mut interpreter = Interpreter::new();
    let result = interpreter.run("(print 1 \"x\" (list 2)) (print \"done\")");
    assert!(matches!(result, Ok(Value::Nil)));
    let lines = interpreter.take_output();
    assert_eq!(lines, vec!["1 x (2)".to_string(), "done".to_string()]);
    assert!(interpreter.take_output().is_empty());
}

#[test]
fn reading_errors_come_first() {
    let e = error("(+ 1 2");
    assert!(!e.is_empty());
    assert!(matches!(run(""), Ok(Value::Nil)));
}

#[test]
fn the_environment_lists_builtins() {
    let names = shown("(env)");
    assert!(names.contains("\"car\""));
    assert!(names.contains("\"map\""));
}
