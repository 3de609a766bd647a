use rlox::error::Error;
use rlox::value::{Heap, ObjectType, Value};
use rlox::vm::{Arith, Comparison, Outcome, Request, VM};

/// Does the floating-point work the machine asks for, as a host would.
fn answer(vm: &mut VM, request: Request) {
    match request {
        Request::Parse(text) => vm.supply_number(text.parse::<f64>().unwrap().to_bits()),
        Request::Negate(a) => vm.supply_number((-f64::from_bits(a)).to_bits()),
        Request::Arithmetic(op, a, b) => {
            let (x, y) = (f64::from_bits(a), f64::from_bits(b));
            let r = match op {
                Arith::Add => x + y,
                Arith::Subtract => x - y,
                Arith::Multiply => x * y,
                Arith::Divide => x / y,
            };
            vm.supply_number(r.to_bits());
        }
        Request::Compare(op, a, b) => {
            let (x, y) = (f64::from_bits(a), f64::from_bits(b));
            vm.supply_bool(match op {
                Comparison::Equal => x == y,
                Comparison::Less => x < y,
                Comparison::Greater => x > y,
            });
        }
    }
}

fn show(v: &Value) -> String {
    match v {
        Value::Bool(b) => b.to_string(),
        Value::Nil => String::new(),
        Value::Number(n) => f64::from_bits(*n).to_string(),
        Value::Object(ObjectType::String(s)) => s.clone(),
    }
}

/// Runs `source` on `vm`; returns what it printed and how it ended.
fn run_on(vm: &mut VM, source: &'static str) -> (Vec<String>, Result<(), Error>) {
    let mut out = Vec::new();
    if let Err(e) = vm.interpret(source) {
        return (out, Err(e));
    }
    loop {
        match vm.run() {
            Outcome::Compute(request) => answer(vm, request),
            Outcome::Print(v) => out.push(show(&v)),
            Outcome::Finished => return (out, Ok(())),
            Outcome::Failed(e) => return (out, Err(e)),
        }
    }
}

fn run(source: &'static str) -> (Vec<String>, Result<(), Error>) {
    let mut vm = VM::new();
    run_on(&mut vm, source)
}

fn prints(source: &'static str) -> Vec<String> {
    let (out, r) = run(source);
    assert_eq!(r, Ok(()));
    out
}

#[test]
fn logical_negation_uses_falsiness() {
    assert_eq!(prints("print !true;"), vec!["false"]);
    assert_eq!(prints("print !nil;"), vec!["true"]);
    assert_eq!(prints("print !0;"), vec!["false"]);
    assert_eq!(prints("print !false;"), vec!["true"]);
    assert_eq!(prints("print !\"\";"), vec!["false"]);
}

#[test]
fn string_concatenation() {
    assert_eq!(prints("print \"a\" + \"b\";"), vec!["ab"]);
    assert_eq!(run("print \"a\" + 1;"), (vec![], Err(Error::Runtime)));
    assert_eq!(run("print 1 + \"a\";"), (vec![], Err(Error::Runtime)));
    assert_eq!(run("print \"a\" - \"b\";"), (vec![], Err(Error::Runtime)));
}

#[test]
fn division_follows_floating_point() {
    assert_eq!(prints("print 1 / 0;"), vec!["inf"]);
    assert_eq!(prints("print 0 / 0;"), vec!["NaN"]);
    assert_eq!(prints("print -1 / 0;"), vec!["-inf"]);
}

#[test]
fn arithmetic_and_precedence() {
    assert_eq!(prints("print 1 + 2 * 3;"), vec!["7"]);
    assert_eq!(prints("print (1 + 2) * 3;"), vec!["9"]);
    assert_eq!(prints("print 10 - 4 - 3;"), vec!["3"]);
    assert_eq!(prints("print 2.5 * 2;"), vec!["5"]);
    assert_eq!(prints("print -(3);"), vec!["-3"]);
}

#[test]
fn comparisons() {
    assert_eq!(
        prints("print 1 < 2; print 2 <= 2; print 3 > 4; print 3 >= 4; print 1 == 1; print 1 != 1;"),
        vec!["true", "true", "false", "false", "true", "false"]
    );
    assert_eq!(run("print \"a\" < \"b\";"), (vec![], Err(Error::Runtime)));
    assert_eq!(run("print true > false;"), (vec![], Err(Error::Runtime)));
}

#[test]
fn equality_within_and_across_tags() {
    assert_eq!(
        prints("print \"a\" == \"a\"; print nil == nil; print true == false; print 1 == \"1\"; print nil == false;"),
        vec!["true", "true", "false", "false", "false"]
    );
    assert_eq!(prints("print 0 / 0 == 0 / 0;"), vec!["false"]);
}

#[test]
fn global_variables() {
    assert_eq!(prints("var x = 1; print x;"), vec!["1"]);
    assert_eq!(prints("var y; print y;"), vec![""]);
    assert_eq!(prints("var x = 1; var x = 2; print x;"), vec!["2"]);
}

#[test]
fn globals_persist_across_runs() {
    let mut vm = VM::new();
    assert_eq!(run_on(&mut vm, "var x = \"kept\";"), (vec![], Ok(())));
    assert_eq!(run_on(&mut vm, "print x;"), (vec!["kept".to_string()], Ok(())));
    assert_eq!(run_on(&mut vm, "var x = 2; print x;"), (vec!["2".to_string()], Ok(())));
}

#[test]
fn undefined_variable_is_a_runtime_error() {
    assert_eq!(run("print 1; print nope;"), (vec!["1".to_string()], Err(Error::Runtime)));
}

#[test]
fn negating_a_string_is_a_runtime_error() {
    assert_eq!(run("print -\"a\";"), (vec![], Err(Error::Runtime)));
    assert_eq!(run("print 2 * true;"), (vec![], Err(Error::Runtime)));
}

#[test]
fn syntax_errors_stop_before_running() {
    assert_eq!(run("print 1; print ;"), (vec![], Err(Error::Compiler)));
    assert_eq!(run("print \"abc"), (vec![], Err(Error::Compiler)));
}

#[test]
fn expression_statements_leave_the_stack_balanced() {
    let mut vm = VM::new();
    assert_eq!(run_on(&mut vm, "1 + 2; \"a\"; var z = 3; print z;"), (vec!["3".to_string()], Ok(())));
    assert_eq!(vm.stack_len(), 0);
}

#[test]
fn error_messages() {
    assert_eq!(Error::Compiler.message(), "Compiler error.");
    assert_eq!(Error::Runtime.message(), "Runtime error");
}

#[test]
fn values_copy_and_truthiness() {
    let v = Value::Object(ObjectType::String("s".to_string()));
    assert!(matches!(v.duplicate(), Value::Object(ObjectType::String(ref s)) if s == "s"));
    assert!(Value::Nil.is_falsy());
    assert!(Value::Bool(false).is_falsy());
    assert!(!Value::Bool(true).is_falsy());
    assert!(!Value::Number(0).is_falsy());
    assert!(!v.is_falsy());
}

#[test]
fn heap_handles_are_stable() {
    let mut heap = Heap::new();
    let a = heap.allocate(ObjectType::String("a".to_string()));
    let b = heap.allocate(ObjectType::String("b".to_string()));
    assert_eq!((a.index, b.index), (0, 1));
    assert_eq!(heap.len(), 2);
    assert_eq!(heap.get(a), &ObjectType::String("a".to_string()));
    assert_eq!(heap.get(b), &ObjectType::String("b".to_string()));
}
