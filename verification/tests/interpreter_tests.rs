use yarrlox::errors::SimpleReporter;
use yarrlox::interpreter::{Interpreter, InterpreterError, InterpreterOutput};
use yarrlox::num::Num;
use yarrlox::parser::ParserErrorKind;
use yarrlox::resolver::ResolverError;
use yarrlox::value::{Type, Value};
use yarrlox::EvalErrors;

struct RunResults {
    v: Result<Value, EvalErrors>,
    output: String,
}

impl RunResults {
    fn assert_output(&self, expected: &str) {
        if let Err(_) = &self.v {
            panic!("interpreter failed");
        }
        assert_eq!(self.output.trim(), expected.trim());
    }

    fn assert_v(&self, expected: Value) {
        match &self.v {
            Ok(v) => assert!(*v == expected),
            Err(_) => panic!("interpreter failed"),
        }
    }

    fn assert_syn_err(self, expected: &[ParserErrorKind]) {
        let errs = match self.v {
            Err(e) => e.unwrap_syn(),
            Ok(_) => panic!("expected syntax errors"),
        };
        let kinds: Vec<ParserErrorKind> = errs.into_iter().map(|err| err.error_kind).collect();
        assert_eq!(kinds, expected);
    }

    fn assert_resolution_err(self, expected: ResolverError) {
        let err = match self.v {
            Err(e) => e.unwrap_resolution(),
            Ok(_) => panic!("expected a resolution error"),
        };
        assert_eq!(err, expected);
    }

    fn assert_runtime_err(self, expected: &[InterpreterError]) {
        let errs = match self.v {
            Err(e) => e.unwrap_runtime(),
            Ok(_) => panic!("expected runtime errors"),
        };
        assert_eq!(errs, expected);
    }
}

fn run(source: &str) -> RunResults {
    let mut parser = yarrlox::parser::Parser::new();
    let mut interpreter = Interpreter::new(InterpreterOutput::String(Vec::new()));
    let mut reporter = SimpleReporter::new();
    let v = yarrlox::eval(
        &source.as_bytes().to_vec(),
        &mut reporter,
        &mut parser,
        &mut interpreter,
    );

    RunResults {
        v,
        output: String::from_utf8(interpreter.get_output()).unwrap(),
    }
}

fn num(n: i64) -> Value {
    Value::Num(Num::from_i64(n))
}

fn rational(n: i64, d: u64) -> Value {
    Value::Num(Num { n, d })
}

fn string(s: &str) -> Value {
    Value::string(s.as_bytes().to_vec())
}

#[test]
fn var_definition() {
    let src = r#"
var x = 5;
return x;
"#;

    run(src).assert_v(num(5));
}

#[test]
fn type_mismatch() {
    let src = r#"
var x = 5;
var y = "asd";
return x + y;
"#;

    run(src).assert_runtime_err(&[InterpreterError::TypeError {
        expected: vec![Type::Num],
        found: Type::String,
    }]);
}

#[test]
fn multiple_syntax_errors() {
    let src = r#"
var y x;
var x =;
return x + y;
"#;

    run(src).assert_syn_err(&[
        ParserErrorKind::UnexpectedToken,
        ParserErrorKind::UnexpectedToken,
    ]);
}

#[test]
fn undefined_var_is_nil() {
    let src = r#"
return x;
"#;

    run(src).assert_v(Value::Nil);
}

#[test]
fn var_out_of_scope() {
    let src = r#"
{
  var x = 5;
}
return x;
"#;

    run(src).assert_v(Value::Nil);
}

#[test]
fn shadowing() {
    let src = r#"
var x = 5;

{
  var x = 10;
  print x;
}

return x;
"#;

    let run = run(src);
    run.assert_output("10");
    run.assert_v(num(5));
}

#[test]
fn mutation_in_a_scope() {
    let src = r#"
var x = 5;

{
  x = 10;
  print x;
}

return x;
"#;

    let run = run(src);
    run.assert_output("10");
    run.assert_v(num(10));
}

#[test]
fn string_concat() {
    let src = r#"
return "foo" + "bar";
"#;

    run(src).assert_v(string("foobar"));
}

#[test]
fn fun_def() {
    let src = r#"
fun pow(x) {
  return x * x;
}

return pow(5);
"#;

    run(src).assert_v(num(25));
}

#[test]
fn partial_application() {
    let src = r#"
fun adder(x) {
  fun result(a) {
    return x + a;
  }

  return result;
}

var my_adder = adder(3);
return my_adder(5);
"#;

    run(src).assert_v(num(8));
}

#[test]
fn fun_with_fun_as_arg() {
    let src = r#"
fun inc(x) {
  return x + 1;
}

fun applier(fn, el) {
  return fn(el);
}

return applier(inc, 5);
"#;

    run(src).assert_v(num(6));
}

#[test]
fn closure() {
    let src = r#"
fun fun_gen(x) {
  // this function should capture the local x = 5 variable
  fun print_x() {
    return x;
  }

  return print_x;
}

var fn = fun_gen(5);

return fn();
    "#;

    run(src).assert_v(num(5));
}

#[test]
fn fib() {
    let fib = r#"
fun fib(n) {
  if (n <= 1) return n;
  return fib(n - 2) + fib(n - 1);
}

for (var i = 0; i < 15; i = i + 1) {
  print fib(i);
}
    "#;

    run(fib).assert_output(
        r#"
0
1
1
2
3
5
8
13
21
34
55
89
144
233
377
    "#,
    );
}

#[test]
fn break_outside_loop_is_syntax_error() {
    run("break;").assert_syn_err(&[ParserErrorKind::BreakOutsideLoop]);
}

#[test]
fn break_leaves_nearest_loop() {
    let src = r#"
var i = 0;
while (true) {
  i = i + 1;
  if (i > 2) break;
}
return i;
"#;

    run(src).assert_v(num(3));
}

#[test]
fn not_callable_continues_with_next_statement() {
    let src = r#"
var x = 5;
x(1);
print 7;
"#;

    let r = run(src);
    assert_eq!(r.output.trim(), "7");
    r.assert_runtime_err(&[InterpreterError::NotCallable]);
}

#[test]
fn arity_mismatch() {
    let src = r#"
fun f(a) { return a; }
f(1, 2);
"#;

    run(src).assert_runtime_err(&[InterpreterError::ArityMismatch { expected: 1, got: 2 }]);
}

#[test]
fn assign_nonexistent() {
    let src = "x = 5;";

    let errs = match run(src).v {
        Err(e) => e.unwrap_runtime(),
        Ok(_) => panic!("expected runtime errors"),
    };
    assert_eq!(errs.len(), 1);
    assert!(matches!(errs[0], InterpreterError::EnvError(_)));
}

#[test]
fn self_initialize_is_resolution_error() {
    let src = r#"
{
  var a = a;
}
"#;

    run(src).assert_resolution_err(ResolverError::SelfInitialize);
}

#[test]
fn multiple_declaration_is_resolution_error() {
    let src = r#"
{
  var a = 1;
  var a = 2;
}
"#;

    run(src).assert_resolution_err(ResolverError::MultipleDeclaration("a".as_bytes().to_vec()));
}

#[test]
fn exact_rational_arithmetic() {
    run("return 5 / 2;").assert_v(rational(5, 2));
    run("return 0.5 + 0.25;").assert_v(rational(3, 4));
    run("return 1/3 + 1/6 == 1/2;").assert_v(Value::Bool(true));
    run("return 2 - 5;").assert_v(num(-3));
    run("return -(3);").assert_v(num(-3));
}

#[test]
fn comparisons_and_equality() {
    run("return 1 < 2;").assert_v(Value::Bool(true));
    run("return 2 <= 2;").assert_v(Value::Bool(true));
    run("return 1 > 2;").assert_v(Value::Bool(false));
    run("return 1 == 1;").assert_v(Value::Bool(true));
    run("return 1 == \"1\";").assert_v(Value::Bool(false));
    run("return 1 != 2;").assert_v(Value::Bool(true));
    run("return nil == nil;").assert_v(Value::Bool(true));
}

#[test]
fn truthiness_and_logic() {
    run("return nil or 3;").assert_v(num(3));
    run("return 2 or 3;").assert_v(num(2));
    run("return nil and 3;").assert_v(Value::Nil);
    run("return 2 and 3;").assert_v(num(3));
    run("return !nil;").assert_v(Value::Bool(true));
    run("return !0;").assert_v(Value::Bool(false));
    run("var x = 5; false and (x = 7); return x;").assert_v(num(5));
}

#[test]
fn print_renders_values() {
    run("print 2.5;").assert_output("2.5");
    run("print 0.5;").assert_output("0.5");
    run("print -2.5;").assert_output("-2.5");
    run("print 1/3;").assert_output("1/3");
    run("print \"hi\";").assert_output("\"hi\"");
    run("print true;").assert_output("true");
    run("print nil;").assert_output("nil");
    run("print -7;").assert_output("-7");
}

#[test]
fn top_level_return_stops_the_run() {
    let r = run("return 1; print 2;");
    assert_eq!(r.output, "");
    r.assert_v(num(1));
}

#[test]
fn assignment_targets_the_resolved_binding() {
    // The closure's `x` resolves to the global before the block's own
    // `x` exists, so reads and writes of that reference both reach the
    // global, not the later shadowing declaration.
    let src = r#"
var x = 1;
{
  fun set() { x = 99; }
  var x = 2;
  set();
  print x;
}
return x;
"#;

    let r = run(src);
    r.assert_output("2");
    r.assert_v(num(99));
}

#[test]
fn unterminated_string_is_unexpected_eof() {
    run("var x = \"abc").assert_syn_err(&[ParserErrorKind::UnexpectedEof]);
}

#[test]
fn forward_reference_to_later_global() {
    let src = r#"
fun f() { return g(); }
fun g() { return 4; }
return f();
"#;

    run(src).assert_v(num(4));
}

#[test]
fn numeric_overflow_is_reported() {
    run("return 9223372036854775807 + 1;")
        .assert_runtime_err(&[InterpreterError::NumericOverflow]);
    run("return 1 / 0;").assert_runtime_err(&[InterpreterError::NumericOverflow]);
}

#[test]
fn invalid_lvalue() {
    run("1 = 2;").assert_syn_err(&[ParserErrorKind::InvalidLvalue]);
}

#[test]
fn unexpected_eof() {
    run("var x = ").assert_syn_err(&[ParserErrorKind::UnexpectedEof]);
}

#[test]
fn too_many_args() {
    let mut src = String::from("f(");
    for _ in 0..255 {
        src.push_str("1,");
    }
    src.push_str("1);");
    run(&src).assert_syn_err(&[ParserErrorKind::TooManyArgs]);
}

#[test]
fn callable_equality_is_identity() {
    run("fun f() {} var g = f; return g == f;").assert_v(Value::Bool(true));
    run("fun f() {} fun h() {} return f == h;").assert_v(Value::Bool(false));
}

#[test]
fn session_keeps_globals() {
    let mut parser = yarrlox::parser::Parser::new();
    let mut interpreter = Interpreter::new(InterpreterOutput::String(Vec::new()));
    let mut reporter = SimpleReporter::new();

    let first = yarrlox::eval(
        &"var x = 9;".as_bytes().to_vec(),
        &mut reporter,
        &mut parser,
        &mut interpreter,
    );
    assert!(first.is_ok());

    let second = yarrlox::eval(
        &"return x;".as_bytes().to_vec(),
        &mut reporter,
        &mut parser,
        &mut interpreter,
    );
    assert!(second.unwrap() == num(9));
}

#[test]
fn clock_reports_injected_readings() {
    let mut parser = yarrlox::parser::Parser::new();
    let mut interpreter = Interpreter::new(InterpreterOutput::String(Vec::new()));
    let mut reporter = SimpleReporter::new();
    interpreter.feed_clock(Num { n: 42, d: 1 });

    let first = yarrlox::eval(
        &"return clock();".as_bytes().to_vec(),
        &mut reporter,
        &mut parser,
        &mut interpreter,
    );
    assert!(first.unwrap() == num(42));

    let second = yarrlox::eval(
        &"return clock();".as_bytes().to_vec(),
        &mut reporter,
        &mut parser,
        &mut interpreter,
    );
    assert!(second.unwrap() == num(0));
}
