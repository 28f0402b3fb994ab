//! Behaviour tests: precedence, arrays, scoping, truthiness, errors,
//! imports and the host capability.
use giffiscript::giffiscript::GiffiScript;
use giffiscript::giffiscript::ScriptError;
use giffiscript::interpreter::Host;
use giffiscript::interpreter::NoHost;
use giffiscript::interpreter::RuntimeError;
use giffiscript::parser::ParseErrorKind;
use giffiscript::parser::ParserToken;
use giffiscript::value::Value;

fn run_ok(code: &str) -> GiffiScript {
    let mut m = GiffiScript::new();
    let mut host = NoHost::new();
    m.execute(code.to_string(), &mut host).unwrap();
    m
}

fn run_err(code: &str) -> ScriptError {
    let mut m = GiffiScript::new();
    let mut host = NoHost::new();
    m.execute(code.to_string(), &mut host).unwrap_err()
}

fn result_of(code: &str) -> Value {
    let mut m = run_ok(code);
    m.interpreter.get_variable_value(&"r".to_string()).unwrap()
}

#[test]
fn whole_pipeline_simple_expression() {
    assert_eq!(result_of("let r = 1+2*3;"), Value::Int(7));
}

#[test]
fn precedence_and_left_associativity() {
    assert_eq!(result_of("let r = 2*3+1;"), Value::Int(7));
    assert_eq!(result_of("let r = 1+2*3;"), Value::Int(7));
    assert_eq!(result_of("let r = 8/4/2;"), Value::Int(1));
    // A minus directly before a digit starts a negative literal, so
    // subtraction chains need space before the digit.
    assert_eq!(result_of("let r = 10 - 3 - 2;"), Value::Int(5));
}

#[test]
fn array_round_trip() {
    assert_eq!(result_of("let a=[1,2,3]; let r = a[1];"), Value::Int(2));
    assert_eq!(
        result_of("let a=[1,2,3]; a[0]=9; let r = a[0];"),
        Value::Int(9)
    );
}

#[test]
fn array_index_out_of_range_fails() {
    assert_eq!(
        run_err("let a=[1,2,3]; let r = a[3];"),
        ScriptError::Runtime(RuntimeError::IndexError)
    );
    assert_eq!(
        run_err("let a=[1,2,3]; a[5]=0;"),
        ScriptError::Runtime(RuntimeError::IndexError)
    );
}

#[test]
fn duplicate_binding_in_same_block_fails() {
    assert_eq!(
        run_err("let x = 1; let x = 2;"),
        ScriptError::Runtime(RuntimeError::DuplicateBinding("x".to_string()))
    );
}

#[test]
fn nested_block_declares_do_not_conflict() {
    // A nested block may bind the same name; assignment afterwards
    // mutates the innermost live binding, which is the outer one again.
    assert_eq!(
        result_of("let x = 1; if 1 { let x = 2; } x = 5; let r = x;"),
        Value::Int(5)
    );
}

#[test]
fn assignment_mutates_innermost_match() {
    assert_eq!(
        result_of("let x = 1; if 1 { x = 7; } let r = x;"),
        Value::Int(7)
    );
}

#[test]
fn truthiness_of_negative_numbers_and_zero() {
    assert_eq!(result_of("let r = 0; if -5 { r = 1; }"), Value::Int(1));
    assert_eq!(result_of("let r = 0; if 0 { r = 1; }"), Value::Int(0));
}

#[test]
fn while_loop_counts() {
    assert_eq!(
        result_of("let i = 0; while i < 5 { i = i + 1; } let r = i;"),
        Value::Int(5)
    );
}

#[test]
fn else_and_else_if_branches() {
    assert_eq!(
        result_of("let r = 0; if 0 { r = 1; } else { r = 2; }"),
        Value::Int(2)
    );
    assert_eq!(
        result_of("let r = 0; if 0 { r = 1; } else if 1 { r = 3; } else { r = 2; }"),
        Value::Int(3)
    );
}

#[test]
fn division_by_zero_in_script() {
    assert_eq!(
        run_err("let r = 5 / 0;"),
        ScriptError::Runtime(RuntimeError::DivisionByZero)
    );
    assert_eq!(
        run_err("let r = 5 % 0;"),
        ScriptError::Runtime(RuntimeError::DivisionByZero)
    );
}

#[test]
fn unbound_variable_fails() {
    assert_eq!(
        run_err("let r = nope;"),
        ScriptError::Runtime(RuntimeError::UnboundVariable("nope".to_string()))
    );
    assert_eq!(
        run_err("nope = 3;"),
        ScriptError::Runtime(RuntimeError::UnboundVariable("nope".to_string()))
    );
}

#[test]
fn unknown_function_fails() {
    assert_eq!(
        run_err("missing();"),
        ScriptError::Runtime(RuntimeError::UnknownFunction("missing".to_string()))
    );
}

#[test]
fn function_declarations_only_at_top_level() {
    assert_eq!(
        run_err("if 1 { fn f() { return 1; } }"),
        ScriptError::Runtime(RuntimeError::NonGlobalFunction("f".to_string()))
    );
    assert_eq!(
        run_err("fn f() { return 1; } fn f() { return 2; }"),
        ScriptError::Runtime(RuntimeError::DuplicateFunction("f".to_string()))
    );
}

#[test]
fn reserved_panic_builtin_is_fatal() {
    assert_eq!(
        run_err("panic(\"boom\");"),
        ScriptError::Runtime(RuntimeError::ScriptPanic("boom".to_string()))
    );
}

#[test]
fn type_mismatch_in_operator() {
    assert_eq!(
        run_err("let r = true + 1;"),
        ScriptError::Runtime(RuntimeError::TypeMismatch)
    );
    assert_eq!(
        run_err("let r = 1 - \"a\";"),
        ScriptError::Runtime(RuntimeError::UnknownOperation)
    );
}

#[test]
fn parse_errors_carry_positions() {
    match run_err("let 5 = 3;") {
        ScriptError::Parser(pe) => {
            assert!(matches!(pe.kind, ParseErrorKind::UnexpectedToken(_)));
        }
        other => panic!("expected a parse error, got {:?}", other),
    }
    match run_err("let x = 5") {
        ScriptError::Parser(pe) => {
            assert_eq!(pe.kind, ParseErrorKind::UnexpectedEndOfInput);
        }
        other => panic!("expected a parse error, got {:?}", other),
    }
    match run_err("let x = ;") {
        ScriptError::Parser(pe) => {
            assert_eq!(pe.kind, ParseErrorKind::MissingExpression);
        }
        other => panic!("expected a parse error, got {:?}", other),
    }
}

#[test]
fn import_of_unknown_file_fails() {
    assert_eq!(
        run_err("import \"no_such_module\";"),
        ScriptError::Runtime(RuntimeError::ImportError("no_such_module".to_string()))
    );
}

#[test]
fn string_concatenation_and_comparison() {
    assert_eq!(
        result_of("let r = \"foo\" + \"bar\";"),
        Value::Literal("foobar".to_string())
    );
    assert_eq!(
        result_of("let r = \"a\" == \"a\";"),
        Value::Boolean(true)
    );
}

#[test]
fn return_stops_only_its_own_sequence() {
    // A return nested in a block stops only that block; the function body
    // resumes after it.
    assert_eq!(
        result_of(
            "fn f() { if 1 { return 1; } return 2; } let r = f();"
        ),
        Value::Int(2)
    );
}

/// A host with one native module `m` holding one entry that pushes a
/// fixed number, and a call counter to observe double registration.
struct CountingHost {
    resolutions: u64,
}

impl Host for CountingHost {
    fn call_native(&mut self, handle: u64, stack: &mut Vec<Value>) -> Result<(), RuntimeError> {
        if handle == 7 {
            stack.push(Value::Int(42));
            Ok(())
        } else {
            Err(RuntimeError::NativeError("unknown handle".to_string()))
        }
    }

    fn resolve_module(&mut self, name: &String) -> Option<Vec<(String, u64)>> {
        if name == "m" {
            self.resolutions += 1;
            Some(vec![("native_one".to_string(), 7)])
        } else {
            None
        }
    }

    fn read_source(&mut self, _path: &String) -> Option<String> {
        None
    }
}

#[test]
fn reimport_is_idempotent() {
    let mut m = GiffiScript::new();
    let mut host = CountingHost { resolutions: 0 };
    m.execute(
        "import \"m\"; import \"m\"; let r = native_one();".to_string(),
        &mut host,
    )
    .unwrap();
    // No duplicate registration, no double side effects.
    assert_eq!(host.resolutions, 1);
    assert_eq!(
        m.interpreter.get_variable_value(&"r".to_string()).unwrap(),
        Value::Int(42)
    );
    // A later run may import the name again without effect.
    m.execute("import \"m\";".to_string(), &mut host).unwrap();
    assert_eq!(host.resolutions, 1);
}

#[test]
fn file_imports_run_in_current_state() {
    struct FileHost;
    impl Host for FileHost {
        fn call_native(
            &mut self,
            _handle: u64,
            _stack: &mut Vec<Value>,
        ) -> Result<(), RuntimeError> {
            Err(RuntimeError::NativeError(String::new()))
        }
        fn resolve_module(&mut self, _name: &String) -> Option<Vec<(String, u64)>> {
            None
        }
        fn read_source(&mut self, path: &String) -> Option<String> {
            if path == "lib_script" {
                Some("fn twice(x) { return x * 2; }".to_string())
            } else {
                None
            }
        }
    }
    let mut m = GiffiScript::new();
    let mut host = FileHost;
    m.execute(
        "import \"lib_script\"; let r = twice(21);".to_string(),
        &mut host,
    )
    .unwrap();
    assert_eq!(
        m.interpreter.get_variable_value(&"r".to_string()).unwrap(),
        Value::Int(42)
    );
}

#[test]
fn stack_underflow_and_unsupported_instruction() {
    let mut m = GiffiScript::new();
    let mut host = NoHost::new();
    let prog = vec![ParserToken::Pop];
    assert_eq!(
        m.interpreter.execute_tokens(&prog, &mut host),
        Err(RuntimeError::StackUnderflow)
    );
    let prog = vec![ParserToken::Nop];
    assert_eq!(
        m.interpreter.execute_tokens(&prog, &mut host),
        Err(RuntimeError::UnsupportedInstruction)
    );
}

#[test]
fn state_persists_across_executions() {
    let mut m = GiffiScript::new();
    let mut host = NoHost::new();
    m.execute("let x = 40;".to_string(), &mut host).unwrap();
    m.execute("let r = x + 2;".to_string(), &mut host).unwrap();
    assert_eq!(
        m.interpreter.get_variable_value(&"r".to_string()).unwrap(),
        Value::Int(42)
    );
}

#[test]
fn dynamic_scoping_reads_callers_locals() {
    // Lookup scans the whole active chain: a called function sees its
    // caller's locals unless shadowed.
    assert_eq!(
        result_of("fn f() { return y; } fn g() { let y = 9; return f(); } let r = g();"),
        Value::Int(9)
    );
}
