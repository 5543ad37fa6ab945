use study_lua::frontend::lexer::tokenize;
use study_lua::frontend::token::{TokenKind, TokenTag};
use study_lua::compile_str;
use study_lua::vm::Vm;
use study_lua::{CompileError, LuaNumber, Value};

/// Lua numbers for these tests: IEEE doubles.
#[derive(Clone, Copy, Debug, PartialEq)]
struct Num(f64);

impl LuaNumber for Num {
    fn text_spec(&self) -> String {
        format!("{:?}", self.0)
    }

    fn mul_spec(self, other: Self) -> Self {
        Num(self.0 * other.0)
    }

    fn div_spec(self, other: Self) -> Self {
        Num(self.0 / other.0)
    }

    fn digit_spec(d: u8) -> Self {
        Num(d as f64)
    }

    fn neg_spec(self) -> Self {
        Num(-self.0)
    }

    fn num_mul(&self, other: &Self) -> Self {
        Num(self.0 * other.0)
    }

    fn num_div(&self, other: &Self) -> Self {
        Num(self.0 / other.0)
    }

    fn from_digit(d: u8) -> Self {
        Num(d as f64)
    }

    fn num_neg(&self) -> Self {
        Num(-self.0)
    }

    fn add_spec(self, other: Self) -> Self {
        Num(self.0 + other.0)
    }

    fn eq_spec(self, other: Self) -> bool {
        self.0 == other.0
    }

    fn lt_spec(self, other: Self) -> bool {
        self.0 < other.0
    }

    fn num_add(&self, other: &Self) -> Self {
        Num(self.0 + other.0)
    }

    fn num_eq(&self, other: &Self) -> bool {
        self.0 == other.0
    }

    fn num_lt(&self, other: &Self) -> bool {
        self.0 < other.0
    }

    fn to_text(&self) -> String {
        format!("{:?}", self.0)
    }
}

#[test]
fn compile_rejects_global_function_definition() {
    let script = r#"
function f(a)
  return a
end
return f(1)
"#;
    let err = match compile_str::<Num>(script) {
        Ok(_) => panic!("expected compile error"),
        Err(e) => e,
    };
    match err {
        CompileError::Unsupported { feature, .. } => {
            assert!(feature.contains("global function definition"));
        }
        other => panic!("expected Unsupported, got {other:?}"),
    }
}

#[test]
fn global_function_error_points_at_the_definition() {
    let err = compile_str::<Num>("local x = 1\n  function g() end").unwrap_err();
    match err {
        CompileError::Unsupported { line, col, feature } => {
            assert_eq!((line, col), (2, 3));
            assert_eq!(feature, "global function definition");
        }
        other => panic!("expected Unsupported, got {other:?}"),
    }
}

#[test]
fn local_function_is_not_reported_as_global() {
    let ret = run_script("local function f(a) return a end return f(1)");
    assert!(matches!(ret, Value::Number(Num(n)) if n == 1.0));
}

#[test]
fn function_expression_is_not_reported_as_global() {
    let err = compile_str::<Num>("local f = function(a) return a end").unwrap_err();
    assert!(matches!(err, CompileError::Parse { ref expected, .. } if expected == "expression"));
}

fn run_script(src: &str) -> Value<Num> {
    let protos = compile_str::<Num>(src).unwrap();
    let mut vm = Vm::new(protos);
    let func = vm.load(0).unwrap();
    vm.pcall(func, 0, 1).unwrap()
}

#[test]
fn compile_and_run_add_mul() {
    let ret = run_script("return 1 + 2 * 3");
    assert!(matches!(ret, Value::Number(Num(n)) if (n - 7.0).abs() < 1e-9));
}

#[test]
fn compile_and_run_unary_minus_and_sub() {
    let ret = run_script("local x = 10 return -x + 4");
    assert!(matches!(ret, Value::Number(Num(n)) if (n + 6.0).abs() < 1e-9));
}

#[test]
fn compile_and_run_div() {
    let ret = run_script("return 8 / 2");
    assert!(matches!(ret, Value::Number(Num(n)) if (n - 4.0).abs() < 1e-9));
}

#[test]
fn compile_and_run_local_function_call() {
    let script = r#"
local function f(a)
  return a * 2
end
return f(3)
"#;
    let ret = run_script(script);
    assert!(matches!(ret, Value::Number(Num(n)) if (n - 6.0).abs() < 1e-9));
}

#[test]
fn compile_and_run_nested_closure_capture() {
    let script = r#"
local function outer()
  local x = 21
  local function inner()
    return x * 2
  end
  return inner()
end
return outer()
"#;
    let ret = run_script(script);
    assert!(matches!(ret, Value::Number(Num(n)) if (n - 42.0).abs() < 1e-9));
}

#[test]
fn compile_and_run_if_truthiness() {
    let ret_true = run_script("local x = 0 if x then return 1 else return 2 end");
    assert!(matches!(ret_true, Value::Number(Num(n)) if (n - 1.0).abs() < 1e-9));

    let ret_false = run_script("if nil then return 1 else return 2 end");
    assert!(matches!(ret_false, Value::Number(Num(n)) if (n - 2.0).abs() < 1e-9));
}

#[test]
fn compile_and_run_subtraction_and_comparisons() {
    assert!(matches!(run_script("return 10 - 4 - 3"), Value::Number(Num(n)) if n == 3.0));
    assert!(matches!(run_script("return 1 < 2"), Value::Bool(true)));
    assert!(matches!(run_script("return 2 < 1"), Value::Bool(false)));
    assert!(matches!(run_script("return 3 == 3"), Value::Bool(true)));
    assert!(matches!(run_script("if 1 == 2 then return 1 end return 2"), Value::Number(Num(n)) if n == 2.0));
    assert!(matches!(run_script("local a = 2 local b = 5 return (a + b) * a"), Value::Number(Num(n)) if n == 14.0));
}

#[test]
fn closures_capture_values_and_outlive_their_maker() {
    let script = r#"
local function make(n)
  local function get()
    return n * 10
  end
  return get
end
local g = make(4)
local h = make(5)
return g() + h()
"#;
    assert!(matches!(run_script(script), Value::Number(Num(n)) if n == 90.0));
}

#[test]
fn names_two_functions_out_are_unsupported_unless_passed_through() {
    let far = "local x = 1 local function a() local function b() return x end return b() end return a()";
    assert!(matches!(compile_str::<Num>(far), Err(CompileError::Unsupported { ref feature, .. }) if feature == "global or outer variable"));
    let through = "local x = 1 local function a() local y = x local function b() return y end return b() end return a()";
    assert!(matches!(run_script(through), Value::Number(Num(n)) if n == 1.0));
}

#[test]
fn compile_reports_parse_and_scope_errors() {
    assert!(matches!(compile_str::<Num>("return 1 +"), Err(CompileError::Parse { .. })));
    assert!(matches!(compile_str::<Num>("local = 3"), Err(CompileError::Parse { ref expected, .. }) if expected == "identifier"));
    assert!(matches!(compile_str::<Num>("return y"), Err(CompileError::Unsupported { ref feature, .. }) if feature == "global or outer variable"));
    assert!(matches!(compile_str::<Num>("if true then return 1"), Err(CompileError::Parse { ref expected, .. }) if expected == "end"));
}

#[test]
fn compile_reports_lexical_errors_with_position() {
    let err = compile_str::<Num>("local x = 1\nreturn x # 2").unwrap_err();
    match err {
        CompileError::Lex { line, col, msg } => {
            assert_eq!((line, col), (2, 10));
            assert_eq!(msg, "unexpected character");
        }
        other => panic!("expected Lex, got {other:?}"),
    }
}

#[test]
fn lexer_rejects_malformed_numbers() {
    let err = tokenize("return 12abc").unwrap_err();
    assert!(matches!(err, CompileError::Lex { line: 1, col: 8, ref msg } if msg == "malformed number"));
    let err = tokenize("return 1.2.3").unwrap_err();
    assert!(matches!(err, CompileError::Lex { line: 1, col: 8, .. }));
}

#[test]
fn lexer_splits_tokens_with_positions() {
    let toks = tokenize("local x = 10 -- ten\nreturn x + 2.5 == y").unwrap();
    let kinds: Vec<TokenKind> = toks.iter().map(|t| t.kind.clone()).collect();
    assert_eq!(
        kinds,
        vec![
            TokenKind::Local,
            TokenKind::Identifier("x".to_string()),
            TokenKind::Assign,
            TokenKind::Number("10".to_string()),
            TokenKind::Return,
            TokenKind::Identifier("x".to_string()),
            TokenKind::Plus,
            TokenKind::Number("2.5".to_string()),
            TokenKind::EqEq,
            TokenKind::Identifier("y".to_string()),
            TokenKind::Eof,
        ]
    );
    let pos: Vec<(usize, usize)> = toks.iter().map(|t| (t.line, t.col)).collect();
    assert_eq!(
        pos,
        vec![(1, 1), (1, 7), (1, 9), (1, 11), (2, 1), (2, 8), (2, 10), (2, 12), (2, 16), (2, 19), (2, 20)]
    );
}

#[test]
fn lexer_recognises_every_symbol_and_keyword() {
    let toks = tokenize("true false nil local function return if then else end + - * / < == = ( ) ,").unwrap();
    let tags: Vec<TokenTag> = toks.iter().map(|t| t.kind.tag()).collect();
    assert_eq!(
        tags,
        vec![
            TokenTag::True,
            TokenTag::False,
            TokenTag::Nil,
            TokenTag::Local,
            TokenTag::Function,
            TokenTag::Return,
            TokenTag::If,
            TokenTag::Then,
            TokenTag::Else,
            TokenTag::End,
            TokenTag::Plus,
            TokenTag::Minus,
            TokenTag::Star,
            TokenTag::Slash,
            TokenTag::Less,
            TokenTag::EqEq,
            TokenTag::Assign,
            TokenTag::LParen,
            TokenTag::RParen,
            TokenTag::Comma,
            TokenTag::Eof,
        ]
    );
}

#[test]
fn empty_source_is_just_eof() {
    let toks = tokenize("").unwrap();
    assert_eq!(toks.len(), 1);
    assert_eq!(toks[0].kind, TokenKind::Eof);
    assert_eq!((toks[0].line, toks[0].col), (1, 1));
}

#[test]
fn token_display_names() {
    assert_eq!(TokenKind::Identifier("foo".to_string()).display_name(), "identifier(foo)");
    assert_eq!(TokenKind::Number("3.14".to_string()).display_name(), "number(3.14)");
    assert_eq!(TokenKind::Plus.display_name(), "+");
    assert_eq!(TokenKind::End.display_name(), "end");
    assert_eq!(TokenKind::Eof.display_name(), "eof");
    assert_eq!(TokenTag::Identifier.display_name(), "identifier");
    assert_eq!(TokenTag::EqEq.display_name(), "==");
    assert_eq!(TokenTag::Comma.display_name(), ",");
    assert_eq!(TokenKind::Number("1".to_string()).tag(), TokenTag::Number);
}

#[test]
fn compile_and_run_nested_if_with_locals_in_branches() {
    let script = r#"
local a = 2
if false then
  return 1
else
  local b = a * 3
  if nil then
    return b
  else
    if true then
      local c = b - a
      return c / 2
    else
      return 0
    end
  end
end
"#;
    assert!(matches!(run_script(script), Value::Number(Num(n)) if n == 2.0));
}

#[test]
fn compile_and_run_if_on_arithmetic_condition() {
    assert!(matches!(run_script("if 0 - 5 then return 7 else return 8 end"), Value::Number(Num(n)) if n == 7.0));
    assert!(matches!(run_script("if true then return 3 else return 4 end"), Value::Number(Num(n)) if n == 3.0));
}

#[test]
fn inner_local_shadows_outer_of_same_name() {
    assert!(matches!(run_script("local x = 1 local x = x + 10 return x * 2"), Value::Number(Num(n)) if n == 22.0));
}

#[test]
fn parse_error_points_at_the_offending_token() {
    match compile_str::<Num>("local = 3").unwrap_err() {
        CompileError::Parse { line, col, expected, found } => {
            assert_eq!((line, col), (1, 7));
            assert_eq!(expected, "identifier");
            assert_eq!(found, "=");
        }
        other => panic!("expected Parse, got {other:?}"),
    }
    match compile_str::<Num>("local x = 1\nreturn x +").unwrap_err() {
        CompileError::Parse { line, col, .. } => {
            let toks = tokenize("local x = 1\nreturn x +").unwrap();
            assert!(toks.iter().any(|t| t.line == line && t.col == col));
            assert_eq!(line, 2);
        }
        other => panic!("expected Parse, got {other:?}"),
    }
}

#[test]
fn codegen_error_points_at_a_token() {
    let mut src = String::from("return ");
    for _ in 0..210 {
        src.push('(');
    }
    src.push('1');
    for _ in 0..210 {
        src.push(')');
    }
    match compile_str::<Num>(&src).unwrap_err() {
        CompileError::Codegen { line, col, msg } => {
            let toks = tokenize(&src).unwrap();
            assert!(toks.iter().any(|t| t.line == line && t.col == col));
            assert_eq!(msg, "chunk has too many syntax levels");
        }
        other => panic!("expected Codegen, got {other:?}"),
    }
}

#[test]
fn compile_and_run_comparisons_in_conditions_and_returns() {
    assert!(matches!(run_script("if 1 == 2 then return 1 else return 2 end"), Value::Number(Num(n)) if n == 2.0));
    assert!(matches!(run_script("local a = 3 if a < 4 then return a * 2 else return 0 end"), Value::Number(Num(n)) if n == 6.0));
    assert!(matches!(run_script("local a = 3 return a == 3"), Value::Bool(true)));
    assert!(matches!(run_script("local a = 3 return a + 1 < a"), Value::Bool(false)));
}
