//! Tests of the individual pipeline stages: tokenizer, expression
//! compiler, value operations.
use giffiscript::expr::AstExpr;
use giffiscript::lexer::Lexer;
use giffiscript::lexer::LexerE;
use giffiscript::lexer::LexerTokenType;
use giffiscript::parser::ParserToken;
use giffiscript::value::Value;
use giffiscript::value::ValueE;

fn test_evaluator(to_eval: Vec<ParserToken>) -> Option<Value> {
    let evaluated = AstExpr::evaluate(to_eval).expect("error");

    let mut stack = vec![];
    for tk in evaluated {
        match tk {
            ParserToken::Push(val) => {
                stack.push(val.clone());
            }
            ParserToken::Operation(op) => {
                let arg1 = stack.pop().expect("couldn't grab an argument for an operation");
                let arg2 = stack.pop().expect("couldn't grab an argument for an operation");
                let r = arg1.do_operation(&op, arg2).expect("error during an operation");
                stack.push(r);
            }
            _ => {
                panic!("Invalid parser token from evaluation");
            }
        }
    }
    stack.pop()
}

#[test]
fn test_operator_precedence() {
    // 1+2*3 == 7
    let mut first = vec![];
    first.push(ParserToken::Push(Value::Int(1)));
    first.push(ParserToken::Operation("+".to_string()));
    first.push(ParserToken::Push(Value::Int(2)));
    first.push(ParserToken::Operation("*".to_string()));
    first.push(ParserToken::Push(Value::Int(3)));
    assert_eq!(test_evaluator(first).expect("error"), Value::Int(7));

    // 8/4/2 == 1
    let mut second = vec![];
    second.push(ParserToken::Push(Value::Int(8)));
    second.push(ParserToken::Operation("/".to_string()));
    second.push(ParserToken::Push(Value::Int(4)));
    second.push(ParserToken::Operation("/".to_string()));
    second.push(ParserToken::Push(Value::Int(2)));
    assert_eq!(test_evaluator(second).expect("error"), Value::Int(1));
}

#[test]
fn tokenize_simple_expression_with_positions() {
    let toks = Lexer::lex("1+2*3".to_string()).unwrap();
    assert_eq!(toks.len(), 6);
    assert_eq!(toks[0].token, LexerTokenType::Value(Value::Int(1)));
    assert_eq!(toks[1].token, LexerTokenType::Operator("+".to_string()));
    assert_eq!(toks[2].token, LexerTokenType::Value(Value::Int(2)));
    assert_eq!(toks[3].token, LexerTokenType::Operator("*".to_string()));
    assert_eq!(toks[4].token, LexerTokenType::Value(Value::Int(3)));
    assert_eq!(toks[5].token, LexerTokenType::Eof);
    // 1-based columns; a token records the position of the character
    // that completed it.
    assert_eq!(toks[0].line, 1);
    assert_eq!(toks[0].column, 3);
    assert_eq!(toks[1].column, 3);
    assert_eq!(toks[2].column, 5);
    assert_eq!(toks[3].column, 5);
    assert_eq!(toks[4].column, 6);
    assert_eq!(toks[5].column, 6);
}

#[test]
fn tokenize_comments_strings_and_negatives() {
    let toks = Lexer::lex("let s = \"a b\"; // trailing\nlet n = -42; /* block */ x".to_string())
        .unwrap();
    let kinds: Vec<&LexerTokenType> = toks.iter().map(|t| &t.token).collect();
    assert_eq!(kinds[0], &LexerTokenType::Keyword("let".to_string()));
    assert_eq!(kinds[1], &LexerTokenType::Identifier("s".to_string()));
    assert_eq!(kinds[2], &LexerTokenType::Operator("=".to_string()));
    assert_eq!(kinds[3], &LexerTokenType::Value(Value::Literal("a b".to_string())));
    assert_eq!(kinds[4], &LexerTokenType::Symbol(';'));
    assert_eq!(kinds[5], &LexerTokenType::Keyword("let".to_string()));
    assert_eq!(kinds[6], &LexerTokenType::Identifier("n".to_string()));
    assert_eq!(kinds[7], &LexerTokenType::Operator("=".to_string()));
    assert_eq!(kinds[8], &LexerTokenType::Value(Value::Int(-42)));
    assert_eq!(kinds[9], &LexerTokenType::Symbol(';'));
    assert_eq!(kinds[10], &LexerTokenType::Identifier("x".to_string()));
    assert_eq!(kinds[11], &LexerTokenType::Eof);
}

#[test]
fn tokenize_two_character_operators() {
    let toks = Lexer::lex("a == b != c || d && e << f >> g".to_string()).unwrap();
    let ops: Vec<&LexerTokenType> = toks.iter().map(|t| &t.token).collect();
    assert_eq!(ops[1], &LexerTokenType::Operator("==".to_string()));
    assert_eq!(ops[3], &LexerTokenType::Operator("!=".to_string()));
    assert_eq!(ops[5], &LexerTokenType::Operator("||".to_string()));
    assert_eq!(ops[7], &LexerTokenType::Operator("&&".to_string()));
    assert_eq!(ops[9], &LexerTokenType::Operator("<<".to_string()));
    assert_eq!(ops[11], &LexerTokenType::Operator(">>".to_string()));
}

#[test]
fn tokenize_unterminated_literal_is_fatal() {
    assert_eq!(
        Lexer::lex("let s = \"oops;".to_string()),
        Err(LexerE::UnterminatedLiteral)
    );
}

#[test]
fn tokenize_empty_literal_is_allowed() {
    let toks = Lexer::lex("\"\"".to_string()).unwrap();
    assert_eq!(toks[0].token, LexerTokenType::Value(Value::Literal(String::new())));
}

#[test]
fn parse_word_classifies_literals() {
    assert_eq!(Value::parse(&"42".to_string()), Ok(Value::Int(42)));
    assert_eq!(Value::parse(&"-7".to_string()), Ok(Value::Int(-7)));
    assert_eq!(
        Value::parse(&"9223372036854775807".to_string()),
        Ok(Value::Int(i64::MAX))
    );
    assert_eq!(
        Value::parse(&"-9223372036854775808".to_string()),
        Ok(Value::Int(i64::MIN))
    );
    assert_eq!(
        Value::parse(&"9223372036854775808".to_string()),
        Err(ValueE::ParsingError)
    );
    assert_eq!(Value::parse(&"true".to_string()), Ok(Value::Boolean(true)));
    assert_eq!(Value::parse(&"false".to_string()), Ok(Value::Boolean(false)));
    assert_eq!(Value::parse(&"null".to_string()), Ok(Value::Null));
    assert_eq!(Value::parse(&"hello".to_string()), Err(ValueE::ParsingError));
    assert_eq!(Value::parse(&"".to_string()), Err(ValueE::ParsingError));
}

#[test]
fn division_and_remainder_are_truncating() {
    let div = |a: i64, b: i64| Value::Int(a).do_operation(&"/".to_string(), Value::Int(b));
    let rem = |a: i64, b: i64| Value::Int(a).do_operation(&"%".to_string(), Value::Int(b));
    assert_eq!(div(7, 2), Ok(Value::Int(3)));
    assert_eq!(div(-7, 2), Ok(Value::Int(-3)));
    assert_eq!(div(7, -2), Ok(Value::Int(-3)));
    assert_eq!(div(-7, -2), Ok(Value::Int(3)));
    assert_eq!(rem(7, 2), Ok(Value::Int(1)));
    assert_eq!(rem(-7, 2), Ok(Value::Int(-1)));
    assert_eq!(rem(7, -2), Ok(Value::Int(1)));
    assert_eq!(rem(-7, -2), Ok(Value::Int(-1)));
    assert_eq!(div(5, 0), Err(ValueE::DivisionByZero));
    assert_eq!(rem(5, 0), Err(ValueE::DivisionByZero));
}

#[test]
fn operator_type_errors() {
    let int = Value::Int(1);
    let text = Value::Literal("a".to_string());
    assert_eq!(
        Value::Boolean(true).do_operation(&"+".to_string(), Value::Int(1)),
        Err(ValueE::TypeMismatch)
    );
    assert_eq!(
        int.do_operation(&"-".to_string(), text.clone()),
        Err(ValueE::UnkownOperation)
    );
    assert_eq!(
        int.do_operation(&"^".to_string(), Value::Int(2)),
        Err(ValueE::UnkownOperation)
    );
    assert_eq!(
        text.do_operation(&"+".to_string(), Value::Literal("b".to_string())),
        Ok(Value::Literal("ab".to_string()))
    );
}

#[test]
fn structural_equality_over_values() {
    let eq = |a: Value, b: Value| a.do_operation(&"==".to_string(), b);
    assert_eq!(
        eq(
            Value::Array(vec![Value::Int(1), Value::Literal("x".to_string())]),
            Value::Array(vec![Value::Int(1), Value::Literal("x".to_string())])
        ),
        Ok(Value::Boolean(true))
    );
    assert_eq!(
        eq(Value::Array(vec![Value::Int(1)]), Value::Array(vec![Value::Int(2)])),
        Ok(Value::Boolean(false))
    );
    assert_eq!(eq(Value::Int(1), Value::Null), Ok(Value::Boolean(false)));
}

#[test]
fn value_rendering() {
    assert_eq!(Value::Int(-42).to_string(), "-42");
    assert_eq!(Value::Int(i64::MIN).to_string(), "-9223372036854775808");
    assert_eq!(Value::Boolean(true).to_string(), "true");
    assert_eq!(Value::Null.to_string(), "null");
    assert_eq!(Value::Literal("hey".to_string()).to_string(), "hey");
    assert_eq!(
        Value::Array(vec![Value::Int(1), Value::Int(2), Value::Boolean(false)]).to_string(),
        "[1,2,false]"
    );
    assert_eq!(Value::Array(vec![]).to_string(), "[]");
}

#[test]
fn compile_climbs_by_precedence() {
    // "1+2*3" arrives reversed at the climb; the flattened program keeps
    // operands before their operator.
    let run = vec![
        ParserToken::Push(Value::Int(1)),
        ParserToken::Operation("+".to_string()),
        ParserToken::Push(Value::Int(2)),
        ParserToken::Operation("*".to_string()),
        ParserToken::Push(Value::Int(3)),
    ];
    let out = AstExpr::evaluate(run).unwrap();
    assert_eq!(
        out,
        vec![
            ParserToken::Push(Value::Int(3)),
            ParserToken::Push(Value::Int(2)),
            ParserToken::Operation("*".to_string()),
            ParserToken::Push(Value::Int(1)),
            ParserToken::Operation("+".to_string()),
        ]
    );
}
