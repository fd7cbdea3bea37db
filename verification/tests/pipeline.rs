use basic_compiler::{
    code_generator, compile, parser, tokenise, Bracket, CodeGenError, CompileError, Expected, Node,
    ParserError, Symbol, Token, TokenizerError,
};

fn text(s: &str) -> String {
    s.to_string()
}

#[test]
fn declaration_round_trip() {
    let tokens = tokenise(text("let x = 5;")).unwrap();
    assert_eq!(
        tokens,
        vec![
            Token::Char(text("let")),
            Token::Char(text("x")),
            Token::Symbol(Symbol::Equals),
            Token::Number(text("5")),
            Token::Symbol(Symbol::SemiColon),
        ]
    );
    let output = parser(0, tokens).unwrap();
    assert_eq!(output.end_index, 5);
    assert_eq!(
        output.body,
        vec![
            Node::Variable {
                name: text("x"),
                value: vec![Node::Symbol(Symbol::Equals), Node::NumberLiteral(text("5"))],
            },
            Node::NewLine,
        ]
    );
    let declarations = output.body.iter().filter(|node| matches!(node, Node::Variable { .. }));
    assert_eq!(declarations.count(), 1);
    assert_eq!(code_generator(output.body).unwrap(), "let x=5;");
}

#[test]
fn if_statement_round_trip() {
    let tokens = tokenise(text("if x > 1 { let y = 2; }")).unwrap();
    assert_eq!(tokens.len(), 11);
    assert_eq!(tokens[10], Token::BracketClose(Bracket::Curly));
    let output = parser(0, tokens).unwrap();
    assert_eq!(output.end_index, 11);
    assert_eq!(
        output.body,
        vec![Node::IfStatement {
            condition: vec![
                Node::VariableCall(text("x")),
                Node::Symbol(Symbol::Greater),
                Node::NumberLiteral(text("1")),
            ],
            body: vec![
                Node::Variable {
                    name: text("y"),
                    value: vec![Node::Symbol(Symbol::Equals), Node::NumberLiteral(text("2"))],
                },
                Node::NewLine,
            ],
        }]
    );
    assert_eq!(code_generator(output.body).unwrap(), "if (x>1){\nlet y=2;}\n");
}

#[test]
fn nested_block_reports_the_index_of_its_brace() {
    let tokens = tokenise(text("if x > 1 { let y = 2; } z")).unwrap();
    let inner = parser(5, tokens).unwrap();
    assert_eq!(inner.end_index, 10);
    assert_eq!(inner.body.len(), 2);
}

#[test]
fn call_with_a_string_argument_parses_but_is_not_generated() {
    let tokens = tokenise(text("print(\"hi\")")).unwrap();
    let output = parser(0, tokens).unwrap();
    assert_eq!(
        output.body,
        vec![Node::FunctionCall {
            name: text("print"),
            args: vec![Node::StringLiteral(text("hi"))],
        }]
    );
    assert_eq!(
        code_generator(output.body),
        Err(CodeGenError::UnexpectedArgument(Node::StringLiteral(text("hi"))))
    );
}

#[test]
fn call_with_a_number_argument_parses_but_is_not_generated() {
    assert_eq!(
        compile(text("f(a, 1);")),
        Err(CompileError::CodeGen(CodeGenError::UnexpectedArgument(Node::NumberLiteral(text(
            "1"
        )))))
    );
}

#[test]
fn program_is_compiled() {
    let source = "fn show(a, b) {\n  let sum = a + b;\n  print(sum);\n}\n\
                  let n = 3;\nwhile n > 0 { show(n, n); n = n - 1; }\n\
                  for i in 0..=10 { if i % 2 { print(i); } else { skip(); } }\n";
    let expected = "function show(a,b){\nlet sum=a+b;print(sum);}\n\
                    let n=3;while (n>0){\nshow(n,n);n=n-1;}\n\
                    for (let i=0; i===9; i++){\nif (i%2){\nprint(i);}\nelse{\nskip();}\n}\n";
    assert_eq!(compile(text(source)), Ok(text(expected)));
}

#[test]
fn empty_source_compiles_to_nothing() {
    assert_eq!(compile(String::new()), Ok(String::new()));
    assert_eq!(compile(text(" \n\t ")), Ok(String::new()));
}

#[test]
fn string_in_a_declaration_loses_its_quotes() {
    assert_eq!(compile(text("let s = \"hi\";")), Ok(text("let s=hi;")));
    assert_eq!(compile(text("if s = \"hi\" { }")), Ok(text("if (s=\"hi\"){\n}\n")));
}

#[test]
fn output_is_not_read_back_as_the_same_tree() {
    let once = compile(text("fn f(a) { }")).unwrap();
    assert_eq!(once, "function f(a){\n}\n");
    let tokens = tokenise(once).unwrap();
    assert_eq!(
        parser(0, tokens),
        Err(ParserError::UnexpectedToken {
            expected: Expected::Statement,
            found: Some(Token::BracketOpen(Bracket::Curly)),
            index: 5,
        })
    );
    let again = compile(compile(text("let x = 5; f(x);")).unwrap()).unwrap();
    assert_eq!(again, "let x=5;f(x);");
}

#[test]
fn failure_of_each_stage_is_handed_on() {
    assert_eq!(
        compile(text("let x = #;")),
        Err(CompileError::Tokenizer(TokenizerError::InvalidCharacter('#')))
    );
    assert_eq!(
        compile(text("let x = \"abc;")),
        Err(CompileError::Tokenizer(TokenizerError::UnterminatedString))
    );
    assert_eq!(
        compile(text("let 5;")),
        Err(CompileError::Parser(ParserError::UnexpectedToken {
            expected: Expected::Name,
            found: Some(Token::Number(text("5"))),
            index: 1,
        }))
    );
    assert_eq!(
        compile(text("f(\"s\");")),
        Err(CompileError::CodeGen(CodeGenError::UnexpectedArgument(Node::StringLiteral(text(
            "s"
        )))))
    );
}

#[test]
fn earlier_stage_fails_first() {
    assert_eq!(
        compile(text("let 5; f(1); #")),
        Err(CompileError::Tokenizer(TokenizerError::InvalidCharacter('#')))
    );
    assert_eq!(
        compile(text("f(1); let 5;")),
        Err(CompileError::Parser(ParserError::UnexpectedToken {
            expected: Expected::Name,
            found: Some(Token::Number(text("5"))),
            index: 6,
        }))
    );
}

#[test]
fn closing_brace_outside_a_block_ends_the_program() {
    assert_eq!(compile(text("x; } y;")), Ok(text("x;")));
}

#[test]
fn copy_of_a_token_equals_the_token() {
    for token in tokenise(text("let s = \"a b\" + 12 { } ( ) [ ]")).unwrap() {
        assert_eq!(token.duplicate(), token);
    }
}
