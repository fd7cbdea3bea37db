use basic_compiler::grammar::MAX_DEPTH;
use basic_compiler::{
    parser, tokenise, Bracket, Expected, Node, Output, ParserError, Symbol, Token,
};

fn tokens_of(source: &str) -> Vec<Token> {
    tokenise(source.to_string()).unwrap()
}

fn parse(source: &str) -> Result<Output, ParserError> {
    parser(0, tokens_of(source))
}

fn parsed(source: &str) -> Vec<Node> {
    parse(source).unwrap().body
}

fn failure(source: &str) -> ParserError {
    parse(source).unwrap_err()
}

fn unexpected(expected: Expected, found: Option<Token>, index: usize) -> ParserError {
    ParserError::UnexpectedToken { expected, found, index }
}

fn name(text: &str) -> Node {
    Node::VariableCall(text.to_string())
}

fn number(text: &str) -> Node {
    Node::NumberLiteral(text.to_string())
}

fn string(text: &str) -> Node {
    Node::StringLiteral(text.to_string())
}

fn symbol(symbol: Symbol) -> Node {
    Node::Symbol(symbol)
}

fn variable(text: &str, value: Vec<Node>) -> Node {
    Node::Variable { name: text.to_string(), value }
}

fn counting(var_name: &str, start: &str, end: &str, body: Vec<Node>) -> Node {
    Node::ForLoop {
        var_name: var_name.to_string(),
        start: start.to_string(),
        end: end.to_string(),
        body,
    }
}

fn call(text: &str, args: Vec<Node>) -> Node {
    Node::FunctionCall { name: text.to_string(), args }
}

fn word_token(text: &str) -> Token {
    Token::Char(text.to_string())
}

fn number_token(text: &str) -> Token {
    Token::Number(text.to_string())
}

#[test]
fn no_tokens_are_an_empty_program() {
    assert_eq!(parse(""), Ok(Output { body: vec![], end_index: 0 }));
}

#[test]
fn declaration_keeps_its_terminator_for_the_block() {
    assert_eq!(
        parse("let x = 5;"),
        Ok(Output {
            body: vec![variable("x", vec![symbol(Symbol::Equals), number("5")]), Node::NewLine],
            end_index: 5,
        })
    );
}

#[test]
fn declaration_without_value() {
    assert_eq!(parsed("let x;"), vec![variable("x", vec![]), Node::NewLine]);
}

#[test]
fn string_in_a_declaration_becomes_a_number_literal() {
    assert_eq!(
        parsed("let s = \"hi\";"),
        vec![variable("s", vec![symbol(Symbol::Equals), number("hi")]), Node::NewLine]
    );
}

#[test]
fn declaration_maps_every_token_to_one_node() {
    assert_eq!(
        parsed("let a = (b + 1) * c[0] {};"),
        vec![
            variable(
                "a",
                vec![
                    symbol(Symbol::Equals),
                    Node::BracketOpen(Bracket::Paren),
                    name("b"),
                    symbol(Symbol::Plus),
                    number("1"),
                    Node::BracketClose(Bracket::Paren),
                    symbol(Symbol::Multiply),
                    name("c"),
                    Node::BracketOpen(Bracket::Square),
                    number("0"),
                    Node::BracketClose(Bracket::Square),
                    Node::BracketOpen(Bracket::Curly),
                    Node::BracketClose(Bracket::Curly),
                ]
            ),
            Node::NewLine,
        ]
    );
}

#[test]
fn keyword_inside_a_value_is_a_name() {
    assert_eq!(
        parsed("let a = if;"),
        vec![variable("a", vec![symbol(Symbol::Equals), name("if")]), Node::NewLine]
    );
}

#[test]
fn declaration_needs_a_name() {
    assert_eq!(failure("let 5 = 1;"), unexpected(Expected::Name, Some(number_token("5")), 1));
    assert_eq!(
        failure("let = 1;"),
        unexpected(Expected::Name, Some(Token::Symbol(Symbol::Equals)), 1)
    );
    assert_eq!(failure("let"), unexpected(Expected::Name, None, 1));
}

#[test]
fn declaration_needs_a_terminator() {
    assert_eq!(failure("let x = 5"), unexpected(Expected::Terminator, None, 4));
    assert_eq!(failure("let x"), unexpected(Expected::Terminator, None, 2));
    assert_eq!(failure("x; let y = 1 + 2"), unexpected(Expected::Terminator, None, 8));
}

#[test]
fn if_statement_holds_condition_and_body() {
    assert_eq!(
        parse("if x > 1 { let y = 2; }"),
        Ok(Output {
            body: vec![Node::IfStatement {
                condition: vec![name("x"), symbol(Symbol::Greater), number("1")],
                body: vec![variable("y", vec![symbol(Symbol::Equals), number("2")]), Node::NewLine],
            }],
            end_index: 11,
        })
    );
}

#[test]
fn string_in_a_condition_stays_a_string() {
    assert_eq!(
        parsed("if s = \"a\" { }"),
        vec![Node::IfStatement {
            condition: vec![name("s"), symbol(Symbol::Equals), string("a")],
            body: vec![],
        }]
    );
}

#[test]
fn condition_may_be_empty() {
    assert_eq!(parsed("if { }"), vec![Node::IfStatement { condition: vec![], body: vec![] }]);
}

#[test]
fn condition_holds_no_bracket() {
    assert_eq!(
        failure("if (x) { }"),
        unexpected(Expected::Condition, Some(Token::BracketOpen(Bracket::Paren)), 1)
    );
    assert_eq!(
        failure("if x ] { }"),
        unexpected(Expected::Condition, Some(Token::BracketClose(Bracket::Square)), 2)
    );
    assert_eq!(
        failure("while x } { }"),
        unexpected(Expected::Condition, Some(Token::BracketClose(Bracket::Curly)), 2)
    );
}

#[test]
fn condition_needs_a_block() {
    assert_eq!(failure("if x > 1"), unexpected(Expected::Condition, None, 4));
    assert_eq!(failure("if"), unexpected(Expected::Condition, None, 1));
    assert_eq!(failure("while x"), unexpected(Expected::Condition, None, 2));
}

#[test]
fn block_needs_its_closing_brace() {
    assert_eq!(failure("if x { y"), unexpected(Expected::BlockClose, None, 4));
    assert_eq!(failure("if x {"), unexpected(Expected::BlockClose, None, 3));
    assert_eq!(failure("else { x = 1;"), unexpected(Expected::BlockClose, None, 6));
    assert_eq!(failure("while a { if b { c }"), unexpected(Expected::BlockClose, None, 8));
    assert_eq!(failure("fn f() { x"), unexpected(Expected::BlockClose, None, 6));
    assert_eq!(failure("for i in 0..3 {"), unexpected(Expected::BlockClose, None, 8));
}

#[test]
fn else_statement_holds_a_body() {
    assert_eq!(
        parse("else { x }"),
        Ok(Output { body: vec![Node::ElseStatement { body: vec![name("x")] }], end_index: 4 })
    );
}

#[test]
fn else_needs_its_block_at_once() {
    assert_eq!(failure("else x { }"), unexpected(Expected::BlockOpen, Some(word_token("x")), 1));
    assert_eq!(
        failure("else if x { }"),
        unexpected(Expected::BlockOpen, Some(word_token("if")), 1)
    );
    assert_eq!(failure("else"), unexpected(Expected::BlockOpen, None, 1));
}

#[test]
fn while_loop_holds_condition_and_body() {
    assert_eq!(
        parsed("while i < 10 { i = i + 1; }"),
        vec![Node::WhileLoop {
            condition: vec![name("i"), symbol(Symbol::Less), number("10")],
            body: vec![
                name("i"),
                symbol(Symbol::Equals),
                name("i"),
                symbol(Symbol::Plus),
                number("1"),
                Node::NewLine,
            ],
        }]
    );
}

#[test]
fn bare_bound_is_kept() {
    assert_eq!(
        parse("for i in 0..10 { }"),
        Ok(Output { body: vec![counting("i", "0", "10", vec![])], end_index: 9 })
    );
    assert_eq!(parsed("for i in a..b { }"), vec![counting("i", "a", "b", vec![])]);
    assert_eq!(parsed("for i in 0..007 { }"), vec![counting("i", "0", "007", vec![])]);
}

#[test]
fn bound_behind_a_symbol_is_lowered_by_one() {
    assert_eq!(
        parse("for i in 0..=10 { }"),
        Ok(Output { body: vec![counting("i", "0", "9", vec![])], end_index: 10 })
    );
    assert_eq!(parsed("for i in 1..<1 { }"), vec![counting("i", "1", "0", vec![])]);
    assert_eq!(parsed("for i in x..=0100 { }"), vec![counting("i", "x", "99", vec![])]);
}

#[test]
fn tokens_between_the_parts_of_a_loop_head_are_passed_over() {
    assert_eq!(parsed("for i 1 2 3 4 5 { }"), vec![counting("i", "2", "5", vec![])]);
    assert_eq!(parsed("for i = 0 ; ; 8 { }"), vec![counting("i", "0", "8", vec![])]);
    assert_eq!(parsed("for i ( 0 { } < 8 { }"), vec![counting("i", "0", "7", vec![])]);
}

#[test]
fn loop_body_is_a_block() {
    assert_eq!(
        parsed("for i in 0..3 { print(i); }"),
        vec![counting("i", "0", "3", vec![call("print", vec![name("i")]), Node::NewLine])]
    );
}

#[test]
fn loop_needs_a_variable() {
    assert_eq!(
        failure("for 1 in 0..3 { }"),
        unexpected(Expected::Name, Some(number_token("1")), 1)
    );
    assert_eq!(failure("for"), unexpected(Expected::Name, None, 1));
}

#[test]
fn loop_needs_its_bounds() {
    assert_eq!(
        failure("for i in { }"),
        unexpected(Expected::Bound, Some(Token::BracketOpen(Bracket::Curly)), 3)
    );
    assert_eq!(
        failure("for i in \"a\"..3 { }"),
        unexpected(Expected::Bound, Some(Token::String("a".to_string())), 3)
    );
    assert_eq!(failure("for i in"), unexpected(Expected::Bound, None, 3));
    assert_eq!(failure("for i"), unexpected(Expected::Bound, None, 2));
    assert_eq!(failure("for i in 0.."), unexpected(Expected::Bound, None, 6));
    assert_eq!(failure("for i in 0"), unexpected(Expected::Bound, None, 4));
    assert_eq!(
        failure("for i in 0..{ }"),
        unexpected(Expected::Bound, Some(Token::BracketOpen(Bracket::Curly)), 6)
    );
    assert_eq!(failure("for i in 0..="), unexpected(Expected::Bound, None, 7));
    assert_eq!(
        failure("for i in 0..==3 { }"),
        unexpected(Expected::Bound, Some(Token::Symbol(Symbol::Equals)), 7)
    );
}

#[test]
fn bound_behind_a_symbol_must_be_a_number_above_zero() {
    assert_eq!(
        failure("for i in 0..=n { }"),
        unexpected(Expected::LowerableBound, Some(word_token("n")), 7)
    );
    assert_eq!(
        failure("for i in 0..=0 { }"),
        unexpected(Expected::LowerableBound, Some(number_token("0")), 7)
    );
    assert_eq!(
        failure("for i in 0..=000 { }"),
        unexpected(Expected::LowerableBound, Some(number_token("000")), 7)
    );
    assert_eq!(
        failure("for i in 0..=99999999999999999999999999 { }"),
        unexpected(
            Expected::LowerableBound,
            Some(number_token("99999999999999999999999999")),
            7
        )
    );
}

#[test]
fn loop_needs_its_block() {
    assert_eq!(
        failure("for i in 0..10 x { }"),
        unexpected(Expected::BlockOpen, Some(word_token("x")), 7)
    );
    assert_eq!(failure("for i in 0..10"), unexpected(Expected::BlockOpen, None, 7));
    assert_eq!(
        failure("for i in 0..=10 ; { }"),
        unexpected(Expected::BlockOpen, Some(Token::Symbol(Symbol::SemiColon)), 8)
    );
}

#[test]
fn function_holds_name_parameters_and_body() {
    assert_eq!(
        parse("fn add(a, b) { x }"),
        Ok(Output {
            body: vec![Node::Function {
                name: "add".to_string(),
                params: vec![name("a"), name("b")],
                body: vec![name("x")],
            }],
            end_index: 10,
        })
    );
}

#[test]
fn function_without_parameters() {
    assert_eq!(
        parsed("fn f() { }"),
        vec![Node::Function { name: "f".to_string(), params: vec![], body: vec![] }]
    );
}

#[test]
fn commas_between_parameters_are_passed_over() {
    assert_eq!(
        parsed("fn f(a b,, c,) { }"),
        vec![Node::Function {
            name: "f".to_string(),
            params: vec![name("a"), name("b"), name("c")],
            body: vec![],
        }]
    );
}

#[test]
fn function_needs_a_name() {
    assert_eq!(failure("fn 1() { }"), unexpected(Expected::Name, Some(number_token("1")), 1));
    assert_eq!(
        failure("fn () { }"),
        unexpected(Expected::Name, Some(Token::BracketOpen(Bracket::Paren)), 1)
    );
    assert_eq!(failure("fn"), unexpected(Expected::Name, None, 1));
}

#[test]
fn function_needs_a_parameter_list() {
    assert_eq!(
        failure("fn f { }"),
        unexpected(Expected::ParenOpen, Some(Token::BracketOpen(Bracket::Curly)), 2)
    );
    assert_eq!(failure("fn f"), unexpected(Expected::ParenOpen, None, 2));
}

#[test]
fn parameters_are_names() {
    assert_eq!(failure("fn f(1) { }"), unexpected(Expected::Parameter, Some(number_token("1")), 3));
    assert_eq!(
        failure("fn f(a: int) { }"),
        unexpected(Expected::Parameter, Some(Token::Symbol(Symbol::DoubleColon)), 4)
    );
    assert_eq!(
        failure("fn f(a, \"b\") { }"),
        unexpected(Expected::Parameter, Some(Token::String("b".to_string())), 5)
    );
    assert_eq!(failure("fn f(a"), unexpected(Expected::Parameter, None, 4));
    assert_eq!(failure("fn f("), unexpected(Expected::Parameter, None, 3));
}

#[test]
fn function_needs_its_block() {
    assert_eq!(failure("fn f(a) x"), unexpected(Expected::BlockOpen, Some(word_token("x")), 5));
    assert_eq!(failure("fn f(a)"), unexpected(Expected::BlockOpen, None, 5));
}

#[test]
fn call_holds_its_arguments() {
    assert_eq!(
        parse("print(a, 1, \"s\");"),
        Ok(Output {
            body: vec![call("print", vec![name("a"), number("1"), string("s")]), Node::NewLine],
            end_index: 9,
        })
    );
}

#[test]
fn call_without_arguments() {
    assert_eq!(parse("f()"), Ok(Output { body: vec![call("f", vec![])], end_index: 3 }));
}

#[test]
fn commas_between_arguments_are_passed_over() {
    assert_eq!(
        parsed("f(a 1,, \"s\",)"),
        vec![call("f", vec![name("a"), number("1"), string("s")])]
    );
}

#[test]
fn arguments_are_names_numbers_and_strings() {
    assert_eq!(
        failure("f(a + b)"),
        unexpected(Expected::Argument, Some(Token::Symbol(Symbol::Plus)), 3)
    );
    assert_eq!(
        failure("f((a))"),
        unexpected(Expected::Argument, Some(Token::BracketOpen(Bracket::Paren)), 2)
    );
    assert_eq!(
        failure("f(a; b)"),
        unexpected(Expected::Argument, Some(Token::Symbol(Symbol::SemiColon)), 3)
    );
    assert_eq!(failure("f(a"), unexpected(Expected::Argument, None, 3));
    assert_eq!(failure("f("), unexpected(Expected::Argument, None, 2));
}

#[test]
fn name_alone_is_a_use_of_it() {
    assert_eq!(parse("x"), Ok(Output { body: vec![name("x")], end_index: 1 }));
    assert_eq!(parsed("x;"), vec![name("x"), Node::NewLine]);
    assert_eq!(parsed("x y z"), vec![name("x"), name("y"), name("z")]);
}

#[test]
fn assignment_follows_its_name_node_by_node() {
    assert_eq!(
        parse("x = y + 1;"),
        Ok(Output {
            body: vec![
                name("x"),
                symbol(Symbol::Equals),
                name("y"),
                symbol(Symbol::Plus),
                number("1"),
                Node::NewLine,
            ],
            end_index: 6,
        })
    );
}

#[test]
fn string_in_an_assignment_becomes_a_number_literal() {
    assert_eq!(
        parsed("x = \"s\";"),
        vec![name("x"), symbol(Symbol::Equals), number("s"), Node::NewLine]
    );
}

#[test]
fn assignment_needs_a_terminator() {
    assert_eq!(failure("x = 1"), unexpected(Expected::Terminator, None, 3));
    assert_eq!(failure("x ="), unexpected(Expected::Terminator, None, 2));
}

#[test]
fn bare_terminator_is_a_statement_boundary() {
    assert_eq!(parse(";"), Ok(Output { body: vec![Node::NewLine], end_index: 1 }));
    assert_eq!(parsed(";;;"), vec![Node::NewLine, Node::NewLine, Node::NewLine]);
}

#[test]
fn statement_starts_with_a_name_or_a_terminator() {
    assert_eq!(failure("5"), unexpected(Expected::Statement, Some(number_token("5")), 0));
    assert_eq!(
        failure("\"s\""),
        unexpected(Expected::Statement, Some(Token::String("s".to_string())), 0)
    );
    assert_eq!(
        failure("x + 1"),
        unexpected(Expected::Statement, Some(Token::Symbol(Symbol::Plus)), 1)
    );
    assert_eq!(
        failure("{ x }"),
        unexpected(Expected::Statement, Some(Token::BracketOpen(Bracket::Curly)), 0)
    );
    assert_eq!(
        failure("x; )"),
        unexpected(Expected::Statement, Some(Token::BracketClose(Bracket::Paren)), 2)
    );
    assert_eq!(
        failure("= 1;"),
        unexpected(Expected::Statement, Some(Token::Symbol(Symbol::Equals)), 0)
    );
}

#[test]
fn closing_brace_ends_the_block_and_stays_unread() {
    assert_eq!(parse("}"), Ok(Output { body: vec![], end_index: 0 }));
    assert_eq!(parse("x } y"), Ok(Output { body: vec![name("x")], end_index: 1 }));
    assert_eq!(
        parse("if a { } } b"),
        Ok(Output {
            body: vec![Node::IfStatement { condition: vec![name("a")], body: vec![] }],
            end_index: 4,
        })
    );
}

#[test]
fn parse_may_start_inside_the_tokens() {
    let tokens = tokens_of("if x > 1 { let y = 2; }");
    assert_eq!(
        parser(5, tokens),
        Ok(Output {
            body: vec![variable("y", vec![symbol(Symbol::Equals), number("2")]), Node::NewLine],
            end_index: 10,
        })
    );
    assert_eq!(
        parser(2, tokens_of("a b c")),
        Ok(Output { body: vec![name("c")], end_index: 3 })
    );
}

#[test]
fn parse_that_starts_at_or_behind_the_end_holds_nothing() {
    assert_eq!(parser(2, tokens_of("a b")), Ok(Output { body: vec![], end_index: 2 }));
    assert_eq!(parser(7, tokens_of("a b")), Ok(Output { body: vec![], end_index: 7 }));
    assert_eq!(parser(3, vec![]), Ok(Output { body: vec![], end_index: 3 }));
}

#[test]
fn failure_index_counts_from_the_first_token() {
    assert_eq!(
        parser(2, tokens_of("a b let 5")),
        Err(unexpected(Expected::Name, Some(number_token("5")), 3))
    );
}

#[test]
fn blocks_nest() {
    assert_eq!(
        parse("while a { if b { c(); } else { d = 1; } }"),
        Ok(Output {
            body: vec![Node::WhileLoop {
                condition: vec![name("a")],
                body: vec![
                    Node::IfStatement {
                        condition: vec![name("b")],
                        body: vec![call("c", vec![]), Node::NewLine],
                    },
                    Node::ElseStatement {
                        body: vec![name("d"), symbol(Symbol::Equals), number("1"), Node::NewLine],
                    },
                ],
            }],
            end_index: 19,
        })
    );
}

#[test]
fn statements_follow_a_block() {
    assert_eq!(
        parsed("if a { } x; fn f() { } y"),
        vec![
            Node::IfStatement { condition: vec![name("a")], body: vec![] },
            name("x"),
            Node::NewLine,
            Node::Function { name: "f".to_string(), params: vec![], body: vec![] },
            name("y"),
        ]
    );
}

#[test]
fn failure_inside_a_nested_block_ends_the_parse() {
    assert_eq!(
        failure("fn f() { if x { let } }"),
        unexpected(Expected::Name, Some(Token::BracketClose(Bracket::Curly)), 9)
    );
    assert_eq!(
        failure("a; if b { 5 } c"),
        unexpected(Expected::Statement, Some(number_token("5")), 5)
    );
}

#[test]
fn first_failure_from_the_left_is_reported() {
    assert_eq!(failure("let 1; let 2;"), unexpected(Expected::Name, Some(number_token("1")), 1));
    assert_eq!(
        failure("x = 1; 2; let"),
        unexpected(Expected::Statement, Some(number_token("2")), 4)
    );
}

fn nested(depth: usize) -> Vec<Token> {
    let mut tokens = Vec::new();
    for _ in 0..depth {
        tokens.push(word_token("if"));
        tokens.push(word_token("a"));
        tokens.push(Token::BracketOpen(Bracket::Curly));
    }
    for _ in 0..depth {
        tokens.push(Token::BracketClose(Bracket::Curly));
    }
    tokens
}

#[test]
fn nested_tokens_are_those_of_the_source() {
    assert_eq!(nested(3), tokens_of("if a { if a { if a { } } }"));
}

#[test]
fn nesting_up_to_the_limit_is_parsed() {
    assert_eq!(MAX_DEPTH, 128);
    let output = parser(0, nested(MAX_DEPTH)).unwrap();
    assert_eq!(output.end_index, 4 * MAX_DEPTH);
    let mut level = &output.body;
    for _ in 0..MAX_DEPTH {
        assert_eq!(level.len(), 1);
        match &level[0] {
            Node::IfStatement { condition, body } => {
                assert_eq!(condition, &vec![name("a")]);
                level = body;
            }
            other => panic!("no if statement: {:?}", other),
        }
    }
    assert!(level.is_empty());
}

#[test]
fn nesting_beyond_the_limit_fails_at_the_brace_that_opens_it() {
    assert_eq!(
        parser(0, nested(MAX_DEPTH + 1)),
        Err(unexpected(
            Expected::ShallowerNesting,
            Some(Token::BracketOpen(Bracket::Curly)),
            3 * (MAX_DEPTH + 1) - 1
        ))
    );
    assert_eq!(
        parser(0, nested(1000)),
        Err(unexpected(
            Expected::ShallowerNesting,
            Some(Token::BracketOpen(Bracket::Curly)),
            3 * (MAX_DEPTH + 1) - 1
        ))
    );
}

#[test]
fn head_of_a_block_beyond_the_limit_is_read_first() {
    let mut tokens = nested(MAX_DEPTH);
    let innermost = 3 * MAX_DEPTH;
    let inner = tokens_of("if ( { }");
    tokens.splice(innermost..innermost, inner);
    assert_eq!(
        parser(0, tokens),
        Err(unexpected(
            Expected::Condition,
            Some(Token::BracketOpen(Bracket::Paren)),
            innermost + 1
        ))
    );
}

#[test]
fn depth_is_counted_from_the_block_that_is_parsed() {
    let tokens = nested(MAX_DEPTH + 1);
    let last = tokens.len() - 1;
    let output = parser(3, tokens).unwrap();
    assert_eq!(output.end_index, last);
    assert_eq!(output.body.len(), 1);
}

#[test]
fn blocks_side_by_side_do_not_add_to_the_depth() {
    let pair = tokens_of("if a { } else { }");
    let mut tokens = Vec::new();
    for _ in 0..1000 {
        tokens.extend(pair.iter().cloned());
    }
    assert_eq!(parser(0, tokens).unwrap().body.len(), 2000);
}

#[test]
fn block_depends_only_on_its_own_tokens() {
    let inside = parser(2, tokens_of("p { a = 1; if b { c(); } } q")).unwrap();
    let other = parser(2, tokens_of("5 ( a = 1; if b { c(); } } ) ) let"));
    assert_eq!(other, Ok(Output { body: inside.body, end_index: inside.end_index }));
    assert_eq!(inside.end_index, 14);
}
