use basic_compiler::{code_generator, Bracket, CodeGenError, Node, Symbol};

fn name(text: &str) -> Node {
    Node::VariableCall(text.to_string())
}

fn number(text: &str) -> Node {
    Node::NumberLiteral(text.to_string())
}

fn string(text: &str) -> Node {
    Node::StringLiteral(text.to_string())
}

fn call(text: &str, args: Vec<Node>) -> Node {
    Node::FunctionCall { name: text.to_string(), args }
}

fn function(text: &str, params: Vec<Node>, body: Vec<Node>) -> Node {
    Node::Function { name: text.to_string(), params, body }
}

fn text_of(nodes: Vec<Node>) -> String {
    code_generator(nodes).unwrap()
}

#[test]
fn no_nodes_have_empty_text() {
    assert_eq!(code_generator(vec![]), Ok(String::new()));
}

#[test]
fn literals_and_names_render_their_text() {
    assert_eq!(text_of(vec![number("42")]), "42");
    assert_eq!(text_of(vec![name("counter")]), "counter");
    assert_eq!(text_of(vec![string("hi")]), "\"hi\"");
    assert_eq!(text_of(vec![string("")]), "\"\"");
    assert_eq!(text_of(vec![string("a\"b")]), "\"a\"b\"");
}

#[test]
fn every_symbol_renders_its_character() {
    assert_eq!(
        text_of(vec![
            Node::Symbol(Symbol::Equals),
            Node::Symbol(Symbol::Plus),
            Node::Symbol(Symbol::Minus),
            Node::Symbol(Symbol::Multiply),
            Node::Symbol(Symbol::Divide),
            Node::Symbol(Symbol::Modulo),
            Node::Symbol(Symbol::Greater),
            Node::Symbol(Symbol::Less),
            Node::Symbol(Symbol::Dot),
            Node::Symbol(Symbol::SemiColon),
            Node::Symbol(Symbol::Exclamation),
            Node::Symbol(Symbol::DoubleColon),
            Node::Symbol(Symbol::Colon),
        ]),
        "=+-*/%><.;!:,"
    );
}

#[test]
fn every_bracket_renders_its_character() {
    assert_eq!(
        text_of(vec![
            Node::BracketOpen(Bracket::Curly),
            Node::BracketClose(Bracket::Curly),
            Node::BracketOpen(Bracket::Square),
            Node::BracketClose(Bracket::Square),
            Node::BracketOpen(Bracket::Paren),
            Node::BracketClose(Bracket::Paren),
        ]),
        "{}[]()"
    );
}

#[test]
fn statement_boundary_renders_the_terminator() {
    assert_eq!(text_of(vec![Node::NewLine]), ";");
    assert_eq!(text_of(vec![name("x"), Node::NewLine, Node::NewLine]), "x;;");
}

#[test]
fn declaration_renders_let_name_and_value() {
    assert_eq!(
        text_of(vec![Node::Variable {
            name: "x".to_string(),
            value: vec![Node::Symbol(Symbol::Equals), number("5")],
        }]),
        "let x=5"
    );
    assert_eq!(text_of(vec![Node::Variable { name: "x".to_string(), value: vec![] }]), "let x");
}

#[test]
fn if_statement_renders_condition_and_block() {
    assert_eq!(
        text_of(vec![Node::IfStatement {
            condition: vec![name("x"), Node::Symbol(Symbol::Greater), number("1")],
            body: vec![
                Node::Variable {
                    name: "y".to_string(),
                    value: vec![Node::Symbol(Symbol::Equals), number("2")],
                },
                Node::NewLine,
            ],
        }]),
        "if (x>1){\nlet y=2;}\n"
    );
    assert_eq!(
        text_of(vec![Node::IfStatement { condition: vec![], body: vec![] }]),
        "if (){\n}\n"
    );
}

#[test]
fn else_statement_renders_its_block() {
    assert_eq!(
        text_of(vec![Node::ElseStatement { body: vec![name("x"), Node::NewLine] }]),
        "else{\nx;}\n"
    );
}

#[test]
fn while_loop_renders_condition_and_block() {
    assert_eq!(
        text_of(vec![Node::WhileLoop {
            condition: vec![name("i"), Node::Symbol(Symbol::Less), number("10")],
            body: vec![
                name("i"),
                Node::Symbol(Symbol::Equals),
                name("i"),
                Node::Symbol(Symbol::Plus),
                number("1"),
                Node::NewLine,
            ],
        }]),
        "while (i<10){\ni=i+1;}\n"
    );
}

#[test]
fn counting_loop_renders_its_head_and_block() {
    assert_eq!(
        text_of(vec![Node::ForLoop {
            var_name: "i".to_string(),
            start: "0".to_string(),
            end: "9".to_string(),
            body: vec![call("print", vec![name("i")]), Node::NewLine],
        }]),
        "for (let i=0; i===9; i++){\nprint(i);}\n"
    );
    assert_eq!(
        text_of(vec![Node::ForLoop {
            var_name: "index".to_string(),
            start: "a".to_string(),
            end: "b".to_string(),
            body: vec![],
        }]),
        "for (let index=a; index===b; index++){\n}\n"
    );
}

#[test]
fn function_renders_name_parameters_and_block() {
    assert_eq!(
        text_of(vec![function(
            "add",
            vec![name("a"), name("b")],
            vec![name("a"), Node::Symbol(Symbol::Plus), name("b"), Node::NewLine]
        )]),
        "function add(a,b){\na+b;}\n"
    );
    assert_eq!(text_of(vec![function("f", vec![], vec![])]), "function f(){\n}\n");
    assert_eq!(text_of(vec![function("f", vec![name("x")], vec![])]), "function f(x){\n}\n");
}

#[test]
fn call_renders_name_and_arguments() {
    assert_eq!(text_of(vec![call("f", vec![])]), "f()");
    assert_eq!(text_of(vec![call("f", vec![name("a")])]), "f(a)");
    assert_eq!(text_of(vec![call("f", vec![name("a"), name("b"), name("c")])]), "f(a,b,c)");
}

#[test]
fn nodes_render_in_order() {
    assert_eq!(
        text_of(vec![
            Node::Variable {
                name: "x".to_string(),
                value: vec![Node::Symbol(Symbol::Equals), number("1")],
            },
            Node::NewLine,
            call("print", vec![name("x")]),
            Node::NewLine,
        ]),
        "let x=1;print(x);"
    );
}

#[test]
fn blocks_render_inside_blocks() {
    assert_eq!(
        text_of(vec![function(
            "f",
            vec![name("n")],
            vec![
                Node::WhileLoop {
                    condition: vec![name("n")],
                    body: vec![Node::IfStatement {
                        condition: vec![name("a")],
                        body: vec![call("g", vec![name("n")]), Node::NewLine],
                    }],
                },
                Node::ElseStatement { body: vec![] },
            ]
        )]),
        "function f(n){\nwhile (n){\nif (a){\ng(n);}\n}\nelse{\n}\n}\n"
    );
}

#[test]
fn argument_must_be_a_name() {
    assert_eq!(
        code_generator(vec![call("print", vec![string("hi")])]),
        Err(CodeGenError::UnexpectedArgument(string("hi")))
    );
    assert_eq!(
        code_generator(vec![call("print", vec![number("1")])]),
        Err(CodeGenError::UnexpectedArgument(number("1")))
    );
    assert_eq!(
        code_generator(vec![call("print", vec![Node::NewLine])]),
        Err(CodeGenError::UnexpectedArgument(Node::NewLine))
    );
    assert_eq!(
        code_generator(vec![call("f", vec![call("g", vec![])])]),
        Err(CodeGenError::UnexpectedArgument(call("g", vec![])))
    );
}

#[test]
fn first_argument_that_is_no_name_is_the_failure() {
    assert_eq!(
        code_generator(vec![call("f", vec![name("a"), number("1"), string("s")])]),
        Err(CodeGenError::UnexpectedArgument(number("1")))
    );
    assert_eq!(
        code_generator(vec![call("f", vec![name("a"), name("b"), string("s")])]),
        Err(CodeGenError::UnexpectedArgument(string("s")))
    );
}

#[test]
fn parameter_must_be_a_name() {
    assert_eq!(
        code_generator(vec![function("f", vec![number("1")], vec![])]),
        Err(CodeGenError::UnexpectedParameter(number("1")))
    );
    assert_eq!(
        code_generator(vec![function("f", vec![name("a"), string("b"), number("3")], vec![])]),
        Err(CodeGenError::UnexpectedParameter(string("b")))
    );
}

#[test]
fn failure_carries_the_whole_node() {
    let block = Node::IfStatement {
        condition: vec![name("a")],
        body: vec![call("g", vec![number("1")]), Node::NewLine],
    };
    let same = Node::IfStatement {
        condition: vec![name("a")],
        body: vec![call("g", vec![number("1")]), Node::NewLine],
    };
    assert_eq!(
        code_generator(vec![call("f", vec![block])]),
        Err(CodeGenError::UnexpectedArgument(same))
    );
}

#[test]
fn failure_inside_a_block_fails_the_whole() {
    let bad = call("print", vec![string("hi")]);
    let failure = Err(CodeGenError::UnexpectedArgument(string("hi")));
    assert_eq!(
        code_generator(vec![Node::Variable {
            name: "x".to_string(),
            value: vec![call("print", vec![string("hi")])],
        }]),
        failure
    );
    assert_eq!(
        code_generator(vec![Node::IfStatement {
            condition: vec![call("print", vec![string("hi")])],
            body: vec![],
        }]),
        failure
    );
    assert_eq!(
        code_generator(vec![Node::IfStatement {
            condition: vec![],
            body: vec![call("print", vec![string("hi")])],
        }]),
        failure
    );
    assert_eq!(
        code_generator(vec![Node::ElseStatement { body: vec![call("print", vec![string("hi")])] }]),
        failure
    );
    assert_eq!(
        code_generator(vec![Node::WhileLoop {
            condition: vec![name("a")],
            body: vec![call("print", vec![string("hi")])],
        }]),
        failure
    );
    assert_eq!(
        code_generator(vec![Node::ForLoop {
            var_name: "i".to_string(),
            start: "0".to_string(),
            end: "1".to_string(),
            body: vec![call("print", vec![string("hi")])],
        }]),
        failure
    );
    assert_eq!(code_generator(vec![function("f", vec![], vec![name("ok"), bad])]), failure);
}

#[test]
fn first_failure_in_a_walk_from_the_left_wins() {
    assert_eq!(
        code_generator(vec![
            name("ok"),
            call("f", vec![number("1")]),
            call("g", vec![number("2")]),
        ]),
        Err(CodeGenError::UnexpectedArgument(number("1")))
    );
    assert_eq!(
        code_generator(vec![Node::IfStatement {
            condition: vec![call("f", vec![number("1")])],
            body: vec![call("g", vec![number("2")])],
        }]),
        Err(CodeGenError::UnexpectedArgument(number("1")))
    );
    assert_eq!(
        code_generator(vec![function(
            "f",
            vec![number("1")],
            vec![call("g", vec![number("2")])]
        )]),
        Err(CodeGenError::UnexpectedParameter(number("1")))
    );
}

#[test]
fn text_of_joined_nodes_is_the_joined_text() {
    let front = || vec![name("a"), Node::Symbol(Symbol::Equals), number("1"), Node::NewLine];
    let back = || vec![call("f", vec![name("a")]), Node::NewLine];
    let mut joined = front();
    joined.extend(back());
    assert_eq!(text_of(joined), format!("{}{}", text_of(front()), text_of(back())));
}

#[test]
fn copy_of_a_node_equals_the_node() {
    let node = function(
        "f",
        vec![name("a")],
        vec![
            Node::IfStatement {
                condition: vec![name("a"), Node::Symbol(Symbol::Less), number("1")],
                body: vec![call("g", vec![string("s")]), Node::NewLine],
            },
            Node::ForLoop {
                var_name: "i".to_string(),
                start: "0".to_string(),
                end: "3".to_string(),
                body: vec![Node::BracketOpen(Bracket::Square)],
            },
        ],
    );
    assert_eq!(node.duplicate(), node);
}
