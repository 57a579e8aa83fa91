use va_midend::hir::NetType;
use va_midend::parser::{
    AttributeNode, Attributes, Branch, Error, ErrorType, Expected, Lexeme, ModuleItem, Parser,
    Port, Span, Token, Unsupported,
};

/// Splits a source into tokens; the names of the identifiers are numbered
/// in the order of their first appearance.
fn lex(src: &str) -> (Vec<Lexeme>, Vec<String>) {
    let mut names: Vec<String> = Vec::new();
    let mut tokens = Vec::new();
    let bytes = src.as_bytes();
    let mut i = 0;
    while i < bytes.len() {
        let c = bytes[i] as char;
        if c.is_whitespace() {
            i += 1;
            continue;
        }
        let start = i;
        let token = if src[i..].starts_with("(*") {
            i += 2;
            Token::AttributeStart
        } else if src[i..].starts_with("*)") {
            i += 2;
            Token::AttributeEnd
        } else if c.is_alphabetic() || c == '_' {
            while i < bytes.len() && ((bytes[i] as char).is_alphanumeric() || bytes[i] == b'_') {
                i += 1;
            }
            match &src[start..i] {
                "module" => Token::Module,
                "endmodule" => Token::EndModule,
                "input" => Token::Input,
                "output" => Token::Output,
                "inout" => Token::Inout,
                "signed" => Token::Signed,
                "branch" => Token::Branch,
                "analog" => Token::Analog,
                "wire" => Token::Wire,
                "tri" => Token::Tri,
                "wreal" => Token::Wreal,
                _ => Token::SimpleIdentifier,
            }
        } else {
            i += 1;
            match c {
                '(' => Token::ParenOpen,
                ')' => Token::ParenClose,
                ',' => Token::Comma,
                ';' => Token::Semicolon,
                '#' => Token::Hash,
                '<' => Token::OpLess,
                '>' => Token::OpGreater,
                _ => Token::Unexpected,
            }
        };
        let name = if token == Token::SimpleIdentifier {
            let text = &src[start..i];
            match names.iter().position(|n| n == text) {
                Some(k) => k as u32,
                None => {
                    names.push(text.to_string());
                    (names.len() - 1) as u32
                }
            }
        } else {
            0
        };
        tokens.push(Lexeme { token, span: Span { start: start as u32, end: i as u32 }, name });
    }
    (tokens, names)
}

struct Source {
    parser: Parser,
    names: Vec<String>,
}

impl Source {
    fn new(src: &str) -> Source {
        let (tokens, names) = lex(src);
        Source { parser: Parser::new(tokens), names }
    }

    fn name(&self, id: u32) -> &str {
        &self.names[id as usize]
    }

    fn discipline(&self, port: &Port) -> Option<&str> {
        port.discipline.map(|d| self.name(d))
    }
}

#[test]
pub fn module() {
    let mut src = Source::new(
        "module test1; endmodule
         module test2 (output a, input signed b, inout wire c, inout electrical d,
                       output electrical e, f, inout electrical wire signed g);
         endmodule
         module test3 (output a, input electrical b, inout electrical tri c); endmodule",
    );
    assert_eq!(src.parser.expect(Token::Module), Ok(()));
    let first_module = src.parser.parse_module().unwrap();
    assert_eq!(src.name(first_module.name), "test1");
    assert!(first_module.port_list.is_empty());

    assert_eq!(src.parser.expect(Token::Module), Ok(()));
    let second_module = src.parser.parse_module().unwrap();
    assert_eq!(src.name(second_module.name), "test2");
    let mut ports = second_module.port_list.iter();

    let port = ports.next().unwrap().contents;
    assert_eq!(src.name(port.name), "a");
    assert_eq!(port.output, true);
    assert_eq!(port.input, false);
    assert_eq!(port.signed, false);
    assert!(port.discipline.is_none());
    assert_eq!(port.verilog_type, NetType::UNDECLARED);

    let port = ports.next().unwrap().contents;
    assert_eq!(src.name(port.name), "b");
    assert_eq!(port.output, false);
    assert_eq!(port.input, true);
    assert_eq!(port.signed, true);
    assert!(port.discipline.is_none());
    assert_eq!(port.verilog_type, NetType::UNDECLARED);

    let port = ports.next().unwrap().contents;
    assert_eq!(src.name(port.name), "c");
    assert_eq!(port.output, true);
    assert_eq!(port.input, true);
    assert_eq!(port.signed, false);
    assert!(port.discipline.is_none());
    assert_eq!(port.verilog_type, NetType::WIRE);

    let port = ports.next().unwrap().contents;
    assert_eq!(src.name(port.name), "d");
    assert_eq!(port.output, true);
    assert_eq!(port.input, true);
    assert_eq!(port.signed, false);
    assert_eq!(src.discipline(&port), Some("electrical"));
    assert_eq!(port.verilog_type, NetType::UNDECLARED);

    let port = ports.next().unwrap().contents;
    assert_eq!(src.name(port.name), "e");
    assert_eq!(port.output, true);
    assert_eq!(port.input, false);
    assert_eq!(port.signed, false);
    assert_eq!(src.discipline(&port), Some("electrical"));
    assert_eq!(port.verilog_type, NetType::UNDECLARED);

    let port = ports.next().unwrap().contents;
    assert_eq!(src.name(port.name), "f");
    assert_eq!(port.output, true);
    assert_eq!(port.input, false);
    assert_eq!(port.signed, false);
    assert_eq!(src.discipline(&port), Some("electrical"));
    assert_eq!(port.verilog_type, NetType::UNDECLARED);

    let port = ports.next().unwrap().contents;
    assert_eq!(src.name(port.name), "g");
    assert_eq!(port.output, true);
    assert_eq!(port.input, true);
    assert_eq!(port.signed, true);
    assert_eq!(src.discipline(&port), Some("electrical"));
    assert_eq!(port.verilog_type, NetType::WIRE);
    assert!(ports.next().is_none());

    assert_eq!(src.parser.expect(Token::Module), Ok(()));
    let third_module = src.parser.parse_module().unwrap();
    assert_eq!(src.name(third_module.name), "test3");
    let mut ports = third_module.port_list.iter();
    let port = ports.next().unwrap().contents;
    assert_eq!(src.name(port.name), "a");
    assert_eq!(port.output, true);
    assert_eq!(port.input, false);
    assert_eq!(port.signed, false);
    assert!(port.discipline.is_none());
    assert_eq!(port.verilog_type, NetType::UNDECLARED);

    let port = ports.next().unwrap().contents;
    assert_eq!(src.name(port.name), "b");
    assert_eq!(port.output, false);
    assert_eq!(port.input, true);
    assert_eq!(port.signed, false);
    assert_eq!(src.discipline(&port), Some("electrical"));
    assert_eq!(port.verilog_type, NetType::UNDECLARED);

    let port = ports.next().unwrap().contents;
    assert_eq!(src.name(port.name), "c");
    assert_eq!(port.output, true);
    assert_eq!(port.input, true);
    assert_eq!(port.signed, false);
    assert_eq!(src.discipline(&port), Some("electrical"));
    assert_eq!(port.verilog_type, NetType::TRI);
    assert_eq!(src.parser.look_ahead().token, Token::EOF);
}

#[test]
pub fn branch() {
    let mut src = Source::new(
        "module test (output a, input b);
            branch (a,b) ab1;
            branch (a,b) ab2;
            branch (<a>) pa;
            branch (<b>) pb;
         endmodule",
    );
    assert_eq!(src.parser.expect(Token::Module), Ok(()));
    let module = src.parser.parse_module().unwrap();
    assert_eq!(src.name(module.name), "test");
    let ports = &module.port_list;

    let port = ports[0].contents;
    assert_eq!(src.name(port.name), "a");
    assert_eq!(port.output, true);
    assert_eq!(port.input, false);

    let port = ports[1].contents;
    assert_eq!(src.name(port.name), "b");
    assert_eq!(port.output, false);
    assert_eq!(port.input, true);

    let mut children = module.children.iter();
    let ModuleItem::BranchDecl(branch) = children.next().unwrap().contents;
    assert_eq!(src.name(branch.name), "ab1");
    if let Branch::Nets(net1, net2) = branch.branch {
        assert_eq!(src.name(net1), "a");
        assert_eq!(src.name(net2), "b");
    } else {
        panic!("This should be a branch between two nets")
    }
    let ModuleItem::BranchDecl(branch) = children.next().unwrap().contents;
    assert_eq!(src.name(branch.name), "ab2");
    if let Branch::Nets(net1, net2) = branch.branch {
        assert_eq!(src.name(net1), "a");
        assert_eq!(src.name(net2), "b");
    } else {
        panic!("This should be a branch between two nets")
    }
    let ModuleItem::BranchDecl(branch) = children.next().unwrap().contents;
    assert_eq!(src.name(branch.name), "pa");
    if let Branch::Port(port) = branch.branch {
        assert_eq!(src.name(port), "a");
    } else {
        panic!("This should be a branch trough a port")
    }
    let ModuleItem::BranchDecl(branch) = children.next().unwrap().contents;
    assert_eq!(src.name(branch.name), "pb");
    if let Branch::Port(port) = branch.branch {
        assert_eq!(src.name(port), "b");
    } else {
        panic!("This should be a branch trough a port")
    }
    assert!(children.next().is_none());
}

#[test]
fn ports_named_in_the_header_are_declared_in_the_body() {
    let mut src = Source::new("m (a, b); (* keep *) (* x, y *) branch (a, b) ab; input a, b; endmodule");
    let module = src.parser.parse_module().unwrap();
    assert_eq!(module.port_list.len(), 4);
    assert_eq!(
        module.port_list[0],
        AttributeNode {
            source: Span { start: 3, end: 4 },
            attributes: Attributes { first: 0, count: 0 },
            contents: Port {
                name: 1,
                input: false,
                output: false,
                discipline: None,
                signed: false,
                verilog_type: NetType::UNDECLARED
            },
        }
    );
    assert_eq!(module.port_list[2].contents.input, true);
    assert_eq!(src.name(module.port_list[3].contents.name), "b");
    assert_eq!(module.port_list[3].source, Span { start: 50, end: 60 });
    assert_eq!(module.children.len(), 1);
    assert_eq!(module.children[0].attributes, Attributes { first: 7, count: 2 });
    assert_eq!(module.children[0].source, Span { start: 32, end: 49 });
}

fn error_of(src: &str) -> (Error, usize) {
    let mut src = Source::new(src);
    let err = src.parser.parse_module().unwrap_err();
    (err, src.parser.pos)
}

#[test]
fn what_the_module_parser_rejects() {
    let unexpected = |expected, start, end| Error {
        error_type: ErrorType::UnexpectedToken { expected },
        source: Span { start, end },
    };
    assert_eq!(error_of("; endmodule").0, unexpected(Expected::Identifier, 0, 1));
    assert_eq!(error_of("m #(a) ; endmodule"), (unexpected(Expected::Token(Token::ParenOpen), 2, 3), 2));
    assert_eq!(error_of("m () ; endmodule").0, unexpected(Expected::PortOrDeclaration, 3, 4));
    assert_eq!(error_of("m (a b); endmodule").0, unexpected(Expected::Token(Token::ParenClose), 5, 6));
    assert_eq!(error_of("m (input a) endmodule").0, unexpected(Expected::Token(Token::Semicolon), 12, 21));
    assert_eq!(error_of("m (input a, b); endmodule").0, unexpected(Expected::Direction, 14, 15));
    assert_eq!(
        error_of("m; branch (a, b) ab"),
        (unexpected(Expected::Token(Token::Semicolon), 19, 19), 9)
    );
    assert_eq!(
        error_of("m; branch (<a) pa; endmodule").0,
        unexpected(Expected::Token(Token::OpGreater), 13, 14)
    );
    assert_eq!(
        error_of("m; "),
        (
            Error {
                error_type: ErrorType::UnexpectedEof { expected: Expected::Token(Token::EndModule) },
                source: Span { start: 2, end: 2 },
            },
            2
        )
    );
    assert_eq!(
        error_of("m; (* a").0,
        Error {
            error_type: ErrorType::UnexpectedEof { expected: Expected::Token(Token::AttributeEnd) },
            source: Span { start: 7, end: 7 },
        }
    );
    assert_eq!(
        error_of("m; analog x; endmodule").0,
        Error {
            error_type: ErrorType::Unsupported(Unsupported::AnalogBlock),
            source: Span { start: 3, end: 9 },
        }
    );
    assert_eq!(
        error_of("m; x; endmodule").0,
        Error {
            error_type: ErrorType::Unsupported(Unsupported::ModuleItem),
            source: Span { start: 3, end: 4 },
        }
    );
    // a port that the header has declared is declared again
    let mut src = Source::new("module m (input a); input a; endmodule");
    assert_eq!(src.parser.expect(Token::Module), Ok(()));
    assert_eq!(
        src.parser.parse_module().unwrap_err(),
        Error {
            error_type: ErrorType::PortRedeclaration(
                Span { start: 20, end: 27 },
                Span { start: 7, end: 18 }
            ),
            source: Span { start: 0, end: 28 },
        }
    );
}

#[test]
fn a_declaration_of_ports_ends_with_its_semicolon() {
    let mut src = Source::new("inout electrical a (* x *), b, c; output d;");
    let ports = src.parser.parse_port_declaration().unwrap();
    assert_eq!(ports.len(), 3);
    assert!(ports.iter().all(|p| p.contents.input && p.contents.output));
    assert!(ports.iter().all(|p| src.discipline(&p.contents) == Some("electrical")));
    assert_eq!(ports.iter().map(|p| src.name(p.contents.name)).collect::<Vec<_>>(), ["a", "b", "c"]);
    assert_eq!(ports[0].attributes, Attributes { first: 3, count: 1 });
    assert_eq!(ports[2].source, Span { start: 0, end: 32 });
    assert_eq!(src.parser.look_ahead().token, Token::Output);
    // the token in front of a further name is passed over, whatever it is
    let mut src = Source::new("input a ; ");
    assert_eq!(src.parser.parse_port_declaration().unwrap().len(), 1);
    let mut src = Source::new("input a < b;");
    assert_eq!(src.parser.parse_port_declaration().unwrap().len(), 2);
    let mut src = Source::new("input a, ;");
    assert_eq!(
        src.parser.parse_port_declaration().unwrap_err().error_type,
        ErrorType::UnexpectedToken { expected: Expected::Identifier }
    );
    let mut src = Source::new("a");
    assert!(src.parser.parse_parameter_list().is_err());
}
