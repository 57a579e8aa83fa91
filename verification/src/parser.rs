//! The parser of module headers: a module with its ports, the
//! declarations of ports in its body, and its branches. It reads the tokens
//! that the lexer found, from a position that it moves along.

use vstd::prelude::*;
use crate::hir::NetType;

verus! {

/// The tokens that the parser tells apart.
#[derive(Clone, Copy, Debug, PartialEq, Eq, Structural)]
pub enum Token {
    EOF,
    SimpleIdentifier,
    EscapedIdentifier,
    Module,
    EndModule,
    ParenOpen,
    ParenClose,
    AttributeStart,
    AttributeEnd,
    Comma,
    Semicolon,
    Hash,
    OpLess,
    OpGreater,
    Input,
    Output,
    Inout,
    Signed,
    Branch,
    Analog,
    Wreal,
    Supply0,
    Supply1,
    Tri,
    TriAnd,
    TriOr,
    Tri0,
    Tri1,
    Wire,
    Uwire,
    Wand,
    Wor,
    /// Any token that the module header does not know.
    Unexpected,
}

/// A stretch of the source.
#[derive(Clone, Copy, Debug, PartialEq, Eq, Structural)]
pub struct Span {
    pub start: u32,
    pub end: u32,
}

impl Span {
    /// The span moved towards the start of the source by `offset`, and no
    /// further than to the start.
    pub open spec fn spec_negative_offset(self, offset: u32) -> Span {
        Span {
            start: if self.start >= offset {
                (self.start - offset) as u32
            } else {
                0
            },
            end: if self.end >= offset {
                (self.end - offset) as u32
            } else {
                0
            },
        }
    }

    #[verifier::when_used_as_spec(spec_negative_offset)]
    pub fn negative_offset(self, offset: u32) -> (res: Span)
        ensures
            res == self.spec_negative_offset(offset),
    {
        Span {
            start: if self.start >= offset {
                self.start - offset
            } else {
                0
            },
            end: if self.end >= offset {
                self.end - offset
            } else {
                0
            },
        }
    }
}

/// A token with its place in the source and, for an identifier, the
/// number of its name.
#[derive(Clone, Copy, Debug, PartialEq, Eq, Structural)]
pub struct Lexeme {
    pub token: Token,
    pub span: Span,
    pub name: u32,
}

/// What the parser expected where it found something else.
#[derive(Clone, Copy, Debug, PartialEq, Eq, Structural)]
pub enum Expected {
    Identifier,
    /// `input`, `output` or `inout`.
    Direction,
    /// A port, or the declaration of one.
    PortOrDeclaration,
    /// A comma, or the end of an attribute list.
    CommaOrAttributeEnd,
    Token(Token),
}

/// What the parser cannot read yet.
#[derive(Clone, Copy, Debug, PartialEq, Eq, Structural)]
pub enum Unsupported {
    ParameterList,
    AnalogBlock,
    /// Any item of a module but a branch.
    ModuleItem,
}

/// What went wrong.
#[derive(Clone, Copy, Debug, PartialEq, Eq, Structural)]
pub enum ErrorType {
    UnexpectedToken { expected: Expected },
    UnexpectedEof { expected: Expected },
    /// A port that the header of the module has declared is declared
    /// again in its body: the span of the declaration, and that of the
    /// ports of the header.
    PortRedeclaration(Span, Span),
    Unsupported(Unsupported),
}

/// An error with the place in the source that it is about.
#[derive(Clone, Copy, Debug, PartialEq, Eq, Structural)]
pub struct Error {
    pub error_type: ErrorType,
    pub source: Span,
}

/// The attribute lists in front of an item: where the first starts among
/// the tokens, and how many there are.
#[derive(Clone, Copy, Debug, PartialEq, Eq, Structural)]
pub struct Attributes {
    pub first: usize,
    pub count: usize,
}

/// An item with its place in the source and its attributes.
#[derive(Clone, Copy, Debug, PartialEq, Eq, Structural)]
pub struct AttributeNode<T> {
    pub source: Span,
    pub attributes: Attributes,
    pub contents: T,
}

/// A port as it was declared.
#[derive(Clone, Copy, Debug, PartialEq, Eq, Structural)]
pub struct Port {
    pub name: u32,
    pub input: bool,
    pub output: bool,
    /// The name of the discipline.
    pub discipline: Option<u32>,
    pub signed: bool,
    pub verilog_type: NetType,
}

/// What a branch was declared to run through: a port, or from one net to
/// another, by their names.
#[derive(Clone, Copy, Debug, PartialEq, Eq, Structural)]
pub enum Branch {
    Port(u32),
    Nets(u32, u32),
}

/// A branch as it was declared.
#[derive(Clone, Copy, Debug, PartialEq, Eq, Structural)]
pub struct BranchDeclaration {
    pub name: u32,
    pub branch: Branch,
}

/// An item in the body of a module.
#[derive(Clone, Copy, Debug, PartialEq, Eq, Structural)]
pub enum ModuleItem {
    BranchDecl(BranchDeclaration),
}

/// A module as it was declared.
#[derive(Debug, PartialEq, Eq)]
pub struct Module {
    pub name: u32,
    pub port_list: Vec<AttributeNode<Port>>,
    pub children: Vec<AttributeNode<ModuleItem>>,
}

/// What a step of the parser gives: its result, and the position that it
/// leaves the parser at.
pub struct Parsed<T> {
    pub res: Result<T, Error>,
    pub pos: int,
}

/// The token at `pos`; behind the last token, the end of the input.
pub open spec fn spec_peek(tokens: Seq<Lexeme>, pos: int) -> Lexeme {
    if 0 <= pos < tokens.len() {
        tokens[pos]
    } else {
        Lexeme {
            token: Token::EOF,
            span: Span { start: spec_last_end(tokens, pos), end: spec_last_end(tokens, pos) },
            name: 0,
        }
    }
}

/// Where the token before `pos` ends; 0 where there is none.
pub open spec fn spec_last_end(tokens: Seq<Lexeme>, pos: int) -> u32 {
    if 0 < pos <= tokens.len() {
        tokens[pos - 1].span.end
    } else if pos > tokens.len() && tokens.len() > 0 {
        tokens[tokens.len() - 1].span.end
    } else {
        0
    }
}

/// Where the token before `pos` starts; 0 where there is none.
pub open spec fn spec_current_start(tokens: Seq<Lexeme>, pos: int) -> u32 {
    if 0 < pos <= tokens.len() {
        tokens[pos - 1].span.start
    } else {
        0
    }
}

/// The position behind the token at `pos`. The end of the input is never
/// left behind.
pub open spec fn spec_advance(tokens: Seq<Lexeme>, pos: int) -> int {
    if 0 <= pos < tokens.len() {
        pos + 1
    } else {
        pos
    }
}

/// The span from `start` to the end of the token before `pos`.
pub open spec fn spec_span_to_end(tokens: Seq<Lexeme>, pos: int, start: u32) -> Span {
    Span { start, end: spec_last_end(tokens, pos) }
}

/// Reads the token `token`: the token at `pos` is passed over, and is an
/// error if it is another.
pub open spec fn spec_expect(tokens: Seq<Lexeme>, pos: int, token: Token) -> Parsed<()> {
    let found = spec_peek(tokens, pos);
    Parsed {
        res: if found.token == token {
            Ok(())
        } else {
            Err(
                Error {
                    error_type: ErrorType::UnexpectedToken { expected: Expected::Token(token) },
                    source: found.span,
                },
            )
        },
        pos: spec_advance(tokens, pos),
    }
}

/// Reads an identifier. A token that is none is an error; it is passed
/// over unless the identifier is `optional`.
pub open spec fn spec_parse_identifier(tokens: Seq<Lexeme>, pos: int, optional: bool) -> Parsed<
    u32,
> {
    let found = spec_peek(tokens, pos);
    if found.token == Token::SimpleIdentifier || found.token == Token::EscapedIdentifier {
        Parsed { res: Ok(found.name), pos: spec_advance(tokens, pos) }
    } else {
        Parsed {
            res: Err(
                Error {
                    error_type: ErrorType::UnexpectedToken { expected: Expected::Identifier },
                    source: found.span,
                },
            ),
            pos: if optional {
                pos
            } else {
                spec_advance(tokens, pos)
            },
        }
    }
}

/// The kind of wire that a token names, if it names one.
pub open spec fn spec_parse_type(token: Token) -> Option<NetType> {
    match token {
        Token::Wreal => Some(NetType::WREAL),
        Token::Supply0 => Some(NetType::SUPPLY0),
        Token::Supply1 => Some(NetType::SUPPLY1),
        Token::Tri => Some(NetType::TRI),
        Token::TriAnd => Some(NetType::TRIAND),
        Token::TriOr => Some(NetType::TRIOR),
        Token::Tri0 => Some(NetType::TRI0),
        Token::Tri1 => Some(NetType::TRI1),
        Token::Wire => Some(NetType::WIRE),
        Token::Uwire => Some(NetType::UWIRE),
        Token::Wand => Some(NetType::WAND),
        Token::Wor => Some(NetType::WOR),
        _ => None,
    }
}

/// Passes over the rest of an attribute list, up to and with the token
/// that ends it. The end of the input inside the list is an error.
pub open spec fn spec_skip_attribute(tokens: Seq<Lexeme>, pos: int) -> Parsed<()>
    decreases tokens.len() - pos,
{
    if pos < 0 || pos >= tokens.len() {
        Parsed {
            res: Err(
                Error {
                    error_type: ErrorType::UnexpectedEof {
                        expected: Expected::Token(Token::AttributeEnd),
                    },
                    source: spec_peek(tokens, pos).span,
                },
            ),
            pos,
        }
    } else if tokens[pos].token == Token::AttributeEnd {
        Parsed { res: Ok(()), pos: pos + 1 }
    } else {
        spec_skip_attribute(tokens, pos + 1)
    }
}

/// Passes over the attribute lists at `pos`, of which `count` were passed
/// over already and the first started at `first`.
pub open spec fn spec_attribute_lists(tokens: Seq<Lexeme>, pos: int, first: int, count: nat)
    -> Parsed<Attributes>
    decreases tokens.len() - pos,
{
    if 0 <= pos < tokens.len() && tokens[pos].token == Token::AttributeStart {
        let skipped = spec_skip_attribute(tokens, pos + 1);
        if skipped.res is Ok && pos < skipped.pos <= tokens.len() {
            spec_attribute_lists(tokens, skipped.pos, first, count + 1)
        } else {
            Parsed { res: Err(skipped.res->Err_0), pos: skipped.pos }
        }
    } else {
        Parsed { res: Ok(Attributes { first: first as usize, count: count as usize }), pos }
    }
}

/// Reads the attribute lists in front of an item, if there are any.
pub open spec fn spec_parse_attributes(tokens: Seq<Lexeme>, pos: int) -> Parsed<Attributes> {
    spec_attribute_lists(tokens, pos, pos, 0)
}

/// Skipping an attribute list moves forward, and not beyond the input.
pub proof fn lemma_skip_attribute_pos(tokens: Seq<Lexeme>, pos: int)
    requires
        0 <= pos <= tokens.len(),
    ensures
        pos <= spec_skip_attribute(tokens, pos).pos <= tokens.len(),
        spec_skip_attribute(tokens, pos).res is Ok ==> pos < spec_skip_attribute(tokens, pos).pos,
    decreases tokens.len() - pos,
{
    if pos < tokens.len() && tokens[pos].token != Token::AttributeEnd {
        lemma_skip_attribute_pos(tokens, pos + 1);
    }
}

/// Reading attributes moves forward, and not beyond the input.
pub proof fn lemma_attribute_lists_pos(tokens: Seq<Lexeme>, pos: int, first: int, count: nat)
    requires
        0 <= pos <= tokens.len(),
    ensures
        pos <= spec_attribute_lists(tokens, pos, first, count).pos <= tokens.len(),
    decreases tokens.len() - pos,
{
    if pos < tokens.len() && tokens[pos].token == Token::AttributeStart {
        lemma_skip_attribute_pos(tokens, pos + 1);
        let skipped = spec_skip_attribute(tokens, pos + 1);
        if skipped.res is Ok {
            lemma_attribute_lists_pos(tokens, skipped.pos, first, count + 1);
        }
    }
}

/// The parser: the tokens, and the position of the next token to read.
pub struct Parser {
    pub tokens: Vec<Lexeme>,
    pub pos: usize,
}

impl Parser {
    /// A parser at the start of `tokens`.
    pub fn new(tokens: Vec<Lexeme>) -> (res: Parser)
        ensures
            res.tokens@ == tokens@,
            res.pos == 0,
    {
        Parser { tokens, pos: 0 }
    }

    /// The position is not beyond the end of the input.
    pub open spec fn well_formed(&self) -> bool {
        self.pos <= self.tokens@.len()
    }

    /// The next token, which is not passed over.
    pub fn look_ahead(&self) -> (res: Lexeme)
        requires
            self.well_formed(),
        ensures
            res == spec_peek(self.tokens@, self.pos as int),
    {
        if self.pos < self.tokens.len() {
            self.tokens[self.pos]
        } else {
            let end = if self.pos > 0 {
                self.tokens[self.pos - 1].span.end
            } else {
                0
            };
            Lexeme { token: Token::EOF, span: Span { start: end, end }, name: 0 }
        }
    }

    /// Passes over the next token.
    pub fn take(&mut self)
        requires
            old(self).well_formed(),
        ensures
            final(self).well_formed(),
            final(self).tokens == old(self).tokens,
            final(self).pos == spec_advance(old(self).tokens@, old(self).pos as int),
    {
        if self.pos < self.tokens.len() {
            self.pos += 1;
        }
    }

    /// The next token, which is passed over.
    pub fn next(&mut self) -> (res: Lexeme)
        requires
            old(self).well_formed(),
        ensures
            final(self).well_formed(),
            final(self).tokens == old(self).tokens,
            res == spec_peek(old(self).tokens@, old(self).pos as int),
            final(self).pos == spec_advance(old(self).tokens@, old(self).pos as int),
    {
        let res = self.look_ahead();
        self.take();
        res
    }

    /// Where the token that was read last starts.
    pub fn current_start(&self) -> (res: u32)
        requires
            self.well_formed(),
        ensures
            res == spec_current_start(self.tokens@, self.pos as int),
    {
        if self.pos > 0 {
            self.tokens[self.pos - 1].span.start
        } else {
            0
        }
    }

    /// The span from `start` to the end of the token that was read last.
    pub fn span_to_current_end(&self, start: u32) -> (res: Span)
        requires
            self.well_formed(),
        ensures
            res == spec_span_to_end(self.tokens@, self.pos as int, start),
    {
        let end = if self.pos > 0 {
            self.tokens[self.pos - 1].span.end
        } else {
            0
        };
        Span { start, end }
    }

    /// See [`spec_expect`].
    pub fn expect(&mut self, token: Token) -> (res: Result<(), Error>)
        requires
            old(self).well_formed(),
        ensures
            final(self).well_formed(),
            final(self).tokens == old(self).tokens,
            (Parsed { res, pos: final(self).pos as int }) == spec_expect(
                old(self).tokens@,
                old(self).pos as int,
                token,
            ),
    {
        let found = self.next();
        if found.token == token {
            Ok(())
        } else {
            Err(
                Error {
                    error_type: ErrorType::UnexpectedToken { expected: Expected::Token(token) },
                    source: found.span,
                },
            )
        }
    }

    /// See [`spec_parse_identifier`].
    pub fn parse_identifier(&mut self, optional: bool) -> (res: Result<u32, Error>)
        requires
            old(self).well_formed(),
        ensures
            final(self).well_formed(),
            final(self).tokens == old(self).tokens,
            (Parsed { res, pos: final(self).pos as int }) == spec_parse_identifier(
                old(self).tokens@,
                old(self).pos as int,
                optional,
            ),
    {
        let found = self.look_ahead();
        match found.token {
            Token::SimpleIdentifier | Token::EscapedIdentifier => {
                self.take();
                Ok(found.name)
            },
            _ => {
                if !optional {
                    self.take();
                }
                Err(
                    Error {
                        error_type: ErrorType::UnexpectedToken { expected: Expected::Identifier },
                        source: found.span,
                    },
                )
            },
        }
    }

    /// See [`spec_parse_type`].
    pub fn parse_type(token: Token) -> (res: Option<NetType>)
        ensures
            res == spec_parse_type(token),
    {
        match token {
            Token::Wreal => Some(NetType::WREAL),
            Token::Supply0 => Some(NetType::SUPPLY0),
            Token::Supply1 => Some(NetType::SUPPLY1),
            Token::Tri => Some(NetType::TRI),
            Token::TriAnd => Some(NetType::TRIAND),
            Token::TriOr => Some(NetType::TRIOR),
            Token::Tri0 => Some(NetType::TRI0),
            Token::Tri1 => Some(NetType::TRI1),
            Token::Wire => Some(NetType::WIRE),
            Token::Uwire => Some(NetType::UWIRE),
            Token::Wand => Some(NetType::WAND),
            Token::Wor => Some(NetType::WOR),
            _ => None,
        }
    }

    /// See [`spec_skip_attribute`].
    fn skip_attribute(&mut self) -> (res: Result<(), Error>)
        requires
            old(self).well_formed(),
        ensures
            final(self).well_formed(),
            final(self).tokens == old(self).tokens,
            (Parsed { res, pos: final(self).pos as int }) == spec_skip_attribute(
                old(self).tokens@,
                old(self).pos as int,
            ),
    {
        loop
            invariant
                self.well_formed(),
                self.tokens == old(self).tokens,
                spec_skip_attribute(self.tokens@, self.pos as int) == spec_skip_attribute(
                    old(self).tokens@,
                    old(self).pos as int,
                ),
            decreases self.tokens@.len() - self.pos,
        {
            if self.pos >= self.tokens.len() {
                let found = self.look_ahead();
                return Err(
                    Error {
                        error_type: ErrorType::UnexpectedEof {
                            expected: Expected::Token(Token::AttributeEnd),
                        },
                        source: found.span,
                    },
                );
            }
            let token = self.tokens[self.pos].token;
            if token == Token::AttributeEnd {
                self.pos += 1;
                return Ok(());
            }
            self.pos += 1;
        }
    }

    /// See [`spec_parse_attributes`].
    pub fn parse_attributes(&mut self) -> (res: Result<Attributes, Error>)
        requires
            old(self).well_formed(),
        ensures
            final(self).well_formed(),
            final(self).tokens == old(self).tokens,
            (Parsed { res, pos: final(self).pos as int }) == spec_parse_attributes(
                old(self).tokens@,
                old(self).pos as int,
            ),
    {
        let first = self.pos;
        let mut count: usize = 0;
        while self.pos < self.tokens.len() && self.tokens[self.pos].token == Token::AttributeStart
            invariant
                self.well_formed(),
                self.tokens == old(self).tokens,
                count <= self.pos,
                spec_attribute_lists(self.tokens@, self.pos as int, first as int, count as nat)
                    == spec_parse_attributes(old(self).tokens@, old(self).pos as int),
            decreases self.tokens@.len() - self.pos,
        {
            let ghost start = self.pos;
            self.pos += 1;
            proof {
                lemma_skip_attribute_pos(self.tokens@, start + 1);
            }
            match self.skip_attribute() {
                Ok(()) => {},
                Err(e) => {
                    return Err(e);
                },
            }
            count += 1;
        }
        Ok(Attributes { first, count })
    }
}

/// No attributes.
pub open spec fn spec_dangling() -> Attributes {
    Attributes { first: 0, count: 0 }
}

/// The span of the token before `pos`.
pub open spec fn spec_current_span(tokens: Seq<Lexeme>, pos: int) -> Span {
    Span { start: spec_current_start(tokens, pos), end: spec_last_end(tokens, pos) }
}

/// A port of which only the name is known.
pub open spec fn spec_named_port(name: u32) -> Port {
    Port {
        name,
        input: false,
        output: false,
        discipline: None,
        signed: false,
        verilog_type: NetType::UNDECLARED,
    }
}

/// Reads the declaration of one port: the direction, then in any
/// combination the discipline, the kind of wire and `signed`, then the
/// name. An identifier in front of the kind of wire or of `signed` is the
/// discipline. Without either, a first identifier is the discipline if a
/// second follows, and the name if none does.
pub open spec fn spec_port_declaration_base(tokens: Seq<Lexeme>, pos: int) -> Parsed<Port> {
    let first = spec_peek(tokens, pos);
    let pos1 = spec_advance(tokens, pos);
    let input = first.token == Token::Input || first.token == Token::Inout;
    let output = first.token == Token::Output || first.token == Token::Inout;
    if !input && !output {
        Parsed {
            res: Err(
                Error {
                    error_type: ErrorType::UnexpectedToken { expected: Expected::Direction },
                    source: first.span,
                },
            ),
            pos: pos1,
        }
    } else {
        let opt = spec_parse_identifier(tokens, pos1, true);
        let ty = spec_parse_type(spec_peek(tokens, opt.pos).token);
        let pos3 = if ty is Some {
            spec_advance(tokens, opt.pos)
        } else {
            opt.pos
        };
        let signed = spec_peek(tokens, pos3).token == Token::Signed;
        let pos4 = if signed {
            spec_advance(tokens, pos3)
        } else {
            pos3
        };
        let verilog_type = match ty {
            Some(t) => t,
            None => NetType::UNDECLARED,
        };
        let is_discipline = ty is Some || signed;
        let strict = spec_parse_identifier(tokens, pos4, false);
        let lenient = spec_parse_identifier(tokens, pos4, true);
        match opt.res {
            Ok(first_name) => if is_discipline {
                match strict.res {
                    Ok(name) => Parsed {
                        res: Ok(
                            Port {
                                name,
                                input,
                                output,
                                discipline: Some(first_name),
                                signed,
                                verilog_type,
                            },
                        ),
                        pos: strict.pos,
                    },
                    Err(e) => Parsed { res: Err(e), pos: strict.pos },
                }
            } else {
                match lenient.res {
                    Ok(name) => Parsed {
                        res: Ok(
                            Port {
                                name,
                                input,
                                output,
                                discipline: Some(first_name),
                                signed,
                                verilog_type,
                            },
                        ),
                        pos: lenient.pos,
                    },
                    Err(_) => Parsed {
                        res: Ok(
                            Port {
                                name: first_name,
                                input,
                                output,
                                discipline: None,
                                signed,
                                verilog_type,
                            },
                        ),
                        pos: lenient.pos,
                    },
                }
            },
            Err(_) => match strict.res {
                Ok(name) => Parsed {
                    res: Ok(Port { name, input, output, discipline: None, signed, verilog_type }),
                    pos: strict.pos,
                },
                Err(e) => Parsed { res: Err(e), pos: strict.pos },
            },
        }
    }
}

/// Reads the further names of a declaration of ports, up to and with the
/// semicolon. In front of each name one token is passed over, which is to
/// be a comma. Each name gives a port like `port` with that name.
pub open spec fn spec_port_declaration_rest(
    tokens: Seq<Lexeme>,
    pos: int,
    start: u32,
    attributes: Attributes,
    port: Port,
    acc: Seq<AttributeNode<Port>>,
) -> Parsed<Seq<AttributeNode<Port>>>
    decreases tokens.len() - pos,
{
    if spec_peek(tokens, pos).token == Token::Semicolon {
        Parsed { res: Ok(acc), pos: spec_advance(tokens, pos) }
    } else {
        let name = spec_parse_identifier(tokens, spec_advance(tokens, pos), false);
        match name.res {
            Ok(id) => if pos < name.pos <= tokens.len() {
                spec_port_declaration_rest(
                    tokens,
                    name.pos,
                    start,
                    attributes,
                    port,
                    acc.push(
                        AttributeNode {
                            source: spec_span_to_end(tokens, name.pos, start),
                            attributes,
                            contents: Port { name: id, ..port },
                        },
                    ),
                )
            } else {
                Parsed { res: Ok(acc), pos: name.pos }
            },
            Err(e) => Parsed { res: Err(e), pos: name.pos },
        }
    }
}

/// Reads a declaration of ports in the body of a module: the declaration
/// of one port, attributes, and further names up to the semicolon.
pub open spec fn spec_port_declaration(tokens: Seq<Lexeme>, pos: int) -> Parsed<
    Seq<AttributeNode<Port>>,
> {
    let start = spec_peek(tokens, pos).span.start;
    let base = spec_port_declaration_base(tokens, pos);
    match base.res {
        Err(e) => Parsed { res: Err(e), pos: base.pos },
        Ok(port) => {
            let attributes = spec_parse_attributes(tokens, base.pos);
            match attributes.res {
                Err(e) => Parsed { res: Err(e), pos: attributes.pos },
                Ok(attrs) => spec_port_declaration_rest(
                    tokens,
                    attributes.pos,
                    start,
                    attrs,
                    port,
                    seq![
                        AttributeNode {
                            source: spec_span_to_end(tokens, attributes.pos, start),
                            attributes: attrs,
                            contents: port,
                        },
                    ],
                ),
            }
        },
    }
}

/// Reads the further names of a list of ports, each after a comma.
pub open spec fn spec_port_list_rest(tokens: Seq<Lexeme>, pos: int, acc: Seq<AttributeNode<Port>>)
    -> Parsed<Seq<AttributeNode<Port>>>
    decreases tokens.len() - pos,
{
    if spec_peek(tokens, pos).token == Token::Comma {
        let name = spec_parse_identifier(tokens, spec_advance(tokens, pos), false);
        match name.res {
            Ok(id) => if pos < name.pos <= tokens.len() {
                spec_port_list_rest(
                    tokens,
                    name.pos,
                    acc.push(
                        AttributeNode {
                            source: spec_current_span(tokens, name.pos),
                            attributes: spec_dangling(),
                            contents: spec_named_port(id),
                        },
                    ),
                )
            } else {
                Parsed { res: Ok(acc), pos: name.pos }
            },
            Err(e) => Parsed { res: Err(e), pos: name.pos },
        }
    } else {
        Parsed { res: Ok(acc), pos }
    }
}

/// Reads a list of ports that are only named: names with commas between
/// them.
pub open spec fn spec_port_list(tokens: Seq<Lexeme>, pos: int) -> Parsed<Seq<AttributeNode<Port>>> {
    let name = spec_parse_identifier(tokens, pos, false);
    match name.res {
        Err(e) => Parsed { res: Err(e), pos: name.pos },
        Ok(id) => spec_port_list_rest(
            tokens,
            name.pos,
            seq![
                AttributeNode {
                    source: spec_current_span(tokens, name.pos),
                    attributes: spec_dangling(),
                    contents: spec_named_port(id),
                },
            ],
        ),
    }
}

impl Parser {
    /// See [`spec_port_declaration_base`].
    pub fn parse_port_declaration_base(&mut self) -> (res: Result<Port, Error>)
        requires
            old(self).well_formed(),
        ensures
            final(self).well_formed(),
            final(self).tokens == old(self).tokens,
            (Parsed { res, pos: final(self).pos as int }) == spec_port_declaration_base(
                old(self).tokens@,
                old(self).pos as int,
            ),
    {
        let first = self.next();
        let (input, output) = match first.token {
            Token::Input => (true, false),
            Token::Output => (false, true),
            Token::Inout => (true, true),
            _ => {
                return Err(
                    Error {
                        source: first.span,
                        error_type: ErrorType::UnexpectedToken { expected: Expected::Direction },
                    },
                );
            },
        };
        let opt_first_identifier_or_discipline = self.parse_identifier(true);
        let mut is_discipline = false;
        let token = self.look_ahead().token;
        let port_type = if let Some(port_type) = Self::parse_type(token) {
            self.take();
            is_discipline = true;
            port_type
        } else {
            NetType::UNDECLARED
        };
        let signed = if self.look_ahead().token == Token::Signed {
            self.take();
            is_discipline = true;
            true
        } else {
            false
        };
        let (name, discipline) = match opt_first_identifier_or_discipline {
            Ok(first_identifier_or_discipline) => {
                if is_discipline {
                    match self.parse_identifier(false) {
                        Ok(name) => (name, Some(first_identifier_or_discipline)),
                        Err(e) => {
                            return Err(e);
                        },
                    }
                } else {
                    if let Ok(first_identifier) = self.parse_identifier(true) {
                        (first_identifier, Some(first_identifier_or_discipline))
                    } else {
                        (first_identifier_or_discipline, None)
                    }
                }
            },
            Err(_) => match self.parse_identifier(false) {
                Ok(name) => (name, None),
                Err(e) => {
                    return Err(e);
                },
            },
        };
        Ok(Port { name, input, output, discipline, signed, verilog_type: port_type })
    }

    /// See [`spec_port_declaration`].
    pub fn parse_port_declaration(&mut self) -> (res: Result<Vec<AttributeNode<Port>>, Error>)
        requires
            old(self).well_formed(),
        ensures
            final(self).well_formed(),
            final(self).tokens == old(self).tokens,
            (Parsed {
                res: match res {
                    Ok(ports) => Ok(ports@),
                    Err(e) => Err(e),
                },
                pos: final(self).pos as int,
            }) == spec_port_declaration(old(self).tokens@, old(self).pos as int),
    {
        let start = self.look_ahead().span.start;
        let port = match self.parse_port_declaration_base() {
            Ok(port) => port,
            Err(e) => {
                return Err(e);
            },
        };
        let attributes = match self.parse_attributes() {
            Ok(attributes) => attributes,
            Err(e) => {
                return Err(e);
            },
        };
        let mut res: Vec<AttributeNode<Port>> = Vec::new();
        res.push(AttributeNode { source: self.span_to_current_end(start), attributes, contents: port });
        assert(res@ =~= seq![
            AttributeNode {
                source: spec_span_to_end(self.tokens@, self.pos as int, start),
                attributes,
                contents: port,
            },
        ]);
        while self.look_ahead().token != Token::Semicolon
            invariant
                self.well_formed(),
                self.tokens == old(self).tokens,
                spec_port_declaration_rest(
                    self.tokens@,
                    self.pos as int,
                    start,
                    attributes,
                    port,
                    res@,
                ) == spec_port_declaration(old(self).tokens@, old(self).pos as int),
            decreases self.tokens@.len() - self.pos,
        {
            let ghost before = self.pos;
            let _ = self.expect(Token::Comma);
            let named = Port {
                name: match self.parse_identifier(false) {
                    Ok(name) => name,
                    Err(e) => {
                        return Err(e);
                    },
                },
                input: port.input,
                output: port.output,
                discipline: port.discipline,
                signed: port.signed,
                verilog_type: port.verilog_type,
            };
            res.push(
                AttributeNode { source: self.span_to_current_end(start), attributes, contents: named },
            );
        }
        self.take();
        Ok(res)
    }

    /// See [`spec_port_list`].
    pub fn parse_port_list(&mut self) -> (res: Result<Vec<AttributeNode<Port>>, Error>)
        requires
            old(self).well_formed(),
        ensures
            final(self).well_formed(),
            final(self).tokens == old(self).tokens,
            (Parsed {
                res: match res {
                    Ok(ports) => Ok(ports@),
                    Err(e) => Err(e),
                },
                pos: final(self).pos as int,
            }) == spec_port_list(old(self).tokens@, old(self).pos as int),
    {
        let name = match self.parse_identifier(false) {
            Ok(name) => name,
            Err(e) => {
                return Err(e);
            },
        };
        let mut res: Vec<AttributeNode<Port>> = Vec::new();
        res.push(
            AttributeNode {
                source: Span { start: self.current_start(), end: self.span_to_current_end(0).end },
                attributes: Attributes { first: 0, count: 0 },
                contents: Port {
                    name,
                    input: false,
                    output: false,
                    discipline: None,
                    signed: false,
                    verilog_type: NetType::UNDECLARED,
                },
            },
        );
        assert(res@ =~= seq![
            AttributeNode {
                source: spec_current_span(self.tokens@, self.pos as int),
                attributes: spec_dangling(),
                contents: spec_named_port(name),
            },
        ]);
        while self.look_ahead().token == Token::Comma
            invariant
                self.well_formed(),
                self.tokens == old(self).tokens,
                spec_port_list_rest(self.tokens@, self.pos as int, res@) == spec_port_list(
                    old(self).tokens@,
                    old(self).pos as int,
                ),
            decreases self.tokens@.len() - self.pos,
        {
            self.take();
            let name = match self.parse_identifier(false) {
                Ok(name) => name,
                Err(e) => {
                    return Err(e);
                },
            };
            res.push(
                AttributeNode {
                    source: Span {
                        start: self.current_start(),
                        end: self.span_to_current_end(0).end,
                    },
                    attributes: Attributes { first: 0, count: 0 },
                    contents: Port {
                        name,
                        input: false,
                        output: false,
                        discipline: None,
                        signed: false,
                        verilog_type: NetType::UNDECLARED,
                    },
                },
            );
        }
        Ok(res)
    }
}

/// Ports read so far, and the position behind them.
pub struct MoreNames {
    pub acc: Seq<AttributeNode<Port>>,
    pub pos: int,
}

/// Reads further names of a declaration in a list of ports: as long as
/// the next token is a comma and an identifier follows it, the identifier
/// names one more port like `port`. The token that is no comma is passed
/// over too.
pub open spec fn spec_more_names(
    tokens: Seq<Lexeme>,
    pos: int,
    start: u32,
    attributes: Attributes,
    port: Port,
    acc: Seq<AttributeNode<Port>>,
) -> MoreNames
    decreases tokens.len() - pos,
{
    if spec_peek(tokens, pos).token == Token::Comma {
        let name = spec_parse_identifier(tokens, spec_advance(tokens, pos), true);
        match name.res {
            Ok(id) => if pos < name.pos <= tokens.len() {
                spec_more_names(
                    tokens,
                    name.pos,
                    start,
                    attributes,
                    port,
                    acc.push(
                        AttributeNode {
                            source: spec_span_to_end(tokens, name.pos, start),
                            attributes,
                            contents: Port { name: id, ..port },
                        },
                    ),
                )
            } else {
                MoreNames { acc, pos: name.pos }
            },
            Err(_) => MoreNames { acc, pos: name.pos },
        }
    } else {
        MoreNames { acc, pos: spec_advance(tokens, pos) }
    }
}

/// Reads one declaration in a list of ports: attributes and the
/// declaration of one port.
pub open spec fn spec_listed_port(tokens: Seq<Lexeme>, pos: int) -> Parsed<AttributeNode<Port>> {
    let start = spec_peek(tokens, pos).span.start;
    let attributes = spec_parse_attributes(tokens, pos);
    match attributes.res {
        Err(e) => Parsed { res: Err(e), pos: attributes.pos },
        Ok(attrs) => {
            let base = spec_port_declaration_base(tokens, attributes.pos);
            match base.res {
                Err(e) => Parsed { res: Err(e), pos: base.pos },
                Ok(port) => Parsed {
                    res: Ok(
                        AttributeNode {
                            source: spec_span_to_end(tokens, base.pos, start),
                            attributes: attrs,
                            contents: port,
                        },
                    ),
                    pos: base.pos,
                },
            }
        },
    }
}

/// Reads the further declarations of a list of ports, where `last` is the
/// declaration read last: while a comma follows, first further names of
/// that declaration, then the next declaration.
pub open spec fn spec_port_declaration_list_rest(
    tokens: Seq<Lexeme>,
    pos: int,
    last: AttributeNode<Port>,
    acc: Seq<AttributeNode<Port>>,
) -> Parsed<Seq<AttributeNode<Port>>>
    decreases tokens.len() - pos,
{
    if spec_peek(tokens, pos).token == Token::Comma {
        let more = spec_more_names(
            tokens,
            pos,
            last.source.start,
            last.attributes,
            last.contents,
            acc,
        );
        let next = spec_listed_port(tokens, more.pos);
        match next.res {
            Err(e) => Parsed { res: Err(e), pos: next.pos },
            Ok(node) => if pos < next.pos <= tokens.len() {
                spec_port_declaration_list_rest(tokens, next.pos, node, more.acc.push(node))
            } else {
                Parsed { res: Ok(more.acc), pos: next.pos }
            },
        }
    } else {
        Parsed { res: Ok(acc), pos }
    }
}

/// Reads a list of declared ports, up to the closing bracket, which it
/// leaves. An empty list has no ports.
pub open spec fn spec_port_declaration_list(tokens: Seq<Lexeme>, pos: int) -> Parsed<
    Seq<AttributeNode<Port>>,
> {
    if spec_peek(tokens, pos).token == Token::ParenClose {
        Parsed { res: Ok(Seq::empty()), pos }
    } else {
        let first = spec_listed_port(tokens, pos);
        match first.res {
            Err(e) => Parsed { res: Err(e), pos: first.pos },
            Ok(node) => spec_port_declaration_list_rest(tokens, first.pos, node, seq![node]),
        }
    }
}

/// Reads the declaration of a branch behind the word `branch`: in round
/// brackets a port in angle brackets, or two nets with a comma between
/// them, then the name and a semicolon.
pub open spec fn spec_branch_declaration(tokens: Seq<Lexeme>, pos: int) -> Parsed<BranchDeclaration> {
    let open = spec_expect(tokens, pos, Token::ParenOpen);
    if open.res is Err {
        Parsed { res: Err(open.res->Err_0), pos: open.pos }
    } else if spec_peek(tokens, open.pos).token == Token::OpLess {
        let port = spec_parse_identifier(tokens, spec_advance(tokens, open.pos), false);
        let close = spec_expect(tokens, port.pos, Token::OpGreater);
        if port.res is Err {
            Parsed { res: Err(port.res->Err_0), pos: port.pos }
        } else if close.res is Err {
            Parsed { res: Err(close.res->Err_0), pos: close.pos }
        } else {
            spec_branch_name(tokens, close.pos, Branch::Port(port.res->Ok_0))
        }
    } else {
        let first = spec_parse_identifier(tokens, open.pos, false);
        let comma = spec_expect(tokens, first.pos, Token::Comma);
        let second = spec_parse_identifier(tokens, comma.pos, false);
        if first.res is Err {
            Parsed { res: Err(first.res->Err_0), pos: first.pos }
        } else if comma.res is Err {
            Parsed { res: Err(comma.res->Err_0), pos: comma.pos }
        } else if second.res is Err {
            Parsed { res: Err(second.res->Err_0), pos: second.pos }
        } else {
            spec_branch_name(tokens, second.pos, Branch::Nets(first.res->Ok_0, second.res->Ok_0))
        }
    }
}

/// Reads the end of the declaration of a branch: the closing bracket, the
/// name and the semicolon.
pub open spec fn spec_branch_name(tokens: Seq<Lexeme>, pos: int, branch: Branch) -> Parsed<
    BranchDeclaration,
> {
    let close = spec_expect(tokens, pos, Token::ParenClose);
    let name = spec_parse_identifier(tokens, close.pos, false);
    let end = spec_expect(tokens, name.pos, Token::Semicolon);
    if close.res is Err {
        Parsed { res: Err(close.res->Err_0), pos: close.pos }
    } else if name.res is Err {
        Parsed { res: Err(name.res->Err_0), pos: name.pos }
    } else if end.res is Err {
        Parsed { res: Err(end.res->Err_0), pos: end.pos }
    } else {
        Parsed { res: Ok(BranchDeclaration { name: name.res->Ok_0, branch }), pos: end.pos }
    }
}

/// Reads an item in the body of a module: attributes and the declaration
/// of a branch. Any other item cannot be read yet.
pub open spec fn spec_module_item(tokens: Seq<Lexeme>, pos: int) -> Parsed<AttributeNode<ModuleItem>> {
    let attributes = spec_parse_attributes(tokens, pos);
    match attributes.res {
        Err(e) => Parsed { res: Err(e), pos: attributes.pos },
        Ok(attrs) => {
            let found = spec_peek(tokens, attributes.pos);
            let behind = spec_advance(tokens, attributes.pos);
            match found.token {
                Token::Analog => Parsed {
                    res: Err(
                        Error {
                            error_type: ErrorType::Unsupported(Unsupported::AnalogBlock),
                            source: found.span,
                        },
                    ),
                    pos: behind,
                },
                Token::Branch => {
                    let branch = spec_branch_declaration(tokens, behind);
                    match branch.res {
                        Err(e) => Parsed { res: Err(e), pos: branch.pos },
                        Ok(decl) => Parsed {
                            res: Ok(
                                AttributeNode {
                                    source: spec_span_to_end(tokens, branch.pos, found.span.start),
                                    attributes: attrs,
                                    contents: ModuleItem::BranchDecl(decl),
                                },
                            ),
                            pos: branch.pos,
                        },
                    }
                },
                _ => Parsed {
                    res: Err(
                        Error {
                            error_type: ErrorType::Unsupported(Unsupported::ModuleItem),
                            source: found.span,
                        },
                    ),
                    pos: attributes.pos,
                },
            }
        },
    }
}

impl Parser {
    /// See [`spec_more_names`].
    fn parse_more_names(
        &mut self,
        start: u32,
        attributes: Attributes,
        port: Port,
        res: &mut Vec<AttributeNode<Port>>,
    )
        requires
            old(self).well_formed(),
        ensures
            final(self).well_formed(),
            final(self).tokens == old(self).tokens,
            (MoreNames { acc: final(res)@, pos: final(self).pos as int }) == spec_more_names(
                old(self).tokens@,
                old(self).pos as int,
                start,
                attributes,
                port,
                old(res)@,
            ),
    {
        loop
            invariant
                self.well_formed(),
                self.tokens == old(self).tokens,
                spec_more_names(self.tokens@, self.pos as int, start, attributes, port, res@)
                    == spec_more_names(
                    old(self).tokens@,
                    old(self).pos as int,
                    start,
                    attributes,
                    port,
                    old(res)@,
                ),
            decreases self.tokens@.len() - self.pos,
        {
            if self.next().token != Token::Comma {
                return ;
            }
            if let Ok(name) = self.parse_identifier(true) {
                res.push(
                    AttributeNode {
                        source: self.span_to_current_end(start),
                        attributes,
                        contents: Port {
                            name,
                            input: port.input,
                            output: port.output,
                            discipline: port.discipline,
                            signed: port.signed,
                            verilog_type: port.verilog_type,
                        },
                    },
                );
            } else {
                return ;
            }
        }
    }

    /// See [`spec_listed_port`].
    fn parse_listed_port(&mut self) -> (res: Result<AttributeNode<Port>, Error>)
        requires
            old(self).well_formed(),
        ensures
            final(self).well_formed(),
            final(self).tokens == old(self).tokens,
            (Parsed { res, pos: final(self).pos as int }) == spec_listed_port(
                old(self).tokens@,
                old(self).pos as int,
            ),
    {
        let start = self.look_ahead().span.start;
        let attributes = match self.parse_attributes() {
            Ok(attributes) => attributes,
            Err(e) => {
                return Err(e);
            },
        };
        let port = match self.parse_port_declaration_base() {
            Ok(port) => port,
            Err(e) => {
                return Err(e);
            },
        };
        Ok(AttributeNode { source: self.span_to_current_end(start), attributes, contents: port })
    }

    /// See [`spec_port_declaration_list`].
    pub fn parse_port_declaration_list(&mut self) -> (res: Result<Vec<AttributeNode<Port>>, Error>)
        requires
            old(self).well_formed(),
        ensures
            final(self).well_formed(),
            final(self).tokens == old(self).tokens,
            (Parsed {
                res: match res {
                    Ok(ports) => Ok(ports@),
                    Err(e) => Err(e),
                },
                pos: final(self).pos as int,
            }) == spec_port_declaration_list(old(self).tokens@, old(self).pos as int),
    {
        if self.look_ahead().token == Token::ParenClose {
            return Ok(Vec::new());
        }
        let mut last = match self.parse_listed_port() {
            Ok(node) => node,
            Err(e) => {
                return Err(e);
            },
        };
        let mut res: Vec<AttributeNode<Port>> = Vec::new();
        res.push(last);
        assert(res@ =~= seq![last]);
        while self.look_ahead().token == Token::Comma
            invariant
                self.well_formed(),
                self.tokens == old(self).tokens,
                spec_port_declaration_list_rest(self.tokens@, self.pos as int, last, res@)
                    == spec_port_declaration_list(old(self).tokens@, old(self).pos as int),
            decreases self.tokens@.len() - self.pos,
        {
            let ghost before = self.pos as int;
            let ghost acc = res@;
            self.parse_more_names(last.source.start, last.attributes, last.contents, &mut res);
            proof {
                lemma_more_names_pos(
                    self.tokens@,
                    before,
                    last.source.start,
                    last.attributes,
                    last.contents,
                    acc,
                );
                lemma_listed_port_pos(self.tokens@, self.pos as int);
            }
            last = match self.parse_listed_port() {
                Ok(node) => node,
                Err(e) => {
                    return Err(e);
                },
            };
            res.push(last);
        }
        Ok(res)
    }

    /// See [`spec_branch_name`].
    fn parse_branch_name(&mut self, branch: Branch) -> (res: Result<BranchDeclaration, Error>)
        requires
            old(self).well_formed(),
        ensures
            final(self).well_formed(),
            final(self).tokens == old(self).tokens,
            (Parsed { res, pos: final(self).pos as int }) == spec_branch_name(
                old(self).tokens@,
                old(self).pos as int,
                branch,
            ),
    {
        if let Err(e) = self.expect(Token::ParenClose) {
            return Err(e);
        }
        let name = match self.parse_identifier(false) {
            Ok(name) => name,
            Err(e) => {
                return Err(e);
            },
        };
        if let Err(e) = self.expect(Token::Semicolon) {
            return Err(e);
        }
        Ok(BranchDeclaration { name, branch })
    }

    /// See [`spec_branch_declaration`].
    pub fn parse_branch_declaration(&mut self) -> (res: Result<BranchDeclaration, Error>)
        requires
            old(self).well_formed(),
        ensures
            final(self).well_formed(),
            final(self).tokens == old(self).tokens,
            (Parsed { res, pos: final(self).pos as int }) == spec_branch_declaration(
                old(self).tokens@,
                old(self).pos as int,
            ),
    {
        if let Err(e) = self.expect(Token::ParenOpen) {
            return Err(e);
        }
        if self.look_ahead().token == Token::OpLess {
            self.take();
            let port = match self.parse_identifier(false) {
                Ok(port) => port,
                Err(e) => {
                    return Err(e);
                },
            };
            if let Err(e) = self.expect(Token::OpGreater) {
                return Err(e);
            }
            self.parse_branch_name(Branch::Port(port))
        } else {
            let first = match self.parse_identifier(false) {
                Ok(first) => first,
                Err(e) => {
                    return Err(e);
                },
            };
            if let Err(e) = self.expect(Token::Comma) {
                return Err(e);
            }
            let second = match self.parse_identifier(false) {
                Ok(second) => second,
                Err(e) => {
                    return Err(e);
                },
            };
            self.parse_branch_name(Branch::Nets(first, second))
        }
    }

    /// A list of parameters cannot be read yet.
    pub fn parse_parameter_list(&mut self) -> (res: Result<(), Error>)
        requires
            old(self).well_formed(),
        ensures
            *final(self) == *old(self),
            res == Err::<(), Error>(
                Error {
                    error_type: ErrorType::Unsupported(Unsupported::ParameterList),
                    source: spec_peek(old(self).tokens@, old(self).pos as int).span,
                },
            ),
    {
        Err(
            Error {
                error_type: ErrorType::Unsupported(Unsupported::ParameterList),
                source: self.look_ahead().span,
            },
        )
    }

    /// See [`spec_module_item`].
    pub fn parse_module_item(&mut self) -> (res: Result<AttributeNode<ModuleItem>, Error>)
        requires
            old(self).well_formed(),
        ensures
            final(self).well_formed(),
            final(self).tokens == old(self).tokens,
            (Parsed { res, pos: final(self).pos as int }) == spec_module_item(
                old(self).tokens@,
                old(self).pos as int,
            ),
    {
        let attributes = match self.parse_attributes() {
            Ok(attributes) => attributes,
            Err(e) => {
                return Err(e);
            },
        };
        let found = self.look_ahead();
        let start = found.span.start;
        let contents = match found.token {
            Token::Analog => {
                self.take();
                return Err(
                    Error {
                        error_type: ErrorType::Unsupported(Unsupported::AnalogBlock),
                        source: found.span,
                    },
                );
            },
            Token::Branch => {
                self.take();
                let branch_decl = match self.parse_branch_declaration() {
                    Ok(decl) => decl,
                    Err(e) => {
                        return Err(e);
                    },
                };
                ModuleItem::BranchDecl(branch_decl)
            },
            _ => {
                return Err(
                    Error {
                        error_type: ErrorType::Unsupported(Unsupported::ModuleItem),
                        source: found.span,
                    },
                );
            },
        };
        let span = self.span_to_current_end(start);
        Ok(AttributeNode { source: span, attributes, contents })
    }
}

/// Reading a declaration in a list of ports does not move backwards, nor
/// beyond the input.
pub proof fn lemma_listed_port_pos(tokens: Seq<Lexeme>, pos: int)
    requires
        0 <= pos <= tokens.len(),
    ensures
        pos <= spec_listed_port(tokens, pos).pos <= tokens.len(),
{
    lemma_attribute_lists_pos(tokens, pos, pos, 0);
}

/// Reading further names moves forward by at least the token it looks at.
pub proof fn lemma_more_names_pos(
    tokens: Seq<Lexeme>,
    pos: int,
    start: u32,
    attributes: Attributes,
    port: Port,
    acc: Seq<AttributeNode<Port>>,
)
    requires
        0 <= pos <= tokens.len(),
    ensures
        spec_advance(tokens, pos) <= spec_more_names(tokens, pos, start, attributes, port, acc).pos
            <= tokens.len(),
    decreases tokens.len() - pos,
{
    if spec_peek(tokens, pos).token == Token::Comma {
        let name = spec_parse_identifier(tokens, spec_advance(tokens, pos), true);
        match name.res {
            Ok(id) => {
                lemma_more_names_pos(
                    tokens,
                    name.pos,
                    start,
                    attributes,
                    port,
                    acc.push(
                        AttributeNode {
                            source: spec_span_to_end(tokens, name.pos, start),
                            attributes,
                            contents: Port { name: id, ..port },
                        },
                    ),
                );
            },
            Err(_) => {},
        }
    }
}

/// A module as a mathematical value.
pub struct ModuleView {
    pub name: u32,
    pub port_list: Seq<AttributeNode<Port>>,
    pub children: Seq<AttributeNode<ModuleItem>>,
}

impl View for Module {
    type V = ModuleView;

    open spec fn view(&self) -> ModuleView {
        ModuleView { name: self.name, port_list: self.port_list@, children: self.children@ }
    }
}

/// The ports of the header of a module, and whether the body may declare
/// them.
pub struct Header {
    pub allow_port_declaration: bool,
    pub port_list: Seq<AttributeNode<Port>>,
}

/// Reads the ports in the header of a module, if it has any: in round
/// brackets either declarations of ports, or only their names, which the
/// body is then to declare.
pub open spec fn spec_module_ports(tokens: Seq<Lexeme>, pos: int) -> Parsed<Header> {
    if spec_peek(tokens, pos).token == Token::ParenOpen {
        let inside = spec_advance(tokens, pos);
        let next = spec_peek(tokens, inside);
        let declared = spec_port_declaration_list(tokens, inside);
        let named = spec_port_list(tokens, inside);
        match next.token {
            Token::Input | Token::Output | Token::Inout | Token::ParenOpen => match declared.res {
                Err(e) => Parsed { res: Err(e), pos: declared.pos },
                Ok(ports) => {
                    let close = spec_expect(tokens, declared.pos, Token::ParenClose);
                    match close.res {
                        Err(e) => Parsed { res: Err(e), pos: close.pos },
                        Ok(_) => Parsed {
                            res: Ok(Header { allow_port_declaration: false, port_list: ports }),
                            pos: close.pos,
                        },
                    }
                },
            },
            Token::SimpleIdentifier | Token::EscapedIdentifier => match named.res {
                Err(e) => Parsed { res: Err(e), pos: named.pos },
                Ok(ports) => {
                    let close = spec_expect(tokens, named.pos, Token::ParenClose);
                    match close.res {
                        Err(e) => Parsed { res: Err(e), pos: close.pos },
                        Ok(_) => Parsed {
                            res: Ok(Header { allow_port_declaration: true, port_list: ports }),
                            pos: close.pos,
                        },
                    }
                },
            },
            _ => Parsed {
                res: Err(
                    Error {
                        error_type: ErrorType::UnexpectedToken {
                            expected: Expected::PortOrDeclaration,
                        },
                        source: next.span,
                    },
                ),
                pos: inside,
            },
        }
    } else {
        Parsed {
            res: Ok(Header { allow_port_declaration: false, port_list: Seq::empty() }),
            pos,
        }
    }
}

/// The span of the port that a declaration declares last.
pub open spec fn spec_last_source(ports: Seq<AttributeNode<Port>>) -> Span {
    if ports.len() > 0 {
        ports[ports.len() - 1].source
    } else {
        Span { start: 0, end: 0 }
    }
}

/// Reads the body of a module up to and with `endmodule`. A declaration
/// of ports adds its ports to those of the header, if the header only
/// named its ports; after a header that declared them it is an error.
/// Everything else is an item of the module.
pub open spec fn spec_module_body(
    tokens: Seq<Lexeme>,
    pos: int,
    start: u32,
    allow_port_declaration: bool,
    port_list_span: Span,
    module: ModuleView,
) -> Parsed<ModuleView>
    decreases tokens.len() - pos,
{
    let found = spec_peek(tokens, pos);
    match found.token {
        Token::Inout | Token::Input | Token::Output => {
            let declared = spec_port_declaration(tokens, pos);
            match declared.res {
                Err(e) => Parsed { res: Err(e), pos: declared.pos },
                Ok(ports) => if !allow_port_declaration {
                    Parsed {
                        res: Err(
                            Error {
                                source: spec_span_to_end(tokens, declared.pos, start),
                                error_type: ErrorType::PortRedeclaration(
                                    spec_last_source(ports).negative_offset(start),
                                    port_list_span,
                                ),
                            },
                        ),
                        pos: declared.pos,
                    }
                } else if pos < declared.pos <= tokens.len() {
                    spec_module_body(
                        tokens,
                        declared.pos,
                        start,
                        allow_port_declaration,
                        port_list_span,
                        ModuleView { port_list: module.port_list + ports, ..module },
                    )
                } else {
                    Parsed { res: Ok(module), pos: declared.pos }
                },
            }
        },
        Token::EOF => Parsed {
            res: Err(
                Error {
                    error_type: ErrorType::UnexpectedEof {
                        expected: Expected::Token(Token::EndModule),
                    },
                    source: found.span,
                },
            ),
            pos,
        },
        Token::EndModule => Parsed { res: Ok(module), pos: spec_advance(tokens, pos) },
        _ => {
            let item = spec_module_item(tokens, pos);
            match item.res {
                Err(e) => Parsed { res: Err(e), pos: item.pos },
                Ok(node) => if pos < item.pos <= tokens.len() {
                    spec_module_body(
                        tokens,
                        item.pos,
                        start,
                        allow_port_declaration,
                        port_list_span,
                        ModuleView { children: module.children.push(node), ..module },
                    )
                } else {
                    Parsed { res: Ok(module), pos: item.pos }
                },
            }
        },
    }
}

/// Reads a module behind the word `module`: its name, its ports, a
/// semicolon, and its body. A `#` behind the name is an error, since a
/// list of parameters cannot be read yet.
pub open spec fn spec_module(tokens: Seq<Lexeme>, pos: int) -> Parsed<ModuleView> {
    let start = spec_current_start(tokens, pos);
    let name = spec_parse_identifier(tokens, pos, false);
    match name.res {
        Err(e) => Parsed { res: Err(e), pos: name.pos },
        Ok(id) => if spec_peek(tokens, name.pos).token == Token::Hash {
            Parsed {
                res: Err(spec_expect(tokens, name.pos, Token::ParenOpen).res->Err_0),
                pos: spec_advance(tokens, name.pos),
            }
        } else {
            let header = spec_module_ports(tokens, name.pos);
            match header.res {
                Err(e) => Parsed { res: Err(e), pos: header.pos },
                Ok(ports) => {
                    let port_list_span = spec_span_to_end(
                        tokens,
                        header.pos,
                        spec_current_start(tokens, name.pos),
                    ).negative_offset(start);
                    let semicolon = spec_expect(tokens, header.pos, Token::Semicolon);
                    match semicolon.res {
                        Err(e) => Parsed { res: Err(e), pos: semicolon.pos },
                        Ok(_) => spec_module_body(
                            tokens,
                            semicolon.pos,
                            start,
                            ports.allow_port_declaration,
                            port_list_span,
                            ModuleView {
                                name: id,
                                port_list: ports.port_list,
                                children: Seq::empty(),
                            },
                        ),
                    }
                },
            }
        },
    }
}

/// Reading the rest of a declaration of ports does not move backwards,
/// nor beyond the input.
pub proof fn lemma_port_declaration_rest_pos(
    tokens: Seq<Lexeme>,
    pos: int,
    start: u32,
    attributes: Attributes,
    port: Port,
    acc: Seq<AttributeNode<Port>>,
)
    requires
        0 <= pos <= tokens.len(),
    ensures
        pos <= spec_port_declaration_rest(tokens, pos, start, attributes, port, acc).pos
            <= tokens.len(),
    decreases tokens.len() - pos,
{
    if spec_peek(tokens, pos).token != Token::Semicolon {
        let name = spec_parse_identifier(tokens, spec_advance(tokens, pos), false);
        match name.res {
            Ok(id) => {
                lemma_port_declaration_rest_pos(
                    tokens,
                    name.pos,
                    start,
                    attributes,
                    port,
                    acc.push(
                        AttributeNode {
                            source: spec_span_to_end(tokens, name.pos, start),
                            attributes,
                            contents: Port { name: id, ..port },
                        },
                    ),
                );
            },
            Err(_) => {},
        }
    }
}

/// Reading a declaration of ports moves forward by at least the token it
/// starts with, and not beyond the input.
pub proof fn lemma_port_declaration_pos(tokens: Seq<Lexeme>, pos: int)
    requires
        0 <= pos <= tokens.len(),
    ensures
        spec_advance(tokens, pos) <= spec_port_declaration(tokens, pos).pos <= tokens.len(),
{
    let start = spec_peek(tokens, pos).span.start;
    let base = spec_port_declaration_base(tokens, pos);
    match base.res {
        Err(_) => {},
        Ok(port) => {
            lemma_attribute_lists_pos(tokens, base.pos, base.pos, 0);
            let attributes = spec_parse_attributes(tokens, base.pos);
            match attributes.res {
                Err(_) => {},
                Ok(attrs) => {
                    lemma_port_declaration_rest_pos(
                        tokens,
                        attributes.pos,
                        start,
                        attrs,
                        port,
                        seq![
                            AttributeNode {
                                source: spec_span_to_end(tokens, attributes.pos, start),
                                attributes: attrs,
                                contents: port,
                            },
                        ],
                    );
                },
            }
        },
    }
}

/// Reading an item of a module does not move backwards, nor beyond the
/// input; where it succeeds it moves forward.
pub proof fn lemma_module_item_pos(tokens: Seq<Lexeme>, pos: int)
    requires
        0 <= pos <= tokens.len(),
    ensures
        pos <= spec_module_item(tokens, pos).pos <= tokens.len(),
        spec_module_item(tokens, pos).res is Ok ==> pos < spec_module_item(tokens, pos).pos,
{
    lemma_attribute_lists_pos(tokens, pos, pos, 0);
}

impl Parser {
    /// See [`spec_module_ports`].
    fn parse_module_ports(&mut self) -> (res: Result<(bool, Vec<AttributeNode<Port>>), Error>)
        requires
            old(self).well_formed(),
        ensures
            final(self).well_formed(),
            final(self).tokens == old(self).tokens,
            (Parsed {
                res: match res {
                    Ok(header) => Ok(
                        Header { allow_port_declaration: header.0, port_list: header.1@ },
                    ),
                    Err(e) => Err(e),
                },
                pos: final(self).pos as int,
            }) == spec_module_ports(old(self).tokens@, old(self).pos as int),
    {
        if self.look_ahead().token == Token::ParenOpen {
            self.take();
            let next = self.look_ahead();
            let (allow_declarations, ports) = match next.token {
                Token::Input | Token::Output | Token::Inout | Token::ParenOpen => {
                    match self.parse_port_declaration_list() {
                        Ok(ports) => (false, ports),
                        Err(e) => {
                            return Err(e);
                        },
                    }
                },
                Token::SimpleIdentifier | Token::EscapedIdentifier => {
                    match self.parse_port_list() {
                        Ok(ports) => (true, ports),
                        Err(e) => {
                            return Err(e);
                        },
                    }
                },
                _ => {
                    return Err(
                        Error {
                            error_type: ErrorType::UnexpectedToken {
                                expected: Expected::PortOrDeclaration,
                            },
                            source: next.span,
                        },
                    );
                },
            };
            if let Err(e) = self.expect(Token::ParenClose) {
                return Err(e);
            }
            Ok((allow_declarations, ports))
        } else {
            Ok((false, Vec::new()))
        }
    }

    /// See [`spec_module`].
    pub fn parse_module(&mut self) -> (res: Result<Module, Error>)
        requires
            old(self).well_formed(),
        ensures
            final(self).well_formed(),
            final(self).tokens == old(self).tokens,
            (Parsed {
                res: match res {
                    Ok(module) => Ok(module@),
                    Err(e) => Err(e),
                },
                pos: final(self).pos as int,
            }) == spec_module(old(self).tokens@, old(self).pos as int),
    {
        let start = self.current_start();
        let name = match self.parse_identifier(false) {
            Ok(name) => name,
            Err(e) => {
                return Err(e);
            },
        };
        if self.look_ahead().token == Token::Hash {
            if let Err(e) = self.expect(Token::ParenOpen) {
                return Err(e);
            }
            if let Err(e) = self.parse_parameter_list() {
                return Err(e);
            }
            if let Err(e) = self.expect(Token::ParenClose) {
                return Err(e);
            }
        }
        let port_list_start = self.current_start();
        let (allow_port_declaration, mut port_list) = match self.parse_module_ports() {
            Ok(header) => header,
            Err(e) => {
                return Err(e);
            },
        };
        let port_list_span = self.span_to_current_end(port_list_start).negative_offset(start);
        if let Err(e) = self.expect(Token::Semicolon) {
            return Err(e);
        }
        let mut macro_items: Vec<AttributeNode<ModuleItem>> = Vec::new();
        loop
            invariant
                self.well_formed(),
                self.tokens == old(self).tokens,
                spec_module_body(
                    self.tokens@,
                    self.pos as int,
                    start,
                    allow_port_declaration,
                    port_list_span,
                    ModuleView { name, port_list: port_list@, children: macro_items@ },
                ) == spec_module(old(self).tokens@, old(self).pos as int),
            decreases self.tokens@.len() - self.pos,
        {
            let found = self.look_ahead();
            proof {
                lemma_port_declaration_pos(self.tokens@, self.pos as int);
                lemma_module_item_pos(self.tokens@, self.pos as int);
            }
            match found.token {
                Token::Inout | Token::Input | Token::Output => {
                    let mut declared = match self.parse_port_declaration() {
                        Ok(declared) => declared,
                        Err(e) => {
                            return Err(e);
                        },
                    };
                    if allow_port_declaration {
                        port_list.append(&mut declared);
                    } else {
                        let last = if declared.len() > 0 {
                            declared[declared.len() - 1].source
                        } else {
                            Span { start: 0, end: 0 }
                        };
                        let source = last.negative_offset(start);
                        return Err(
                            Error {
                                source: self.span_to_current_end(start),
                                error_type: ErrorType::PortRedeclaration(source, port_list_span),
                            },
                        );
                    }
                },
                Token::EOF => {
                    return Err(
                        Error {
                            error_type: ErrorType::UnexpectedEof {
                                expected: Expected::Token(Token::EndModule),
                            },
                            source: found.span,
                        },
                    );
                },
                Token::EndModule => {
                    self.take();
                    return Ok(Module { name, port_list, children: macro_items });
                },
                _ => {
                    match self.parse_module_item() {
                        Ok(item) => macro_items.push(item),
                        Err(e) => {
                            return Err(e);
                        },
                    }
                },
            }
        }
    }
}

} // verus!
