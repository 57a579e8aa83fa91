//! The grammar of the items of a source file: disciplines, natures,
//! modules, and the declarations of variables and parameters. The parser
//! does not build a tree; it writes down events, from which the tree is
//! built later: where a node starts and finishes, each token that it takes
//! up, and each error. It never stops at an error: it notes it and goes on
//! behind the tokens that it cannot place.

use vstd::prelude::*;

verus! {

/// The kinds of tokens and of nodes.
#[allow(non_camel_case_types)]
#[derive(Clone, Copy, Debug, PartialEq, Eq, Structural)]
pub enum SyntaxKind {
    EOF,
    IDENT,
    INT_NUMBER,
    STD_REAL_NUMBER,
    STR_LIT,
    L_PAREN,
    R_PAREN,
    L_BRACK,
    R_BRACK,
    L_ATTR,
    R_ATTR,
    SEMICOLON,
    COMMA,
    COLON,
    DOT,
    EQ,
    PLUS,
    MINUS,
    STAR,
    SLASH,
    DISCIPLINE_KW,
    ENDDISCIPLINE_KW,
    NATURE_KW,
    ENDNATURE_KW,
    MODULE_KW,
    ENDMODULE_KW,
    PARAMETER_KW,
    FROM_KW,
    EXCLUDE_KW,
    REAL_KW,
    INTEGER_KW,
    STRING_KW,
    /// A token that the lexer could not read.
    ERROR_TOKEN,
    // the kinds of nodes
    TOMBSTONE,
    ERROR,
    NAME,
    NAME_REF,
    PATH,
    TYPE,
    LITERAL,
    PATH_EXPR,
    PREFIX_EXPR,
    BIN_EXPR,
    PAREN_EXPR,
    RANGE,
    CONSTRAINT,
    PARAM,
    PARAM_DECL,
    VAR,
    VAR_DECL,
    ATTR,
    ATTR_LIST,
    DISCIPLINE_ATTR,
    DISCIPLINE_DECL,
    NATURE_ATTR,
    NATURE_DECL,
    PORT,
    MODULE_PORTS,
    MODULE_DECL,
}

/// What the parser missed where it notes an error.
#[derive(Clone, Copy, Debug, PartialEq, Eq, Structural)]
pub enum Missing {
    /// The token of this kind.
    Token(SyntaxKind),
    /// One of the tokens of the set with this name.
    OneOf(TokenSetName),
    Name,
    Expression,
    Type,
}

/// What the parser writes down.
#[derive(Clone, Copy, Debug, PartialEq, Eq, Structural)]
pub enum Event {
    /// A node starts. Its kind is `TOMBSTONE` until the node is
    /// completed; a node that is given up keeps that kind.
    Start { kind: SyntaxKind },
    /// The node that started last and has not finished yet finishes.
    Finish,
    /// The next token is taken up.
    Token { kind: SyntaxKind },
    Error { missing: Missing },
}

/// The sets of tokens that the grammar asks about.
#[derive(Clone, Copy, Debug, PartialEq, Eq, Structural)]
pub enum TokenSetName {
    /// Where an item may start, and the end of the input.
    ItemRecovery,
    /// [`Self::ItemRecovery`] and the start of an attribute list.
    ItemOrAttrRecovery,
    /// [`Self::ItemRecovery`] and the end of a discipline.
    DisciplineRecovery,
    /// [`Self::DisciplineRecovery`] and an identifier.
    DisciplineAttrRecovery,
    /// [`Self::ItemRecovery`] and the end of a nature.
    NatureRecovery,
    /// [`Self::NatureRecovery`] and an identifier.
    NatureAttrRecovery,
    /// Where an item of a module may start, and the end of a module.
    ModuleItemOrAttrRecovery,
    /// [`Self::ModuleItemOrAttrRecovery`], a semicolon and the end of the
    /// input.
    VarRecovery,
    /// [`Self::VarRecovery`] and a comma.
    ParamRecover,
    Semicolon,
    SemicolonOrColon,
    CommaOrEq,
    CommaOrSemicolon,
    Eq,
    FromOrExclude,
    ClosingBracket,
    ItemStart,
    TypeKeyword,
}

impl TokenSetName {
    /// The set holds the kind `kind`.
    pub open spec fn spec_contains(self, kind: SyntaxKind) -> bool {
        let item = kind == SyntaxKind::DISCIPLINE_KW || kind == SyntaxKind::NATURE_KW || kind
            == SyntaxKind::MODULE_KW || kind == SyntaxKind::EOF;
        let module_item = kind == SyntaxKind::PARAMETER_KW || kind == SyntaxKind::REAL_KW || kind
            == SyntaxKind::INTEGER_KW || kind == SyntaxKind::STRING_KW || kind
            == SyntaxKind::L_ATTR || kind == SyntaxKind::ENDMODULE_KW;
        match self {
            TokenSetName::ItemRecovery => item,
            TokenSetName::ItemOrAttrRecovery => item || kind == SyntaxKind::L_ATTR,
            TokenSetName::DisciplineRecovery => item || kind == SyntaxKind::ENDDISCIPLINE_KW,
            TokenSetName::DisciplineAttrRecovery => item || kind == SyntaxKind::ENDDISCIPLINE_KW
                || kind == SyntaxKind::IDENT,
            TokenSetName::NatureRecovery => item || kind == SyntaxKind::ENDNATURE_KW,
            TokenSetName::NatureAttrRecovery => item || kind == SyntaxKind::ENDNATURE_KW || kind
                == SyntaxKind::IDENT,
            TokenSetName::ModuleItemOrAttrRecovery => module_item,
            TokenSetName::VarRecovery => module_item || kind == SyntaxKind::SEMICOLON || kind
                == SyntaxKind::EOF,
            TokenSetName::ParamRecover => module_item || kind == SyntaxKind::SEMICOLON || kind
                == SyntaxKind::EOF || kind == SyntaxKind::COMMA,
            TokenSetName::Semicolon => kind == SyntaxKind::SEMICOLON,
            TokenSetName::SemicolonOrColon => kind == SyntaxKind::SEMICOLON || kind
                == SyntaxKind::COLON,
            TokenSetName::CommaOrEq => kind == SyntaxKind::COMMA || kind == SyntaxKind::EQ,
            TokenSetName::CommaOrSemicolon => kind == SyntaxKind::COMMA || kind
                == SyntaxKind::SEMICOLON,
            TokenSetName::Eq => kind == SyntaxKind::EQ,
            TokenSetName::FromOrExclude => kind == SyntaxKind::FROM_KW || kind
                == SyntaxKind::EXCLUDE_KW,
            TokenSetName::ClosingBracket => kind == SyntaxKind::R_PAREN || kind
                == SyntaxKind::R_BRACK,
            TokenSetName::ItemStart => kind == SyntaxKind::DISCIPLINE_KW || kind
                == SyntaxKind::NATURE_KW || kind == SyntaxKind::MODULE_KW,
            TokenSetName::TypeKeyword => kind == SyntaxKind::REAL_KW || kind
                == SyntaxKind::INTEGER_KW || kind == SyntaxKind::STRING_KW,
        }
    }

    #[verifier::when_used_as_spec(spec_contains)]
    pub fn contains(self, kind: SyntaxKind) -> (res: bool)
        ensures
            res == self.spec_contains(kind),
    {
        let item = match kind {
            SyntaxKind::DISCIPLINE_KW | SyntaxKind::NATURE_KW | SyntaxKind::MODULE_KW
            | SyntaxKind::EOF => true,
            _ => false,
        };
        let module_item = match kind {
            SyntaxKind::PARAMETER_KW | SyntaxKind::REAL_KW | SyntaxKind::INTEGER_KW
            | SyntaxKind::STRING_KW | SyntaxKind::L_ATTR | SyntaxKind::ENDMODULE_KW => true,
            _ => false,
        };
        let is = |wanted: SyntaxKind| -> (b: bool)
            ensures
                b == (kind == wanted),
            { kind == wanted };
        match self {
            TokenSetName::ItemRecovery => item,
            TokenSetName::ItemOrAttrRecovery => item || is(SyntaxKind::L_ATTR),
            TokenSetName::DisciplineRecovery => item || is(SyntaxKind::ENDDISCIPLINE_KW),
            TokenSetName::DisciplineAttrRecovery => item || is(SyntaxKind::ENDDISCIPLINE_KW) || is(
                SyntaxKind::IDENT,
            ),
            TokenSetName::NatureRecovery => item || is(SyntaxKind::ENDNATURE_KW),
            TokenSetName::NatureAttrRecovery => item || is(SyntaxKind::ENDNATURE_KW) || is(
                SyntaxKind::IDENT,
            ),
            TokenSetName::ModuleItemOrAttrRecovery => module_item,
            TokenSetName::VarRecovery => module_item || is(SyntaxKind::SEMICOLON) || is(
                SyntaxKind::EOF,
            ),
            TokenSetName::ParamRecover => module_item || is(SyntaxKind::SEMICOLON) || is(
                SyntaxKind::EOF,
            ) || is(SyntaxKind::COMMA),
            TokenSetName::Semicolon => is(SyntaxKind::SEMICOLON),
            TokenSetName::SemicolonOrColon => is(SyntaxKind::SEMICOLON) || is(SyntaxKind::COLON),
            TokenSetName::CommaOrEq => is(SyntaxKind::COMMA) || is(SyntaxKind::EQ),
            TokenSetName::CommaOrSemicolon => is(SyntaxKind::COMMA) || is(SyntaxKind::SEMICOLON),
            TokenSetName::Eq => is(SyntaxKind::EQ),
            TokenSetName::FromOrExclude => is(SyntaxKind::FROM_KW) || is(SyntaxKind::EXCLUDE_KW),
            TokenSetName::ClosingBracket => is(SyntaxKind::R_PAREN) || is(SyntaxKind::R_BRACK),
            TokenSetName::ItemStart => is(SyntaxKind::DISCIPLINE_KW) || is(SyntaxKind::NATURE_KW)
                || is(SyntaxKind::MODULE_KW),
            TokenSetName::TypeKeyword => is(SyntaxKind::REAL_KW) || is(SyntaxKind::INTEGER_KW)
                || is(SyntaxKind::STRING_KW),
        }
    }
}

/// The state of the parser as a mathematical value: the kinds of the
/// tokens, the position of the next token, and the events so far.
pub struct P {
    pub tokens: Seq<SyntaxKind>,
    pub pos: int,
    pub events: Seq<Event>,
}

impl P {
    /// The kind of the next token; behind the last token, `EOF`.
    pub open spec fn current(self) -> SyntaxKind {
        if 0 <= self.pos < self.tokens.len() {
            self.tokens[self.pos]
        } else {
            SyntaxKind::EOF
        }
    }

    pub open spec fn at(self, kind: SyntaxKind) -> bool {
        self.current() == kind
    }

    pub open spec fn at_ts(self, set: TokenSetName) -> bool {
        set.contains(self.current())
    }

    /// With one more event.
    pub open spec fn event(self, event: Event) -> P {
        P { events: self.events.push(event), ..self }
    }

    /// A node starts.
    pub open spec fn start(self) -> P {
        self.event(Event::Start { kind: SyntaxKind::TOMBSTONE })
    }

    /// The node that started with the event `marker` finishes as a node
    /// of the kind `kind`.
    pub open spec fn complete(self, marker: int, kind: SyntaxKind) -> P {
        P {
            events: if 0 <= marker < self.events.len() {
                self.events.update(marker, Event::Start { kind }).push(Event::Finish)
            } else {
                self.events.push(Event::Finish)
            },
            ..self
        }
    }

    /// The node that started with the event `marker` is given up: if
    /// nothing happened since, its start is taken back.
    pub open spec fn abandon(self, marker: int) -> P {
        P {
            events: if marker == self.events.len() - 1 && marker >= 0 {
                self.events.drop_last()
            } else {
                self.events
            },
            ..self
        }
    }

    /// The next token is taken up, unless the input is at its end.
    pub open spec fn bump_any(self) -> P {
        if 0 <= self.pos < self.tokens.len() {
            P {
                pos: self.pos + 1,
                events: self.events.push(Event::Token { kind: self.tokens[self.pos] }),
                ..self
            }
        } else {
            self
        }
    }

    /// The next token is taken up if it is of the kind `kind`.
    pub open spec fn eat(self, kind: SyntaxKind) -> P {
        if self.at(kind) {
            self.bump_any()
        } else {
            self
        }
    }

    /// An error is noted.
    pub open spec fn error(self, missing: Missing) -> P {
        self.event(Event::Error { missing })
    }

    /// The next token is taken up if it is of the kind `kind`; if not, an
    /// error is noted.
    pub open spec fn expect(self, kind: SyntaxKind) -> P {
        if self.at(kind) {
            self.bump_any()
        } else {
            self.error(Missing::Token(kind))
        }
    }

    /// The next token is taken up if it is of the kind `kind`; if not, the
    /// error is noted that one of `expected` is missing.
    pub open spec fn expect_with(self, kind: SyntaxKind, expected: TokenSetName) -> P {
        if self.at(kind) {
            self.bump_any()
        } else {
            self.error(Missing::OneOf(expected))
        }
    }

    /// The next token is taken up if it is in `set`; if not, an error is
    /// noted.
    pub open spec fn expect_ts(self, set: TokenSetName) -> P {
        if self.at_ts(set) {
            self.bump_any()
        } else {
            self.error(Missing::OneOf(set))
        }
    }

    /// An error is noted. Unless the next token is in `recovery`, it is
    /// passed over inside a node of the kind `ERROR`.
    pub open spec fn err_recover(self, missing: Missing, recovery: TokenSetName) -> P {
        if self.at_ts(recovery) {
            self.error(missing)
        } else {
            let started = self.start().error(missing).bump_any();
            started.complete(self.events.len() as int, SyntaxKind::ERROR)
        }
    }

    /// The next token is taken up if it is in `set`; if not, the parser
    /// recovers as [`Self::err_recover`] says.
    pub open spec fn expect_ts_r(self, set: TokenSetName, recovery: TokenSetName) -> P {
        if self.at_ts(set) {
            self.bump_any()
        } else {
            self.err_recover(Missing::OneOf(set), recovery)
        }
    }

    /// The parser stands inside the input, or at its end.
    pub open spec fn well_formed(self) -> bool {
        0 <= self.pos <= self.tokens.len()
    }

    /// `after` comes from `self` by reading on: the tokens are the same,
    /// and the position is not before that of `self`.
    pub open spec fn reads_on(self, after: P) -> bool {
        &&& after.tokens == self.tokens
        &&& self.pos <= after.pos
        &&& after.well_formed()
    }
}

/// The parser.
pub struct Parser {
    pub tokens: Vec<SyntaxKind>,
    pub pos: usize,
    pub events: Vec<Event>,
}

/// Where a node started among the events.
pub struct Marker {
    pub pos: usize,
}

impl View for Parser {
    type V = P;

    open spec fn view(&self) -> P {
        P { tokens: self.tokens@, pos: self.pos as int, events: self.events@ }
    }
}

impl Parser {
    /// A parser at the start of `tokens`, with no events.
    pub fn new(tokens: Vec<SyntaxKind>) -> (res: Parser)
        ensures
            res@ == (P { tokens: tokens@, pos: 0, events: Seq::empty() }),
    {
        Parser { tokens, pos: 0, events: Vec::new() }
    }

    pub fn current(&self) -> (res: SyntaxKind)
        requires
            self@.well_formed(),
        ensures
            res == self@.current(),
    {
        if self.pos < self.tokens.len() {
            self.tokens[self.pos]
        } else {
            SyntaxKind::EOF
        }
    }

    pub fn at(&self, kind: SyntaxKind) -> (res: bool)
        requires
            self@.well_formed(),
        ensures
            res == self@.at(kind),
    {
        self.current() == kind
    }

    pub fn at_ts(&self, set: TokenSetName) -> (res: bool)
        requires
            self@.well_formed(),
        ensures
            res == self@.at_ts(set),
    {
        set.contains(self.current())
    }

    pub fn start(&mut self) -> (m: Marker)
        ensures
            final(self)@ == old(self)@.start(),
            m.pos == old(self)@.events.len(),
    {
        let m = Marker { pos: self.events.len() };
        self.events.push(Event::Start { kind: SyntaxKind::TOMBSTONE });
        m
    }

    pub fn complete(&mut self, m: Marker, kind: SyntaxKind)
        ensures
            final(self)@ == old(self)@.complete(m.pos as int, kind),
    {
        if m.pos < self.events.len() {
            self.events.set(m.pos, Event::Start { kind });
        }
        self.events.push(Event::Finish);
    }

    pub fn abandon(&mut self, m: Marker)
        ensures
            final(self)@ == old(self)@.abandon(m.pos as int),
    {
        if self.events.len() > 0 && m.pos == self.events.len() - 1 {
            self.events.pop();
        }
    }

    pub fn bump_any(&mut self)
        requires
            old(self)@.well_formed(),
        ensures
            final(self)@ == old(self)@.bump_any(),
    {
        if self.pos < self.tokens.len() {
            self.events.push(Event::Token { kind: self.tokens[self.pos] });
            self.pos += 1;
        }
    }

    /// Takes up the next token, which is of the kind `kind`.
    pub fn bump(&mut self, kind: SyntaxKind)
        requires
            old(self)@.well_formed(),
            old(self)@.at(kind),
        ensures
            final(self)@ == old(self)@.bump_any(),
    {
        self.bump_any();
    }

    pub fn eat(&mut self, kind: SyntaxKind) -> (res: bool)
        requires
            old(self)@.well_formed(),
        ensures
            final(self)@ == old(self)@.eat(kind),
            res == old(self)@.at(kind),
    {
        if !self.at(kind) {
            return false;
        }
        self.bump_any();
        true
    }

    pub fn error(&mut self, missing: Missing)
        ensures
            final(self)@ == old(self)@.error(missing),
    {
        self.events.push(Event::Error { missing });
    }

    pub fn expect(&mut self, kind: SyntaxKind) -> (res: bool)
        requires
            old(self)@.well_formed(),
        ensures
            final(self)@ == old(self)@.expect(kind),
            res == old(self)@.at(kind),
    {
        if self.eat(kind) {
            return true;
        }
        self.error(Missing::Token(kind));
        false
    }

    pub fn expect_with(&mut self, kind: SyntaxKind, expected: TokenSetName) -> (res: bool)
        requires
            old(self)@.well_formed(),
        ensures
            final(self)@ == old(self)@.expect_with(kind, expected),
            res == old(self)@.at(kind),
    {
        if self.eat(kind) {
            return true;
        }
        self.error(Missing::OneOf(expected));
        false
    }

    pub fn expect_ts(&mut self, set: TokenSetName) -> (res: bool)
        requires
            old(self)@.well_formed(),
        ensures
            final(self)@ == old(self)@.expect_ts(set),
            res == old(self)@.at_ts(set),
    {
        if self.at_ts(set) {
            self.bump_any();
            true
        } else {
            self.error(Missing::OneOf(set));
            false
        }
    }

    pub fn err_recover(&mut self, missing: Missing, recovery: TokenSetName)
        requires
            old(self)@.well_formed(),
        ensures
            final(self)@ == old(self)@.err_recover(missing, recovery),
    {
        if self.at_ts(recovery) {
            self.error(missing);
            return ;
        }
        let m = self.start();
        self.error(missing);
        self.bump_any();
        self.complete(m, SyntaxKind::ERROR);
    }

    pub fn expect_ts_r(&mut self, set: TokenSetName, recovery: TokenSetName) -> (res: bool)
        requires
            old(self)@.well_formed(),
        ensures
            final(self)@ == old(self)@.expect_ts_r(set, recovery),
            res == old(self)@.at_ts(set),
    {
        if self.at_ts(set) {
            self.bump_any();
            true
        } else {
            self.err_recover(Missing::OneOf(set), recovery);
            false
        }
    }
}

impl P {
    /// A name: an identifier inside a node of the kind `kind`. Where there
    /// is no identifier the parser recovers.
    pub open spec fn name_of_kind(self, kind: SyntaxKind, recovery: TokenSetName) -> P {
        if self.at(SyntaxKind::IDENT) {
            self.start().bump_any().complete(self.events.len() as int, kind)
        } else {
            self.err_recover(Missing::Name, recovery)
        }
    }

    /// The name that something is declared with.
    pub open spec fn name_r(self, recovery: TokenSetName) -> P {
        self.name_of_kind(SyntaxKind::NAME, recovery)
    }

    /// A name that refers to something.
    pub open spec fn name_ref_r(self, recovery: TokenSetName) -> P {
        self.name_of_kind(SyntaxKind::NAME_REF, recovery)
    }

    /// One segment of a path: an identifier, or an error where there is
    /// none.
    pub open spec fn path_segment(self) -> P {
        if self.at(SyntaxKind::IDENT) {
            self.start().bump_any().complete(self.events.len() as int, SyntaxKind::NAME_REF)
        } else {
            self.error(Missing::Name)
        }
    }

    /// The further segments of a path, each behind a dot.
    pub open spec fn path_rest(self) -> P
        decreases self.tokens.len() - self.pos,
    {
        if self.at(SyntaxKind::DOT) && 0 <= self.pos < self.tokens.len() {
            self.bump_any().path_segment().path_rest()
        } else {
            self
        }
    }

    /// A path: segments with dots between them.
    pub open spec fn path(self) -> P {
        self.start().path_segment().path_rest().complete(
            self.events.len() as int,
            SyntaxKind::PATH,
        )
    }

    /// A type: one of the words for a type, or an error.
    pub open spec fn ty(self) -> P {
        if self.at_ts(TokenSetName::TypeKeyword) {
            self.start().bump_any().complete(self.events.len() as int, SyntaxKind::TYPE)
        } else {
            self.error(Missing::Type)
        }
    }

    /// The tokens inside an attribute list, up to the one that ends it.
    pub open spec fn attr_tokens(self) -> P
        decreases self.tokens.len() - self.pos,
    {
        if !self.at(SyntaxKind::R_ATTR) && 0 <= self.pos < self.tokens.len() {
            self.bump_any().attr_tokens()
        } else {
            self
        }
    }

    /// The attribute lists in front of an item, each a node with its
    /// tokens.
    pub open spec fn attrs(self) -> P
        decreases self.tokens.len() - self.pos,
    {
        if self.at(SyntaxKind::L_ATTR) && 0 <= self.pos < self.tokens.len() {
            let inside = self.start().bump_any().attr_tokens();
            let list = inside.expect(SyntaxKind::R_ATTR).complete(
                self.events.len() as int,
                SyntaxKind::ATTR_LIST,
            );
            if self.pos < list.pos <= list.tokens.len() && list.tokens == self.tokens {
                list.attrs()
            } else {
                list
            }
        } else {
            self
        }
    }

    /// An expression: a literal, a path, an expression in round brackets,
    /// or one of these behind a minus. Anything else is an error, and no
    /// token is taken up.
    pub open spec fn expr(self) -> P
        decreases self.tokens.len() - self.pos,
    {
        let marker = self.events.len() as int;
        match self.current() {
            SyntaxKind::INT_NUMBER | SyntaxKind::STD_REAL_NUMBER | SyntaxKind::STR_LIT =>
                self.start().bump_any().complete(marker, SyntaxKind::LITERAL),
            SyntaxKind::IDENT => self.start().path().complete(marker, SyntaxKind::PATH_EXPR),
            SyntaxKind::MINUS => if 0 <= self.pos < self.tokens.len() {
                self.start().bump_any().expr().complete(marker, SyntaxKind::PREFIX_EXPR)
            } else {
                self
            },
            SyntaxKind::L_PAREN => if 0 <= self.pos < self.tokens.len() {
                self.start().bump_any().expr().expect(SyntaxKind::R_PAREN).complete(
                    marker,
                    SyntaxKind::PAREN_EXPR,
                )
            } else {
                self
            },
            _ => self.error(Missing::Expression),
        }
    }
}

/// Reading the further segments of a path reads on.
pub proof fn lemma_path_rest(p: P)
    requires
        p.well_formed(),
    ensures
        p.reads_on(p.path_rest()),
    decreases p.tokens.len() - p.pos,
{
    if p.at(SyntaxKind::DOT) && 0 <= p.pos < p.tokens.len() {
        lemma_path_rest(p.bump_any().path_segment());
    }
}

/// Reading a path reads on, and takes up an identifier that it finds.
pub proof fn lemma_path(p: P)
    requires
        p.well_formed(),
    ensures
        p.reads_on(p.path()),
        p.at(SyntaxKind::IDENT) ==> p.pos < p.path().pos,
{
    lemma_path_rest(p.start().path_segment());
}

/// Reading the tokens of an attribute list reads on.
pub proof fn lemma_attr_tokens(p: P)
    requires
        p.well_formed(),
    ensures
        p.reads_on(p.attr_tokens()),
    decreases p.tokens.len() - p.pos,
{
    if !p.at(SyntaxKind::R_ATTR) && 0 <= p.pos < p.tokens.len() {
        lemma_attr_tokens(p.bump_any());
    }
}

/// Reading attribute lists reads on, and leaves the parser at a token that
/// starts no attribute list.
pub proof fn lemma_attrs(p: P)
    requires
        p.well_formed(),
    ensures
        p.reads_on(p.attrs()),
        !p.attrs().at(SyntaxKind::L_ATTR),
        p.at(SyntaxKind::L_ATTR) ==> p.pos < p.attrs().pos,
    decreases p.tokens.len() - p.pos,
{
    if p.at(SyntaxKind::L_ATTR) && 0 <= p.pos < p.tokens.len() {
        lemma_attr_tokens(p.start().bump_any());
        let inside = p.start().bump_any().attr_tokens();
        let list = inside.expect(SyntaxKind::R_ATTR).complete(
            p.events.len() as int,
            SyntaxKind::ATTR_LIST,
        );
        lemma_attrs(list);
    }
}

/// Reading an expression reads on, and takes up a token with which an
/// expression can start.
pub proof fn lemma_expr(p: P)
    requires
        p.well_formed(),
    ensures
        p.reads_on(p.expr()),
        (p.at(SyntaxKind::INT_NUMBER) || p.at(SyntaxKind::STD_REAL_NUMBER) || p.at(
            SyntaxKind::STR_LIT,
        ) || p.at(SyntaxKind::IDENT) || p.at(SyntaxKind::MINUS) || p.at(SyntaxKind::L_PAREN))
            ==> p.pos < p.expr().pos,
    decreases p.tokens.len() - p.pos,
{
    match p.current() {
        SyntaxKind::IDENT => {
            lemma_path(p.start());
        },
        SyntaxKind::MINUS => {
            lemma_expr(p.start().bump_any());
        },
        SyntaxKind::L_PAREN => {
            lemma_expr(p.start().bump_any());
        },
        _ => {},
    }
}

impl Parser {
    fn name_of_kind(&mut self, kind: SyntaxKind, recovery: TokenSetName)
        requires
            old(self)@.well_formed(),
        ensures
            final(self)@ == old(self)@.name_of_kind(kind, recovery),
    {
        if self.at(SyntaxKind::IDENT) {
            let m = self.start();
            self.bump(SyntaxKind::IDENT);
            self.complete(m, kind);
        } else {
            self.err_recover(Missing::Name, recovery);
        }
    }

    /// See [`P::name_r`].
    pub fn name_r(&mut self, recovery: TokenSetName)
        requires
            old(self)@.well_formed(),
        ensures
            final(self)@ == old(self)@.name_r(recovery),
    {
        self.name_of_kind(SyntaxKind::NAME, recovery)
    }

    /// See [`P::name_ref_r`].
    pub fn name_ref_r(&mut self, recovery: TokenSetName)
        requires
            old(self)@.well_formed(),
        ensures
            final(self)@ == old(self)@.name_ref_r(recovery),
    {
        self.name_of_kind(SyntaxKind::NAME_REF, recovery)
    }

    fn path_segment(&mut self)
        requires
            old(self)@.well_formed(),
        ensures
            final(self)@ == old(self)@.path_segment(),
    {
        if self.at(SyntaxKind::IDENT) {
            let m = self.start();
            self.bump(SyntaxKind::IDENT);
            self.complete(m, SyntaxKind::NAME_REF);
        } else {
            self.error(Missing::Name);
        }
    }

    /// See [`P::path`].
    pub fn path(&mut self)
        requires
            old(self)@.well_formed(),
        ensures
            final(self)@ == old(self)@.path(),
    {
        let m = self.start();
        self.path_segment();
        while self.at(SyntaxKind::DOT)
            invariant
                self@.well_formed(),
                self@.path_rest() == old(self)@.start().path_segment().path_rest(),
            decreases self.tokens@.len() - self.pos,
        {
            self.bump(SyntaxKind::DOT);
            self.path_segment();
        }
        self.complete(m, SyntaxKind::PATH);
    }

    /// See [`P::ty`].
    pub fn ty(&mut self)
        requires
            old(self)@.well_formed(),
        ensures
            final(self)@ == old(self)@.ty(),
    {
        if self.at_ts(TokenSetName::TypeKeyword) {
            let m = self.start();
            self.bump_any();
            self.complete(m, SyntaxKind::TYPE);
        } else {
            self.error(Missing::Type);
        }
    }

    /// See [`P::attrs`].
    pub fn attrs(&mut self)
        requires
            old(self)@.well_formed(),
        ensures
            final(self)@ == old(self)@.attrs(),
    {
        while self.at(SyntaxKind::L_ATTR)
            invariant
                self@.well_formed(),
                self@.attrs() == old(self)@.attrs(),
            decreases self.tokens@.len() - self.pos,
        {
            let ghost before = self@;
            let m = self.start();
            self.bump(SyntaxKind::L_ATTR);
            let ghost opened = self@;
            while !self.at(SyntaxKind::R_ATTR) && self.pos < self.tokens.len()
                invariant
                    self@.well_formed(),
                    opened.reads_on(self@),
                    self@.attr_tokens() == opened.attr_tokens(),
                decreases self.tokens@.len() - self.pos,
            {
                self.bump_any();
            }
            self.expect(SyntaxKind::R_ATTR);
            self.complete(m, SyntaxKind::ATTR_LIST);
            proof {
                lemma_attr_tokens(opened);
            }
        }
    }

    /// See [`P::expr`].
    pub fn expr(&mut self)
        requires
            old(self)@.well_formed(),
        ensures
            final(self)@ == old(self)@.expr(),
        decreases old(self).tokens@.len() - old(self).pos,
    {
        match self.current() {
            SyntaxKind::INT_NUMBER | SyntaxKind::STD_REAL_NUMBER | SyntaxKind::STR_LIT => {
                let m = self.start();
                self.bump_any();
                self.complete(m, SyntaxKind::LITERAL);
            },
            SyntaxKind::IDENT => {
                let m = self.start();
                self.path();
                self.complete(m, SyntaxKind::PATH_EXPR);
            },
            SyntaxKind::MINUS => {
                let m = self.start();
                self.bump(SyntaxKind::MINUS);
                self.expr();
                self.complete(m, SyntaxKind::PREFIX_EXPR);
            },
            SyntaxKind::L_PAREN => {
                let m = self.start();
                self.bump(SyntaxKind::L_PAREN);
                proof {
                    lemma_expr(self@);
                }
                self.expr();
                self.expect(SyntaxKind::R_PAREN);
                self.complete(m, SyntaxKind::PAREN_EXPR);
            },
            _ => {
                self.error(Missing::Expression);
            },
        }
    }
}

impl P {
    /// A range or an expression. Behind a round bracket stands an
    /// expression; unless a colon follows it, that is an expression in
    /// brackets. Behind a square bracket stands the start of a range.
    /// Without a bracket there is only an expression. A range goes on
    /// with a colon, its end, and the bracket that closes it.
    pub open spec fn range_or_expr(self) -> P {
        let marker = self.events.len() as int;
        let started = self.start();
        if started.at(SyntaxKind::L_PAREN) {
            let first = started.bump_any().expr();
            if !first.at(SyntaxKind::COLON) {
                first.expect(SyntaxKind::R_PAREN).complete(marker, SyntaxKind::PAREN_EXPR)
            } else {
                first.range_end(marker)
            }
        } else if started.at(SyntaxKind::L_BRACK) {
            started.bump_any().expr().range_end(marker)
        } else {
            started.expr().abandon(marker)
        }
    }

    /// The end of a range: the colon, the end, and the closing bracket.
    pub open spec fn range_end(self, marker: int) -> P {
        self.expect(SyntaxKind::COLON).expr().expect_ts(TokenSetName::ClosingBracket).complete(
            marker,
            SyntaxKind::RANGE,
        )
    }

    /// A constraint on a parameter: `from` or `exclude`, and a range or
    /// an expression. Where neither word stands the parser recovers.
    pub open spec fn constraint(self) -> P {
        let marker = self.events.len() as int;
        let started = self.start();
        if !started.at_ts(TokenSetName::FromOrExclude) {
            started.expect_ts_r(TokenSetName::FromOrExclude, TokenSetName::ParamRecover).abandon(
                marker,
            )
        } else {
            started.bump_any().range_or_expr().complete(marker, SyntaxKind::CONSTRAINT)
        }
    }

    /// The constraints of a parameter, up to a token at which the
    /// parameter ends.
    pub open spec fn constraints(self) -> P
        decreases self.tokens.len() - self.pos,
    {
        if !self.at_ts(TokenSetName::ParamRecover) {
            let next = self.constraint();
            if self.pos < next.pos <= next.tokens.len() && next.tokens == self.tokens {
                next.constraints()
            } else {
                next
            }
        } else {
            self
        }
    }

    /// A parameter: its name, an equals sign, its default value, and its
    /// constraints.
    pub open spec fn parameter(self) -> P {
        self.start().name_r(TokenSetName::CommaOrSemicolon).expect(SyntaxKind::EQ).expr()
            .constraints().complete(self.events.len() as int, SyntaxKind::PARAM)
    }

    /// A parameter, and the comma behind it unless the declaration ends.
    pub open spec fn parameter_and_comma(self) -> P {
        let one = self.parameter();
        if !one.at_ts(TokenSetName::VarRecovery) {
            one.expect(SyntaxKind::COMMA)
        } else {
            one
        }
    }

    /// The parameters of a declaration, up to a token at which the
    /// declaration ends.
    pub open spec fn parameters(self) -> P
        decreases self.tokens.len() - self.pos,
    {
        if !self.at_ts(TokenSetName::VarRecovery) {
            let next = self.parameter_and_comma();
            if self.pos < next.pos <= next.tokens.len() && next.tokens == self.tokens {
                next.parameters()
            } else {
                next
            }
        } else {
            self
        }
    }

    /// A declaration of parameters, in the node that started with the
    /// event `marker`: the word `parameter`, the type, the parameters
    /// with commas between them, and a semicolon.
    pub open spec fn parameter_decl(self, marker: int) -> P {
        self.bump_any().ty().parameters().expect(SyntaxKind::SEMICOLON).complete(
            marker,
            SyntaxKind::PARAM_DECL,
        )
    }

    /// A variable of a declaration: its name, and its default value
    /// behind an equals sign if it has one; then a comma, unless a
    /// semicolon follows.
    pub open spec fn var(self) -> P {
        let marker = self.events.len() as int;
        let named = self.start().name_r(TokenSetName::CommaOrEq);
        let valued = if named.at(SyntaxKind::EQ) {
            named.bump_any().expr()
        } else {
            named
        };
        let done = valued.complete(marker, SyntaxKind::VAR);
        if !done.at(SyntaxKind::SEMICOLON) {
            done.expect_with(SyntaxKind::COMMA, TokenSetName::CommaOrSemicolon)
        } else {
            done
        }
    }

    /// The variables of a declaration, up to a token at which the
    /// declaration ends.
    pub open spec fn vars(self) -> P
        decreases self.tokens.len() - self.pos,
    {
        if !self.at_ts(TokenSetName::VarRecovery) {
            let next = self.var();
            if self.pos < next.pos <= next.tokens.len() && next.tokens == self.tokens {
                next.vars()
            } else {
                next
            }
        } else {
            self
        }
    }

    /// A declaration of variables, in the node that started with the
    /// event `marker`: the type, the variables, and a semicolon if one
    /// follows.
    pub open spec fn var_decl(self, marker: int) -> P {
        self.ty().vars().eat(SyntaxKind::SEMICOLON).complete(marker, SyntaxKind::VAR_DECL)
    }

    /// An attribute of a discipline: a path, an equals sign if one
    /// follows, a value, and a semicolon, without which the parser
    /// recovers.
    pub open spec fn discipline_attr(self) -> P {
        let valued = self.start().path().eat(SyntaxKind::EQ).expr();
        let ended = if valued.at(SyntaxKind::SEMICOLON) {
            valued.bump_any()
        } else {
            valued.err_recover(
                Missing::Token(SyntaxKind::SEMICOLON),
                TokenSetName::DisciplineAttrRecovery,
            )
        };
        ended.complete(self.events.len() as int, SyntaxKind::DISCIPLINE_ATTR)
    }

    /// The attributes of a discipline, up to a token at which the
    /// discipline ends.
    pub open spec fn discipline_attrs(self) -> P
        decreases self.tokens.len() - self.pos,
    {
        if !self.at_ts(TokenSetName::DisciplineRecovery) {
            let next = self.discipline_attr();
            if self.pos < next.pos <= next.tokens.len() && next.tokens == self.tokens {
                next.discipline_attrs()
            } else {
                next
            }
        } else {
            self
        }
    }

    /// A discipline, in the node that started with the event `marker`:
    /// the word `discipline`, the name, a semicolon, the attributes, and
    /// the word `enddiscipline`.
    pub open spec fn discipline(self, marker: int) -> P {
        self.bump_any().name_r(TokenSetName::Semicolon).expect(SyntaxKind::SEMICOLON)
            .discipline_attrs().expect(SyntaxKind::ENDDISCIPLINE_KW).complete(
            marker,
            SyntaxKind::DISCIPLINE_DECL,
        )
    }

    /// An attribute of a nature: its name, an equals sign, its value, and
    /// a semicolon, without which the parser recovers.
    pub open spec fn nature_attr(self) -> P {
        let valued = self.start().name_r(TokenSetName::Eq).expect(SyntaxKind::EQ).expr();
        let ended = if valued.at(SyntaxKind::SEMICOLON) {
            valued.bump_any()
        } else {
            valued.err_recover(
                Missing::Token(SyntaxKind::SEMICOLON),
                TokenSetName::NatureAttrRecovery,
            )
        };
        ended.complete(self.events.len() as int, SyntaxKind::NATURE_ATTR)
    }

    /// The attributes of a nature, up to a token at which the nature ends.
    pub open spec fn nature_attrs(self) -> P
        decreases self.tokens.len() - self.pos,
    {
        if !self.at_ts(TokenSetName::NatureRecovery) {
            let next = self.nature_attr();
            if self.pos < next.pos <= next.tokens.len() && next.tokens == self.tokens {
                next.nature_attrs()
            } else {
                next
            }
        } else {
            self
        }
    }

    /// A nature, in the node that started with the event `marker`: the
    /// word `nature`, the name, the parent behind a colon if it has one, a
    /// semicolon, the attributes, and the word `endnature`.
    pub open spec fn nature(self, marker: int) -> P {
        let named = self.bump_any().name_r(TokenSetName::SemicolonOrColon);
        let parented = if named.at(SyntaxKind::COLON) {
            named.bump_any().name_ref_r(TokenSetName::Semicolon)
        } else {
            named
        };
        parented.expect(SyntaxKind::SEMICOLON).nature_attrs().expect(SyntaxKind::ENDNATURE_KW)
            .complete(marker, SyntaxKind::NATURE_DECL)
    }

    /// The names of the ports of a module, each a node, with commas
    /// between them.
    pub open spec fn port_names(self) -> P
        decreases self.tokens.len() - self.pos,
    {
        if self.at(SyntaxKind::IDENT) && 0 <= self.pos < self.tokens.len() {
            self.start().bump_any().complete(self.events.len() as int, SyntaxKind::PORT).eat(
                SyntaxKind::COMMA,
            ).port_names()
        } else {
            self
        }
    }

    /// An item of a module: attributes, and a declaration of variables or
    /// of parameters. Where neither starts the parser recovers.
    pub open spec fn module_item(self) -> P {
        let marker = self.events.len() as int;
        let started = self.start().attrs();
        if started.at_ts(TokenSetName::TypeKeyword) {
            started.var_decl(marker)
        } else if started.at(SyntaxKind::PARAMETER_KW) {
            started.parameter_decl(marker)
        } else {
            started.abandon(marker).err_recover(
                Missing::OneOf(TokenSetName::ModuleItemOrAttrRecovery),
                TokenSetName::ModuleItemOrAttrRecovery,
            )
        }
    }

    /// The items of a module, up to the end of the module or of the
    /// input.
    pub open spec fn module_items(self) -> P
        decreases self.tokens.len() - self.pos,
    {
        if !self.at(SyntaxKind::ENDMODULE_KW) && !self.at(SyntaxKind::EOF) {
            let next = self.module_item();
            if self.pos < next.pos <= next.tokens.len() && next.tokens == self.tokens {
                next.module_items()
            } else {
                next
            }
        } else {
            self
        }
    }

    /// A module, in the node that started with the event `marker`: the
    /// word `module`, the name, the names of the ports in round brackets
    /// if there are any, a semicolon, the items, and the word
    /// `endmodule`.
    pub open spec fn module(self, marker: int) -> P {
        let named = self.bump_any().name_r(TokenSetName::Semicolon);
        let with_ports = if named.at(SyntaxKind::L_PAREN) {
            named.start().bump_any().port_names().expect(SyntaxKind::R_PAREN).complete(
                named.events.len() as int,
                SyntaxKind::MODULE_PORTS,
            )
        } else {
            named
        };
        with_ports.expect(SyntaxKind::SEMICOLON).module_items().expect(SyntaxKind::ENDMODULE_KW)
            .complete(marker, SyntaxKind::MODULE_DECL)
    }

    /// An item at the root of a file: attributes, and a discipline, a
    /// nature or a module. Where none starts the parser recovers.
    pub open spec fn root_item(self) -> P {
        let marker = self.events.len() as int;
        let started = self.start().attrs();
        match started.current() {
            SyntaxKind::DISCIPLINE_KW => started.discipline(marker),
            SyntaxKind::NATURE_KW => started.nature(marker),
            SyntaxKind::MODULE_KW => started.module(marker),
            _ => started.abandon(marker).err_recover(
                Missing::OneOf(TokenSetName::ItemStart),
                TokenSetName::ItemOrAttrRecovery,
            ),
        }
    }
}

/// Reading a range or an expression reads on.
pub proof fn lemma_range_or_expr(p: P)
    requires
        p.well_formed(),
    ensures
        p.reads_on(p.range_or_expr()),
{
    let started = p.start();
    if started.at(SyntaxKind::L_PAREN) {
        lemma_expr(started.bump_any());
        let first = started.bump_any().expr();
        lemma_expr(first.expect(SyntaxKind::COLON));
    } else if started.at(SyntaxKind::L_BRACK) {
        lemma_expr(started.bump_any());
        lemma_expr(started.bump_any().expr().expect(SyntaxKind::COLON));
    } else {
        lemma_expr(started);
    }
}

/// Reading a constraint reads on; where the parameter does not end, it
/// moves forward.
pub proof fn lemma_constraint(p: P)
    requires
        p.well_formed(),
    ensures
        p.reads_on(p.constraint()),
        !p.at_ts(TokenSetName::ParamRecover) ==> p.pos < p.constraint().pos,
{
    let started = p.start();
    if started.at_ts(TokenSetName::FromOrExclude) {
        lemma_range_or_expr(started.bump_any());
    }
}

/// Reading constraints reads on.
pub proof fn lemma_constraints(p: P)
    requires
        p.well_formed(),
    ensures
        p.reads_on(p.constraints()),
    decreases p.tokens.len() - p.pos,
{
    if !p.at_ts(TokenSetName::ParamRecover) {
        lemma_constraint(p);
        lemma_constraints(p.constraint());
    }
}

/// Reading a parameter with its comma reads on; where the declaration
/// does not end, it moves forward.
pub proof fn lemma_parameter(p: P)
    requires
        p.well_formed(),
    ensures
        p.reads_on(p.parameter()),
        p.reads_on(p.parameter_and_comma()),
        !p.at_ts(TokenSetName::VarRecovery) ==> p.pos < p.parameter_and_comma().pos,
{
    let named = p.start().name_r(TokenSetName::CommaOrSemicolon);
    let valued = named.expect(SyntaxKind::EQ);
    lemma_expr(valued);
    lemma_constraints(valued.expr());
}

/// Reading parameters reads on.
pub proof fn lemma_parameters(p: P)
    requires
        p.well_formed(),
    ensures
        p.reads_on(p.parameters()),
    decreases p.tokens.len() - p.pos,
{
    if !p.at_ts(TokenSetName::VarRecovery) {
        lemma_parameter(p);
        lemma_parameters(p.parameter_and_comma());
    }
}

/// Reading a variable reads on; where the declaration does not end, it
/// moves forward.
pub proof fn lemma_var(p: P)
    requires
        p.well_formed(),
    ensures
        p.reads_on(p.var()),
        !p.at_ts(TokenSetName::VarRecovery) ==> p.pos < p.var().pos,
{
    let named = p.start().name_r(TokenSetName::CommaOrEq);
    if named.at(SyntaxKind::EQ) {
        lemma_expr(named.bump_any());
    }
}

/// Reading variables reads on.
pub proof fn lemma_vars(p: P)
    requires
        p.well_formed(),
    ensures
        p.reads_on(p.vars()),
    decreases p.tokens.len() - p.pos,
{
    if !p.at_ts(TokenSetName::VarRecovery) {
        lemma_var(p);
        lemma_vars(p.var());
    }
}

/// Reading an attribute of a discipline reads on; where the discipline
/// does not end, it moves forward.
pub proof fn lemma_discipline_attr(p: P)
    requires
        p.well_formed(),
    ensures
        p.reads_on(p.discipline_attr()),
        !p.at_ts(TokenSetName::DisciplineRecovery) ==> p.pos < p.discipline_attr().pos,
{
    lemma_path(p.start());
    let assigned = p.start().path().eat(SyntaxKind::EQ);
    lemma_expr(assigned);
}

/// Reading an attribute of a nature reads on; where the nature does not
/// end, it moves forward.
pub proof fn lemma_nature_attr(p: P)
    requires
        p.well_formed(),
    ensures
        p.reads_on(p.nature_attr()),
        !p.at_ts(TokenSetName::NatureRecovery) ==> p.pos < p.nature_attr().pos,
{
    let assigned = p.start().name_r(TokenSetName::Eq).expect(SyntaxKind::EQ);
    lemma_expr(assigned);
}

/// Reading the names of ports reads on.
pub proof fn lemma_port_names(p: P)
    requires
        p.well_formed(),
    ensures
        p.reads_on(p.port_names()),
    decreases p.tokens.len() - p.pos,
{
    if p.at(SyntaxKind::IDENT) && 0 <= p.pos < p.tokens.len() {
        lemma_port_names(
            p.start().bump_any().complete(p.events.len() as int, SyntaxKind::PORT).eat(
                SyntaxKind::COMMA,
            ),
        );
    }
}

/// Reading an item of a module reads on; inside the module it moves
/// forward.
pub proof fn lemma_module_item(p: P)
    requires
        p.well_formed(),
    ensures
        p.reads_on(p.module_item()),
        !p.at(SyntaxKind::ENDMODULE_KW) && !p.at(SyntaxKind::EOF) ==> p.pos < p.module_item().pos,
{
    lemma_attrs(p.start());
    let started = p.start().attrs();
    if started.at_ts(TokenSetName::TypeKeyword) {
        lemma_vars(started.ty());
    } else if started.at(SyntaxKind::PARAMETER_KW) {
        lemma_parameters(started.bump_any().ty());
    }
}

impl Parser {
    /// See [`P::range_or_expr`].
    pub fn range_or_expr(&mut self)
        requires
            old(self)@.well_formed(),
        ensures
            final(self)@ == old(self)@.range_or_expr(),
    {
        let m = self.start();
        if self.eat(SyntaxKind::L_PAREN) {
            proof {
                lemma_expr(self@);
            }
            self.expr();
            if !self.at(SyntaxKind::COLON) {
                self.expect(SyntaxKind::R_PAREN);
                self.complete(m, SyntaxKind::PAREN_EXPR);
                return ;
            }
        } else if self.eat(SyntaxKind::L_BRACK) {
            proof {
                lemma_expr(self@);
            }
            self.expr();
        } else {
            proof {
                lemma_expr(self@);
            }
            self.expr();
            self.abandon(m);
            return ;
        }
        self.expect(SyntaxKind::COLON);
        proof {
            lemma_expr(self@);
        }
        self.expr();
        self.expect_ts(TokenSetName::ClosingBracket);
        self.complete(m, SyntaxKind::RANGE);
    }

    /// See [`P::constraint`].
    pub fn constraint(&mut self)
        requires
            old(self)@.well_formed(),
        ensures
            final(self)@ == old(self)@.constraint(),
    {
        let m = self.start();
        if !self.expect_ts_r(TokenSetName::FromOrExclude, TokenSetName::ParamRecover) {
            self.abandon(m);
            return ;
        }
        self.range_or_expr();
        self.complete(m, SyntaxKind::CONSTRAINT);
    }

    /// See [`P::parameter`].
    pub fn parameter(&mut self)
        requires
            old(self)@.well_formed(),
        ensures
            final(self)@ == old(self)@.parameter(),
    {
        let m = self.start();
        self.name_r(TokenSetName::CommaOrSemicolon);
        self.expect(SyntaxKind::EQ);
        proof {
            lemma_expr(self@);
        }
        self.expr();
        while !self.at_ts(TokenSetName::ParamRecover)
            invariant
                self@.well_formed(),
                self@.constraints() == old(self)@.start().name_r(
                    TokenSetName::CommaOrSemicolon,
                ).expect(SyntaxKind::EQ).expr().constraints(),
            decreases self.tokens@.len() - self.pos,
        {
            proof {
                lemma_constraint(self@);
            }
            self.constraint()
        }
        self.complete(m, SyntaxKind::PARAM);
    }

    /// See [`P::parameter_decl`].
    pub fn parameter_decl(&mut self, m: Marker)
        requires
            old(self)@.well_formed(),
            old(self)@.at(SyntaxKind::PARAMETER_KW),
        ensures
            final(self)@ == old(self)@.parameter_decl(m.pos as int),
    {
        self.bump(SyntaxKind::PARAMETER_KW);
        self.ty();
        while !self.at_ts(TokenSetName::VarRecovery)
            invariant
                self@.well_formed(),
                self@.parameters() == old(self)@.bump_any().ty().parameters(),
            decreases self.tokens@.len() - self.pos,
        {
            proof {
                lemma_parameter(self@);
            }
            self.parameter();
            if !self.at_ts(TokenSetName::VarRecovery) {
                self.expect(SyntaxKind::COMMA);
            }
        }
        self.expect(SyntaxKind::SEMICOLON);
        self.complete(m, SyntaxKind::PARAM_DECL);
    }

    /// See [`P::var_decl`].
    pub fn var_decl(&mut self, m: Marker)
        requires
            old(self)@.well_formed(),
        ensures
            final(self)@ == old(self)@.var_decl(m.pos as int),
    {
        self.ty();
        while !self.at_ts(TokenSetName::VarRecovery)
            invariant
                self@.well_formed(),
                self@.vars() == old(self)@.ty().vars(),
            decreases self.tokens@.len() - self.pos,
        {
            proof {
                lemma_var(self@);
            }
            let m = self.start();
            self.name_r(TokenSetName::CommaOrEq);
            if self.eat(SyntaxKind::EQ) {
                proof {
                    lemma_expr(self@);
                }
                self.expr();
            }
            self.complete(m, SyntaxKind::VAR);
            if !self.at(SyntaxKind::SEMICOLON) {
                self.expect_with(SyntaxKind::COMMA, TokenSetName::CommaOrSemicolon);
            }
        }
        self.eat(SyntaxKind::SEMICOLON);
        self.complete(m, SyntaxKind::VAR_DECL);
    }

    /// See [`P::discipline`].
    pub fn discipline(&mut self, m: Marker)
        requires
            old(self)@.well_formed(),
            old(self)@.at(SyntaxKind::DISCIPLINE_KW),
        ensures
            final(self)@ == old(self)@.discipline(m.pos as int),
    {
        self.bump(SyntaxKind::DISCIPLINE_KW);
        self.name_r(TokenSetName::Semicolon);
        self.expect(SyntaxKind::SEMICOLON);
        while !self.at_ts(TokenSetName::DisciplineRecovery)
            invariant
                self@.well_formed(),
                self@.discipline_attrs() == old(self)@.bump_any().name_r(
                    TokenSetName::Semicolon,
                ).expect(SyntaxKind::SEMICOLON).discipline_attrs(),
            decreases self.tokens@.len() - self.pos,
        {
            proof {
                lemma_discipline_attr(self@);
                lemma_path(self@.start());
                lemma_expr(self@.start().path().eat(SyntaxKind::EQ));
            }
            let m = self.start();
            self.path();
            self.eat(SyntaxKind::EQ);
            self.expr();
            if !self.eat(SyntaxKind::SEMICOLON) {
                self.err_recover(
                    Missing::Token(SyntaxKind::SEMICOLON),
                    TokenSetName::DisciplineAttrRecovery,
                );
            }
            self.complete(m, SyntaxKind::DISCIPLINE_ATTR);
        }
        self.expect(SyntaxKind::ENDDISCIPLINE_KW);
        self.complete(m, SyntaxKind::DISCIPLINE_DECL);
    }

    /// See [`P::nature`].
    pub fn nature(&mut self, m: Marker)
        requires
            old(self)@.well_formed(),
            old(self)@.at(SyntaxKind::NATURE_KW),
        ensures
            final(self)@ == old(self)@.nature(m.pos as int),
    {
        self.bump(SyntaxKind::NATURE_KW);
        self.name_r(TokenSetName::SemicolonOrColon);
        if self.eat(SyntaxKind::COLON) {
            self.name_ref_r(TokenSetName::Semicolon);
        }
        self.expect(SyntaxKind::SEMICOLON);
        let ghost head = self@;
        while !self.at_ts(TokenSetName::NatureRecovery)
            invariant
                self@.well_formed(),
                self@.nature_attrs() == head.nature_attrs(),
            decreases self.tokens@.len() - self.pos,
        {
            proof {
                lemma_nature_attr(self@);
                lemma_expr(self@.start().name_r(TokenSetName::Eq).expect(SyntaxKind::EQ));
            }
            let m = self.start();
            self.name_r(TokenSetName::Eq);
            self.expect(SyntaxKind::EQ);
            self.expr();
            if !self.eat(SyntaxKind::SEMICOLON) {
                self.err_recover(
                    Missing::Token(SyntaxKind::SEMICOLON),
                    TokenSetName::NatureAttrRecovery,
                );
            }
            self.complete(m, SyntaxKind::NATURE_ATTR);
        }
        self.expect(SyntaxKind::ENDNATURE_KW);
        self.complete(m, SyntaxKind::NATURE_DECL);
    }

    /// See [`P::module_item`].
    pub fn module_item(&mut self)
        requires
            old(self)@.well_formed(),
        ensures
            final(self)@ == old(self)@.module_item(),
    {
        let m = self.start();
        proof {
            lemma_attrs(self@);
        }
        self.attrs();
        if self.at_ts(TokenSetName::TypeKeyword) {
            self.var_decl(m);
        } else if self.at(SyntaxKind::PARAMETER_KW) {
            self.parameter_decl(m);
        } else {
            self.abandon(m);
            self.err_recover(
                Missing::OneOf(TokenSetName::ModuleItemOrAttrRecovery),
                TokenSetName::ModuleItemOrAttrRecovery,
            );
        }
    }

    /// See [`P::module`].
    pub fn module(&mut self, m: Marker)
        requires
            old(self)@.well_formed(),
            old(self)@.at(SyntaxKind::MODULE_KW),
        ensures
            final(self)@ == old(self)@.module(m.pos as int),
    {
        self.bump(SyntaxKind::MODULE_KW);
        self.name_r(TokenSetName::Semicolon);
        if self.at(SyntaxKind::L_PAREN) {
            let ports = self.start();
            self.bump(SyntaxKind::L_PAREN);
            let ghost opened = self@;
            while self.at(SyntaxKind::IDENT)
                invariant
                    self@.well_formed(),
                    self@.port_names() == opened.port_names(),
                decreases self.tokens@.len() - self.pos,
            {
                let port = self.start();
                self.bump(SyntaxKind::IDENT);
                self.complete(port, SyntaxKind::PORT);
                self.eat(SyntaxKind::COMMA);
            }
            self.expect(SyntaxKind::R_PAREN);
            self.complete(ports, SyntaxKind::MODULE_PORTS);
            proof {
                lemma_port_names(opened);
            }
        }
        self.expect(SyntaxKind::SEMICOLON);
        let ghost head = self@;
        while !self.at(SyntaxKind::ENDMODULE_KW) && !self.at(SyntaxKind::EOF)
            invariant
                self@.well_formed(),
                self@.module_items() == head.module_items(),
            decreases self.tokens@.len() - self.pos,
        {
            proof {
                lemma_module_item(self@);
            }
            self.module_item();
        }
        self.expect(SyntaxKind::ENDMODULE_KW);
        self.complete(m, SyntaxKind::MODULE_DECL);
    }

    /// See [`P::root_item`].
    pub fn root_item(&mut self)
        requires
            old(self)@.well_formed(),
        ensures
            final(self)@ == old(self)@.root_item(),
    {
        let m = self.start();
        proof {
            lemma_attrs(self@);
        }
        self.attrs();
        match self.current() {
            SyntaxKind::DISCIPLINE_KW => self.discipline(m),
            SyntaxKind::NATURE_KW => self.nature(m),
            SyntaxKind::MODULE_KW => self.module(m),
            _ => {
                self.abandon(m);
                self.err_recover(
                    Missing::OneOf(TokenSetName::ItemStart),
                    TokenSetName::ItemOrAttrRecovery,
                );
            },
        }
    }
}

} // verus!
