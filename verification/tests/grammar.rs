use va_midend::grammar::SyntaxKind::{
    self, ATTR_LIST, COLON, COMMA, CONSTRAINT, DISCIPLINE_ATTR, DISCIPLINE_DECL, DISCIPLINE_KW, DOT,
    ENDDISCIPLINE_KW, ENDMODULE_KW, ENDNATURE_KW, EOF, EQ, ERROR, ERROR_TOKEN, EXCLUDE_KW, FROM_KW,
    IDENT, INTEGER_KW, INT_NUMBER, LITERAL, L_ATTR, L_BRACK, L_PAREN, MINUS, MODULE_DECL,
    MODULE_KW, NAME, NAME_REF, NATURE_DECL, NATURE_KW, PARAM, PARAMETER_KW, PARAM_DECL,
    PAREN_EXPR, PATH, PATH_EXPR, PORT, PREFIX_EXPR, RANGE, REAL_KW, R_ATTR, R_BRACK, R_PAREN,
    SEMICOLON, STR_LIT, TOMBSTONE, TYPE, VAR, VAR_DECL,
};
use va_midend::grammar::{Event, Missing, Parser, TokenSetName};

fn start(kind: SyntaxKind) -> Event {
    Event::Start { kind }
}

fn tok(kind: SyntaxKind) -> Event {
    Event::Token { kind }
}

fn parse(tokens: Vec<SyntaxKind>, rule: fn(&mut Parser)) -> (Vec<Event>, usize) {
    let mut p = Parser::new(tokens);
    rule(&mut p);
    (p.events, p.pos)
}

#[test]
fn a_range_and_an_expression_in_brackets() {
    // [ 1 : x )
    let (events, pos) =
        parse(vec![L_BRACK, INT_NUMBER, COLON, IDENT, R_PAREN], |p| p.range_or_expr());
    assert_eq!(pos, 5);
    assert_eq!(
        events,
        vec![
            start(RANGE),
            tok(L_BRACK),
            start(LITERAL),
            tok(INT_NUMBER),
            Event::Finish,
            tok(COLON),
            start(PATH_EXPR),
            start(PATH),
            start(NAME_REF),
            tok(IDENT),
            Event::Finish,
            Event::Finish,
            Event::Finish,
            tok(R_PAREN),
            Event::Finish,
        ]
    );
    // ( - 1 )
    let (events, _) = parse(vec![L_PAREN, MINUS, INT_NUMBER, R_PAREN], |p| p.range_or_expr());
    assert_eq!(
        events,
        vec![
            start(PAREN_EXPR),
            tok(L_PAREN),
            start(PREFIX_EXPR),
            tok(MINUS),
            start(LITERAL),
            tok(INT_NUMBER),
            Event::Finish,
            Event::Finish,
            tok(R_PAREN),
            Event::Finish,
        ]
    );
    // a bare expression leaves the start of the range behind, given up
    let (events, _) = parse(vec![STR_LIT], |p| p.range_or_expr());
    assert_eq!(events, vec![start(TOMBSTONE), start(LITERAL), tok(STR_LIT), Event::Finish]);
}

#[test]
fn a_declaration_of_parameters() {
    // parameter real x = 1 from [0:1], y = 2 exclude 3;
    let tokens = vec![
        PARAMETER_KW, REAL_KW, IDENT, EQ, INT_NUMBER, FROM_KW, L_BRACK, INT_NUMBER, COLON,
        INT_NUMBER, R_BRACK, COMMA, IDENT, EQ, INT_NUMBER, EXCLUDE_KW, INT_NUMBER, SEMICOLON,
    ];
    let n = tokens.len();
    let mut p = Parser::new(tokens);
    let m = p.start();
    p.parameter_decl(m);
    assert_eq!(p.pos, n);
    assert_eq!(p.events[0], start(PARAM_DECL));
    assert_eq!(p.events.last(), Some(&Event::Finish));
    assert!(!p.events.iter().any(|e| matches!(e, Event::Error { .. })));
    let kinds: Vec<SyntaxKind> = p
        .events
        .iter()
        .filter_map(|e| match e {
            Event::Start { kind } => Some(*kind),
            _ => None,
        })
        .collect();
    assert_eq!(
        kinds,
        vec![
            PARAM_DECL, TYPE, PARAM, NAME, LITERAL, CONSTRAINT, RANGE, LITERAL, LITERAL, PARAM,
            NAME, LITERAL, CONSTRAINT, TOMBSTONE, LITERAL,
        ]
    );
}

#[test]
fn a_declaration_of_variables() {
    // real x, y = 1;
    let mut p = Parser::new(vec![REAL_KW, IDENT, COMMA, IDENT, EQ, INT_NUMBER, SEMICOLON, EOF]);
    let m = p.start();
    p.var_decl(m);
    assert_eq!(p.pos, 7);
    assert_eq!(
        p.events,
        vec![
            start(VAR_DECL),
            start(TYPE),
            tok(REAL_KW),
            Event::Finish,
            start(VAR),
            start(NAME),
            tok(IDENT),
            Event::Finish,
            Event::Finish,
            tok(COMMA),
            start(VAR),
            start(NAME),
            tok(IDENT),
            Event::Finish,
            tok(EQ),
            start(LITERAL),
            tok(INT_NUMBER),
            Event::Finish,
            Event::Finish,
            tok(SEMICOLON),
            Event::Finish,
        ]
    );
    // a missing comma is noted, and the parser goes on
    let mut p = Parser::new(vec![INTEGER_KW, IDENT, IDENT, SEMICOLON]);
    let m = p.start();
    p.var_decl(m);
    assert_eq!(p.pos, 4);
    assert!(p
        .events
        .contains(&Event::Error { missing: Missing::OneOf(TokenSetName::CommaOrSemicolon) }));
}

#[test]
fn items_at_the_root() {
    // (* a *) discipline d; potential = v; enddiscipline
    let (events, pos) = parse(
        vec![
            L_ATTR, IDENT, R_ATTR, DISCIPLINE_KW, IDENT, SEMICOLON, IDENT, EQ, IDENT, SEMICOLON,
            ENDDISCIPLINE_KW,
        ],
        |p| p.root_item(),
    );
    assert_eq!(pos, 11);
    assert_eq!(events[0], start(DISCIPLINE_DECL));
    assert_eq!(events[1], start(ATTR_LIST));
    assert!(events.contains(&start(DISCIPLINE_ATTR)));
    assert!(!events.iter().any(|e| matches!(e, Event::Error { .. })));

    // nature n : parent; abstol = 1 endnature: the missing semicolon is noted
    let (events, pos) = parse(
        vec![NATURE_KW, IDENT, COLON, IDENT, SEMICOLON, IDENT, EQ, INT_NUMBER, ENDNATURE_KW],
        |p| p.root_item(),
    );
    assert_eq!(pos, 9);
    assert_eq!(events[0], start(NATURE_DECL));
    assert!(events.contains(&start(NAME_REF)));
    assert_eq!(
        events.iter().filter(|e| matches!(e, Event::Error { .. })).collect::<Vec<_>>(),
        vec![&Event::Error { missing: Missing::Token(SEMICOLON) }]
    );

    // module m (a, b); real x; parameter real p = 1; endmodule
    let (events, pos) = parse(
        vec![
            MODULE_KW, IDENT, L_PAREN, IDENT, COMMA, IDENT, R_PAREN, SEMICOLON, REAL_KW, IDENT,
            SEMICOLON, PARAMETER_KW, REAL_KW, IDENT, EQ, INT_NUMBER, SEMICOLON, ENDMODULE_KW,
        ],
        |p| p.root_item(),
    );
    assert_eq!(pos, 18);
    assert_eq!(events[0], start(MODULE_DECL));
    assert_eq!(events.iter().filter(|e| **e == start(PORT)).count(), 2);
    assert!(events.contains(&start(VAR_DECL)) && events.contains(&start(PARAM_DECL)));
    assert!(!events.iter().any(|e| matches!(e, Event::Error { .. })));

    // what starts no item is passed over inside an error
    let (events, pos) = parse(vec![COMMA, MODULE_KW], |p| p.root_item());
    assert_eq!(pos, 1);
    assert_eq!(
        events,
        vec![
            start(ERROR),
            Event::Error { missing: Missing::OneOf(TokenSetName::ItemStart) },
            tok(COMMA),
            Event::Finish,
        ]
    );
    // at the end of the input only the error is noted
    let (events, pos) = parse(vec![], |p| p.root_item());
    assert_eq!(pos, 0);
    assert_eq!(events, vec![Event::Error { missing: Missing::OneOf(TokenSetName::ItemStart) }]);
}

#[test]
fn the_parser_always_comes_to_an_end() {
    // every kind of token in every place of a short input
    let kinds = [
        EOF, IDENT, INT_NUMBER, L_PAREN, R_PAREN, L_BRACK, L_ATTR, R_ATTR, SEMICOLON, COMMA, COLON,
        DOT, EQ, MINUS, DISCIPLINE_KW, ENDDISCIPLINE_KW, NATURE_KW, ENDNATURE_KW, MODULE_KW,
        ENDMODULE_KW, PARAMETER_KW, FROM_KW, REAL_KW, ERROR_TOKEN,
    ];
    for &a in kinds.iter() {
        for &b in kinds.iter() {
            for &c in kinds.iter() {
                let tokens = vec![a, b, c];
                let mut p = Parser::new(tokens.clone());
                let mut rounds = 0;
                while p.pos < 3 && p.tokens[p.pos] != EOF {
                    let before = p.pos;
                    p.root_item();
                    assert!(p.pos > before, "{tokens:?}");
                    rounds += 1;
                    assert!(rounds <= 3);
                }
                let taken: Vec<SyntaxKind> = p
                    .events
                    .iter()
                    .filter_map(|e| match e {
                        Event::Token { kind } => Some(*kind),
                        _ => None,
                    })
                    .collect();
                assert_eq!(&taken[..], &tokens[..p.pos]);
                let starts = p.events.iter().filter(|e| matches!(e, Event::Start { kind } if *kind != TOMBSTONE)).count();
                let finishes = p.events.iter().filter(|e| **e == Event::Finish).count();
                assert_eq!(starts, finishes, "{tokens:?}");
            }
        }
    }
}
