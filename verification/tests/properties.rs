use gramma::{
    build_grammar, get_parsing_grammar, Atom, BuildError, Grammar, Lexem, LowerError, ParseError,
    ParseOptions, Pattern, Rule, Symbol, SymbolType, AST,
};

fn lex(t: &str) -> SymbolType {
    SymbolType::Symbol(Symbol::Lexem { t: t.into(), include_raw: false })
}

fn lexr(t: &str) -> SymbolType {
    SymbolType::Symbol(Symbol::Lexem { t: t.into(), include_raw: true })
}

fn ast_ref(r: &str) -> SymbolType {
    SymbolType::Symbol(Symbol::AST(r.into()))
}

fn to_json(ast: &AST) -> String {
    match ast {
        AST::Node { t, children } => {
            let inner: Vec<String> = children.iter().map(to_json).collect();
            format!("{{\"type\":\"{}\",\"children\":[{}]}}", t, inner.join(","))
        }
        AST::Leaf { t, raw } => {
            format!("{{\"type\":\"{}\",\"raw\":\"{}\"}}", t, raw)
        }
    }
}

fn tokens_of(g: &Grammar, input: &str) -> Vec<(String, String)> {
    let input = input.to_string();
    let mut it = Lexem::iter(g, &input);
    let mut out = Vec::new();
    while let Some(l) = it.next() {
        out.push((l.t, l.raw));
    }
    out
}

// Round-trip determinism: the same grammar and input give the same tree or
// the same failure, parse after parse.
#[test]
fn parse_is_deterministic() {
    let g = Grammar {
        options: ParseOptions::default(),
        rules: vec![
            Rule {
                name: "START".into(),
                production: SymbolType::Group(vec![
                    lexr("NUMBER"),
                    SymbolType::Repeated(Box::new(SymbolType::Group(vec![
                        lexr("+"),
                        lexr("NUMBER"),
                    ]))),
                ]),
            },
        ],
        atoms: vec![
            Atom::Simple { name: "+".into() },
            Atom::Matched { name: "NUMBER".into(), m: Pattern::compile(r"\d+").unwrap() },
        ],
    };
    let a = g.parse(&"1+2+3".into()).unwrap();
    let b = g.parse(&"1+2+3".into()).unwrap();
    assert_eq!(to_json(&a), to_json(&b));
    let e1 = g.parse(&"1+".into());
    let e2 = g.parse(&"1+".into());
    assert!(e1.is_err());
    assert!(e2.is_err());
    assert_eq!(format!("{:?}", e1.err()), format!("{:?}", e2.err()));
}

// Atom priority: of two atoms matching at one position, the one declared
// earlier wins.
#[test]
fn atom_priority_earlier_wins() {
    let g = Grammar {
        options: ParseOptions::default(),
        rules: vec![],
        atoms: vec![
            Atom::Simple { name: ">=".into() },
            Atom::Simple { name: ">".into() },
            Atom::Simple { name: "=".into() },
        ],
    };
    assert_eq!(
        tokens_of(&g, ">="),
        vec![(">=".to_string(), ">=".to_string())]
    );
    let g2 = Grammar {
        options: ParseOptions::default(),
        rules: vec![],
        atoms: vec![
            Atom::Simple { name: ">".into() },
            Atom::Simple { name: ">=".into() },
            Atom::Simple { name: "=".into() },
        ],
    };
    assert_eq!(
        tokens_of(&g2, ">="),
        vec![
            (">".to_string(), ">".to_string()),
            ("=".to_string(), "=".to_string())
        ]
    );
}

// Skip-rule idempotence: extra skipped characters leave the token sequence
// unchanged, in type and raw text.
#[test]
fn skipping_leaves_tokens_unchanged() {
    let g = Grammar {
        options: ParseOptions {
            ignore_whitespace: true,
            ignore_newline: true,
            bubble_intermediate: false,
        },
        rules: vec![],
        atoms: vec![Atom::Simple { name: "a".into() }, Atom::Simple { name: "b".into() }],
    };
    let one = tokens_of(&g, "a b");
    assert_eq!(one, tokens_of(&g, "a  b"));
    assert_eq!(one, tokens_of(&g, "a\nb"));
    assert_eq!(one, tokens_of(&g, "a \n  b"));
    assert_eq!(one, tokens_of(&g, "ab"));
}

// Optional/Repeated boundary: a repeated group accepts any number of
// passes, including none, and rejects an unterminated pass.
#[test]
fn repeated_boundary() {
    let g = Grammar {
        options: ParseOptions::default(),
        rules: vec![
            Rule {
                name: "START".into(),
                production: SymbolType::Group(vec![
                    lex("a"),
                    SymbolType::Repeated(Box::new(SymbolType::Group(vec![lex("("), lex(")")]))),
                ]),
            },
        ],
        atoms: vec![
            Atom::Simple { name: "a".into() },
            Atom::Simple { name: "(".into() },
            Atom::Simple { name: ")".into() },
        ],
    };
    assert!(g.parse(&"a".into()).is_ok());
    assert!(g.parse(&"a()".into()).is_ok());
    assert!(g.parse(&"a()()".into()).is_ok());
    assert!(g.parse(&"a(".into()).is_err());
    assert!(g.parse(&"a()(".into()).is_err());
    // a rule invocation needs a lookahead token, so empty input is refused
    assert!(g.parse(&"".into()).is_err());
}

// Singleton collapse: with collapsing enabled, a node with one child is
// replaced by that child; a node with several children stays.
#[test]
fn singleton_collapse() {
    let g = Grammar {
        options: ParseOptions {
            ignore_whitespace: false,
            ignore_newline: false,
            bubble_intermediate: true,
        },
        rules: vec![
            Rule { name: "START".into(), production: ast_ref("FILE") },
            Rule {
                name: "FILE".into(),
                production: SymbolType::Group(vec![
                    lexr("alpha"),
                    SymbolType::Optional(Box::new(SymbolType::Group(vec![
                        lexr("dot"),
                        lexr("alpha"),
                    ]))),
                ]),
            },
        ],
        atoms: vec![
            Atom::Matched { name: "dot".into(), m: Pattern::compile(r"\.").unwrap() },
            Atom::Matched { name: "alpha".into(), m: Pattern::compile(r"\p{Alphabetic}+").unwrap() },
        ],
    };
    assert_eq!(
        to_json(&g.parse(&"x".into()).unwrap()),
        r#"{"type":"alpha","raw":"x"}"#
    );
    assert_eq!(
        to_json(&g.parse(&"x.y".into()).unwrap()),
        r#"{"type":"FILE","children":[{"type":"alpha","raw":"x"},{"type":"dot","raw":"."},{"type":"alpha","raw":"y"}]}"#
    );
}

// Self-hosting closure: the bootstrap grammar parses a specification with
// rules, atoms, alternation, grouping and both modifiers; the lowered
// grammar then accepts and rejects as that specification says.
#[test]
fn self_hosting_closure() {
    let text = r#"
            START -> ( SUM )
            SUM -> ( PRODUCT ( OPA PRODUCT )* )
            PRODUCT -> ( NUMBER ( OPB NUMBER )* )
            NUMBER -> ( num )
            NUMBER -> ( minus num )
            OPA -> ( ( pluss ) | ( minus ) )
            OPB -> ( ( multiply ) | ( divide ) )

            >pluss -> '\+'
            >minus -> '-'
            >multiply -> 'x'
            >divide -> '/'
            >num -> '\d+'
            "#;
    let g = build_grammar(&text.into()).unwrap();
    assert!(g.parse(&"1+2x3".into()).is_ok());
    assert!(g.parse(&"-1/2".into()).is_ok());
    assert!(g.parse(&"1+".into()).is_err());
    assert!(g.parse(&"x2".into()).is_err());
}

// Trailing-input rejection: a grammar whose start matches one token refuses
// a second one, though the first alone would parse.
#[test]
fn trailing_input_rejected() {
    let g = Grammar {
        options: ParseOptions {
            ignore_whitespace: true,
            ignore_newline: false,
            bubble_intermediate: false,
        },
        rules: vec![Rule { name: "START".into(), production: lexr("a") }],
        atoms: vec![Atom::Simple { name: "a".into() }],
    };
    assert!(g.parse(&"a".into()).is_ok());
    let err = g.parse(&"a a".into()).unwrap_err();
    assert!(matches!(err, ParseError::TrailingInput { .. }));
}

// FIRST-set ambiguity detection: overlapping same-named alternatives are
// reported as a grammar defect; disjoint ones are not.
#[test]
fn ambiguity_detection() {
    let ambiguous = Grammar {
        options: ParseOptions::default(),
        rules: vec![
            Rule {
                name: "START".into(),
                production: SymbolType::Group(vec![lex("a"), lex("b")]),
            },
            Rule {
                name: "START".into(),
                production: SymbolType::Group(vec![lex("a"), lex("c")]),
            },
        ],
        atoms: vec![
            Atom::Simple { name: "a".into() },
            Atom::Simple { name: "b".into() },
            Atom::Simple { name: "c".into() },
        ],
    };
    let report = ambiguous.find_ambiguity().unwrap();
    assert_eq!(report.0, "START");
    assert_eq!(report.1, "a");

    let unambiguous = Grammar {
        options: ParseOptions::default(),
        rules: vec![
            Rule {
                name: "START".into(),
                production: SymbolType::Group(vec![lex("a"), lex("b")]),
            },
            Rule {
                name: "START".into(),
                production: SymbolType::Group(vec![lex("b"), lex("c")]),
            },
        ],
        atoms: vec![
            Atom::Simple { name: "a".into() },
            Atom::Simple { name: "b".into() },
            Atom::Simple { name: "c".into() },
        ],
    };
    assert!(unambiguous.find_ambiguity().is_none());
}

#[test]
fn bootstrap_grammar_is_unambiguous() {
    assert!(get_parsing_grammar().find_ambiguity().is_none());
}

#[test]
fn error_variants() {
    let g = Grammar {
        options: ParseOptions::default(),
        rules: vec![
            Rule {
                name: "START".into(),
                production: SymbolType::Group(vec![lex("a"), lex("b")]),
            },
        ],
        atoms: vec![Atom::Simple { name: "a".into() }, Atom::Simple { name: "b".into() }],
    };
    // no atom matches at offset 0 while input remains
    assert!(matches!(
        g.parse(&"%".into()).unwrap_err(),
        ParseError::UnrecognizedInput { pos: 0 }
    ));
    // the token reference `b` meets lookahead `a`
    assert!(matches!(
        g.parse(&"aa".into()).unwrap_err(),
        ParseError::UnexpectedToken { pos: 1 }
    ));
    // no alternative of START begins with `b`
    assert!(matches!(
        g.parse(&"b".into()).unwrap_err(),
        ParseError::NoAlternativeMatches { pos: 0 }
    ));
    // an exhausted stream where a rule needs a token
    assert!(matches!(
        g.parse(&"".into()).unwrap_err(),
        ParseError::NoAlternativeMatches { .. }
    ));
}

#[test]
fn malformed_grammar_reported() {
    // the right side of the choice refers to a name with no rule at all;
    // it is entered once `a` does not match the lookahead
    let g = Grammar {
        options: ParseOptions::default(),
        rules: vec![
            Rule {
                name: "START".into(),
                production: SymbolType::Switch(
                    Box::new(lex("a")),
                    Box::new(SymbolType::Group(vec![lex("b"), ast_ref("MISSING")])),
                ),
            },
        ],
        atoms: vec![Atom::Simple { name: "a".into() }, Atom::Simple { name: "b".into() }],
    };
    assert!(g.parse(&"a".into()).is_ok());
    let err = g.parse(&"bb".into()).unwrap_err();
    assert!(matches!(err, ParseError::MalformedGrammar { rule } if rule == "MISSING"));
}

#[test]
fn depth_budget_reported() {
    // two rules referring to each other without consuming anything: the
    // lookahead matches, but no descent can ever finish
    let g = Grammar {
        options: ParseOptions::default(),
        rules: vec![
            Rule { name: "START".into(), production: ast_ref("A") },
            Rule { name: "A".into(), production: ast_ref("START") },
            Rule { name: "A".into(), production: lexr("x") },
        ],
        atoms: vec![Atom::Simple { name: "x".into() }],
    };
    let err = g.parse(&"x".into()).unwrap_err();
    assert!(matches!(err, ParseError::DepthExceeded));
}

#[test]
fn build_grammar_bad_pattern() {
    // `[` alone is not a valid pattern, so the atom declaration is refused
    let text = "START -> ( br )\n>br -> '['\n";
    let err = build_grammar(&text.into()).unwrap_err();
    assert!(matches!(err, BuildError::Lower(LowerError::BadPattern)));
}

#[test]
fn build_grammar_parse_failure() {
    let text = "START -> no parens here";
    let err = build_grammar(&text.into()).unwrap_err();
    assert!(matches!(err, BuildError::Parse(_)));
}

#[test]
fn number_pattern_matches_prefix_only() {
    let g = Grammar {
        options: ParseOptions::default(),
        rules: vec![],
        atoms: vec![
            Atom::Matched { name: "NUMBER".into(), m: Pattern::compile(r"\d+").unwrap() },
            Atom::Matched { name: "ALPHA".into(), m: Pattern::compile(r"\p{Alphabetic}+").unwrap() },
        ],
    };
    assert_eq!(
        tokens_of(&g, "12ab"),
        vec![
            ("NUMBER".to_string(), "12".to_string()),
            ("ALPHA".to_string(), "ab".to_string())
        ]
    );
    // a pattern that matches only later in the input is no match at the cursor
    let g2 = Grammar {
        options: ParseOptions::default(),
        rules: vec![],
        atoms: vec![Atom::Matched { name: "NUMBER".into(), m: Pattern::compile(r"\d+").unwrap() }],
    };
    let input = "ab12".to_string();
    let mut it = Lexem::iter(&g2, &input);
    assert!(it.next().is_none());
}

#[test]
fn default_options_are_off() {
    let o = ParseOptions::default();
    assert!(!o.ignore_whitespace);
    assert!(!o.ignore_newline);
    assert!(!o.bubble_intermediate);
}

#[test]
fn get_t_reads_both_variants() {
    let leaf = AST::Leaf { t: "alpha".into(), raw: "x".into() };
    assert_eq!(leaf.get_t().as_str(), "alpha");
    let node = AST::Node { t: "FILE".into(), children: vec![leaf] };
    assert_eq!(node.get_t().as_str(), "FILE");
}

#[test]
fn nullable_and_first() {
    let rep = SymbolType::Repeated(Box::new(lex("a")));
    assert!(rep.nullable());
    let grp = SymbolType::Group(vec![rep, lex("b")]);
    assert!(!grp.nullable());
    let firsts = grp.first_symbol();
    // the repeated head is nullable, so both `a` and `b` can begin the group
    assert_eq!(firsts.len(), 2);
    let g = Grammar {
        options: ParseOptions::default(),
        rules: vec![],
        atoms: vec![Atom::Simple { name: "a".into() }, Atom::Simple { name: "b".into() }],
    };
    let toks = g.first_tokens(&grp);
    assert_eq!(toks, vec!["a".to_string(), "b".to_string()]);
}

#[test]
fn lexem_positions_recorded() {
    let g = Grammar {
        options: ParseOptions {
            ignore_whitespace: true,
            ignore_newline: false,
            bubble_intermediate: false,
        },
        rules: vec![],
        atoms: vec![Atom::Simple { name: "ab".into() }, Atom::Simple { name: "c".into() }],
    };
    let input = " ab  c".to_string();
    let mut it = Lexem::iter(&g, &input);
    let first = it.next().unwrap();
    assert_eq!(first.pos, 1);
    let second = it.next().unwrap();
    assert_eq!(second.pos, 5);
}
