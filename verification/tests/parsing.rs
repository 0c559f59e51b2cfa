use gramma::{Atom, Grammar, Lexem, ParseOptions, Pattern, Rule, Symbol, SymbolType};

fn num_atom() -> Atom {
    Atom::Matched { name: "NUMBER".into(), m: Pattern::compile(r"\d+").unwrap() }
}

#[test]
fn simple_lexem_iter() {
    let g = Grammar {
        options: ParseOptions {
            ignore_whitespace: true,
            ignore_newline: false,
            bubble_intermediate: false,
        },
        rules: vec![],
        atoms: vec![Atom::Simple { name: "(".into() }, Atom::Simple { name: ")".into() }],
    };
    let input = "(() ())".into();
    let mut lexem_iter = Lexem::iter(&g, &input);
    assert_eq!(lexem_iter.next().unwrap().t, "(");
    assert_eq!(lexem_iter.next().unwrap().t, "(");
    assert_eq!(lexem_iter.next().unwrap().t, ")");
    assert_eq!(lexem_iter.next().unwrap().t, "(");
    assert_eq!(lexem_iter.next().unwrap().t, ")");
    assert_eq!(lexem_iter.next().unwrap().t, ")");
    assert!(lexem_iter.next().is_none());
}

#[test]
fn combined_lexem_iter() {
    let g = Grammar {
        options: ParseOptions {
            ignore_whitespace: true,
            ignore_newline: true,
            bubble_intermediate: false,
        },
        rules: vec![],
        atoms: vec![
            Atom::Simple { name: "(".into() },
            Atom::Simple { name: ")".into() },
            num_atom(),
        ],
    };
    let input = "(\n1234 )".into();
    let mut lexem_iter = Lexem::iter(&g, &input);
    assert_eq!(lexem_iter.next().unwrap().t, "(");

    let n = lexem_iter.next().unwrap();
    assert_eq!(n.t, "NUMBER");
    assert_eq!(n.raw, "1234");

    assert_eq!(lexem_iter.next().unwrap().t, ")");
    assert!(lexem_iter.next().is_none());
}

#[test]
fn parse_simple() {
    let g = Grammar {
        options: ParseOptions::default(),
        rules: vec![
            Rule {
                name: "START".into(),
                production: SymbolType::Symbol(Symbol::AST("PAR".into())),
            },
            Rule {
                name: "PAR".into(),
                production: SymbolType::Group(vec![
                    SymbolType::Symbol(Symbol::Lexem { t: "(".into(), include_raw: false }),
                    SymbolType::Symbol(Symbol::Lexem { t: "NUMBER".into(), include_raw: false }),
                    SymbolType::Symbol(Symbol::Lexem { t: ")".into(), include_raw: false }),
                ]),
            },
        ],
        atoms: vec![
            Atom::Simple { name: "(".into() },
            Atom::Simple { name: ")".into() },
            num_atom(),
        ],
    };
    assert!(g.parse(&"(1424)".into()).is_ok());
    assert!(g.parse(&"(()".into()).is_err());
    assert!(g.parse(&"()".into()).is_err());
    assert!(g.parse(&"1424)".into()).is_err());
    assert!(g.parse(&"(1424".into()).is_err());
}

#[test]
fn parse_optional() {
    let g = Grammar {
        options: ParseOptions::default(),
        rules: vec![
            Rule {
                name: "START".into(),
                production: SymbolType::Symbol(Symbol::AST("FLOAT".into())),
            },
            Rule {
                name: "FLOAT".into(),
                production: SymbolType::Group(vec![
                    SymbolType::Symbol(Symbol::Lexem { t: "NUMBER".into(), include_raw: false }),
                    SymbolType::Optional(Box::new(SymbolType::Group(vec![
                        SymbolType::Symbol(Symbol::Lexem { t: ".".into(), include_raw: false }),
                        SymbolType::Symbol(Symbol::Lexem {
                            t: "NUMBER".into(),
                            include_raw: false,
                        }),
                    ]))),
                ]),
            },
        ],
        atoms: vec![Atom::Simple { name: ".".into() }, num_atom()],
    };
    assert!(g.parse(&"12.34".into()).is_ok());
    assert!(g.parse(&"12".into()).is_ok());
    assert!(g.parse(&"12.".into()).is_err());
}

#[test]
fn parse_multiple() {
    let g = Grammar {
        options: ParseOptions::default(),
        rules: vec![
            Rule {
                name: "START".into(),
                production: SymbolType::Symbol(Symbol::AST("PARS".into())),
            },
            Rule {
                name: "PARS".into(),
                production: SymbolType::Repeated(Box::new(SymbolType::Group(vec![
                    SymbolType::Symbol(Symbol::Lexem { t: "(".into(), include_raw: false }),
                    SymbolType::Symbol(Symbol::Lexem { t: ")".into(), include_raw: false }),
                ]))),
            },
        ],
        atoms: vec![Atom::Simple { name: "(".into() }, Atom::Simple { name: ")".into() }],
    };
    assert!(g.parse(&"()".into()).is_ok());
    assert!(g.parse(&"()()".into()).is_ok());
    assert!(g.parse(&"()()()".into()).is_ok());
    assert!(g.parse(&"()(".into()).is_err());
    assert!(g.parse(&"()()(".into()).is_err());
}

#[test]
fn parse_multiple_matching_rules() {
    let g = Grammar {
        options: ParseOptions::default(),
        rules: vec![
            Rule {
                name: "START".into(),
                production: SymbolType::Symbol(Symbol::AST("LIST".into())),
            },
            Rule {
                name: "START".into(),
                production: SymbolType::Symbol(Symbol::AST("OBJ".into())),
            },
            Rule {
                name: "LIST".into(),
                production: SymbolType::Group(vec![
                    SymbolType::Symbol(Symbol::Lexem { t: "[".into(), include_raw: false }),
                    SymbolType::Symbol(Symbol::Lexem { t: "]".into(), include_raw: false }),
                ]),
            },
            Rule {
                name: "OBJ".into(),
                production: SymbolType::Group(vec![
                    SymbolType::Symbol(Symbol::Lexem { t: "{".into(), include_raw: false }),
                    SymbolType::Symbol(Symbol::Lexem { t: "}".into(), include_raw: false }),
                ]),
            },
        ],
        atoms: vec![
            Atom::Simple { name: "[".into() },
            Atom::Simple { name: "]".into() },
            Atom::Simple { name: "{".into() },
            Atom::Simple { name: "}".into() },
            num_atom(),
        ],
    };
    assert!(g.parse(&"[]".into()).is_ok());
    assert!(g.parse(&"{}".into()).is_ok());
    assert!(g.parse(&"[}".into()).is_err());
}

#[test]
fn parse_switch() {
    let g = Grammar {
        options: ParseOptions::default(),
        rules: vec![
            Rule {
                name: "START".into(),
                production: SymbolType::Symbol(Symbol::AST("COMP".into())),
            },
            Rule {
                name: "COMP".into(),
                production: SymbolType::Group(vec![
                    SymbolType::Symbol(Symbol::Lexem { t: "NUMBER".into(), include_raw: false }),
                    SymbolType::Switch(
                        Box::new(SymbolType::Symbol(Symbol::Lexem {
                            t: "<".into(),
                            include_raw: false,
                        })),
                        Box::new(SymbolType::Symbol(Symbol::Lexem {
                            t: ">".into(),
                            include_raw: false,
                        })),
                    ),
                    SymbolType::Symbol(Symbol::Lexem { t: "NUMBER".into(), include_raw: false }),
                ]),
            },
        ],
        atoms: vec![
            Atom::Simple { name: "<".into() },
            Atom::Simple { name: ">".into() },
            num_atom(),
        ],
    };
    assert!(g.parse(&"12<9".into()).is_ok());
    assert!(g.parse(&"12>9".into()).is_ok());
    assert!(g.parse(&"12".into()).is_err());
}

#[test]
fn parse_mini_json() {
    let g = Grammar {
        options: ParseOptions::default(),
        rules: vec![
            Rule {
                name: "START".into(),
                production: SymbolType::Symbol(Symbol::AST("ITEM".into())),
            },
            Rule {
                name: "ITEM".into(),
                production: SymbolType::Symbol(Symbol::AST("OBJ".into())),
            },
            Rule {
                name: "ITEM".into(),
                production: SymbolType::Symbol(Symbol::AST("LIST".into())),
            },
            Rule {
                name: "ITEM".into(),
                production: SymbolType::Symbol(Symbol::Lexem {
                    t: "NUMBER".into(),
                    include_raw: false,
                }),
            },
            Rule {
                name: "OBJ".into(),
                production: SymbolType::Group(vec![
                    SymbolType::Symbol(Symbol::Lexem { t: "{".into(), include_raw: false }),
                    SymbolType::Optional(Box::new(SymbolType::Group(vec![
                        SymbolType::Symbol(Symbol::AST("KV".into())),
                        SymbolType::Repeated(Box::new(SymbolType::Group(vec![
                            SymbolType::Symbol(Symbol::Lexem {
                                t: ",".into(),
                                include_raw: false,
                            }),
                            SymbolType::Symbol(Symbol::AST("KV".into())),
                        ]))),
                    ]))),
                    SymbolType::Symbol(Symbol::Lexem { t: "}".into(), include_raw: false }),
                ]),
            },
            Rule {
                name: "KV".into(),
                production: SymbolType::Group(vec![
                    SymbolType::Symbol(Symbol::Lexem { t: "\"".into(), include_raw: false }),
                    SymbolType::Symbol(Symbol::Lexem { t: "STRING".into(), include_raw: false }),
                    SymbolType::Symbol(Symbol::Lexem { t: "\"".into(), include_raw: false }),
                    SymbolType::Symbol(Symbol::Lexem { t: ":".into(), include_raw: false }),
                    SymbolType::Symbol(Symbol::AST("ITEM".into())),
                ]),
            },
            Rule {
                name: "LIST".into(),
                production: SymbolType::Group(vec![
                    SymbolType::Symbol(Symbol::Lexem { t: "[".into(), include_raw: false }),
                    SymbolType::Optional(Box::new(SymbolType::Group(vec![
                        SymbolType::Symbol(Symbol::AST("ITEM".into())),
                        SymbolType::Repeated(Box::new(SymbolType::Group(vec![
                            SymbolType::Symbol(Symbol::Lexem {
                                t: ",".into(),
                                include_raw: false,
                            }),
                            SymbolType::Symbol(Symbol::AST("ITEM".into())),
                        ]))),
                    ]))),
                    SymbolType::Symbol(Symbol::Lexem { t: "]".into(), include_raw: false }),
                ]),
            },
        ],
        atoms: vec![
            Atom::Simple { name: "{".into() },
            Atom::Simple { name: "}".into() },
            Atom::Simple { name: "[".into() },
            Atom::Simple { name: "]".into() },
            Atom::Simple { name: ",".into() },
            Atom::Simple { name: ":".into() },
            Atom::Simple { name: "\"".into() },
            Atom::Matched {
                name: "STRING".into(),
                m: Pattern::compile(r"\p{Alphabetic}+").unwrap(),
            },
            num_atom(),
        ],
    };
    assert!(g.parse(&"{}".into()).is_ok());
    assert!(g.parse(&"[]".into()).is_ok());
    assert!(g.parse(&r#"{"field":12}"#.into()).is_ok());
    assert!(g.parse(&r#"{"fieldA":[1,2,3],"fieldB":{}}"#.into()).is_ok());
    assert!(g.parse(&"[{},12,[[]]]".into()).is_ok());
    assert!(g.parse(&"[".into()).is_err());
    assert!(g.parse(&"[{{}}]".into()).is_err());
    assert!(g.parse(&r#"{"field"}"#.into()).is_err());
}
