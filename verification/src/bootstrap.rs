//! The hand-built bootstrap grammar: its language is the grammar notation
//! itself. A document is a run of rule declarations `NAME -> production` and
//! atom declarations `>name -> 'pattern'`; a production supports bare
//! identifiers, parenthesized grouping, `*` and `?` on a group, and `|` for
//! ordered alternation.

use vstd::prelude::*;
use crate::model::{
    lemma_prods_view, prods_view, Atom, AtomV, Grammar, GrammarV, ParseOptions, ProdV, Rule,
    RuleV, Symbol, SymbolType, SymbolV,
};
use crate::pattern::{pattern_compiles, Pattern};

verus! {

// ---------------------------------------------------------------------------
// Spec: the bootstrap grammar as a value
// ---------------------------------------------------------------------------

/// A token reference whose raw text is dropped.
pub open spec fn vlex(t: Seq<char>) -> ProdV {
    ProdV::Symbol(SymbolV::Lexem { t, include_raw: false })
}

/// A token reference whose raw text is kept in the tree.
pub open spec fn vlexr(t: Seq<char>) -> ProdV {
    ProdV::Symbol(SymbolV::Lexem { t, include_raw: true })
}

/// A rule reference.
pub open spec fn vast(r: Seq<char>) -> ProdV {
    ProdV::Symbol(SymbolV::Ast(r))
}

/// A pattern atom, or a literal atom as the degenerate stand-in should the
/// pattern be refused by the pattern compiler (none of the bootstrap
/// patterns is).
pub open spec fn boot_atom(name: Seq<char>, pattern: Seq<char>) -> AtomV {
    if pattern_compiles(pattern) {
        AtomV::Matched { name, pattern }
    } else {
        AtomV::Simple { name }
    }
}

/// The bootstrap grammar, whole.
pub open spec fn bootstrap_grammar() -> GrammarV {
    GrammarV {
        rules: seq![
            RuleV { name: "START"@, production: vast("DOC"@) },
            RuleV {
                name: "DOC"@,
                production: ProdV::Group(
                    seq![
                        ProdV::Switch(Box::new(vast("EXP"@)), Box::new(vast("ATOM"@))),
                        ProdV::Repeated(
                            Box::new(
                                ProdV::Switch(Box::new(vast("EXP"@)), Box::new(vast("ATOM"@))),
                            ),
                        ),
                    ],
                ),
            },
            RuleV {
                name: "ATOM"@,
                production: ProdV::Group(
                    seq![
                        vlex(">"@),
                        vlexr("ALPHA"@),
                        vlex("->"@),
                        vlex("'"@),
                        ProdV::Switch(Box::new(vlexr("ALPHA"@)), Box::new(vlexr("LITERAL"@))),
                        vlex("'"@),
                    ],
                ),
            },
            RuleV {
                name: "EXP"@,
                production: ProdV::Group(
                    seq![vlexr("ALPHA"@), vlex("->"@), vast("PROD_GROUP"@)],
                ),
            },
            RuleV {
                name: "PROD"@,
                production: ProdV::Group(
                    seq![
                        vast("PROD_TERM"@),
                        ProdV::Repeated(
                            Box::new(
                                ProdV::Switch(
                                    Box::new(vast("PROD_TERM"@)),
                                    Box::new(vast("PROD_GROUP"@)),
                                ),
                            ),
                        ),
                    ],
                ),
            },
            RuleV {
                name: "PROD"@,
                production: ProdV::Group(
                    seq![
                        vast("PROD_GROUP"@),
                        ProdV::Repeated(
                            Box::new(ProdV::Group(seq![vlexr("|"@), vast("PROD_GROUP"@)])),
                        ),
                    ],
                ),
            },
            RuleV { name: "PROD_TERM"@, production: vlexr("ALPHA"@) },
            RuleV {
                name: "PROD_GROUP"@,
                production: ProdV::Group(
                    seq![
                        vlex("("@),
                        vast("PROD"@),
                        vlex(")"@),
                        ProdV::Optional(
                            Box::new(ProdV::Switch(Box::new(vlexr("*"@)), Box::new(vlexr("?"@)))),
                        ),
                    ],
                ),
            },
        ],
        atoms: seq![
            AtomV::Simple { name: "|"@ },
            AtomV::Simple { name: "("@ },
            AtomV::Simple { name: ")"@ },
            AtomV::Simple { name: "*"@ },
            AtomV::Simple { name: "?"@ },
            AtomV::Simple { name: "->"@ },
            AtomV::Simple { name: ">"@ },
            AtomV::Simple { name: "'"@ },
            boot_atom("NUMBER"@, "\\d+"@),
            boot_atom("ALPHA"@, "\\p{Alphabetic}+"@),
            boot_atom("LITERAL"@, "[^']+"@),
        ],
        options: ParseOptions {
            ignore_whitespace: true,
            ignore_newline: true,
            bubble_intermediate: false,
        },
    }
}

// ---------------------------------------------------------------------------
// Exec: building blocks
// ---------------------------------------------------------------------------

/// A token reference whose raw text is dropped.
fn lex(t: &str) -> (r: SymbolType)
    ensures
        r@ == vlex(t@),
{
    SymbolType::Symbol(Symbol::Lexem { t: t.to_owned(), include_raw: false })
}

/// A token reference whose raw text is kept.
fn lexr(t: &str) -> (r: SymbolType)
    ensures
        r@ == vlexr(t@),
{
    SymbolType::Symbol(Symbol::Lexem { t: t.to_owned(), include_raw: true })
}

/// A rule reference.
fn ast_ref(name: &str) -> (r: SymbolType)
    ensures
        r@ == vast(name@),
{
    SymbolType::Symbol(Symbol::AST(name.to_owned()))
}

fn optional(inner: SymbolType) -> (r: SymbolType)
    ensures
        r@ == ProdV::Optional(Box::new(inner@)),
{
    SymbolType::Optional(Box::new(inner))
}

fn repeated(inner: SymbolType) -> (r: SymbolType)
    ensures
        r@ == ProdV::Repeated(Box::new(inner@)),
{
    SymbolType::Repeated(Box::new(inner))
}

fn switch(a: SymbolType, b: SymbolType) -> (r: SymbolType)
    ensures
        r@ == ProdV::Switch(Box::new(a@), Box::new(b@)),
{
    SymbolType::Switch(Box::new(a), Box::new(b))
}

fn group2(a: SymbolType, b: SymbolType) -> (r: SymbolType)
    ensures
        r@ == ProdV::Group(seq![a@, b@]),
{
    let ghost av = a@;
    let ghost bv = b@;
    let mut v: Vec<SymbolType> = Vec::new();
    v.push(a);
    v.push(b);
    proof {
        lemma_prods_view(v@);
        assert(prods_view(v@) =~= seq![av, bv]);
    }
    SymbolType::Group(v)
}

fn group3(a: SymbolType, b: SymbolType, c: SymbolType) -> (r: SymbolType)
    ensures
        r@ == ProdV::Group(seq![a@, b@, c@]),
{
    let ghost av = a@;
    let ghost bv = b@;
    let ghost cv = c@;
    let mut v: Vec<SymbolType> = Vec::new();
    v.push(a);
    v.push(b);
    v.push(c);
    proof {
        lemma_prods_view(v@);
        assert(prods_view(v@) =~= seq![av, bv, cv]);
    }
    SymbolType::Group(v)
}

fn group4(a: SymbolType, b: SymbolType, c: SymbolType, d: SymbolType) -> (r: SymbolType)
    ensures
        r@ == ProdV::Group(seq![a@, b@, c@, d@]),
{
    let ghost av = a@;
    let ghost bv = b@;
    let ghost cv = c@;
    let ghost dv = d@;
    let mut v: Vec<SymbolType> = Vec::new();
    v.push(a);
    v.push(b);
    v.push(c);
    v.push(d);
    proof {
        lemma_prods_view(v@);
        assert(prods_view(v@) =~= seq![av, bv, cv, dv]);
    }
    SymbolType::Group(v)
}

fn group6(
    a: SymbolType,
    b: SymbolType,
    c: SymbolType,
    d: SymbolType,
    e: SymbolType,
    f: SymbolType,
) -> (r: SymbolType)
    ensures
        r@ == ProdV::Group(seq![a@, b@, c@, d@, e@, f@]),
{
    let ghost av = a@;
    let ghost bv = b@;
    let ghost cv = c@;
    let ghost dv = d@;
    let ghost ev = e@;
    let ghost fv = f@;
    let mut v: Vec<SymbolType> = Vec::new();
    v.push(a);
    v.push(b);
    v.push(c);
    v.push(d);
    v.push(e);
    v.push(f);
    proof {
        lemma_prods_view(v@);
        assert(prods_view(v@) =~= seq![av, bv, cv, dv, ev, fv]);
    }
    SymbolType::Group(v)
}

fn simple(name: &str) -> (r: Atom)
    ensures
        r@ == (AtomV::Simple { name: name@ }),
{
    Atom::Simple { name: name.to_owned() }
}

/// A pattern atom; should the pattern compiler refuse the pattern, a
/// literal atom of the same name stands in, so the construction is total.
fn boot_matched(name: &str, pattern: &str) -> (r: Atom)
    ensures
        r@ == boot_atom(name@, pattern@),
{
    match Pattern::compile(pattern) {
        Some(m) => Atom::Matched { name: name.to_owned(), m },
        None => Atom::Simple { name: name.to_owned() },
    }
}

fn rule(name: &str, production: SymbolType) -> (r: Rule)
    ensures
        r@ == (RuleV { name: name@, production: production@ }),
{
    Rule { name: name.to_owned(), production }
}

// ---------------------------------------------------------------------------
// Exec: the grammar
// ---------------------------------------------------------------------------

/// The bootstrap grammar, hand-built once; parsing a grammar-specification
/// text with it yields the tree that the lowering pass turns into an
/// ordinary grammar.
pub fn get_parsing_grammar() -> (r: Grammar)
    ensures
        r@ == bootstrap_grammar(),
{
    let mut rules: Vec<Rule> = Vec::new();
    rules.push(rule("START", ast_ref("DOC")));
    rules.push(
        rule(
            "DOC",
            group2(
                switch(ast_ref("EXP"), ast_ref("ATOM")),
                repeated(switch(ast_ref("EXP"), ast_ref("ATOM"))),
            ),
        ),
    );
    rules.push(
        rule(
            "ATOM",
            group6(
                lex(">"),
                lexr("ALPHA"),
                lex("->"),
                lex("'"),
                switch(lexr("ALPHA"), lexr("LITERAL")),
                lex("'"),
            ),
        ),
    );
    rules.push(rule("EXP", group3(lexr("ALPHA"), lex("->"), ast_ref("PROD_GROUP"))));
    rules.push(
        rule(
            "PROD",
            group2(
                ast_ref("PROD_TERM"),
                repeated(switch(ast_ref("PROD_TERM"), ast_ref("PROD_GROUP"))),
            ),
        ),
    );
    rules.push(
        rule(
            "PROD",
            group2(ast_ref("PROD_GROUP"), repeated(group2(lexr("|"), ast_ref("PROD_GROUP")))),
        ),
    );
    rules.push(rule("PROD_TERM", lexr("ALPHA")));
    rules.push(
        rule(
            "PROD_GROUP",
            group4(
                lex("("),
                ast_ref("PROD"),
                lex(")"),
                optional(switch(lexr("*"), lexr("?"))),
            ),
        ),
    );
    let mut atoms: Vec<Atom> = Vec::new();
    atoms.push(simple("|"));
    atoms.push(simple("("));
    atoms.push(simple(")"));
    atoms.push(simple("*"));
    atoms.push(simple("?"));
    atoms.push(simple("->"));
    atoms.push(simple(">"));
    atoms.push(simple("'"));
    atoms.push(boot_matched("NUMBER", "\\d+"));
    atoms.push(boot_matched("ALPHA", "\\p{Alphabetic}+"));
    atoms.push(boot_matched("LITERAL", "[^']+"));
    let g = Grammar {
        rules,
        atoms,
        options: ParseOptions {
            ignore_whitespace: true,
            ignore_newline: true,
            bubble_intermediate: false,
        },
    };
    proof {
        assert(g@.rules =~= bootstrap_grammar().rules);
        assert(g@.atoms =~= bootstrap_grammar().atoms);
        assert(g@ =~= bootstrap_grammar());
    }
    g
}

} // verus!
