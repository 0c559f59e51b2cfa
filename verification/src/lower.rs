//! The lowering pass: a syntax tree produced by parsing a grammar
//! specification with the bootstrap grammar is walked depth-first and turned
//! into an ordinary grammar — each declaration node into a rule or an atom,
//! each production sub-tree into a production expression. In a production,
//! the case of an identifier decides the reference kind: an all-uppercase
//! identifier is a rule reference, any other a token reference whose raw
//! text is kept.

use vstd::prelude::*;
use crate::ast::{ast_view, asts_view, lemma_asts_view, AstV, AST};
use crate::bootstrap::{bootstrap_grammar, get_parsing_grammar};
use crate::engine::{spec_parse, ErrV, ParseError};
use crate::model::{
    lemma_prods_view, prods_view, Atom, AtomV, Grammar, GrammarV, ParseOptions, ProdV, Rule,
    RuleV, Symbol, SymbolType,
};
use crate::pattern::{pattern_compiles, Pattern};

verus! {

// ---------------------------------------------------------------------------
// Errors
// ---------------------------------------------------------------------------

/// Why a lowering failed.
#[derive(PartialEq, Eq, Structural, Debug)]
pub enum LowerError {
    /// The tree has not the shape the bootstrap grammar produces.
    UnexpectedShape,
    /// An atom declaration's pattern is refused by the pattern compiler.
    BadPattern,
}

/// Why building a grammar from specification text failed: either the text
/// did not parse under the bootstrap grammar, or its tree did not lower.
#[derive(Debug)]
pub enum BuildError {
    Parse(ParseError),
    Lower(LowerError),
}

/// The view of a `BuildError`.
#[verifier::ext_equal]
pub enum BuildErrV {
    Parse(ErrV),
    Lower(LowerError),
}

impl View for BuildError {
    type V = BuildErrV;

    open spec fn view(&self) -> BuildErrV {
        match self {
            BuildError::Parse(e) => BuildErrV::Parse(e@),
            BuildError::Lower(e) => BuildErrV::Lower(*e),
        }
    }
}

// ---------------------------------------------------------------------------
// Spec
// ---------------------------------------------------------------------------

/// Whether an identifier holds no lowercase ASCII letter; such an
/// identifier reads as a rule reference.
pub open spec fn upper_name(s: Seq<char>) -> bool {
    forall|i: int| 0 <= i < s.len() ==> !('a' <= #[trigger] s[i] && s[i] <= 'z')
}

/// Lowering one production sub-tree.
pub open spec fn spec_lower_prod(a: AstV) -> Result<ProdV, LowerError>
    decreases a, 0int,
{
    match a {
        AstV::Node { t, children } => {
            if t == "PROD"@ {
                if children.len() == 0 {
                    Err(LowerError::UnexpectedShape)
                } else {
                    match spec_lower_prod(children[0]) {
                        Err(e) => Err(e),
                        Ok(p0) => match spec_lower_items(children, 1, seq![p0]) {
                            Err(e) => Err(e),
                            Ok(list) => Ok(ProdV::Group(list)),
                        },
                    }
                }
            } else if t == "PROD_TERM"@ {
                if children.len() == 0 {
                    Err(LowerError::UnexpectedShape)
                } else {
                    spec_lower_prod(children[0])
                }
            } else if t == "PROD_GROUP"@ {
                if children.len() == 0 {
                    Err(LowerError::UnexpectedShape)
                } else {
                    match spec_lower_prod(children[0]) {
                        Err(e) => Err(e),
                        Ok(inner) => if children.len() > 1 {
                            if children[1].t() == "*"@ {
                                Ok(ProdV::Repeated(Box::new(inner)))
                            } else if children[1].t() == "?"@ {
                                Ok(ProdV::Optional(Box::new(inner)))
                            } else {
                                Ok(inner)
                            }
                        } else {
                            Ok(inner)
                        },
                    }
                }
            } else {
                Err(LowerError::UnexpectedShape)
            }
        },
        AstV::Leaf { t, raw } => {
            if t == "ALPHA"@ {
                if upper_name(raw) {
                    Ok(ProdV::Symbol(crate::model::SymbolV::Ast(raw)))
                } else {
                    Ok(
                        ProdV::Symbol(
                            crate::model::SymbolV::Lexem { t: raw, include_raw: true },
                        ),
                    )
                }
            } else {
                Err(LowerError::UnexpectedShape)
            }
        },
    }
}

/// Lowering the members of a production node from index `i` on, with the
/// members lowered so far: a `|` member folds everything before it and the
/// member after it into one ordered choice.
pub open spec fn spec_lower_items(items: Seq<AstV>, i: int, acc: Seq<ProdV>) -> Result<
    Seq<ProdV>,
    LowerError,
>
    decreases items, items.len() - i,
{
    if i < 0 || i >= items.len() {
        Ok(acc)
    } else {
        if items[i].t() == "|"@ {
            if acc.len() != 1 {
                Err(LowerError::UnexpectedShape)
            } else if i + 1 >= items.len() {
                Err(LowerError::UnexpectedShape)
            } else {
                match spec_lower_prod(items[i + 1]) {
                    Err(e) => Err(e),
                    Ok(rhs) => spec_lower_items(
                        items,
                        i + 2,
                        seq![ProdV::Switch(Box::new(acc[0]), Box::new(rhs))],
                    ),
                }
            }
        } else {
            match spec_lower_prod(items[i]) {
                Err(e) => Err(e),
                Ok(p) => spec_lower_items(items, i + 1, acc.push(p)),
            }
        }
    }
}

/// Lowering the declarations of a document from index `i` on: a rule
/// declaration appends a rule, an atom declaration appends a pattern atom.
pub open spec fn spec_lower_doc(
    items: Seq<AstV>,
    i: int,
    rules: Seq<RuleV>,
    atoms: Seq<AtomV>,
) -> Result<(Seq<RuleV>, Seq<AtomV>), LowerError>
    decreases items, items.len() - i,
{
    if i < 0 || i >= items.len() {
        Ok((rules, atoms))
    } else {
        match items[i] {
            AstV::Leaf { .. } => Err(LowerError::UnexpectedShape),
            AstV::Node { t, children } => {
                if t == "EXP"@ {
                    if children.len() < 2 {
                        Err(LowerError::UnexpectedShape)
                    } else {
                        match children[0] {
                            AstV::Node { .. } => Err(LowerError::UnexpectedShape),
                            AstV::Leaf { raw: name, .. } => match spec_lower_prod(children[1]) {
                                Err(e) => Err(e),
                                Ok(p) => spec_lower_doc(
                                    items,
                                    i + 1,
                                    rules.push(RuleV { name, production: p }),
                                    atoms,
                                ),
                            },
                        }
                    }
                } else if t == "ATOM"@ {
                    if children.len() < 2 {
                        Err(LowerError::UnexpectedShape)
                    } else {
                        match (children[0], children[1]) {
                            (
                                AstV::Leaf { raw: name, .. },
                                AstV::Leaf { raw: literal, .. },
                            ) => {
                                if pattern_compiles(literal) {
                                    spec_lower_doc(
                                        items,
                                        i + 1,
                                        rules,
                                        atoms.push(AtomV::Matched { name, pattern: literal }),
                                    )
                                } else {
                                    Err(LowerError::BadPattern)
                                }
                            },
                            _ => Err(LowerError::UnexpectedShape),
                        }
                    }
                } else {
                    Err(LowerError::UnexpectedShape)
                }
            },
        }
    }
}

/// Lowering a whole tree: it must be a `START` node over one `DOC` node
/// holding at least one declaration; the result is a grammar with default
/// options.
pub open spec fn spec_lower(a: AstV) -> Result<GrammarV, LowerError> {
    match a {
        AstV::Leaf { .. } => Err(LowerError::UnexpectedShape),
        AstV::Node { t, children } => {
            if t != "START"@ || children.len() != 1 {
                Err(LowerError::UnexpectedShape)
            } else {
                match children[0] {
                    AstV::Leaf { .. } => Err(LowerError::UnexpectedShape),
                    AstV::Node { t: dt, children: items } => {
                        if dt != "DOC"@ || items.len() == 0 {
                            Err(LowerError::UnexpectedShape)
                        } else {
                            match spec_lower_doc(items, 0, Seq::empty(), Seq::empty()) {
                                Err(e) => Err(e),
                                Ok((rules, atoms)) => Ok(
                                    GrammarV {
                                        rules,
                                        atoms,
                                        options: ParseOptions {
                                            ignore_whitespace: false,
                                            ignore_newline: false,
                                            bubble_intermediate: false,
                                        },
                                    },
                                ),
                            }
                        }
                    },
                }
            }
        },
    }
}

/// Building a grammar from specification text: parse the text with the
/// bootstrap grammar, then lower the tree.
pub open spec fn spec_build(input: Seq<char>) -> Result<GrammarV, BuildErrV> {
    match spec_parse(bootstrap_grammar(), input) {
        Err(e) => Err(BuildErrV::Parse(e)),
        Ok(ast) => match spec_lower(ast) {
            Err(e) => Err(BuildErrV::Lower(e)),
            Ok(g) => Ok(g),
        },
    }
}

// ---------------------------------------------------------------------------
// Exec
// ---------------------------------------------------------------------------

/// Whether two strings hold the same characters.
fn str_eq(a: &str, b: &str) -> (r: bool)
    ensures
        r == (a@ == b@),
{
    let al = a.unicode_len();
    let bl = b.unicode_len();
    if al != bl {
        return false;
    }
    let mut j: usize = 0;
    while j < al
        invariant
            0 <= j <= al,
            al == a@.len(),
            bl == b@.len(),
            al == bl,
            forall|k: int| 0 <= k < j ==> a@[k] == b@[k],
        decreases al - j,
    {
        if a.get_char(j) != b.get_char(j) {
            return false;
        }
        j += 1;
    }
    proof {
        assert(a@ =~= b@);
    }
    true
}

/// Whether an identifier holds no lowercase ASCII letter.
fn is_upper_name(s: &str) -> (r: bool)
    ensures
        r == upper_name(s@),
{
    let n = s.unicode_len();
    let mut j: usize = 0;
    while j < n
        invariant
            0 <= j <= n,
            n == s@.len(),
            forall|k: int| 0 <= k < j ==> !('a' <= #[trigger] s@[k] && s@[k] <= 'z'),
        decreases n - j,
    {
        let c = s.get_char(j);
        if 'a' <= c && c <= 'z' {
            return false;
        }
        j += 1;
    }
    true
}

/// Lowers one production sub-tree of a specification tree.
fn parse_production(ast: &AST) -> (r: Result<SymbolType, LowerError>)
    ensures
        r matches Ok(p) ==> spec_lower_prod(ast@) == Ok::<ProdV, LowerError>(p@),
        r matches Err(e) ==> spec_lower_prod(ast@) == Err::<ProdV, LowerError>(e),
    decreases *ast, 0int,
{
    match ast {
        AST::Node { t, children } => {
            let ghost cv = asts_view(children@);
            proof {
                lemma_asts_view(children@);
                assert(decreases_to!(*ast => children@));
            }
            if str_eq(t.as_str(), "PROD") {
                if children.len() == 0 {
                    return Err(LowerError::UnexpectedShape);
                }
                proof {
                    assert(decreases_to!(children@ => children@[0]));
                }
                let p0 = match parse_production(&children[0]) {
                    Ok(p) => p,
                    Err(e) => {
                        return Err(e);
                    },
                };
                let ghost acc0 = seq![p0@];
                let mut acc: Vec<SymbolType> = Vec::new();
                acc.push(p0);
                let n = children.len();
                let mut i: usize = 1;
                proof {
                    lemma_prods_view(acc@);
                    assert(prods_view(acc@) =~= acc0);
                }
                while i < n
                    invariant
                        1 <= i <= n + 1,
                        n == children.len(),
                        cv == asts_view(children@),
                        cv.len() == n,
                        forall|k: int| 0 <= k < n ==> cv[k] == ast_view(#[trigger] children@[k]),
                        decreases_to!(*ast => children@),
                        spec_lower_prod(ast@) == (match spec_lower_items(cv, 1, acc0) {
                            Ok(list) => Ok::<ProdV, LowerError>(ProdV::Group(list)),
                            Err(e) => Err::<ProdV, LowerError>(e),
                        }),
                        spec_lower_items(cv, 1, acc0) == spec_lower_items(
                            cv,
                            i as int,
                            prods_view(acc@),
                        ),
                    decreases n - i,
                {
                    proof {
                        assert(decreases_to!(children@ => children@[i as int]));
                        lemma_prods_view(acc@);
                    }
                    let is_bar = str_eq(children[i].get_t().as_str(), "|");
                    if is_bar {
                        if acc.len() != 1 {
                            return Err(LowerError::UnexpectedShape);
                        }
                        if i + 1 >= n {
                            return Err(LowerError::UnexpectedShape);
                        }
                        proof {
                            assert(decreases_to!(children@ => children@[i as int + 1]));
                        }
                        let rhs = match parse_production(&children[i + 1]) {
                            Ok(p) => p,
                            Err(e) => {
                                return Err(e);
                            },
                        };
                        let ghost accb = acc@;
                        let mut acc2 = acc;
                        let lhs = acc2.pop().unwrap();
                        proof {
                            assert(lhs == accb[0]);
                            assert(prods_view(accb)[0] == lhs@);
                        }
                        let sw = SymbolType::Switch(Box::new(lhs), Box::new(rhs));
                        let ghost swv = sw@;
                        let mut fresh: Vec<SymbolType> = Vec::new();
                        fresh.push(sw);
                        acc = fresh;
                        proof {
                            lemma_prods_view(acc@);
                            assert(prods_view(acc@) =~= seq![swv]);
                        }
                        i += 2;
                    } else {
                        let p = match parse_production(&children[i]) {
                            Ok(p) => p,
                            Err(e) => {
                                return Err(e);
                            },
                        };
                        let ghost accb = acc@;
                        let ghost pvp = p@;
                        acc.push(p);
                        proof {
                            lemma_prods_view(accb);
                            lemma_prods_view(acc@);
                            assert(prods_view(acc@) =~= prods_view(accb).push(pvp));
                        }
                        i += 1;
                    }
                }
                Ok(SymbolType::Group(acc))
            } else if str_eq(t.as_str(), "PROD_TERM") {
                if children.len() == 0 {
                    return Err(LowerError::UnexpectedShape);
                }
                proof {
                    assert(decreases_to!(children@ => children@[0]));
                }
                parse_production(&children[0])
            } else if str_eq(t.as_str(), "PROD_GROUP") {
                if children.len() == 0 {
                    return Err(LowerError::UnexpectedShape);
                }
                proof {
                    assert(decreases_to!(children@ => children@[0]));
                }
                let inner = match parse_production(&children[0]) {
                    Ok(p) => p,
                    Err(e) => {
                        return Err(e);
                    },
                };
                if children.len() > 1 {
                    let modifier_star = str_eq(children[1].get_t().as_str(), "*");
                    let modifier_opt = str_eq(children[1].get_t().as_str(), "?");
                    if modifier_star {
                        Ok(SymbolType::Repeated(Box::new(inner)))
                    } else if modifier_opt {
                        Ok(SymbolType::Optional(Box::new(inner)))
                    } else {
                        Ok(inner)
                    }
                } else {
                    Ok(inner)
                }
            } else {
                Err(LowerError::UnexpectedShape)
            }
        },
        AST::Leaf { t, raw } => {
            if str_eq(t.as_str(), "ALPHA") {
                if is_upper_name(raw.as_str()) {
                    Ok(SymbolType::Symbol(Symbol::AST(raw.clone())))
                } else {
                    Ok(
                        SymbolType::Symbol(
                            Symbol::Lexem { t: raw.clone(), include_raw: true },
                        ),
                    )
                }
            } else {
                Err(LowerError::UnexpectedShape)
            }
        },
    }
}

/// Turns a specification tree — the result of parsing a grammar
/// specification text with the bootstrap grammar — into an ordinary
/// grammar with default options.
pub fn parse_ast_grammar(ast: AST) -> (r: Result<Grammar, LowerError>)
    ensures
        r matches Ok(g) ==> spec_lower(ast@) == Ok::<GrammarV, LowerError>(g@),
        r matches Err(e) ==> spec_lower(ast@) == Err::<GrammarV, LowerError>(e),
{
    let doc = match ast {
        AST::Leaf { .. } => {
            return Err(LowerError::UnexpectedShape);
        },
        AST::Node { t, mut children } => {
            proof {
                lemma_asts_view(children@);
            }
            if !str_eq(t.as_str(), "START") || children.len() != 1 {
                return Err(LowerError::UnexpectedShape);
            }
            let ghost ch0 = children@;
            let d = children.pop().unwrap();
            proof {
                assert(d == ch0[0]);
                assert(asts_view(ch0)[0] == ast_view(d));
            }
            d
        },
    };
    match doc {
        AST::Leaf { .. } => Err(LowerError::UnexpectedShape),
        AST::Node { t: dt, children: items } => {
            let ghost iv = asts_view(items@);
            proof {
                lemma_asts_view(items@);
            }
            if !str_eq(dt.as_str(), "DOC") || items.len() == 0 {
                return Err(LowerError::UnexpectedShape);
            }
            let mut rules: Vec<Rule> = Vec::new();
            let mut atoms: Vec<Atom> = Vec::new();
            let n = items.len();
            let mut i: usize = 0;
            proof {
                assert(crate::model::rules_view(rules@) =~= Seq::<RuleV>::empty());
                assert(crate::model::atoms_view(atoms@) =~= Seq::<AtomV>::empty());
            }
            while i < n
                invariant
                    0 <= i <= n,
                    n == items.len(),
                    iv == asts_view(items@),
                    iv.len() == n,
                    forall|k: int| 0 <= k < n ==> iv[k] == ast_view(#[trigger] items@[k]),
                    spec_lower(ast@) == (match spec_lower_doc(iv, 0, Seq::empty(), Seq::empty()) {
                        Ok((rv, av)) => Ok::<GrammarV, LowerError>(GrammarV {
                            rules: rv,
                            atoms: av,
                            options: ParseOptions {
                                ignore_whitespace: false,
                                ignore_newline: false,
                                bubble_intermediate: false,
                            },
                        }),
                        Err(e) => Err::<GrammarV, LowerError>(e),
                    }),
                    spec_lower_doc(iv, 0, Seq::empty(), Seq::empty()) == spec_lower_doc(
                        iv,
                        i as int,
                        crate::model::rules_view(rules@),
                        crate::model::atoms_view(atoms@),
                    ),
                decreases n - i,
            {
                match &items[i] {
                    AST::Leaf { .. } => {
                        return Err(LowerError::UnexpectedShape);
                    },
                    AST::Node { t, children } => {
                        let ghost chv = asts_view(children@);
                        proof {
                            lemma_asts_view(children@);
                        }
                        if str_eq(t.as_str(), "EXP") {
                            if children.len() < 2 {
                                return Err(LowerError::UnexpectedShape);
                            }
                            let name = match &children[0] {
                                AST::Node { .. } => {
                                    return Err(LowerError::UnexpectedShape);
                                },
                                AST::Leaf { raw, .. } => raw.clone(),
                            };
                            let production = match parse_production(&children[1]) {
                                Ok(p) => p,
                                Err(e) => {
                                    return Err(e);
                                },
                            };
                            let ghost rv0 = crate::model::rules_view(rules@);
                            let ghost nr = RuleV { name: name@, production: production@ };
                            rules.push(Rule { name, production });
                            proof {
                                assert(crate::model::rules_view(rules@) =~= rv0.push(nr));
                            }
                        } else if str_eq(t.as_str(), "ATOM") {
                            if children.len() < 2 {
                                return Err(LowerError::UnexpectedShape);
                            }
                            let name = match &children[0] {
                                AST::Node { .. } => {
                                    return Err(LowerError::UnexpectedShape);
                                },
                                AST::Leaf { raw, .. } => raw.clone(),
                            };
                            let literal = match &children[1] {
                                AST::Node { .. } => {
                                    return Err(LowerError::UnexpectedShape);
                                },
                                AST::Leaf { raw, .. } => raw.clone(),
                            };
                            let m = match Pattern::compile(literal.as_str()) {
                                Some(m) => m,
                                None => {
                                    return Err(LowerError::BadPattern);
                                },
                            };
                            let ghost av0 = crate::model::atoms_view(atoms@);
                            let ghost na = AtomV::Matched { name: name@, pattern: literal@ };
                            atoms.push(Atom::Matched { name, m });
                            proof {
                                assert(crate::model::atoms_view(atoms@) =~= av0.push(na));
                            }
                        } else {
                            return Err(LowerError::UnexpectedShape);
                        }
                    },
                }
                i += 1;
            }
            Ok(
                Grammar {
                    rules,
                    atoms,
                    options: ParseOptions {
                        ignore_whitespace: false,
                        ignore_newline: false,
                        bubble_intermediate: false,
                    },
                },
            )
        },
    }
}

/// Builds a grammar from specification text: the bootstrap grammar parses
/// the text, and the resulting tree is lowered.
pub fn build_grammar(text: &String) -> (r: Result<Grammar, BuildError>)
    ensures
        r matches Ok(g) ==> spec_build(text@) == Ok::<GrammarV, BuildErrV>(g@),
        r matches Err(e) ==> spec_build(text@) == Err::<GrammarV, BuildErrV>(e@),
{
    let boot = get_parsing_grammar();
    match boot.parse(text) {
        Err(e) => Err(BuildError::Parse(e)),
        Ok(ast) => match parse_ast_grammar(ast) {
            Err(e) => Err(BuildError::Lower(e)),
            Ok(g) => Ok(g),
        },
    }
}

} // verus!
