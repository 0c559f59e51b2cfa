//! The predictive recursive-descent engine. Every executable function is
//! specified against a spec-level interpreter: `spec_parse` is a function of
//! the grammar view and the input characters alone, so one grammar and one
//! input always yield one result.
//!
//! Termination: entering a rule spends one unit of a budget that starts at
//! the number of rules and is renewed whenever a token has been consumed, so
//! the budget runs out only on a cycle of rule references that consumes
//! nothing, where no parse could ever finish. Likewise a repetition whose
//! body consumed nothing stops: the next pass would repeat it exactly.

use vstd::prelude::*;
use crate::ast::{ast_view, asts_view, lemma_asts_view, lemma_asts_view_add, AstV, AST};
use crate::first::spec_matches;
use crate::lexer::{
    initial_stream, lemma_peek, lemma_shift, smeasure, spec_peek, spec_shift, Lexem, LexemIter,
    StreamV,
};
use crate::model::{
    lemma_prod_height_pos, lemma_prods_height_elem, lemma_prods_view, prod_height, prod_view, prods_height, prods_view,
    Grammar, GrammarV, ProdV, Symbol, SymbolType, SymbolV,
};

verus! {

// ---------------------------------------------------------------------------
// Errors
// ---------------------------------------------------------------------------

/// Why a parse failed. Positions are character offsets into the input.
#[derive(Debug)]
pub enum ParseError {
    /// No atom matched at a position where input remains.
    UnrecognizedInput { pos: usize },
    /// A token reference in a production did not match the lookahead token.
    UnexpectedToken { pos: usize },
    /// No alternative of a rule can begin with the lookahead token, or the
    /// stream was exhausted where a rule or a choice needed a token.
    NoAlternativeMatches { pos: usize },
    /// The start rule matched, but tokens remain.
    TrailingInput { pos: usize },
    /// A referenced rule name has no declared alternative at all: a defect
    /// of the grammar itself, not of the input.
    MalformedGrammar { rule: String },
    /// The rule-entry budget ran out: rule references cycled without
    /// consuming a token, so no parse could ever finish.
    DepthExceeded,
}

/// The view of a `ParseError`.
#[verifier::ext_equal]
pub enum ErrV {
    Unrecognized { pos: int },
    Unexpected { pos: int },
    NoAlternative { pos: int },
    Trailing { pos: int },
    Malformed { rule: Seq<char> },
    Depth,
}

impl View for ParseError {
    type V = ErrV;

    open spec fn view(&self) -> ErrV {
        match self {
            ParseError::UnrecognizedInput { pos } => ErrV::Unrecognized { pos: *pos as int },
            ParseError::UnexpectedToken { pos } => ErrV::Unexpected { pos: *pos as int },
            ParseError::NoAlternativeMatches { pos } => ErrV::NoAlternative { pos: *pos as int },
            ParseError::TrailingInput { pos } => ErrV::Trailing { pos: *pos as int },
            ParseError::MalformedGrammar { rule } => ErrV::Malformed { rule: rule@ },
            ParseError::DepthExceeded => ErrV::Depth,
        }
    }
}

/// The view of an optional tree.
pub open spec fn opt_ast_view(o: Option<AST>) -> Option<AstV> {
    match o {
        Some(a) => Some(ast_view(a)),
        None => None,
    }
}

// ---------------------------------------------------------------------------
// Spec: helpers
// ---------------------------------------------------------------------------

/// The rule-entry budget: one unit per rule of the grammar.
pub open spec fn fuel0(g: GrammarV) -> nat {
    g.rules.len()
}

/// A formal guard for the termination measure: the state with the smaller
/// measure. Every stream operation and every walk leaves the measure no
/// larger, so wherever this appears the first state is the result; the
/// executable code proves as much at each use.
pub open spec fn cap(input: Seq<char>, s2: StreamV, s1: StreamV) -> StreamV {
    if smeasure(input, s2) <= smeasure(input, s1) {
        s2
    } else {
        s1
    }
}

/// Whether any rule at or after index `i` is named `name`.
pub open spec fn spec_has_rule(g: GrammarV, name: Seq<char>, i: int) -> bool
    decreases g.rules.len() - i,
{
    if 0 <= i < g.rules.len() {
        g.rules[i].name == name || spec_has_rule(g, name, i + 1)
    } else {
        false
    }
}

/// The first rule at or after index `i` that is named `name` and whose
/// production can begin with the token type `t`.
pub open spec fn spec_select(g: GrammarV, name: Seq<char>, t: Seq<char>, i: int) -> Option<int>
    decreases g.rules.len() - i,
{
    if 0 <= i < g.rules.len() {
        if g.rules[i].name == name && spec_matches(g, g.rules[i].production, t) {
            Some(i)
        } else {
            spec_select(g, name, t, i + 1)
        }
    } else {
        None
    }
}

/// The node a rule invocation emits: with collapsing enabled, a node with
/// exactly one child is replaced by that child.
pub open spec fn collapse(g: GrammarV, name: Seq<char>, children: Seq<AstV>) -> AstV {
    if g.options.bubble_intermediate && children.len() == 1 {
        children[0]
    } else {
        AstV::Node { t: name, children }
    }
}

// ---------------------------------------------------------------------------
// Spec: the interpreter
// ---------------------------------------------------------------------------

/// One rule invocation: peek one token; fail if none is there; among the
/// alternatives of `name`, pick the first whose FIRST set holds the
/// lookahead's type; walk its production; emit one node.
pub open spec fn spec_parse_rule(
    g: GrammarV,
    input: Seq<char>,
    name: Seq<char>,
    st: StreamV,
    fuel: nat,
) -> Result<(AstV, StreamV), ErrV>
    decreases smeasure(input, st), fuel, 0nat,
{
    let (st1r, pk) = spec_peek(g, input, st);
    let st1 = cap(input, st1r, st);
    match pk {
        None => Err(
            if st1r.failed {
                ErrV::Unrecognized { pos: st1r.cursor }
            } else {
                ErrV::NoAlternative { pos: st1r.cursor }
            },
        ),
        Some(tok) => if !spec_has_rule(g, name, 0) {
            Err(ErrV::Malformed { rule: name })
        } else {
            match spec_select(g, name, tok.t, 0) {
                None => Err(ErrV::NoAlternative { pos: tok.pos }),
                Some(idx) => if fuel == 0 {
                    Err(ErrV::Depth)
                } else {
                    match spec_parse_prod(
                        g,
                        input,
                        g.rules[idx].production,
                        st1,
                        (fuel - 1) as nat,
                    ) {
                        Err(e) => Err(e),
                        Ok((children, st2)) => Ok((collapse(g, name, children), st2)),
                    }
                },
            }
        },
    }
}

/// One symbol: a token reference consumes the lookahead when the types
/// agree, emitting a leaf when the raw text is to be kept; a rule reference
/// invokes that rule and emits its node.
pub open spec fn spec_parse_symbol(
    g: GrammarV,
    input: Seq<char>,
    s: SymbolV,
    st: StreamV,
    fuel: nat,
) -> Result<(Option<AstV>, StreamV), ErrV>
    decreases smeasure(input, st), fuel, 2nat,
{
    match s {
        SymbolV::Lexem { t, include_raw } => {
            let (st1, pk) = spec_peek(g, input, st);
            match pk {
                Some(tok) => if tok.t == t {
                    let (st2, _) = spec_shift(g, input, st1);
                    Ok(
                        (
                            if include_raw {
                                Some(AstV::Leaf { t: tok.t, raw: tok.raw })
                            } else {
                                None
                            },
                            st2,
                        ),
                    )
                } else {
                    Err(ErrV::Unexpected { pos: tok.pos })
                },
                None => Err(
                    if st1.failed {
                        ErrV::Unrecognized { pos: st1.cursor }
                    } else {
                        ErrV::Unexpected { pos: st1.cursor }
                    },
                ),
            }
        },
        SymbolV::Ast(r) => match spec_parse_rule(g, input, r, st, fuel) {
            Ok((node, st2)) => Ok((Some(node), st2)),
            Err(e) => Err(e),
        },
    }
}

/// Walking a production: the children it emits and the stream state it
/// leaves behind.
pub open spec fn spec_parse_prod(
    g: GrammarV,
    input: Seq<char>,
    p: ProdV,
    st: StreamV,
    fuel: nat,
) -> Result<(Seq<AstV>, StreamV), ErrV>
    decreases smeasure(input, st), fuel, 3 * prod_height(p),
{
    match p {
        ProdV::Symbol(s) => match spec_parse_symbol(g, input, s, st, fuel) {
            Ok((Some(a), st2)) => Ok((seq![a], st2)),
            Ok((None, st2)) => Ok((Seq::empty(), st2)),
            Err(e) => Err(e),
        },
        ProdV::Group(members) => spec_parse_group(g, input, members, st, fuel),
        ProdV::Optional(o) => {
            let (st1r, pk) = spec_peek(g, input, st);
            let st1 = cap(input, st1r, st);
            match pk {
                Some(tok) => if spec_matches(g, *o, tok.t) {
                    spec_parse_prod(g, input, *o, st1, fuel)
                } else {
                    Ok((Seq::empty(), st1r))
                },
                None => Ok((Seq::empty(), st1r)),
            }
        },
        ProdV::Repeated(m) => spec_parse_rep(g, input, *m, st, fuel),
        ProdV::Switch(a, b) => {
            let (st1r, pk) = spec_peek(g, input, st);
            let st1 = cap(input, st1r, st);
            match pk {
                Some(tok) => if spec_matches(g, *a, tok.t) {
                    spec_parse_prod(g, input, *a, st1, fuel)
                } else {
                    spec_parse_prod(g, input, *b, st1, fuel)
                },
                None => Err(
                    if st1r.failed {
                        ErrV::Unrecognized { pos: st1r.cursor }
                    } else {
                        ErrV::NoAlternative { pos: st1r.cursor }
                    },
                ),
            }
        },
    }
}

/// Walking the members of a group in order, concatenating their children; a
/// failure of any member is the failure of the group.
pub open spec fn spec_parse_group(
    g: GrammarV,
    input: Seq<char>,
    members: Seq<ProdV>,
    st: StreamV,
    fuel: nat,
) -> Result<(Seq<AstV>, StreamV), ErrV>
    decreases smeasure(input, st), fuel, 3 * prods_height(members) + 1,
    via spec_parse_group_decreases
{
    if members.len() == 0 {
        Ok((Seq::empty(), st))
    } else {
        match spec_parse_prod(g, input, members[0], st, fuel) {
            Err(e) => Err(e),
            Ok((c0, st1r)) => {
                let st1 = cap(input, st1r, st);
                let f1 = if smeasure(input, st1) < smeasure(input, st) {
                    fuel0(g)
                } else {
                    fuel
                };
                match spec_parse_group(g, input, members.skip(1), st1, f1) {
                    Err(e) => Err(e),
                    Ok((c1, st2)) => Ok((c0 + c1, st2)),
                }
            },
        }
    }
}

#[via_fn]
proof fn spec_parse_group_decreases(
    g: GrammarV,
    input: Seq<char>,
    members: Seq<ProdV>,
    st: StreamV,
    fuel: nat,
) {
    if members.len() > 0 {
        lemma_prod_height_pos(members[0]);
    }
}

/// Zero-or-more repetition: while a lookahead token exists and the inner
/// production's FIRST set holds its type, walk the inner production once and
/// append its children. A pass that consumed nothing ends the repetition:
/// the next pass would repeat it exactly.
pub open spec fn spec_parse_rep(
    g: GrammarV,
    input: Seq<char>,
    inner: ProdV,
    st: StreamV,
    fuel: nat,
) -> Result<(Seq<AstV>, StreamV), ErrV>
    decreases smeasure(input, st), fuel, 3 * prod_height(inner) + 2,
{
    let (st1r, pk) = spec_peek(g, input, st);
    let st1 = cap(input, st1r, st);
    match pk {
        None => Ok((Seq::empty(), st1r)),
        Some(tok) => if !spec_matches(g, inner, tok.t) {
            Ok((Seq::empty(), st1r))
        } else {
            match spec_parse_prod(g, input, inner, st1, fuel) {
                Err(e) => Err(e),
                Ok((c0, st2)) => if smeasure(input, st2) < smeasure(input, st1) {
                    match spec_parse_rep(g, input, inner, st2, fuel0(g)) {
                        Err(e) => Err(e),
                        Ok((c1, st3)) => Ok((c0 + c1, st3)),
                    }
                } else {
                    Ok((c0, st2))
                },
            }
        },
    }
}

/// A whole parse: invoke the start rule on a fresh stream, then require the
/// stream to be exhausted — a leftover token is trailing input, and leftover
/// characters that no atom matches are unrecognized input.
pub open spec fn spec_parse(g: GrammarV, input: Seq<char>) -> Result<AstV, ErrV> {
    match spec_parse_rule(g, input, "START"@, initial_stream(), fuel0(g)) {
        Err(e) => Err(e),
        Ok((ast, st1)) => {
            let (st2, pk) = spec_peek(g, input, st1);
            match pk {
                Some(tok) => Err(ErrV::Trailing { pos: tok.pos }),
                None => if st2.failed {
                    Err(ErrV::Unrecognized { pos: st2.cursor })
                } else {
                    Ok(ast)
                },
            }
        },
    }
}

// ---------------------------------------------------------------------------
// Laws
// ---------------------------------------------------------------------------

/// Round-trip determinism: a parse is a function of the grammar and the
/// input alone, so two parses of the same pair return the same tree or the
/// same failure.
pub proof fn lemma_parse_deterministic(
    g: GrammarV,
    input: Seq<char>,
    r1: Result<AstV, ErrV>,
    r2: Result<AstV, ErrV>,
)
    requires
        r1 == spec_parse(g, input),
        r2 == spec_parse(g, input),
    ensures
        r1 == r2,
{
}

/// Trailing-input rejection: when a parse succeeds, the start rule's
/// invocation succeeded and the stream after it holds no further token —
/// and not because scanning failed.
pub proof fn lemma_trailing_input_rejected(g: GrammarV, input: Seq<char>)
    requires
        spec_parse(g, input) is Ok,
    ensures
        spec_parse_rule(g, input, "START"@, initial_stream(), fuel0(g)) matches Ok(p)
            && spec_peek(g, input, p.1).1 is None && !spec_peek(g, input, p.1).0.failed,
{
}

// ---------------------------------------------------------------------------
// Exec
// ---------------------------------------------------------------------------

impl Grammar {
    /// Parses the whole input against this grammar, starting at the rule
    /// named `START`. Returns the syntax tree, or the first failure.
    pub fn parse(&self, input: &String) -> (r: Result<AST, ParseError>)
        ensures
            r matches Ok(a) ==> spec_parse(self@, input@) == Ok::<AstV, ErrV>(a@),
            r matches Err(e) ==> spec_parse(self@, input@) == Err::<AstV, ErrV>(e@),
    {
        let mut lexems = Lexem::iter(self, input);
        let start: String = "START".to_owned();
        let fuel = self.rules.len();
        match self.parse_rule(&start, &mut lexems, fuel) {
            Err(e) => Err(e),
            Ok(ast) => {
                proof {
                    lemma_peek(self@, input@, lexems.stv());
                }
                let pk = lexems.peek();
                match pk {
                    Some(tok) => Err(ParseError::TrailingInput { pos: tok.pos }),
                    None => if lexems.failed {
                        Err(ParseError::UnrecognizedInput { pos: lexems.cursor })
                    } else {
                        Ok(ast)
                    },
                }
            },
        }
    }

    /// One rule invocation, as `spec_parse_rule` describes.
    fn parse_rule(&self, rule: &String, lexems: &mut LexemIter, fuel: usize) -> (r: Result<
        AST,
        ParseError,
    >)
        requires
            old(lexems).wf(),
            *old(lexems).grammar == *self,
        ensures
            final(lexems).wf(),
            final(lexems).grammar == old(lexems).grammar,
            final(lexems).input == old(lexems).input,
            final(lexems).len == old(lexems).len,
            smeasure(final(lexems).input@, final(lexems).stv()) <= smeasure(
                old(lexems).input@,
                old(lexems).stv(),
            ),
            r matches Ok(a) ==> spec_parse_rule(
                self@,
                old(lexems).input@,
                rule@,
                old(lexems).stv(),
                fuel as nat,
            ) == Ok::<(AstV, StreamV), ErrV>((a@, final(lexems).stv())),
            r matches Err(e) ==> spec_parse_rule(
                self@,
                old(lexems).input@,
                rule@,
                old(lexems).stv(),
                fuel as nat,
            ) == Err::<(AstV, StreamV), ErrV>(e@),
        decreases smeasure(old(lexems).input@, old(lexems).stv()), fuel, 0nat,
    {
        let ghost gv = self@;
        let ghost input = old(lexems).input@;
        let ghost st0 = old(lexems).stv();
        proof {
            lemma_peek(gv, input, st0);
        }
        let pk = lexems.peek();
        match pk {
            None => {
                if lexems.failed {
                    Err(ParseError::UnrecognizedInput { pos: lexems.cursor })
                } else {
                    Err(ParseError::NoAlternativeMatches { pos: lexems.cursor })
                }
            },
            Some(tok) => {
                let ghost st1 = lexems.stv();
                proof {
                    assert(cap(input, st1, st0) == st1);
                }
                let n = self.rules.len();
                let mut has_name = false;
                let mut idx: usize = n;
                let mut i: usize = 0;
                while i < n
                    invariant_except_break
                        0 <= i <= n,
                        n == self.rules.len(),
                        gv == self@,
                        gv.rules.len() == n,
                        idx == n,
                        spec_has_rule(gv, rule@, 0) == (has_name || spec_has_rule(
                            gv,
                            rule@,
                            i as int,
                        )),
                        spec_select(gv, rule@, tok@.t, 0) == spec_select(
                            gv,
                            rule@,
                            tok@.t,
                            i as int,
                        ),
                    ensures
                        n == self.rules.len(),
                        gv.rules.len() == n,
                        idx <= n,
                        idx < n ==> spec_select(gv, rule@, tok@.t, 0) == Some(idx as int)
                            && spec_has_rule(gv, rule@, 0),
                        idx == n ==> spec_select(gv, rule@, tok@.t, 0) is None && spec_has_rule(
                            gv,
                            rule@,
                            0,
                        ) == has_name,
                    decreases n - i,
                {
                    proof {
                        assert(gv.rules[i as int] == self.rules[i as int]@);
                    }
                    if self.rules[i].name == *rule {
                        has_name = true;
                        if self.production_matches_lexem(&self.rules[i].production, &tok.t) {
                            idx = i;
                            break ;
                        }
                    }
                    i += 1;
                }
                if idx == n {
                    if !has_name {
                        return Err(ParseError::MalformedGrammar { rule: rule.clone() });
                    }
                    return Err(ParseError::NoAlternativeMatches { pos: tok.pos });
                }
                proof {
                    assert(gv.rules[idx as int] == self.rules[idx as int]@);
                }
                if fuel == 0 {
                    return Err(ParseError::DepthExceeded);
                }
                match self.parse_symbol_type(&self.rules[idx].production, lexems, fuel - 1) {
                    Err(e) => Err(e),
                    Ok(children) => {
                        proof {
                            lemma_asts_view(children@);
                        }
                        if self.options.bubble_intermediate && children.len() == 1 {
                            let ghost kids0 = children@;
                            let mut children = children;
                            let c = children.pop().unwrap();
                            proof {
                                lemma_asts_view(kids0);
                                assert(c == kids0[0]);
                                assert(asts_view(kids0)[0] == ast_view(c));
                            }
                            Ok(c)
                        } else {
                            Ok(AST::Node { t: rule.clone(), children })
                        }
                    },
                }
            },
        }
    }

    /// One symbol, as `spec_parse_symbol` describes.
    fn parse_symbol(&self, s: &Symbol, lexems: &mut LexemIter, fuel: usize) -> (r: Result<
        Option<AST>,
        ParseError,
    >)
        requires
            old(lexems).wf(),
            *old(lexems).grammar == *self,
        ensures
            final(lexems).wf(),
            final(lexems).grammar == old(lexems).grammar,
            final(lexems).input == old(lexems).input,
            final(lexems).len == old(lexems).len,
            smeasure(final(lexems).input@, final(lexems).stv()) <= smeasure(
                old(lexems).input@,
                old(lexems).stv(),
            ),
            r matches Ok(a) ==> spec_parse_symbol(
                self@,
                old(lexems).input@,
                s@,
                old(lexems).stv(),
                fuel as nat,
            ) == Ok::<(Option<AstV>, StreamV), ErrV>((opt_ast_view(a), final(lexems).stv())),
            r matches Err(e) ==> spec_parse_symbol(
                self@,
                old(lexems).input@,
                s@,
                old(lexems).stv(),
                fuel as nat,
            ) == Err::<(Option<AstV>, StreamV), ErrV>(e@),
        decreases smeasure(old(lexems).input@, old(lexems).stv()), fuel, 2nat,
    {
        let ghost gv = self@;
        let ghost input = old(lexems).input@;
        let ghost st0 = old(lexems).stv();
        match s {
            Symbol::Lexem { t, include_raw } => {
                proof {
                    lemma_peek(gv, input, st0);
                }
                let pk = lexems.peek();
                match pk {
                    Some(tok) => {
                        if tok.t == *t {
                            proof {
                                lemma_shift(gv, input, lexems.stv());
                            }
                            let _ = lexems.next();
                            if *include_raw {
                                Ok(Some(AST::Leaf { t: tok.t, raw: tok.raw }))
                            } else {
                                Ok(None)
                            }
                        } else {
                            Err(ParseError::UnexpectedToken { pos: tok.pos })
                        }
                    },
                    None => {
                        if lexems.failed {
                            Err(ParseError::UnrecognizedInput { pos: lexems.cursor })
                        } else {
                            Err(ParseError::UnexpectedToken { pos: lexems.cursor })
                        }
                    },
                }
            },
            Symbol::AST(r) => {
                match self.parse_rule(r, lexems, fuel) {
                    Ok(node) => Ok(Some(node)),
                    Err(e) => Err(e),
                }
            },
        }
    }

    /// Walking one production, as `spec_parse_prod` describes.
    fn parse_symbol_type(&self, p: &SymbolType, lexems: &mut LexemIter, fuel: usize) -> (r: Result<
        Vec<AST>,
        ParseError,
    >)
        requires
            old(lexems).wf(),
            *old(lexems).grammar == *self,
        ensures
            final(lexems).wf(),
            final(lexems).grammar == old(lexems).grammar,
            final(lexems).input == old(lexems).input,
            final(lexems).len == old(lexems).len,
            smeasure(final(lexems).input@, final(lexems).stv()) <= smeasure(
                old(lexems).input@,
                old(lexems).stv(),
            ),
            r matches Ok(children) ==> spec_parse_prod(
                self@,
                old(lexems).input@,
                p@,
                old(lexems).stv(),
                fuel as nat,
            ) == Ok::<(Seq<AstV>, StreamV), ErrV>((asts_view(children@), final(lexems).stv())),
            r matches Err(e) ==> spec_parse_prod(
                self@,
                old(lexems).input@,
                p@,
                old(lexems).stv(),
                fuel as nat,
            ) == Err::<(Seq<AstV>, StreamV), ErrV>(e@),
        decreases
            smeasure(old(lexems).input@, old(lexems).stv()),
            fuel,
            3 * prod_height(p@),
    {
        let ghost gv = self@;
        let ghost input = old(lexems).input@;
        let ghost st0 = old(lexems).stv();
        match p {
            SymbolType::Symbol(s) => {
                match self.parse_symbol(s, lexems, fuel) {
                    Err(e) => Err(e),
                    Ok(Some(a)) => {
                        let mut v: Vec<AST> = Vec::new();
                        v.push(a);
                        proof {
                            lemma_asts_view(v@);
                            assert(asts_view(v@) =~= seq![ast_view(a)]);
                        }
                        Ok(v)
                    },
                    Ok(None) => {
                        let v: Vec<AST> = Vec::new();
                        proof {
                            assert(asts_view(v@) =~= Seq::<AstV>::empty());
                        }
                        Ok(v)
                    },
                }
            },
            SymbolType::Group(members) => self.parse_group(members, lexems, fuel),
            SymbolType::Optional(o) => {
                proof {
                    lemma_peek(gv, input, st0);
                }
                let pk = lexems.peek();
                proof {
                    assert(cap(input, lexems.stv(), st0) == lexems.stv());
                }
                match pk {
                    Some(tok) => {
                        if self.production_matches_lexem(o, &tok.t) {
                            self.parse_symbol_type(o, lexems, fuel)
                        } else {
                            let v: Vec<AST> = Vec::new();
                            proof {
                                assert(asts_view(v@) =~= Seq::<AstV>::empty());
                            }
                            Ok(v)
                        }
                    },
                    None => {
                        let v: Vec<AST> = Vec::new();
                        proof {
                            assert(asts_view(v@) =~= Seq::<AstV>::empty());
                        }
                        Ok(v)
                    },
                }
            },
            SymbolType::Repeated(m) => self.parse_rep(m, lexems, fuel),
            SymbolType::Switch(a, b) => {
                proof {
                    lemma_peek(gv, input, st0);
                }
                let pk = lexems.peek();
                proof {
                    assert(cap(input, lexems.stv(), st0) == lexems.stv());
                }
                match pk {
                    Some(tok) => {
                        if self.production_matches_lexem(a, &tok.t) {
                            self.parse_symbol_type(a, lexems, fuel)
                        } else {
                            self.parse_symbol_type(b, lexems, fuel)
                        }
                    },
                    None => {
                        if lexems.failed {
                            Err(ParseError::UnrecognizedInput { pos: lexems.cursor })
                        } else {
                            Err(ParseError::NoAlternativeMatches { pos: lexems.cursor })
                        }
                    },
                }
            },
        }
    }

    /// Walking the members of a group in order, as `spec_parse_group`
    /// describes.
    fn parse_group(&self, members: &Vec<SymbolType>, lexems: &mut LexemIter, fuel: usize) -> (r:
        Result<Vec<AST>, ParseError>)
        requires
            old(lexems).wf(),
            *old(lexems).grammar == *self,
        ensures
            final(lexems).wf(),
            final(lexems).grammar == old(lexems).grammar,
            final(lexems).input == old(lexems).input,
            final(lexems).len == old(lexems).len,
            smeasure(final(lexems).input@, final(lexems).stv()) <= smeasure(
                old(lexems).input@,
                old(lexems).stv(),
            ),
            r matches Ok(children) ==> spec_parse_group(
                self@,
                old(lexems).input@,
                prods_view(members@),
                old(lexems).stv(),
                fuel as nat,
            ) == Ok::<(Seq<AstV>, StreamV), ErrV>((asts_view(children@), final(lexems).stv())),
            r matches Err(e) ==> spec_parse_group(
                self@,
                old(lexems).input@,
                prods_view(members@),
                old(lexems).stv(),
                fuel as nat,
            ) == Err::<(Seq<AstV>, StreamV), ErrV>(e@),
        decreases
            smeasure(old(lexems).input@, old(lexems).stv()),
            fuel,
            3 * prods_height(prods_view(members@)) + 1,
    {
        let ghost gv = self@;
        let ghost input = old(lexems).input@;
        let ghost pv = prods_view(members@);
        proof {
            lemma_prods_view(members@);
        }
        let n = members.len();
        let mut acc: Vec<AST> = Vec::new();
        let mut fuel_cur = fuel;
        let mut i: usize = 0;
        proof {
            assert(pv.skip(0) =~= pv);
            assert(asts_view(acc@) =~= Seq::<AstV>::empty());
        }
        while i < n
            invariant
                0 <= i <= n,
                n == members.len(),
                gv == self@,
                input == old(lexems).input@,
                pv == prods_view(members@),
                pv.len() == n,
                forall|k: int| 0 <= k < n ==> pv[k] == prod_view(#[trigger] members@[k]),
                lexems.wf(),
                lexems.grammar == old(lexems).grammar,
                lexems.input == old(lexems).input,
                lexems.len == old(lexems).len,
                *lexems.grammar == *self,
                smeasure(input, lexems.stv()) <= smeasure(input, old(lexems).stv()),
                fuel_cur == fuel || smeasure(input, lexems.stv()) < smeasure(
                    input,
                    old(lexems).stv(),
                ),
                ({
                    let whole = spec_parse_group(gv, input, pv, old(lexems).stv(), fuel as nat);
                    let rest = spec_parse_group(
                        gv,
                        input,
                        pv.skip(i as int),
                        lexems.stv(),
                        fuel_cur as nat,
                    );
                    match rest {
                        Ok((c, st)) => whole == Ok::<(Seq<AstV>, StreamV), ErrV>((
                            asts_view(acc@) + c,
                            st,
                        )),
                        Err(e) => whole == Err::<(Seq<AstV>, StreamV), ErrV>(e),
                    }
                }),
            decreases n - i,
        {
            let ghost st_i = lexems.stv();
            let c_before = lexems.cursor;
            let p_before = lexems.peeked.is_some();
            proof {
                lemma_prods_height_elem(pv, i as int);
            }
            match self.parse_symbol_type(&members[i], lexems, fuel_cur) {
                Err(e) => {
                    proof {
                        assert(pv.skip(i as int)[0] == pv[i as int]);
                    }
                    return Err(e);
                },
                Ok(mut part) => {
                    let ghost acc0 = acc@;
                    let ghost part0 = part@;
                    acc.append(&mut part);
                    let progressed = lexems.cursor > c_before || (p_before
                        && !lexems.peeked.is_some());
                    proof {
                        assert(pv.skip(i as int)[0] == pv[i as int]);
                        assert(pv.skip(i as int).skip(1) =~= pv.skip(i as int + 1));
                        assert(cap(input, lexems.stv(), st_i) == lexems.stv());
                        assert(progressed == (smeasure(input, lexems.stv()) < smeasure(
                            input,
                            st_i,
                        )));
                        lemma_asts_view_add(acc0, part0);
                    }
                    if progressed {
                        fuel_cur = self.rules.len();
                    }
                    proof {
                        let rest2 = spec_parse_group(
                            gv,
                            input,
                            pv.skip(i as int + 1),
                            lexems.stv(),
                            fuel_cur as nat,
                        );
                        match rest2 {
                            Ok((c, st)) => {
                                assert(asts_view(acc0) + (asts_view(part0) + c) =~= asts_view(
                                    acc@,
                                ) + c);
                            },
                            Err(e) => {},
                        }
                    }
                    i += 1;
                },
            }
        }
        proof {
            assert(pv.skip(n as int) =~= Seq::<ProdV>::empty());
            assert(asts_view(acc@) + Seq::<AstV>::empty() =~= asts_view(acc@));
        }
        Ok(acc)
    }

    /// Zero-or-more repetition of one production, as `spec_parse_rep`
    /// describes.
    fn parse_rep(&self, inner: &SymbolType, lexems: &mut LexemIter, fuel: usize) -> (r: Result<
        Vec<AST>,
        ParseError,
    >)
        requires
            old(lexems).wf(),
            *old(lexems).grammar == *self,
        ensures
            final(lexems).wf(),
            final(lexems).grammar == old(lexems).grammar,
            final(lexems).input == old(lexems).input,
            final(lexems).len == old(lexems).len,
            smeasure(final(lexems).input@, final(lexems).stv()) <= smeasure(
                old(lexems).input@,
                old(lexems).stv(),
            ),
            r matches Ok(children) ==> spec_parse_rep(
                self@,
                old(lexems).input@,
                inner@,
                old(lexems).stv(),
                fuel as nat,
            ) == Ok::<(Seq<AstV>, StreamV), ErrV>((asts_view(children@), final(lexems).stv())),
            r matches Err(e) ==> spec_parse_rep(
                self@,
                old(lexems).input@,
                inner@,
                old(lexems).stv(),
                fuel as nat,
            ) == Err::<(Seq<AstV>, StreamV), ErrV>(e@),
        decreases
            smeasure(old(lexems).input@, old(lexems).stv()),
            fuel,
            3 * prod_height(inner@) + 2,
    {
        let ghost gv = self@;
        let ghost input = old(lexems).input@;
        let mut acc: Vec<AST> = Vec::new();
        let mut fuel_cur = fuel;
        proof {
            assert(asts_view(acc@) =~= Seq::<AstV>::empty());
        }
        loop
            invariant_except_break
                gv == self@,
                input == old(lexems).input@,
                lexems.wf(),
                lexems.grammar == old(lexems).grammar,
                lexems.input == old(lexems).input,
                lexems.len == old(lexems).len,
                *lexems.grammar == *self,
                smeasure(input, lexems.stv()) <= smeasure(input, old(lexems).stv()),
                fuel_cur == fuel || smeasure(input, lexems.stv()) < smeasure(
                    input,
                    old(lexems).stv(),
                ),
                ({
                    let whole = spec_parse_rep(gv, input, inner@, old(lexems).stv(), fuel as nat);
                    let rest = spec_parse_rep(gv, input, inner@, lexems.stv(), fuel_cur as nat);
                    match rest {
                        Ok((c, st)) => whole == Ok::<(Seq<AstV>, StreamV), ErrV>((
                            asts_view(acc@) + c,
                            st,
                        )),
                        Err(e) => whole == Err::<(Seq<AstV>, StreamV), ErrV>(e),
                    }
                }),
            ensures
                lexems.wf(),
                lexems.grammar == old(lexems).grammar,
                lexems.input == old(lexems).input,
                lexems.len == old(lexems).len,
                smeasure(input, lexems.stv()) <= smeasure(input, old(lexems).stv()),
                spec_parse_rep(gv, input, inner@, old(lexems).stv(), fuel as nat) == Ok::<
                    (Seq<AstV>, StreamV),
                    ErrV,
                >((asts_view(acc@), lexems.stv())),
            decreases smeasure(input, lexems.stv()),
        {
            let ghost st_it = lexems.stv();
            proof {
                lemma_peek(gv, input, st_it);
            }
            let pk = lexems.peek();
            proof {
                assert(cap(input, lexems.stv(), st_it) == lexems.stv());
                assert(asts_view(acc@) + Seq::<AstV>::empty() =~= asts_view(acc@));
            }
            match pk {
                None => {
                    break ;
                },
                Some(tok) => {
                    if !self.production_matches_lexem(inner, &tok.t) {
                        break ;
                    }
                    let ghost st1 = lexems.stv();
                    let c_before = lexems.cursor;
                    let p_before = lexems.peeked.is_some();
                    match self.parse_symbol_type(inner, lexems, fuel_cur) {
                        Err(e) => {
                            return Err(e);
                        },
                        Ok(mut part) => {
                            let ghost acc0 = acc@;
                            let ghost part0 = part@;
                            acc.append(&mut part);
                            let progressed = lexems.cursor > c_before || (p_before
                                && !lexems.peeked.is_some());
                            proof {
                                assert(progressed == (smeasure(input, lexems.stv()) < smeasure(
                                    input,
                                    st1,
                                )));
                                lemma_asts_view_add(acc0, part0);
                            }
                            if !progressed {
                                proof {
                                    assert(asts_view(acc0) + asts_view(part0) =~= asts_view(
                                        acc@,
                                    ));
                                }
                                break ;
                            }
                            fuel_cur = self.rules.len();
                            proof {
                                let rest2 = spec_parse_rep(
                                    gv,
                                    input,
                                    inner@,
                                    lexems.stv(),
                                    fuel_cur as nat,
                                );
                                match rest2 {
                                    Ok((c, st)) => {
                                        assert(asts_view(acc0) + (asts_view(part0) + c)
                                            =~= asts_view(acc@) + c);
                                    },
                                    Err(e) => {},
                                }
                            }
                        },
                    }
                },
            }
        }
        Ok(acc)
    }
}

} // verus!
