//! The data model of a grammar: symbols, production expressions, rules,
//! lexical atoms, parse options, and the grammar object itself, together
//! with the mathematical view of each (names as character sequences,
//! collections as `Seq`).

use vstd::prelude::*;
use crate::pattern::Pattern;

verus! {

// ---------------------------------------------------------------------------
// Executable types
// ---------------------------------------------------------------------------

/// A reference inside a production: either a token type (a lexical atom's
/// name, with a flag telling whether the matched raw text is kept in the
/// tree), or the name of another rule.
#[derive(Debug)]
pub enum Symbol {
    Lexem { t: String, include_raw: bool },
    AST(String),
}

/// A production expression: a single symbol, a sequence, an optional part,
/// a zero-or-more repetition, or an ordered choice between two parts.
#[derive(Debug)]
pub enum SymbolType {
    Symbol(Symbol),
    Group(Vec<SymbolType>),
    Optional(Box<SymbolType>),
    Repeated(Box<SymbolType>),
    Switch(Box<SymbolType>, Box<SymbolType>),
}

/// One named alternative of a grammar rule. Several rules may share a name;
/// together they form an ordered choice resolved by one token of lookahead.
#[derive(Debug)]
pub struct Rule {
    pub name: String,
    pub production: SymbolType,
}

/// Lexing and tree-shaping configuration: which characters the token stream
/// skips, and whether a syntax node with a single child is replaced by that
/// child.
#[derive(Clone, Copy, PartialEq, Eq, Structural, Debug)]
pub struct ParseOptions {
    pub ignore_whitespace: bool,
    pub ignore_newline: bool,
    pub bubble_intermediate: bool,
}

impl ParseOptions {
    /// The default options: nothing is skipped and nothing is collapsed.
    pub fn default() -> (r: ParseOptions)
        ensures
            r == (ParseOptions {
                ignore_whitespace: false,
                ignore_newline: false,
                bubble_intermediate: false,
            }),
    {
        ParseOptions { ignore_whitespace: false, ignore_newline: false, bubble_intermediate: false }
    }
}

/// One lexical category: either a fixed literal, matched by prefix
/// comparison, or a compiled pattern, matched at the start of the remaining
/// input.
#[derive(Debug)]
pub enum Atom {
    Simple { name: String },
    Matched { name: String, m: Pattern },
}

/// A complete, immutable parsing specification: the ordered rule list, the
/// ordered atom list (earlier atoms win), and the parse options.
#[derive(Debug)]
pub struct Grammar {
    pub rules: Vec<Rule>,
    pub atoms: Vec<Atom>,
    pub options: ParseOptions,
}

impl Grammar {
    /// The same grammar with different options.
    pub fn with_options(self, options: ParseOptions) -> (r: Grammar)
        ensures
            r@ == (GrammarV { options, ..self@ }),
    {
        Grammar { rules: self.rules, atoms: self.atoms, options }
    }
}

// ---------------------------------------------------------------------------
// View types
// ---------------------------------------------------------------------------

/// The view of a `Symbol`.
#[verifier::ext_equal]
pub enum SymbolV {
    Lexem { t: Seq<char>, include_raw: bool },
    Ast(Seq<char>),
}

/// The view of a `SymbolType`.
#[verifier::ext_equal]
pub enum ProdV {
    Symbol(SymbolV),
    Group(Seq<ProdV>),
    Optional(Box<ProdV>),
    Repeated(Box<ProdV>),
    Switch(Box<ProdV>, Box<ProdV>),
}

/// The view of a `Rule`.
#[verifier::ext_equal]
pub struct RuleV {
    pub name: Seq<char>,
    pub production: ProdV,
}

/// The view of an `Atom`. A pattern atom is modelled by its pattern text.
#[verifier::ext_equal]
pub enum AtomV {
    Simple { name: Seq<char> },
    Matched { name: Seq<char>, pattern: Seq<char> },
}

/// The view of a `Grammar`.
#[verifier::ext_equal]
pub struct GrammarV {
    pub rules: Seq<RuleV>,
    pub atoms: Seq<AtomV>,
    pub options: ParseOptions,
}

impl AtomV {
    /// The token type an atom produces.
    pub open spec fn name(self) -> Seq<char> {
        match self {
            AtomV::Simple { name } => name,
            AtomV::Matched { name, .. } => name,
        }
    }
}

// ---------------------------------------------------------------------------
// View functions and View impls
// ---------------------------------------------------------------------------

pub open spec fn sym_view(s: Symbol) -> SymbolV {
    match s {
        Symbol::Lexem { t, include_raw } => SymbolV::Lexem { t: t@, include_raw },
        Symbol::AST(r) => SymbolV::Ast(r@),
    }
}

pub open spec fn prod_view(p: SymbolType) -> ProdV
    decreases p,
{
    match p {
        SymbolType::Symbol(s) => ProdV::Symbol(sym_view(s)),
        SymbolType::Group(g) => ProdV::Group(prods_view(g@)),
        SymbolType::Optional(o) => ProdV::Optional(Box::new(prod_view(*o))),
        SymbolType::Repeated(m) => ProdV::Repeated(Box::new(prod_view(*m))),
        SymbolType::Switch(a, b) => ProdV::Switch(
            Box::new(prod_view(*a)),
            Box::new(prod_view(*b)),
        ),
    }
}

pub open spec fn prods_view(s: Seq<SymbolType>) -> Seq<ProdV>
    decreases s,
{
    if s.len() == 0 {
        Seq::empty()
    } else {
        prods_view(s.drop_last()).push(prod_view(s.last()))
    }
}

/// Element-wise reading of `prods_view`.
pub proof fn lemma_prods_view(s: Seq<SymbolType>)
    ensures
        prods_view(s).len() == s.len(),
        forall|i: int|
            #![trigger prods_view(s)[i]]
            #![trigger s[i]]
            0 <= i < s.len() ==> prods_view(s)[i] == prod_view(s[i]),
    decreases s.len(),
{
    if s.len() > 0 {
        lemma_prods_view(s.drop_last());
        assert forall|i: int| 0 <= i < s.len() implies prods_view(s)[i] == prod_view(
            #[trigger] s[i],
        ) by {
            if i < s.len() - 1 {
                assert(s.drop_last()[i] == s[i]);
            }
        }
    }
}

pub open spec fn syms_view(s: Seq<Symbol>) -> Seq<SymbolV> {
    Seq::new(s.len(), |i: int| sym_view(s[i]))
}

pub open spec fn strs_view(s: Seq<String>) -> Seq<Seq<char>> {
    Seq::new(s.len(), |i: int| s[i]@)
}

/// `syms_view` distributes over concatenation.
pub proof fn lemma_syms_view_add(a: Seq<Symbol>, b: Seq<Symbol>)
    ensures
        syms_view(a + b) == syms_view(a) + syms_view(b),
{
    assert(syms_view(a + b) =~= syms_view(a) + syms_view(b));
}

/// `strs_view` distributes over concatenation.
pub proof fn lemma_strs_view_add(a: Seq<String>, b: Seq<String>)
    ensures
        strs_view(a + b) == strs_view(a) + strs_view(b),
{
    assert(strs_view(a + b) =~= strs_view(a) + strs_view(b));
}

pub open spec fn rule_view(r: Rule) -> RuleV {
    RuleV { name: r.name@, production: prod_view(r.production) }
}

pub open spec fn rules_view(s: Seq<Rule>) -> Seq<RuleV> {
    Seq::new(s.len(), |i: int| rule_view(s[i]))
}

pub open spec fn atom_view(a: Atom) -> AtomV {
    match a {
        Atom::Simple { name } => AtomV::Simple { name: name@ },
        Atom::Matched { name, m } => AtomV::Matched { name: name@, pattern: m@ },
    }
}

pub open spec fn atoms_view(s: Seq<Atom>) -> Seq<AtomV> {
    Seq::new(s.len(), |i: int| atom_view(s[i]))
}

impl View for Symbol {
    type V = SymbolV;

    open spec fn view(&self) -> SymbolV {
        sym_view(*self)
    }
}

impl View for SymbolType {
    type V = ProdV;

    open spec fn view(&self) -> ProdV {
        prod_view(*self)
    }
}

impl View for Rule {
    type V = RuleV;

    open spec fn view(&self) -> RuleV {
        rule_view(*self)
    }
}

impl View for Atom {
    type V = AtomV;

    open spec fn view(&self) -> AtomV {
        atom_view(*self)
    }
}

impl View for Grammar {
    type V = GrammarV;

    open spec fn view(&self) -> GrammarV {
        GrammarV {
            rules: rules_view(self.rules@),
            atoms: atoms_view(self.atoms@),
            options: self.options,
        }
    }
}

// ---------------------------------------------------------------------------
// Structural height of a production, used as a termination measure
// ---------------------------------------------------------------------------

/// A positive structural size of a production expression.
pub open spec fn prod_height(p: ProdV) -> nat
    decreases p,
{
    match p {
        ProdV::Symbol(_) => 1,
        ProdV::Group(g) => prods_height(g) + 1,
        ProdV::Optional(o) => prod_height(*o) + 1,
        ProdV::Repeated(m) => prod_height(*m) + 1,
        ProdV::Switch(a, b) => prod_height(*a) + prod_height(*b) + 1,
    }
}

/// A positive structural size of a sequence of productions; larger than the
/// height of each member.
pub open spec fn prods_height(s: Seq<ProdV>) -> nat
    decreases s,
{
    if s.len() == 0 {
        1
    } else {
        prod_height(s[0]) + prods_height(s.skip(1))
    }
}

/// A member list stands strictly higher than each of its members.
pub proof fn lemma_prods_height_elem(s: Seq<ProdV>, i: int)
    requires
        0 <= i < s.len(),
    ensures
        prod_height(s[i]) < prods_height(s),
    decreases s.len(),
{
    lemma_prods_height_pos(s.skip(1));
    if i > 0 {
        lemma_prods_height_elem(s.skip(1), i - 1);
        assert(s.skip(1)[i - 1] == s[i]);
    }
}

/// A production's height is positive.
pub proof fn lemma_prod_height_pos(p: ProdV)
    ensures
        prod_height(p) >= 1,
{
}

/// A member list's height is positive.
pub proof fn lemma_prods_height_pos(s: Seq<ProdV>)
    ensures
        prods_height(s) >= 1,
    decreases s.len(),
{
    if s.len() > 0 {
        lemma_prods_height_pos(s.skip(1));
    }
}

// ---------------------------------------------------------------------------
// Cloning with a specification
// ---------------------------------------------------------------------------

impl Clone for Symbol {
    fn clone(&self) -> (r: Symbol)
        ensures
            r == *self,
    {
        match self {
            Symbol::Lexem { t, include_raw } => Symbol::Lexem {
                t: t.clone(),
                include_raw: *include_raw,
            },
            Symbol::AST(r) => Symbol::AST(r.clone()),
        }
    }
}

} // verus!
