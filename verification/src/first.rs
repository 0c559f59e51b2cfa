//! The FIRST-set resolver: which symbols can begin a production, which token
//! types can begin a rule, and whether a production can start with a given
//! lookahead token. Rule references are followed with a budget of one step
//! per rule of the grammar, which covers every chain of distinct rule names;
//! a longer chain revisits a name and could never add a new token type.

use vstd::prelude::*;
use crate::model::{
    lemma_prods_view, lemma_strs_view_add, lemma_syms_view_add, prod_view, prods_view, strs_view,
    sym_view, syms_view, Grammar, GrammarV, ProdV, Symbol, SymbolType, SymbolV,
};

verus! {

// ---------------------------------------------------------------------------
// Spec
// ---------------------------------------------------------------------------

/// Whether a production can match the empty token sequence. Only optional
/// and repeated parts (and choices holding one) are nullable; a group or a
/// bare symbol is not.
pub open spec fn spec_nullable(p: ProdV) -> bool
    decreases p,
{
    match p {
        ProdV::Symbol(_) => false,
        ProdV::Group(_) => false,
        ProdV::Optional(_) => true,
        ProdV::Repeated(_) => true,
        ProdV::Switch(a, b) => spec_nullable(*a) || spec_nullable(*b),
    }
}

/// The ordered list of symbols a production can begin with: itself for a
/// symbol; for a group, the first symbols of each member up to and including
/// the first non-nullable one; for an optional or repeated part, those of
/// the inner production; for a choice, the left then the right side's.
pub open spec fn spec_first(p: ProdV) -> Seq<SymbolV>
    decreases p,
{
    match p {
        ProdV::Symbol(s) => seq![s],
        ProdV::Group(g) => spec_first_group(g),
        ProdV::Optional(o) => spec_first(*o),
        ProdV::Repeated(m) => spec_first(*m),
        ProdV::Switch(a, b) => spec_first(*a) + spec_first(*b),
    }
}

pub open spec fn spec_first_group(s: Seq<ProdV>) -> Seq<SymbolV>
    decreases s,
{
    if s.len() == 0 {
        Seq::empty()
    } else {
        if spec_nullable(s[0]) {
            spec_first(s[0]) + spec_first_group(s.skip(1))
        } else {
            spec_first(s[0])
        }
    }
}

/// The budget for following rule references by name.
pub open spec fn fuel1(g: GrammarV) -> nat {
    g.rules.len()
}

/// The token types a symbol can begin with: a token reference begins with
/// its own type; a rule reference begins with whatever the named rule can
/// begin with.
pub open spec fn symbol_tokens(g: GrammarV, s: SymbolV, fuel: nat) -> Seq<Seq<char>>
    decreases fuel, 0nat, 0nat,
{
    match s {
        SymbolV::Lexem { t, .. } => seq![t],
        SymbolV::Ast(r) => if fuel == 0 {
            Seq::empty()
        } else {
            rule_tokens_from(g, r, 0, (fuel - 1) as nat)
        },
    }
}

pub open spec fn symbols_tokens(g: GrammarV, syms: Seq<SymbolV>, fuel: nat) -> Seq<Seq<char>>
    decreases fuel, 1nat, syms.len(),
{
    if syms.len() == 0 {
        Seq::empty()
    } else {
        symbol_tokens(g, syms[0], fuel) + symbols_tokens(g, syms.skip(1), fuel)
    }
}

/// The token types that can begin the rules named `name`, declared at or
/// after index `i`, in declaration order.
pub open spec fn rule_tokens_from(g: GrammarV, name: Seq<char>, i: int, fuel: nat) -> Seq<
    Seq<char>,
>
    decreases fuel, 2nat, g.rules.len() - i,
{
    if 0 <= i < g.rules.len() {
        let rest = rule_tokens_from(g, name, i + 1, fuel);
        if g.rules[i].name == name {
            symbols_tokens(g, spec_first(g.rules[i].production), fuel) + rest
        } else {
            rest
        }
    } else {
        Seq::empty()
    }
}

/// The token types that can begin the rule named `name`: the union, over
/// every alternative of that name, of the token types reachable from its
/// production's first symbols.
pub open spec fn rule_first_tokens(g: GrammarV, name: Seq<char>) -> Seq<Seq<char>> {
    rule_tokens_from(g, name, 0, fuel1(g))
}

/// The token types a production can begin with.
pub open spec fn production_first_tokens(g: GrammarV, p: ProdV) -> Seq<Seq<char>> {
    symbols_tokens(g, spec_first(p), fuel1(g))
}

/// Whether a production can start with the token type `t`.
pub open spec fn spec_matches(g: GrammarV, p: ProdV, t: Seq<char>) -> bool {
    production_first_tokens(g, p).contains(t)
}

// ---------------------------------------------------------------------------
// Exec
// ---------------------------------------------------------------------------

impl SymbolType {
    /// Whether this production can match the empty token sequence.
    pub fn nullable(&self) -> (r: bool)
        ensures
            r == spec_nullable(self@),
        decreases *self,
    {
        match self {
            SymbolType::Symbol(_) => false,
            SymbolType::Group(_) => false,
            SymbolType::Optional(_) => true,
            SymbolType::Repeated(_) => true,
            SymbolType::Switch(a, b) => a.nullable() || b.nullable(),
        }
    }

    /// The ordered list of symbols this production can begin with.
    pub fn first_symbol(&self) -> (r: Vec<Symbol>)
        ensures
            syms_view(r@) == spec_first(self@),
        decreases *self,
    {
        match self {
            SymbolType::Symbol(s) => {
                let mut f: Vec<Symbol> = Vec::new();
                f.push(s.clone());
                assert(syms_view(f@) =~= spec_first(self@));
                f
            },
            SymbolType::Group(g) => {
                let ghost pv = prods_view(g@);
                let mut f: Vec<Symbol> = Vec::new();
                let n = g.len();
                let mut i: usize = 0;
                proof {
                    lemma_prods_view(g@);
                    assert(pv.skip(0) =~= pv);
                    assert(syms_view(f@) =~= Seq::<SymbolV>::empty());
                    assert(syms_view(f@) + spec_first_group(pv) =~= spec_first_group(pv));
                    assert((*self)@ == ProdV::Group(pv));
                }
                while i < n
                    invariant
                        0 <= i <= n,
                        n == g.len(),
                        pv == prods_view(g@),
                        pv.len() == n,
                        forall|k: int| 0 <= k < n ==> pv[k] == prod_view(#[trigger] g@[k]),
                        (*self)@ == ProdV::Group(pv),
                        decreases_to!(*self => g@),
                        spec_first_group(pv) == syms_view(f@) + spec_first_group(
                            pv.skip(i as int),
                        ),
                    decreases n - i,
                {
                    proof {
                        assert(decreases_to!(g@ => g@[i as int]));
                        assert(decreases_to!(*self => g@[i as int]));
                    }
                    let member = &g[i];
                    let mut part = member.first_symbol();
                    let stop = !member.nullable();
                    let ghost f0 = f@;
                    let ghost part0 = part@;
                    f.append(&mut part);
                    proof {
                        lemma_syms_view_add(f0, part0);
                        assert(*member == g@[i as int]);
                        assert(pv.skip(i as int)[0] == pv[i as int]);
                        assert(pv.skip(i as int).skip(1) =~= pv.skip(i as int + 1));
                        assert(syms_view(f0) + (syms_view(part0) + spec_first_group(pv.skip(
                            i as int + 1,
                        ))) =~= (syms_view(f0) + syms_view(part0)) + spec_first_group(pv.skip(
                            i as int + 1,
                        )));
                    }
                    if stop {
                        proof {
                            assert(spec_first_group(pv.skip(i as int)) == spec_first(
                                pv[i as int],
                            ));
                            assert(syms_view(f0) + syms_view(part0) =~= syms_view(f@));
                        }
                        return f;
                    }
                    i += 1;
                }
                proof {
                    assert(pv.skip(n as int) =~= Seq::<ProdV>::empty());
                    assert(syms_view(f@) + spec_first_group(pv.skip(n as int)) =~= syms_view(
                        f@,
                    ));
                }
                f
            },
            SymbolType::Optional(o) => o.first_symbol(),
            SymbolType::Repeated(m) => m.first_symbol(),
            SymbolType::Switch(a, b) => {
                let mut f = a.first_symbol();
                let mut part = b.first_symbol();
                proof {
                    lemma_syms_view_add(f@, part@);
                }
                f.append(&mut part);
                f
            },
        }
    }
}

/// Whether some element of `v` reads as the character sequence `t`.
fn contains_str(v: &Vec<String>, t: &String) -> (r: bool)
    ensures
        r == strs_view(v@).contains(t@),
{
    let n = v.len();
    let mut i: usize = 0;
    while i < n
        invariant
            0 <= i <= n,
            n == v.len(),
            forall|k: int| 0 <= k < i ==> strs_view(v@)[k] != t@,
        decreases n - i,
    {
        if v[i] == *t {
            assert(strs_view(v@)[i as int] == t@);
            return true;
        }
        i += 1;
    }
    false
}

impl Grammar {
    /// The token types a symbol can begin with, following rule references
    /// with the given budget.
    fn first_from_symbol(&self, s: &Symbol, fuel: usize) -> (r: Vec<String>)
        ensures
            strs_view(r@) == symbol_tokens(self@, s@, fuel as nat),
        decreases fuel, 1nat,
    {
        match s {
            Symbol::Lexem { t, .. } => {
                let mut v: Vec<String> = Vec::new();
                v.push(t.clone());
                assert(strs_view(v@) =~= symbol_tokens(self@, s@, fuel as nat));
                v
            },
            Symbol::AST(r) => {
                if fuel == 0 {
                    let v: Vec<String> = Vec::new();
                    assert(strs_view(v@) =~= Seq::<Seq<char>>::empty());
                    v
                } else {
                    self.first_from_rule(r, fuel - 1)
                }
            },
        }
    }

    /// The token types that can begin the rule named `name`, following rule
    /// references with the given budget.
    fn first_from_rule(&self, name: &String, fuel: usize) -> (r: Vec<String>)
        ensures
            strs_view(r@) == rule_tokens_from(self@, name@, 0, fuel as nat),
        decreases fuel, 3nat,
    {
        let ghost gv = self@;
        let n = self.rules.len();
        let mut acc: Vec<String> = Vec::new();
        let mut i: usize = 0;
        proof {
            assert(strs_view(acc@) =~= Seq::<Seq<char>>::empty());
            assert(strs_view(acc@) + rule_tokens_from(gv, name@, 0, fuel as nat)
                =~= rule_tokens_from(gv, name@, 0, fuel as nat));
        }
        while i < n
            invariant
                0 <= i <= n,
                n == self.rules.len(),
                gv == self@,
                gv.rules.len() == n,
                rule_tokens_from(gv, name@, 0, fuel as nat) == strs_view(acc@)
                    + rule_tokens_from(gv, name@, i as int, fuel as nat),
            decreases n - i,
        {
            assert(gv.rules[i as int] == self.rules[i as int]@);
            if self.rules[i].name == *name {
                let firsts = self.rules[i].production.first_symbol();
                let mut part = self.symbols_tokens_exec(&firsts, fuel);
                let ghost acc0 = acc@;
                let ghost part0 = part@;
                acc.append(&mut part);
                proof {
                    lemma_strs_view_add(acc0, part0);
                    assert(strs_view(part0) == symbols_tokens(
                        gv,
                        spec_first(gv.rules[i as int].production),
                        fuel as nat,
                    ));
                    assert(strs_view(acc0) + (strs_view(part0) + rule_tokens_from(
                        gv,
                        name@,
                        i as int + 1,
                        fuel as nat,
                    )) =~= (strs_view(acc0) + strs_view(part0)) + rule_tokens_from(
                        gv,
                        name@,
                        i as int + 1,
                        fuel as nat,
                    ));
                }
            }
            i += 1;
        }
        acc
    }

    /// The token types any of a list of symbols can begin with.
    fn symbols_tokens_exec(&self, syms: &Vec<Symbol>, fuel: usize) -> (r: Vec<String>)
        ensures
            strs_view(r@) == symbols_tokens(self@, syms_view(syms@), fuel as nat),
        decreases fuel, 2nat,
    {
        let ghost gv = self@;
        let ghost sv = syms_view(syms@);
        let n = syms.len();
        let mut acc: Vec<String> = Vec::new();
        let mut i: usize = 0;
        proof {
            assert(sv.skip(0) =~= sv);
            assert(strs_view(acc@) =~= Seq::<Seq<char>>::empty());
            assert(strs_view(acc@) + symbols_tokens(gv, sv, fuel as nat) =~= symbols_tokens(
                gv,
                sv,
                fuel as nat,
            ));
        }
        while i < n
            invariant
                0 <= i <= n,
                n == syms.len(),
                gv == self@,
                sv == syms_view(syms@),
                sv.len() == n,
                symbols_tokens(gv, sv, fuel as nat) == strs_view(acc@) + symbols_tokens(
                    gv,
                    sv.skip(i as int),
                    fuel as nat,
                ),
            decreases n - i,
        {
            let mut part = self.first_from_symbol(&syms[i], fuel);
            let ghost acc0 = acc@;
            let ghost part0 = part@;
            acc.append(&mut part);
            proof {
                assert(sv.skip(i as int)[0] == sv[i as int]);
                assert(sv[i as int] == sym_view(syms@[i as int]));
                assert(sv.skip(i as int).skip(1) =~= sv.skip(i as int + 1));
                lemma_strs_view_add(acc0, part0);
                assert(strs_view(acc0) + (strs_view(part0) + symbols_tokens(
                    gv,
                    sv.skip(i as int + 1),
                    fuel as nat,
                )) =~= (strs_view(acc0) + strs_view(part0)) + symbols_tokens(
                    gv,
                    sv.skip(i as int + 1),
                    fuel as nat,
                ));
            }
            i += 1;
        }
        proof {
            assert(sv.skip(n as int) =~= Seq::<SymbolV>::empty());
        }
        acc
    }

    /// The token types a production can begin with.
    pub fn first_tokens(&self, p: &SymbolType) -> (r: Vec<String>)
        ensures
            strs_view(r@) == production_first_tokens(self@, p@),
    {
        let firsts = p.first_symbol();
        self.symbols_tokens_exec(&firsts, self.rules.len())
    }

    /// Whether a production can start with the token type `t`.
    pub(crate) fn production_matches_lexem(&self, p: &SymbolType, t: &String) -> (r: bool)
        ensures
            r == spec_matches(self@, p@, t@),
    {
        let toks = self.first_tokens(p);
        contains_str(&toks, t)
    }

    /// Looks for two alternatives of one rule name whose FIRST sets share a
    /// token type. Such a grammar cannot be resolved with one token of
    /// lookahead: whichever alternative is declared first wins, so the
    /// overlap is a defect of the grammar's author, distinct from any parse
    /// failure. Returns the rule name and one shared token type, or `None`
    /// when every same-named pair of alternatives is disjoint.
    pub fn find_ambiguity(&self) -> (r: Option<(String, String)>)
        ensures
            r is Some == has_conflict(self@),
            r matches Some(p) ==> conflict_witness(self@, p.0@, p.1@),
    {
        let ghost gv = self@;
        let n = self.rules.len();
        let mut i: usize = 0;
        while i < n
            invariant
                0 <= i <= n,
                n == self.rules.len(),
                gv == self@,
                gv.rules.len() == n,
                forall|a: int, b: int, t: Seq<char>| a < i ==> !#[trigger] alts_conflict(
                    gv,
                    a,
                    b,
                    t,
                ),
            decreases n - i,
        {
            let toks_i = self.first_tokens(&self.rules[i].production);
            proof {
                assert(gv.rules[i as int] == self.rules[i as int]@);
            }
            let mut j: usize = i + 1;
            while j < n
                invariant
                    i < j <= n,
                    i < n,
                    n == self.rules.len(),
                    gv == self@,
                    gv.rules.len() == n,
                    strs_view(toks_i@) == alt_tokens(gv, i as int),
                    forall|b: int, t: Seq<char>| b < j ==> !#[trigger] alts_conflict(
                        gv,
                        i as int,
                        b,
                        t,
                    ),
                decreases n - j,
            {
                proof {
                    assert(gv.rules[j as int] == self.rules[j as int]@);
                }
                if self.rules[i].name == self.rules[j].name {
                    let toks_j = self.first_tokens(&self.rules[j].production);
                    let m = toks_i.len();
                    let mut k: usize = 0;
                    while k < m
                        invariant
                            0 <= k <= m,
                            i < j < n,
                            n == self.rules.len(),
                            gv == self@,
                            gv.rules.len() == n,
                            m == toks_i.len(),
                            strs_view(toks_i@) == alt_tokens(gv, i as int),
                            strs_view(toks_j@) == alt_tokens(gv, j as int),
                            gv.rules[i as int].name == gv.rules[j as int].name,
                            forall|kk: int| 0 <= kk < k ==> !alt_tokens(gv, j as int).contains(
                                #[trigger] strs_view(toks_i@)[kk],
                            ),
                        decreases m - k,
                    {
                        if contains_str(&toks_j, &toks_i[k]) {
                            let t = toks_i[k].clone();
                            let name = self.rules[i].name.clone();
                            proof {
                                assert(strs_view(toks_i@)[k as int] == t@);
                                assert(alt_tokens(gv, i as int).contains(t@));
                                assert(alts_conflict(gv, i as int, j as int, t@));
                                assert(gv.rules[i as int] == self.rules[i as int]@);
                                assert(gv.rules[i as int].name == name@);
                                assert(conflict_witness(gv, name@, t@));
                            }
                            return Some((name, t));
                        }
                        k += 1;
                    }
                    proof {
                        assert forall|t: Seq<char>| !alts_conflict(gv, i as int, j as int, t) by {
                            if alt_tokens(gv, i as int).contains(t) {
                                let kk = choose|kk: int|
                                    0 <= kk < alt_tokens(gv, i as int).len() && alt_tokens(
                                        gv,
                                        i as int,
                                    )[kk] == t;
                                assert(strs_view(toks_i@)[kk] == t);
                                assert(!alt_tokens(gv, j as int).contains(t));
                            }
                        }
                    }
                } else {
                    proof {
                        assert forall|t: Seq<char>| !alts_conflict(gv, i as int, j as int, t) by {
                            assert(gv.rules[i as int].name != gv.rules[j as int].name);
                        }
                    }
                }
                j += 1;
            }
            proof {
                assert forall|a: int, b: int, t: Seq<char>| a < i + 1 implies !#[trigger]
                    alts_conflict(gv, a, b, t) by {
                    if a == i && (i as int) < b && b < n {
                        assert(!alts_conflict(gv, i as int, b, t));
                    }
                }
            }
            i += 1;
        }
        proof {
            assert(!has_conflict(gv)) by {
                if has_conflict(gv) {
                    let (a, b, t) = choose|a: int, b: int, t: Seq<char>| alts_conflict(gv, a, b, t);
                    assert(!alts_conflict(gv, a, b, t));
                }
            }
        }
        None
    }
}

/// The token types that can begin the production of the rule alternative at
/// index `i`.
pub open spec fn alt_tokens(g: GrammarV, i: int) -> Seq<Seq<char>> {
    production_first_tokens(g, g.rules[i].production)
}

/// Two alternatives of one rule name, at indices `i` and `j`, can both begin
/// with the token type `t`.
pub open spec fn alts_conflict(g: GrammarV, i: int, j: int, t: Seq<char>) -> bool {
    &&& 0 <= i < j < g.rules.len()
    &&& g.rules[i].name == g.rules[j].name
    &&& alt_tokens(g, i).contains(t)
    &&& alt_tokens(g, j).contains(t)
}

/// The conflict a report names is real: some same-named pair of
/// alternatives, the first of which carries the reported name, shares the
/// reported token type.
pub open spec fn conflict_witness(g: GrammarV, name: Seq<char>, t: Seq<char>) -> bool {
    exists|i: int, j: int| #[trigger] alts_conflict(g, i, j, t) && g.rules[i].name == name
}

/// Whether any two same-named alternatives of the grammar share a token
/// type in their FIRST sets.
pub open spec fn has_conflict(g: GrammarV) -> bool {
    exists|i: int, j: int, t: Seq<char>| alts_conflict(g, i, j, t)
}

} // verus!
