//! The output syntax tree: an inner node carries a rule name and an ordered
//! list of children; a leaf carries a token type and the raw matched text.

use vstd::prelude::*;

verus! {

/// One node of the output syntax tree.
#[derive(Debug)]
pub enum AST {
    Node { t: String, children: Vec<AST> },
    Leaf { t: String, raw: String },
}

/// The view of an `AST`.
#[verifier::ext_equal]
pub enum AstV {
    Node { t: Seq<char>, children: Seq<AstV> },
    Leaf { t: Seq<char>, raw: Seq<char> },
}

pub open spec fn ast_view(a: AST) -> AstV
    decreases a,
{
    match a {
        AST::Node { t, children } => AstV::Node { t: t@, children: asts_view(children@) },
        AST::Leaf { t, raw } => AstV::Leaf { t: t@, raw: raw@ },
    }
}

pub open spec fn asts_view(s: Seq<AST>) -> Seq<AstV>
    decreases s,
{
    if s.len() == 0 {
        Seq::empty()
    } else {
        asts_view(s.drop_last()).push(ast_view(s.last()))
    }
}

/// Element-wise reading of `asts_view`.
pub proof fn lemma_asts_view(s: Seq<AST>)
    ensures
        asts_view(s).len() == s.len(),
        forall|i: int|
            #![trigger asts_view(s)[i]]
            #![trigger s[i]]
            0 <= i < s.len() ==> asts_view(s)[i] == ast_view(s[i]),
    decreases s.len(),
{
    if s.len() > 0 {
        lemma_asts_view(s.drop_last());
        assert forall|i: int| 0 <= i < s.len() implies asts_view(s)[i] == ast_view(
            #[trigger] s[i],
        ) by {
            if i < s.len() - 1 {
                assert(s.drop_last()[i] == s[i]);
            }
        }
    }
}

/// `asts_view` distributes over concatenation.
pub proof fn lemma_asts_view_add(a: Seq<AST>, b: Seq<AST>)
    ensures
        asts_view(a + b) == asts_view(a) + asts_view(b),
    decreases b.len(),
{
    if b.len() == 0 {
        assert(a + b =~= a);
        assert(asts_view(a) + asts_view(b) =~= asts_view(a));
    } else {
        lemma_asts_view_add(a, b.drop_last());
        assert((a + b).drop_last() =~= a + b.drop_last());
        assert((a + b).last() == b.last());
        assert(asts_view(a) + asts_view(b) =~= (asts_view(a) + asts_view(b.drop_last())).push(
            ast_view(b.last()),
        ));
    }
}

impl View for AST {
    type V = AstV;

    open spec fn view(&self) -> AstV {
        ast_view(*self)
    }
}

impl AstV {
    /// The type name of a tree node: the rule name of an inner node, the
    /// token type of a leaf.
    pub open spec fn t(self) -> Seq<char> {
        match self {
            AstV::Node { t, .. } => t,
            AstV::Leaf { t, .. } => t,
        }
    }
}

impl AST {
    /// The type name of a tree node: the rule name of an inner node, the
    /// token type of a leaf.
    pub fn get_t(&self) -> (r: &String)
        ensures
            r@ == self@.t(),
    {
        match self {
            AST::Node { t, .. } => t,
            AST::Leaf { t, .. } => t,
        }
    }
}

} // verus!
