//! The syntax tree handed over by the grammar engine: named nodes in
//! document order, each with the source text it spans.
use vstd::prelude::*;

verus! {

/// The grammar rule a syntax node was recognized by.
#[derive(Clone, Copy, Debug, PartialEq, Eq, Structural)]
pub enum Rule {
    /// A leaf value: a number, a name, a comment text, a field.
    Token,
    G04,
    Mo,
    Fs,
    Ad,
    TemplateCircle,
    TemplateRectangle,
    TemplateObround,
    TemplatePolygon,
    TemplateName,
    Am,
    PrimitiveComment,
    PrimitiveCircle,
    PrimitiveVectorLine,
    PrimitiveCenterLine,
    PrimitiveOutline,
    PrimitivePolygon,
    PrimitiveThermal,
    VariableDefinition,
    Dnn,
    G01,
    G02,
    G03,
    G75,
    D01,
    D02,
    D03,
    XCoord,
    YCoord,
    IjCoords,
    Lp,
    Lm,
    Lr,
    Ls,
    RegionStatement,
    Contour,
    G36,
    G37,
    AbStatement,
    SrStatement,
    Tf,
    Ta,
    To,
    Td,
    M02,
    /// Any rule the decoder has no meaning for.
    Other,
}

/// One node of the syntax tree.
#[derive(Debug)]
pub struct SyntaxNode {
    pub rule: Rule,
    /// The source text the node spans.
    pub text: String,
    /// The inner nodes, in source order.
    pub children: Vec<SyntaxNode>,
}

impl SyntaxNode {
    pub fn new(rule: Rule, text: String, children: Vec<SyntaxNode>) -> (r: SyntaxNode)
        ensures
            r.rule == rule,
            r.text == text,
            r.children == children,
    {
        SyntaxNode { rule, text, children }
    }

    /// A node with no inner nodes.
    pub fn leaf(rule: Rule, text: String) -> (r: SyntaxNode)
        ensures
            r.rule == rule,
            r.text == text,
            r.children@.len() == 0,
    {
        SyntaxNode { rule, text, children: Vec::new() }
    }
}

/// The text of the `i`-th node of `cs`.
pub open spec fn text_at(cs: Seq<SyntaxNode>, i: int) -> Seq<char> {
    cs[i].text@
}

} // verus!
