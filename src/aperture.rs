//! Aperture templates (AD) and aperture macro bodies (AM).
use vstd::prelude::*;
use vstd::string::*;
use crate::command::{
    AMPrimitive, ApertureTemplate, MacroValue, MacroValueView, PrimitiveView, TemplateView,
    points_view, primitives_view,
};
use crate::error::{is_semantic, semantic, GerberError};
use crate::fields::{
    opt_decimal, optional_decimal, req_decimal, req_u32, required_decimal, required_u32,
};
use crate::number::{
    decimal_in, int_in_i32, is_digit, parse_decimal, parse_i32, parse_u32, text_chars,
    uint_in_u32, Decimal,
};
use crate::emit::{nat_digits, uint_text};
use crate::syntax::{Rule, SyntaxNode};

verus! {

/// The decimals of all nodes of `c`, if every one of them is a decimal.
pub open spec fn decimal_list(c: Seq<SyntaxNode>) -> Option<Seq<Decimal>>
    decreases c.len(),
{
    if c.len() == 0 {
        Some(Seq::empty())
    } else {
        match decimal_list(c.drop_last()) {
            Some(ds) => match decimal_in(c.last().text@) {
                Some(d) => Some(ds.push(d)),
                None => None,
            },
            None => None,
        }
    }
}

/// The template node of an AD statement, decoded.
pub open spec fn template_of(t: SyntaxNode) -> Result<TemplateView, Seq<char>> {
    let c = t.children@;
    match t.rule {
        Rule::TemplateCircle => match req_decimal(
            c,
            0,
            "Missing circle diameter in AD command."@,
            "Circle diameter could not be parsed as a number."@,
        ) {
            Err(m) => Err(m),
            Ok(d) => match opt_decimal(c, 1, "Circle hole diameter could not be parsed as a number."@) {
                Err(m) => Err(m),
                Ok(h) => Ok(TemplateView::Circle(d, h)),
            },
        },
        Rule::TemplateRectangle | Rule::TemplateObround => match req_decimal(
            c,
            0,
            "Missing x size in AD command."@,
            "X size could not be parsed as a number."@,
        ) {
            Err(m) => Err(m),
            Ok(x) => match req_decimal(
                c,
                1,
                "Missing y size in AD command."@,
                "Y size could not be parsed as a number."@,
            ) {
                Err(m) => Err(m),
                Ok(y) => match opt_decimal(c, 2, "Hole diameter could not be parsed as a number."@) {
                    Err(m) => Err(m),
                    Ok(h) => if t.rule == Rule::TemplateRectangle {
                        Ok(TemplateView::Rectangle(x, y, h))
                    } else {
                        Ok(TemplateView::Obround(x, y, h))
                    },
                },
            },
        },
        Rule::TemplatePolygon => match req_decimal(
            c,
            0,
            "Missing outer diameter in AD command."@,
            "Outer diameter could not be parsed as a number."@,
        ) {
            Err(m) => Err(m),
            Ok(d) => match req_u32(
                c,
                1,
                "Missing vertex count in AD command."@,
                "Vertex count could not be parsed as an integer."@,
            ) {
                Err(m) => Err(m),
                Ok(n) => match opt_decimal(c, 2, "Rotation could not be parsed as a number."@) {
                    Err(m) => Err(m),
                    Ok(r) => match opt_decimal(c, 3, "Hole diameter could not be parsed as a number."@) {
                        Err(m) => Err(m),
                        Ok(h) => Ok(TemplateView::Polygon(d, n, r, h)),
                    },
                },
            },
        },
        Rule::TemplateName => {
            let name = if c.len() > 0 {
                c[0].text@
            } else {
                Seq::empty()
            };
            let params = if c.len() > 0 {
                c.subrange(1, c.len() as int)
            } else {
                Seq::empty()
            };
            match decimal_list(params) {
                Some(ds) => Ok(TemplateView::Macro(name, ds)),
                None => Err("Macro parameter could not be parsed as a number."@),
            }
        },
        _ => Err("Unsupported aperture template in AD command."@),
    }
}

/// Decodes the template node of an AD statement.
pub fn template(t: &SyntaxNode) -> (r: Result<ApertureTemplate, GerberError>)
    ensures
        match template_of(*t) {
            Ok(v) => r matches Ok(a) && a@ == v,
            Err(m) => r matches Err(e) && is_semantic(e, m),
        },
{
    let c = &t.children;
    match t.rule {
        Rule::TemplateCircle => {
            let d = required_decimal(
                c,
                0,
                "Missing circle diameter in AD command.",
                "Circle diameter could not be parsed as a number.",
            )?;
            let h = optional_decimal(c, 1, "Circle hole diameter could not be parsed as a number.")?;
            Ok(ApertureTemplate::Circle(d, h))
        },
        Rule::TemplateRectangle | Rule::TemplateObround => {
            let x = required_decimal(
                c,
                0,
                "Missing x size in AD command.",
                "X size could not be parsed as a number.",
            )?;
            let y = required_decimal(
                c,
                1,
                "Missing y size in AD command.",
                "Y size could not be parsed as a number.",
            )?;
            let h = optional_decimal(c, 2, "Hole diameter could not be parsed as a number.")?;
            if t.rule == Rule::TemplateRectangle {
                Ok(ApertureTemplate::Rectangle(x, y, h))
            } else {
                Ok(ApertureTemplate::Obround(x, y, h))
            }
        },
        Rule::TemplatePolygon => {
            let d = required_decimal(
                c,
                0,
                "Missing outer diameter in AD command.",
                "Outer diameter could not be parsed as a number.",
            )?;
            let n = required_u32(
                c,
                1,
                "Missing vertex count in AD command.",
                "Vertex count could not be parsed as an integer.",
            )?;
            let r = optional_decimal(c, 2, "Rotation could not be parsed as a number.")?;
            let h = optional_decimal(c, 3, "Hole diameter could not be parsed as a number.")?;
            Ok(ApertureTemplate::Polygon(d, n, r, h))
        },
        Rule::TemplateName => {
            if c.len() == 0 {
                assert(decimal_list(Seq::<SyntaxNode>::empty()) == Some(Seq::<Decimal>::empty()));
                return Ok(ApertureTemplate::Macro(String::new(), Vec::new()));
            }
            let name = c[0].text.clone();
            let mut params: Vec<Decimal> = Vec::new();
            let mut i: usize = 1;
            while i < c.len()
                invariant
                    t.rule == Rule::TemplateName,
                    c@ == t.children@,
                    1 <= i <= c@.len(),
                    decimal_list(c@.subrange(1, i as int)) == Some(params@),
                decreases c@.len() - i,
            {
                assert(c@.subrange(1, i + 1).drop_last() =~= c@.subrange(1, i as int));
                match parse_decimal(c[i].text.as_str()) {
                    Some(d) => params.push(d),
                    None => {
                        proof {
                            let all = c@.subrange(1, c@.len() as int);
                            assert(all.subrange(0, i as int) =~= c@.subrange(1, i + 1));
                            assert(c@.subrange(1, i + 1).last() == c@[i as int]);
                            assert(decimal_list(c@.subrange(1, i + 1)) is None);
                            lemma_decimal_list_extends(all, i - 1);
                        }
                        return Err(semantic("Macro parameter could not be parsed as a number."));
                    },
                }
                i = i + 1;
            }
            assert(c@.subrange(1, c@.len() as int) =~= c@.subrange(1, i as int));
            Ok(ApertureTemplate::Macro(name, params))
        },
        _ => Err(semantic("Unsupported aperture template in AD command.")),
    }
}

/// A list that fails at some position fails as a whole.
pub proof fn lemma_decimal_list_extends(c: Seq<SyntaxNode>, k: int)
    requires
        0 <= k < c.len(),
        decimal_list(c.subrange(0, k + 1)) is None,
    ensures
        decimal_list(c) is None,
    decreases c.len(),
{
    if k + 1 < c.len() {
        assert(c.drop_last().subrange(0, k + 1) =~= c.subrange(0, k + 1));
        lemma_decimal_list_extends(c.drop_last(), k);
    } else {
        assert(c.subrange(0, k + 1) =~= c);
    }
}

/// The characters a macro expression is written with: digits, the point,
/// variable references, arithmetic operators and parentheses.
pub open spec fn expression_char(c: char) -> bool {
    is_digit(c) || c == '.' || c == '$' || c == '+' || c == '-' || c == 'x' || c == 'X' || c
        == '/' || c == '(' || c == ')'
}

/// `s` is an arithmetic expression that is not a plain number.
pub open spec fn is_expression(s: Seq<char>) -> bool {
    s.len() > 0 && decimal_in(s) is None && forall|i: int|
        0 <= i < s.len() ==> expression_char(#[trigger] s[i])
}

/// The value a macro field denotes: its number, or else its text as an
/// expression.
pub open spec fn value_of_text(s: Seq<char>) -> MacroValueView {
    match decimal_in(s) {
        Some(d) => MacroValueView::Number(d),
        None => MacroValueView::Expression(s),
    }
}

pub open spec fn value_at(c: Seq<SyntaxNode>, i: int) -> MacroValueView {
    if 0 <= i < c.len() {
        value_of_text(c[i].text@)
    } else {
        MacroValueView::Number(Decimal { mantissa: 0, scale: 0 })
    }
}

/// An exposure flag: on for 1, off for 0.
pub open spec fn flag_at(c: Seq<SyntaxNode>, i: int) -> bool {
    0 <= i < c.len() && int_in_i32(c[i].text@) == Some(1i32)
}

pub open spec fn u32_at(c: Seq<SyntaxNode>, i: int) -> u32 {
    if 0 <= i < c.len() {
        match uint_in_u32(c[i].text@) {
            Some(v) => v,
            None => 0,
        }
    } else {
        0
    }
}

/// How many vertices of an outline follow its first one: the fields after
/// the first vertex are read as pairs while at least two remain; a single
/// last field is the rotation.
pub open spec fn outline_pairs(c: Seq<SyntaxNode>) -> nat {
    if c.len() > 3 {
        ((c.len() - 3) / 2) as nat
    } else {
        0
    }
}

pub open spec fn outline_vertex(c: Seq<SyntaxNode>, k: int) -> (MacroValueView, MacroValueView) {
    (value_at(c, 1 + 2 * k), value_at(c, 2 + 2 * k))
}

pub open spec fn outline_points(c: Seq<SyntaxNode>) -> Seq<(MacroValueView, MacroValueView)> {
    Seq::new(outline_pairs(c) + 1, |k: int| outline_vertex(c, k))
}

/// A macro primitive node, decoded; `None` for a node that is no primitive.
/// Its fields are those `field_error` accepts.
pub open spec fn primitive_of(p: SyntaxNode) -> Option<PrimitiveView> {
    let c = p.children@;
    match p.rule {
        Rule::PrimitiveComment => if c.len() > 0 {
            Some(PrimitiveView::Comment(c[0].text@))
        } else {
            None
        },
        Rule::PrimitiveCircle => Some(
            PrimitiveView::Circle(
                flag_at(c, 0),
                value_at(c, 1),
                value_at(c, 2),
                value_at(c, 3),
                if c.len() > 4 {
                    Some(value_at(c, 4))
                } else {
                    None
                },
            ),
        ),
        Rule::PrimitiveVectorLine => Some(
            PrimitiveView::VectorLine(
                flag_at(c, 0),
                value_at(c, 1),
                value_at(c, 2),
                value_at(c, 3),
                value_at(c, 4),
                value_at(c, 5),
                value_at(c, 6),
            ),
        ),
        Rule::PrimitiveCenterLine => Some(
            PrimitiveView::CenterLine(
                flag_at(c, 0),
                value_at(c, 1),
                value_at(c, 2),
                value_at(c, 3),
                value_at(c, 4),
                value_at(c, 5),
            ),
        ),
        Rule::PrimitiveOutline => Some(
            PrimitiveView::Outline(
                flag_at(c, 0),
                outline_points(c),
                value_at(c, 3 + 2 * outline_pairs(c) as int),
            ),
        ),
        Rule::PrimitivePolygon => Some(
            PrimitiveView::Polygon(
                flag_at(c, 0),
                u32_at(c, 1),
                value_at(c, 2),
                value_at(c, 3),
                value_at(c, 4),
                value_at(c, 5),
            ),
        ),
        Rule::PrimitiveThermal => Some(
            PrimitiveView::Thermal(
                value_at(c, 0),
                value_at(c, 1),
                value_at(c, 2),
                value_at(c, 3),
                value_at(c, 4),
                value_at(c, 5),
            ),
        ),
        Rule::VariableDefinition => Some(
            PrimitiveView::VariableDefinition(
                u32_at(c, 0),
                if c.len() > 1 {
                    c[1].text@
                } else {
                    Seq::empty()
                },
            ),
        ),
        _ => None,
    }
}

/// The primitives of a macro body, in order, skipping nodes that are none.
pub open spec fn primitives_of(ps: Seq<SyntaxNode>) -> Seq<PrimitiveView>
    decreases ps.len(),
{
    if ps.len() == 0 {
        Seq::empty()
    } else {
        let prev = primitives_of(ps.drop_last());
        match primitive_of(ps.last()) {
            Some(p) => prev.push(p),
            None => prev,
        }
    }
}

fn is_expression_text(s: &str) -> (r: bool)
    ensures
        r == is_expression(s@),
{
    if parse_decimal(s).is_some() {
        return false;
    }
    let cs = text_chars(s);
    if cs.len() == 0 {
        return false;
    }
    let mut i: usize = 0;
    while i < cs.len()
        invariant
            cs@ == s@,
            i <= cs@.len(),
            forall|j: int| 0 <= j < i ==> expression_char(#[trigger] cs@[j]),
        decreases cs@.len() - i,
    {
        let c = cs[i];
        if !(('0' <= c && c <= '9') || c == '.' || c == '$' || c == '+' || c == '-' || c == 'x' || c
            == 'X' || c == '/' || c == '(' || c == ')') {
            return false;
        }
        i = i + 1;
    }
    true
}

fn field_value(c: &Vec<SyntaxNode>, i: usize) -> (r: MacroValue)
    ensures
        r@ == value_at(c@, i as int),
{
    if i < c.len() {
        match parse_decimal(c[i].text.as_str()) {
            Some(d) => MacroValue::Number(d),
            None => MacroValue::Expression(c[i].text.clone()),
        }
    } else {
        MacroValue::Number(Decimal { mantissa: 0, scale: 0 })
    }
}

fn field_flag(c: &Vec<SyntaxNode>, i: usize) -> (r: bool)
    ensures
        r == flag_at(c@, i as int),
{
    if i < c.len() {
        match parse_i32(c[i].text.as_str()) {
            Some(v) => v == 1,
            None => false,
        }
    } else {
        false
    }
}

fn field_u32(c: &Vec<SyntaxNode>, i: usize) -> (r: u32)
    ensures
        r == u32_at(c@, i as int),
{
    if i < c.len() {
        match parse_u32(c[i].text.as_str()) {
            Some(v) => v,
            None => 0,
        }
    } else {
        0
    }
}

fn outline(c: &Vec<SyntaxNode>) -> (r: AMPrimitive)
    ensures
        r@ == PrimitiveView::Outline(
            flag_at(c@, 0),
            outline_points(c@),
            value_at(c@, 3 + 2 * outline_pairs(c@) as int),
        ),
{
    let exposure = field_flag(c, 0);
    let pairs: usize = if c.len() > 3 {
        (c.len() - 3) / 2
    } else {
        0
    };
    let mut points: Vec<(MacroValue, MacroValue)> = Vec::new();
    let mut k: usize = 0;
    while k <= pairs
        invariant
            pairs == outline_pairs(c@),
            2 * pairs + 3 <= c@.len() || pairs == 0,
            c@.len() <= usize::MAX,
            k <= pairs + 1,
            points@.len() == k,
            points_view(points@) == Seq::new(k as nat, |j: int| outline_vertex(c@, j)),
        decreases pairs + 1 - k,
    {
        let x = field_value(c, 1 + 2 * k);
        let y = field_value(c, 2 + 2 * k);
        let ghost before = points@;
        points.push((x, y));
        assert(points@ == before.push((x, y)));
        k = k + 1;
        assert forall|j: int| 0 <= j < k implies #[trigger] points_view(points@)[j] == outline_vertex(
            c@,
            j,
        ) by {
            if j < k - 1 {
                assert(points@[j] == before[j]);
                assert(points_view(before)[j] == outline_vertex(c@, j));
            }
        }
        assert(points_view(points@) =~= Seq::new(k as nat, |j: int| outline_vertex(c@, j)));
    }
    let rotation = field_value(c, 3 + 2 * pairs);
    AMPrimitive::Outline(exposure, points, rotation)
}

/// Decodes one node of a macro body.
pub fn primitive(p: &SyntaxNode) -> (r: Option<AMPrimitive>)
    ensures
        match primitive_of(*p) {
            Some(v) => r matches Some(x) && x@ == v,
            None => r is None,
        },
{
    let c = &p.children;
    match p.rule {
        Rule::PrimitiveComment => {
            if c.len() > 0 {
                Some(AMPrimitive::Comment(c[0].text.clone()))
            } else {
                None
            }
        },
        Rule::PrimitiveCircle => {
            let rotation = if c.len() > 4 {
                Some(field_value(c, 4))
            } else {
                None
            };
            Some(
                AMPrimitive::Circle(
                    field_flag(c, 0),
                    field_value(c, 1),
                    field_value(c, 2),
                    field_value(c, 3),
                    rotation,
                ),
            )
        },
        Rule::PrimitiveVectorLine => Some(
            AMPrimitive::VectorLine(
                field_flag(c, 0),
                field_value(c, 1),
                field_value(c, 2),
                field_value(c, 3),
                field_value(c, 4),
                field_value(c, 5),
                field_value(c, 6),
            ),
        ),
        Rule::PrimitiveCenterLine => Some(
            AMPrimitive::CenterLine(
                field_flag(c, 0),
                field_value(c, 1),
                field_value(c, 2),
                field_value(c, 3),
                field_value(c, 4),
                field_value(c, 5),
            ),
        ),
        Rule::PrimitiveOutline => Some(outline(c)),
        Rule::PrimitivePolygon => Some(
            AMPrimitive::Polygon(
                field_flag(c, 0),
                field_u32(c, 1),
                field_value(c, 2),
                field_value(c, 3),
                field_value(c, 4),
                field_value(c, 5),
            ),
        ),
        Rule::PrimitiveThermal => Some(
            AMPrimitive::Thermal(
                field_value(c, 0),
                field_value(c, 1),
                field_value(c, 2),
                field_value(c, 3),
                field_value(c, 4),
                field_value(c, 5),
            ),
        ),
        Rule::VariableDefinition => {
            let expression = if c.len() > 1 {
                c[1].text.clone()
            } else {
                String::new()
            };
            Some(AMPrimitive::VariableDefinition(field_u32(c, 0), expression))
        },
        _ => None,
    }
}

/// How many fields a macro primitive of rule `r` needs at least.
pub open spec fn required_fields(r: Rule) -> int {
    match r {
        Rule::PrimitiveComment => 1,
        Rule::PrimitiveCircle => 4,
        Rule::PrimitiveVectorLine => 7,
        Rule::PrimitiveCenterLine => 6,
        Rule::PrimitiveOutline => 4,
        Rule::PrimitivePolygon => 6,
        Rule::PrimitiveThermal => 6,
        Rule::VariableDefinition => 2,
        _ => 0,
    }
}

/// The name of a macro primitive of rule `r`, as messages give it.
pub open spec fn primitive_name(r: Rule) -> Seq<char> {
    match r {
        Rule::PrimitiveComment => "comment"@,
        Rule::PrimitiveCircle => "circle"@,
        Rule::PrimitiveVectorLine => "vector line"@,
        Rule::PrimitiveCenterLine => "center line"@,
        Rule::PrimitiveOutline => "outline"@,
        Rule::PrimitivePolygon => "polygon"@,
        Rule::PrimitiveThermal => "thermal"@,
        _ => "variable definition"@,
    }
}

/// The field at position `i` of a primitive of rule `r` has the form its
/// place asks: an exposure flag (0 or 1), an unsigned count or variable
/// number, free text, or else a number or an expression.
pub open spec fn field_fits(r: Rule, t: Seq<char>, i: int) -> bool {
    if r == Rule::PrimitiveComment || (r == Rule::VariableDefinition && i >= 1) || required_fields(
        r,
    ) == 0 {
        true
    } else if r == Rule::VariableDefinition || (r == Rule::PrimitivePolygon && i == 1) {
        uint_in_u32(t) is Some
    } else if i == 0 && r != Rule::PrimitiveThermal {
        int_in_i32(t) == Some(0i32) || int_in_i32(t) == Some(1i32)
    } else {
        decimal_in(t) is Some || is_expression(t)
    }
}

/// The position of the first field of `c`, from `i` on, that does not fit.
pub open spec fn first_misfit(r: Rule, c: Seq<SyntaxNode>, i: int) -> Option<int>
    decreases c.len() - i,
{
    if i < 0 || i >= c.len() {
        None
    } else if !field_fits(r, c[i].text@, i) {
        Some(i)
    } else {
        first_misfit(r, c, i + 1)
    }
}

/// The failure of a macro primitive node whose fields do not fit its kind:
/// too few of them, an outline whose coordinates do not pair up before the
/// rotation, or a field of the wrong form. The message names the primitive
/// and the position of the field.
pub open spec fn field_error(p: SyntaxNode) -> Option<Seq<char>> {
    let c = p.children@;
    let n = c.len();
    if n < required_fields(p.rule) {
        Some(
            "Missing field "@ + nat_digits((n + 1) as nat) + " of "@ + primitive_name(p.rule)
                + " primitive."@,
        )
    } else if p.rule == Rule::PrimitiveOutline && n % 2 == 1 {
        Some("Unpaired coordinate in outline primitive."@)
    } else {
        match first_misfit(p.rule, c, 0) {
            Some(i) => Some(
                "Field "@ + nat_digits((i + 1) as nat) + " of "@ + primitive_name(p.rule)
                    + " primitive could not be parsed."@,
            ),
            None => None,
        }
    }
}

/// The first failure among the primitives of a macro body, if any.
pub open spec fn primitives_error(ps: Seq<SyntaxNode>) -> Option<Seq<char>>
    decreases ps.len(),
{
    if ps.len() == 0 {
        None
    } else {
        match primitives_error(ps.drop_last()) {
            Some(m) => Some(m),
            None => field_error(ps.last()),
        }
    }
}

proof fn lemma_primitives_error_prefix(ps: Seq<SyntaxNode>, k: int)
    requires
        0 <= k <= ps.len(),
        primitives_error(ps.subrange(0, k)) is Some,
    ensures
        primitives_error(ps) == primitives_error(ps.subrange(0, k)),
    decreases ps.len(),
{
    if k < ps.len() {
        assert(ps.drop_last().subrange(0, k) =~= ps.subrange(0, k));
        lemma_primitives_error_prefix(ps.drop_last(), k);
    } else {
        assert(ps.subrange(0, k) =~= ps);
    }
}

fn primitive_name_text(r: Rule) -> (s: &'static str)
    ensures
        s@ == primitive_name(r),
{
    match r {
        Rule::PrimitiveComment => "comment",
        Rule::PrimitiveCircle => "circle",
        Rule::PrimitiveVectorLine => "vector line",
        Rule::PrimitiveCenterLine => "center line",
        Rule::PrimitiveOutline => "outline",
        Rule::PrimitivePolygon => "polygon",
        Rule::PrimitiveThermal => "thermal",
        _ => "variable definition",
    }
}

fn required_fields_of(r: Rule) -> (n: usize)
    ensures
        n == required_fields(r),
{
    match r {
        Rule::PrimitiveComment => 1,
        Rule::PrimitiveCircle => 4,
        Rule::PrimitiveVectorLine => 7,
        Rule::PrimitiveCenterLine => 6,
        Rule::PrimitiveOutline => 4,
        Rule::PrimitivePolygon => 6,
        Rule::PrimitiveThermal => 6,
        Rule::VariableDefinition => 2,
        _ => 0,
    }
}

fn fits(r: Rule, t: &str, i: usize) -> (b: bool)
    ensures
        b == field_fits(r, t@, i as int),
{
    if r == Rule::PrimitiveComment || (r == Rule::VariableDefinition && i >= 1)
        || required_fields_of(r) == 0 {
        true
    } else if r == Rule::VariableDefinition || (r == Rule::PrimitivePolygon && i == 1) {
        parse_u32(t).is_some()
    } else if i == 0 && r != Rule::PrimitiveThermal {
        match parse_i32(t) {
            Some(v) => v == 0 || v == 1,
            None => false,
        }
    } else {
        parse_decimal(t).is_some() || is_expression_text(t)
    }
}

/// Checks that a macro primitive node has the fields its kind needs.
pub fn check_fields(p: &SyntaxNode) -> (r: Result<(), GerberError>)
    ensures
        match field_error(*p) {
            Some(m) => r matches Err(e) && is_semantic(e, m),
            None => r is Ok,
        },
{
    let c = &p.children;
    let n = c.len();
    if n < required_fields_of(p.rule) {
        let position = uint_text((n + 1) as u64);
        let message = String::from_str("Missing field ").concat(position.as_str()).concat(
            " of ",
        ).concat(primitive_name_text(p.rule)).concat(" primitive.");
        return Err(GerberError::SemanticError(message));
    }
    if p.rule == Rule::PrimitiveOutline && n % 2 == 1 {
        return Err(semantic("Unpaired coordinate in outline primitive."));
    }
    let mut i: usize = 0;
    while i < n
        invariant
            c == &p.children,
            n == c@.len(),
            i <= n,
            first_misfit(p.rule, c@, 0) == first_misfit(p.rule, c@, i as int),
            n >= required_fields(p.rule),
            !(p.rule == Rule::PrimitiveOutline && n % 2 == 1),
        decreases n - i,
    {
        if !fits(p.rule, c[i].text.as_str(), i) {
            assert(first_misfit(p.rule, c@, i as int) == Some(i as int));
            let position = uint_text((i + 1) as u64);
            let message = String::from_str("Field ").concat(position.as_str()).concat(
                " of ",
            ).concat(primitive_name_text(p.rule)).concat(" primitive could not be parsed.");
            return Err(GerberError::SemanticError(message));
        }
        i = i + 1;
    }
    Ok(())
}

/// Decodes the body of a macro: the nodes of `c` after its name.
pub fn macro_body(c: &Vec<SyntaxNode>) -> (r: Result<Vec<AMPrimitive>, GerberError>)
    requires
        c@.len() >= 1,
    ensures
        match primitives_error(c@.subrange(1, c@.len() as int)) {
            Some(m) => r matches Err(e) && is_semantic(e, m),
            None => r matches Ok(v) && primitives_view(v@) == primitives_of(
                c@.subrange(1, c@.len() as int),
            ),
        },
{
    let mut r: Vec<AMPrimitive> = Vec::new();
    let mut i: usize = 1;
    assert(c@.subrange(1, 1) =~= Seq::<SyntaxNode>::empty());
    assert(primitives_view(r@) =~= Seq::<PrimitiveView>::empty());
    while i < c.len()
        invariant
            1 <= i <= c@.len(),
            primitives_view(r@) == primitives_of(c@.subrange(1, i as int)),
            primitives_error(c@.subrange(1, i as int)) is None,
        decreases c@.len() - i,
    {
        assert(c@.subrange(1, i + 1).drop_last() =~= c@.subrange(1, i as int));
        assert(c@.subrange(1, i + 1).last() == c@[i as int]);
        match check_fields(&c[i]) {
            Ok(()) => {},
            Err(e) => {
                proof {
                    let all = c@.subrange(1, c@.len() as int);
                    assert(all.subrange(0, i as int) =~= c@.subrange(1, i + 1));
                    lemma_primitives_error_prefix(all, i as int);
                }
                return Err(e);
            },
        }
        match primitive(&c[i]) {
            Some(p) => {
                r.push(p);
                assert(primitives_view(r@) =~= primitives_of(c@.subrange(1, i as int)).push(p@));
            },
            None => {},
        }
        i = i + 1;
    }
    Ok(r)
}

} // verus!
