//! Decoding one statement node into one command.
use vstd::prelude::*;
use crate::aperture::{macro_body, primitives_error, primitives_of, template, template_of};
use crate::command::{
    Command, CommandView, D01Operation, D02Operation, D03Operation, FormatSpecification,
    primitives_view, strings_view,
};
use crate::error::{agrees, is_semantic, semantic, semantic2, semantic3, GerberError};
use crate::fields::{
    mirroring_keyword, mirroring_of, polarity_keyword, polarity_of, req_code, req_u8,
    required_code, required_u8, unit_keyword, unit_of,
};
use crate::number::{decimal_in, int_in_i32, parse_decimal, parse_i32};
use crate::syntax::{Rule, SyntaxNode};

verus! {

/// An operation with every axis absent.
pub open spec fn no_coords() -> D01Operation {
    D01Operation { x: None, y: None, i: None, j: None }
}

/// `op` updated by one coordinate node; offsets count only when `arcs`.
pub open spec fn apply_coord(op: D01Operation, ch: SyntaxNode, arcs: bool) -> Result<
    D01Operation,
    Seq<char>,
> {
    let c = ch.children@;
    if c.len() == 0 {
        Ok(op)
    } else {
        let t = c[0].text@;
        match ch.rule {
            Rule::XCoord => match int_in_i32(t) {
                Some(v) => Ok(D01Operation { x: Some(v), y: op.y, i: op.i, j: op.j }),
                None => Err("X coordinate '"@ + t + "' could not be parsed as a number."@),
            },
            Rule::YCoord => match int_in_i32(t) {
                Some(v) => Ok(D01Operation { x: op.x, y: Some(v), i: op.i, j: op.j }),
                None => Err("Y coordinate '"@ + t + "' could not be parsed as a number."@),
            },
            Rule::IjCoords => if !arcs {
                Ok(op)
            } else {
                match int_in_i32(t) {
                    None => Err("I offset '"@ + t + "' could not be parsed as a number."@),
                    Some(i) => if c.len() < 2 {
                        Err("Missing J parameter."@)
                    } else {
                        match int_in_i32(c[1].text@) {
                            None => Err(
                                "J offset '"@ + c[1].text@ + "' could not be parsed as a number."@,
                            ),
                            Some(j) => Ok(D01Operation { x: op.x, y: op.y, i: Some(i), j: Some(j) }),
                        }
                    }
                }
            },
            _ => Ok(op),
        }
    }
}

/// The coordinates of an operation, read from its nodes in order; a later
/// value for an axis replaces an earlier one.
pub open spec fn coords_of(cs: Seq<SyntaxNode>, arcs: bool) -> Result<D01Operation, Seq<char>>
    decreases cs.len(),
{
    if cs.len() == 0 {
        Ok(no_coords())
    } else {
        match coords_of(cs.drop_last(), arcs) {
            Err(m) => Err(m),
            Ok(op) => apply_coord(op, cs.last(), arcs),
        }
    }
}

/// A failure on a prefix is the failure of the whole.
pub proof fn lemma_coords_prefix_err(cs: Seq<SyntaxNode>, k: int, arcs: bool)
    requires
        0 <= k <= cs.len(),
        coords_of(cs.subrange(0, k), arcs) is Err,
    ensures
        coords_of(cs, arcs) == coords_of(cs.subrange(0, k), arcs),
    decreases cs.len(),
{
    if k < cs.len() {
        assert(cs.drop_last().subrange(0, k) =~= cs.subrange(0, k));
        lemma_coords_prefix_err(cs.drop_last(), k, arcs);
    } else {
        assert(cs.subrange(0, k) =~= cs);
    }
}

fn apply(op: D01Operation, ch: &SyntaxNode, arcs: bool) -> (r: Result<D01Operation, GerberError>)
    ensures
        agrees(r, apply_coord(op, *ch, arcs)),
{
    let c = &ch.children;
    if c.len() == 0 {
        return Ok(op);
    }
    let t = c[0].text.as_str();
    match ch.rule {
        Rule::XCoord => match parse_i32(t) {
            Some(v) => Ok(D01Operation { x: Some(v), y: op.y, i: op.i, j: op.j }),
            None => Err(semantic3("X coordinate '", t, "' could not be parsed as a number.")),
        },
        Rule::YCoord => match parse_i32(t) {
            Some(v) => Ok(D01Operation { x: op.x, y: Some(v), i: op.i, j: op.j }),
            None => Err(semantic3("Y coordinate '", t, "' could not be parsed as a number.")),
        },
        Rule::IjCoords => {
            if !arcs {
                return Ok(op);
            }
            match parse_i32(t) {
                None => Err(semantic3("I offset '", t, "' could not be parsed as a number.")),
                Some(i) => {
                    if c.len() < 2 {
                        return Err(semantic("Missing J parameter."));
                    }
                    let u = c[1].text.as_str();
                    match parse_i32(u) {
                        None => Err(
                            semantic3("J offset '", u, "' could not be parsed as a number."),
                        ),
                        Some(j) => Ok(D01Operation { x: op.x, y: op.y, i: Some(i), j: Some(j) }),
                    }
                }
            }
        },
        _ => Ok(op),
    }
}

/// Reads the coordinates of an operation.
pub fn coords(c: &Vec<SyntaxNode>, arcs: bool) -> (r: Result<D01Operation, GerberError>)
    ensures
        agrees(r, coords_of(c@, arcs)),
{
    let mut op = D01Operation { x: None, y: None, i: None, j: None };
    let mut k: usize = 0;
    assert(c@.subrange(0, 0) =~= Seq::<SyntaxNode>::empty());
    while k < c.len()
        invariant
            k <= c@.len(),
            coords_of(c@.subrange(0, k as int), arcs) == Ok::<D01Operation, Seq<char>>(op),
        decreases c@.len() - k,
    {
        assert(c@.subrange(0, k + 1).drop_last() =~= c@.subrange(0, k as int));
        assert(c@.subrange(0, k + 1).last() == c@[k as int]);
        match apply(op, &c[k], arcs) {
            Ok(next) => op = next,
            Err(e) => {
                proof {
                    lemma_coords_prefix_err(c@, k + 1, arcs);
                }
                return Err(e);
            },
        }
        k = k + 1;
    }
    assert(c@.subrange(0, k as int) =~= c@);
    Ok(op)
}

/// The values of an attribute statement: every node after the name.
pub open spec fn values_of(c: Seq<SyntaxNode>) -> Seq<Seq<char>> {
    Seq::new((c.len() - 1) as nat, |k: int| c[k + 1].text@)
}

fn attribute_values(c: &Vec<SyntaxNode>) -> (r: Vec<String>)
    requires
        c@.len() >= 1,
    ensures
        strings_view(r@) == values_of(c@),
{
    let mut r: Vec<String> = Vec::new();
    let mut k: usize = 1;
    while k < c.len()
        invariant
            1 <= k <= c@.len(),
            r@.len() == k - 1,
            strings_view(r@) == Seq::new((k - 1) as nat, |j: int| c@[j + 1].text@),
        decreases c@.len() - k,
    {
        let s = c[k].text.clone();
        assert(s@ == c@[k as int].text@);
        let ghost before = r@;
        r.push(s);
        assert(r@ == before.push(s));
        k = k + 1;
        assert forall|j: int| 0 <= j < k - 1 implies #[trigger] strings_view(r@)[j] == c@[j
            + 1].text@ by {
            if j < k - 2 {
                assert(r@[j] == before[j]);
                assert(strings_view(before)[j] == before[j]@);
            } else {
                assert(r@[j] == s);
            }
        }
        assert(strings_view(r@) =~= Seq::new((k - 1) as nat, |j: int| c@[j + 1].text@));
    }
    r
}

/// The FS statement's four digit counts, in order.
pub open spec fn format_of(c: Seq<SyntaxNode>) -> Result<FormatSpecification, Seq<char>> {
    match req_u8(
        c,
        0,
        "Missing X integer digits in FS command."@,
        "X integer digits could not be parsed as a number."@,
    ) {
        Err(m) => Err(m),
        Ok(a) => match req_u8(
            c,
            1,
            "Missing X decimal digits in FS command."@,
            "X decimal digits could not be parsed as a number."@,
        ) {
            Err(m) => Err(m),
            Ok(b) => match req_u8(
                c,
                2,
                "Missing Y integer digits in FS command."@,
                "Y integer digits could not be parsed as a number."@,
            ) {
                Err(m) => Err(m),
                Ok(d) => match req_u8(
                    c,
                    3,
                    "Missing Y decimal digits in FS command."@,
                    "Y decimal digits could not be parsed as a number."@,
                ) {
                    Err(m) => Err(m),
                    Ok(e) => if c.len() > 4 {
                        Err("Unexpected additional arguments for FS command."@)
                    } else {
                        Ok(
                            FormatSpecification {
                                x_integer_digits: a,
                                x_decimal_digits: b,
                                y_integer_digits: d,
                                y_decimal_digits: e,
                            },
                        )
                    },
                },
            },
        },
    }
}

fn format(c: &Vec<SyntaxNode>) -> (r: Result<FormatSpecification, GerberError>)
    ensures
        agrees(r, format_of(c@)),
{
    let a = required_u8(
        c,
        0,
        "Missing X integer digits in FS command.",
        "X integer digits could not be parsed as a number.",
    )?;
    let b = required_u8(
        c,
        1,
        "Missing X decimal digits in FS command.",
        "X decimal digits could not be parsed as a number.",
    )?;
    let d = required_u8(
        c,
        2,
        "Missing Y integer digits in FS command.",
        "Y integer digits could not be parsed as a number.",
    )?;
    let e = required_u8(
        c,
        3,
        "Missing Y decimal digits in FS command.",
        "Y decimal digits could not be parsed as a number.",
    )?;
    if c.len() > 4 {
        return Err(semantic("Unexpected additional arguments for FS command."));
    }
    Ok(
        FormatSpecification {
            x_integer_digits: a,
            x_decimal_digits: b,
            y_integer_digits: d,
            y_decimal_digits: e,
        },
    )
}

/// A statement node, decoded: the command it stands for, `None` for a node
/// that yields no command, or the message of the first failure.
pub open spec fn statement_of(n: SyntaxNode) -> Result<Option<CommandView>, Seq<char>> {
    let c = n.children@;
    match n.rule {
        Rule::G04 => if c.len() == 0 {
            Err("No comment was detected for G04."@)
        } else if c.len() > 1 {
            Err("Unexpected additional arguments for G04 command."@)
        } else {
            Ok(Some(CommandView::G04(c[0].text@)))
        },
        Rule::Mo => if c.len() == 0 {
            Err("No unit was specified for MO command."@)
        } else {
            match unit_of(c[0].text@) {
                None => Err("Unrecognized unit: "@ + c[0].text@),
                Some(u) => if c.len() > 1 {
                    Err("Unexpected additional arguments for MO command."@)
                } else {
                    Ok(Some(CommandView::MO(u)))
                },
            }
        },
        Rule::Fs => match format_of(c) {
            Err(m) => Err(m),
            Ok(f) => Ok(Some(CommandView::FS(f))),
        },
        Rule::Ad => match req_code(c, "Missing aperture code in AD command."@) {
            Err(m) => Err(m),
            Ok(code) => if c.len() < 2 {
                Err("Missing aperture template in AD command."@)
            } else {
                match template_of(c[1]) {
                    Err(m) => Err(m),
                    Ok(t) => Ok(Some(CommandView::AD(code, t))),
                }
            },
        },
        Rule::Am => if c.len() == 0 {
            Ok(Some(CommandView::AM(Seq::empty(), Seq::empty())))
        } else {
            match primitives_error(c.subrange(1, c.len() as int)) {
                Some(m) => Err(m),
                None => Ok(
                    Some(CommandView::AM(c[0].text@, primitives_of(c.subrange(1, c.len() as int)))),
                ),
            }
        },
        Rule::Dnn => match req_code(c, "Missing aperture code in Dnn command."@) {
            Err(m) => Err(m),
            Ok(code) => Ok(Some(CommandView::Dnn(code))),
        },
        Rule::G01 => Ok(Some(CommandView::G01)),
        Rule::G02 => Ok(Some(CommandView::G02)),
        Rule::G03 => Ok(Some(CommandView::G03)),
        Rule::G75 => Ok(Some(CommandView::G75)),
        Rule::D01 => match coords_of(c, true) {
            Err(m) => Err(m),
            Ok(op) => Ok(Some(CommandView::D01(op))),
        },
        Rule::D02 => match coords_of(c, false) {
            Err(m) => Err(m),
            Ok(op) => Ok(Some(CommandView::D02(D02Operation { x: op.x, y: op.y }))),
        },
        Rule::D03 => match coords_of(c, false) {
            Err(m) => Err(m),
            Ok(op) => Ok(Some(CommandView::D03(D03Operation { x: op.x, y: op.y }))),
        },
        Rule::Lp => if c.len() == 0 {
            Err("Missing polarity in LP command."@)
        } else {
            match polarity_of(c[0].text@) {
                None => Err("Unrecognized polarity: "@ + c[0].text@),
                Some(p) => Ok(Some(CommandView::LP(p))),
            }
        },
        Rule::Lm => if c.len() == 0 {
            Err("Missing mirroring parameter in LM command."@)
        } else {
            match mirroring_of(c[0].text@) {
                None => Err("Unrecognized mirroring parameter: "@ + c[0].text@),
                Some(m) => Ok(Some(CommandView::LM(m))),
            }
        },
        Rule::Lr => if c.len() == 0 {
            Err("Missing rotation angle in LR command."@)
        } else {
            match decimal_in(c[0].text@) {
                None => Err(
                    "Rotation angle '"@ + c[0].text@ + "' could not be parsed as a number."@,
                ),
                Some(d) => Ok(Some(CommandView::LR(d))),
            }
        },
        Rule::Ls => if c.len() == 0 {
            Err("Missing scaling factor in LS command."@)
        } else {
            match decimal_in(c[0].text@) {
                None => Err(
                    "Scaling factor '"@ + c[0].text@ + "' could not be parsed as a number."@,
                ),
                Some(d) => Ok(Some(CommandView::LS(d))),
            }
        },
        Rule::Tf => if c.len() == 0 {
            Err("Missing attribute name in TF command."@)
        } else {
            Ok(Some(CommandView::TF(c[0].text@, values_of(c))))
        },
        Rule::Ta => if c.len() == 0 {
            Err("Missing attribute name in TA command."@)
        } else {
            Ok(Some(CommandView::TA(c[0].text@, values_of(c))))
        },
        Rule::To => if c.len() == 0 {
            Err("Missing attribute name in TO command."@)
        } else {
            Ok(Some(CommandView::TO(c[0].text@, values_of(c))))
        },
        Rule::Td => Ok(
            Some(
                CommandView::TD(
                    if c.len() > 0 {
                        Some(c[0].text@)
                    } else {
                        None
                    },
                ),
            ),
        ),
        Rule::M02 => Ok(Some(CommandView::M02)),
        _ => Ok(None),
    }
}

/// Decodes a statement node.
pub fn statement(n: &SyntaxNode) -> (r: Result<Option<Command>, GerberError>)
    ensures
        match statement_of(*n) {
            Ok(Some(v)) => r matches Ok(Some(x)) && x@ == v,
            Ok(None) => r matches Ok(None),
            Err(m) => r matches Err(e) && is_semantic(e, m),
        },
{
    let c = &n.children;
    match n.rule {
        Rule::G04 => {
            if c.len() == 0 {
                return Err(semantic("No comment was detected for G04."));
            }
            if c.len() > 1 {
                return Err(semantic("Unexpected additional arguments for G04 command."));
            }
            Ok(Some(Command::G04(c[0].text.clone())))
        },
        Rule::Mo => {
            if c.len() == 0 {
                return Err(semantic("No unit was specified for MO command."));
            }
            let t = c[0].text.as_str();
            match unit_keyword(t) {
                None => Err(semantic2("Unrecognized unit: ", t)),
                Some(u) => {
                    if c.len() > 1 {
                        return Err(semantic("Unexpected additional arguments for MO command."));
                    }
                    Ok(Some(Command::MO(u)))
                },
            }
        },
        Rule::Fs => {
            let f = format(c)?;
            Ok(Some(Command::FS(f)))
        },
        Rule::Ad => {
            let code = required_code(c, "Missing aperture code in AD command.")?;
            if c.len() < 2 {
                return Err(semantic("Missing aperture template in AD command."));
            }
            let t = template(&c[1])?;
            Ok(Some(Command::AD(crate::command::ApertureDefinition { code, template: t })))
        },
        Rule::Am => {
            if c.len() == 0 {
                assert(primitives_view(Seq::<crate::command::AMPrimitive>::empty()) =~= Seq::<
                    crate::command::PrimitiveView,
                >::empty());
                return Ok(Some(Command::AM(String::new(), Vec::new())));
            }
            let body = macro_body(c)?;
            Ok(Some(Command::AM(c[0].text.clone(), body)))
        },
        Rule::Dnn => {
            let code = required_code(c, "Missing aperture code in Dnn command.")?;
            Ok(Some(Command::Dnn(code)))
        },
        Rule::G01 => Ok(Some(Command::G01)),
        Rule::G02 => Ok(Some(Command::G02)),
        Rule::G03 => Ok(Some(Command::G03)),
        Rule::G75 => Ok(Some(Command::G75)),
        Rule::D01 => {
            let op = coords(c, true)?;
            Ok(Some(Command::D01(op)))
        },
        Rule::D02 => {
            let op = coords(c, false)?;
            Ok(Some(Command::D02(D02Operation { x: op.x, y: op.y })))
        },
        Rule::D03 => {
            let op = coords(c, false)?;
            Ok(Some(Command::D03(D03Operation { x: op.x, y: op.y })))
        },
        Rule::Lp => {
            if c.len() == 0 {
                return Err(semantic("Missing polarity in LP command."));
            }
            let t = c[0].text.as_str();
            match polarity_keyword(t) {
                None => Err(semantic2("Unrecognized polarity: ", t)),
                Some(p) => Ok(Some(Command::LP(p))),
            }
        },
        Rule::Lm => {
            if c.len() == 0 {
                return Err(semantic("Missing mirroring parameter in LM command."));
            }
            let t = c[0].text.as_str();
            match mirroring_keyword(t) {
                None => Err(semantic2("Unrecognized mirroring parameter: ", t)),
                Some(m) => Ok(Some(Command::LM(m))),
            }
        },
        Rule::Lr => {
            if c.len() == 0 {
                return Err(semantic("Missing rotation angle in LR command."));
            }
            let t = c[0].text.as_str();
            match parse_decimal(t) {
                None => Err(semantic3("Rotation angle '", t, "' could not be parsed as a number.")),
                Some(d) => Ok(Some(Command::LR(d))),
            }
        },
        Rule::Ls => {
            if c.len() == 0 {
                return Err(semantic("Missing scaling factor in LS command."));
            }
            let t = c[0].text.as_str();
            match parse_decimal(t) {
                None => Err(semantic3("Scaling factor '", t, "' could not be parsed as a number.")),
                Some(d) => Ok(Some(Command::LS(d))),
            }
        },
        Rule::Tf => {
            if c.len() == 0 {
                return Err(semantic("Missing attribute name in TF command."));
            }
            Ok(Some(Command::TF(c[0].text.clone(), attribute_values(c))))
        },
        Rule::Ta => {
            if c.len() == 0 {
                return Err(semantic("Missing attribute name in TA command."));
            }
            Ok(Some(Command::TA(c[0].text.clone(), attribute_values(c))))
        },
        Rule::To => {
            if c.len() == 0 {
                return Err(semantic("Missing attribute name in TO command."));
            }
            Ok(Some(Command::TO(c[0].text.clone(), attribute_values(c))))
        },
        Rule::Td => {
            if c.len() == 0 {
                return Ok(Some(Command::TD(None)));
            }
            Ok(Some(Command::TD(Some(c[0].text.clone()))))
        },
        Rule::M02 => Ok(Some(Command::M02)),
        _ => Ok(None),
    }
}

} // verus!
