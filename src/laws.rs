//! Properties of the decoder as a whole, proved from its definitions.
use vstd::prelude::*;
use crate::aperture::{
    decimal_list, field_error, field_fits, first_misfit, outline_pairs, outline_points,
    outline_vertex, primitive_of, primitives_error, primitives_of, required_fields, template_of,
    value_at,
};
use crate::command::{CommandView, D01Operation};
use crate::emit::{
    all_canonical, all_valid_primitives, canonical, emittable, region_state, valid_command,
    valid_primitive, valid_template, valid_value,
};
use crate::fields::unit_of;
use crate::number::{
    all_digits, decimal_in, digit_value, digits_value, fraction_part, int_in_i32, integer_part,
    lemma_digits_concat, lemma_digits_value_nonneg, lemma_trim_zeros, signed_body, trim_zeros,
    Decimal,
};
use crate::parser::{
    contour_run, decode_children, decode_contours, decode_node, is_inert, is_statement,
    lemma_contours_stop, parse_of,
};
use crate::statement::{coords_of, lemma_coords_prefix_err, statement_of};
use crate::syntax::{Rule, SyntaxNode};

verus! {

/// A coordinate format statement with three or with five tokens fails: the
/// format takes exactly four.
pub proof fn format_takes_four_tokens(n: SyntaxNode, in_region: bool)
    requires
        n.rule == Rule::Fs,
        n.children@.len() == 3 || n.children@.len() == 5,
    ensures
        decode_node(n, in_region) is Err,
{
}

/// A draw whose coordinates before an offset node decode, and whose offset
/// node carries an I offset but no J offset, fails with "Missing J
/// parameter.".
pub proof fn draw_offset_needs_j(n: SyntaxNode, k: int, in_region: bool)
    requires
        n.rule == Rule::D01,
        0 <= k < n.children@.len(),
        n.children@[k].rule == Rule::IjCoords,
        n.children@[k].children@.len() == 1,
        int_in_i32(n.children@[k].children@[0].text@) is Some,
        coords_of(n.children@.subrange(0, k), true) is Ok,
    ensures
        decode_node(n, in_region) == Err::<Seq<CommandView>, Seq<char>>("Missing J parameter."@),
{
    let c = n.children@;
    assert(c.subrange(0, k + 1).drop_last() =~= c.subrange(0, k));
    assert(c.subrange(0, k + 1).last() == c[k]);
    assert(coords_of(c.subrange(0, k + 1), true) == Err::<D01Operation, Seq<char>>(
        "Missing J parameter."@,
    ));
    lemma_coords_prefix_err(c, k + 1, true);
}

/// A draw whose last coordinate node carries both offsets, after
/// coordinates that decode, holds both offsets.
pub proof fn draw_offsets_filled(n: SyntaxNode, in_region: bool)
    requires
        n.rule == Rule::D01,
        n.children@.len() >= 1,
        n.children@.last().rule == Rule::IjCoords,
        n.children@.last().children@.len() >= 2,
        int_in_i32(n.children@.last().children@[0].text@) is Some,
        int_in_i32(n.children@.last().children@[1].text@) is Some,
        coords_of(n.children@.drop_last(), true) is Ok,
    ensures
        ({
            let p = coords_of(n.children@.drop_last(), true)->Ok_0;
            let t = n.children@.last().children@;
            decode_node(n, in_region) == Ok::<Seq<CommandView>, Seq<char>>(
                seq![
                    CommandView::D01(
                        D01Operation {
                            x: p.x,
                            y: p.y,
                            i: int_in_i32(t[0].text@),
                            j: int_in_i32(t[1].text@),
                        },
                    ),
                ],
            )
        }),
{
}

/// A region whose children are a begin token, two contours and a closing
/// node decodes to the begin marker, the operations of the first contour,
/// those of the second, in order, and the end marker.
pub proof fn region_of_two_contours(n: SyntaxNode)
    requires
        n.rule == Rule::RegionStatement,
        n.children@.len() == 4,
        n.children@[1].rule == Rule::Contour,
        n.children@[2].rule == Rule::Contour,
        n.children@[3].rule != Rule::Contour,
        decode_children(n.children@[1], n.children@[1].children@.len() as int, true) is Ok,
        decode_children(n.children@[2], n.children@[2].children@.len() as int, true) is Ok,
    ensures
        decode_node(n, false) == Ok::<Seq<CommandView>, Seq<char>>(
            seq![CommandView::G36] + decode_children(
                n.children@[1],
                n.children@[1].children@.len() as int,
                true,
            )->Ok_0 + decode_children(
                n.children@[2],
                n.children@[2].children@.len() as int,
                true,
            )->Ok_0 + seq![CommandView::G37],
        ),
{
    let c = n.children@;
    let a = decode_children(c[1], c[1].children@.len() as int, true)->Ok_0;
    let b = decode_children(c[2], c[2].children@.len() as int, true)->Ok_0;
    lemma_contours_stop(n, 3, 4);
    assert(decode_contours(n, 1) == Ok::<Seq<CommandView>, Seq<char>>(Seq::empty()));
    assert(decode_contours(n, 2) == Ok::<Seq<CommandView>, Seq<char>>(Seq::empty() + a));
    assert(decode_contours(n, 3) == Ok::<Seq<CommandView>, Seq<char>>(Seq::empty() + a + b));
    assert(Seq::<CommandView>::empty() + a + b =~= a + b);
    assert(seq![CommandView::G36] + (a + b) + seq![CommandView::G37] =~= seq![CommandView::G36]
        + a + b + seq![CommandView::G37]);
}

/// An axis holds unless the source gives it: decoding coordinate nodes
/// among which none for the X axis carries a value leaves X absent, and
/// likewise for Y; offsets are read only for a draw.
pub proof fn omitted_axis_holds(cs: Seq<SyntaxNode>, arcs: bool)
    requires
        coords_of(cs, arcs) is Ok,
    ensures
        (forall|i: int| 0 <= i < cs.len() && (#[trigger] cs[i]).rule == Rule::XCoord
            ==> cs[i].children@.len() == 0) ==> coords_of(cs, arcs)->Ok_0.x is None,
        (forall|i: int| 0 <= i < cs.len() && (#[trigger] cs[i]).rule == Rule::YCoord
            ==> cs[i].children@.len() == 0) ==> coords_of(cs, arcs)->Ok_0.y is None,
        !arcs ==> coords_of(cs, arcs)->Ok_0.i is None && coords_of(cs, arcs)->Ok_0.j is None,
    decreases cs.len(),
{
    if cs.len() > 0 {
        omitted_axis_holds(cs.drop_last(), arcs);
        assert forall|i: int| 0 <= i < cs.drop_last().len() implies #[trigger] cs.drop_last()[i]
            == cs[i] by {}
        assert(cs.last() == cs[cs.len() - 1]);
    }
}

/// A unit statement whose token is neither "MM" nor "IN", in any case,
/// fails with a message naming the token.
pub proof fn unknown_unit_rejected(n: SyntaxNode, in_region: bool)
    requires
        n.rule == Rule::Mo,
        n.children@.len() >= 1,
        unit_of(n.children@[0].text@) is None,
    ensures
        decode_node(n, in_region) == Err::<Seq<CommandView>, Seq<char>>(
            "Unrecognized unit: "@ + n.children@[0].text@,
        ),
{
}

/// A tree that yields no command, because it holds no statement or only
/// nodes set aside, is an empty file: parsing it fails, and no parse returns
/// an empty command sequence.
pub proof fn empty_file_rejected(root: SyntaxNode)
    ensures
        parse_of(root) matches Ok(cs) ==> cs.len() > 0,
        decode_children(root, root.children@.len() as int, false) == Ok::<
            Seq<CommandView>,
            Seq<char>,
        >(Seq::empty()) ==> parse_of(root) == Err::<Seq<CommandView>, Seq<char>>(
            "Empty Gerber file."@,
        ),
{
}

/// A trimmed digit string that is not empty ends in a nonzero character.
proof fn lemma_trim_last(s: Seq<char>)
    ensures
        trim_zeros(s).len() > 0 ==> trim_zeros(s).last() != '0',
    decreases s.len(),
{
    if s.len() > 0 && s.last() == '0' {
        lemma_trim_last(s.drop_last());
    }
}

/// Decoded decimals are canonical.
proof fn lemma_decimal_canonical(s: Seq<char>)
    requires
        decimal_in(s) is Some,
    ensures
        canonical(decimal_in(s)->0),
{
    let b = signed_body(s);
    let ip = integer_part(b);
    let fp = fraction_part(b);
    let t = trim_zeros(fp);
    let x = ip + t;
    let m = digits_value(x);
    lemma_digits_concat(ip, fp);
    lemma_digits_value_nonneg(x);
    if t.len() > 0 {
        lemma_trim_last(fp);
        lemma_trim_zeros(fp);
        assert(x.last() == t.last());
        assert(all_digits(x));
        assert('0' <= x.last() <= '9');
        let d = digit_value(x.last());
        assert(0 < d < 10);
        lemma_digits_value_nonneg(x.drop_last());
        assert(m == 10 * digits_value(x.drop_last()) + d);
        let q = digits_value(x.drop_last());
        assert(m % 10 == d) by (nonlinear_arith)
            requires
                m == 10 * q + d,
                0 < d < 10,
                q >= 0,
        ;
        assert((-m) % 10 != 0) by (nonlinear_arith)
            requires
                m % 10 == d,
                0 < d < 10,
        ;
    }
}

proof fn lemma_decimal_list_canonical(c: Seq<SyntaxNode>)
    requires
        decimal_list(c) is Some,
    ensures
        all_canonical(decimal_list(c)->0),
    decreases c.len(),
{
    if c.len() > 0 {
        lemma_decimal_list_canonical(c.drop_last());
        lemma_decimal_canonical(c.last().text@);
        let ds = decimal_list(c)->0;
        let prev = decimal_list(c.drop_last())->0;
        assert forall|i: int| 0 <= i < ds.len() implies canonical(#[trigger] ds[i]) by {
            if i < prev.len() {
                assert(ds[i] == prev[i]);
            }
        }
    }
}

proof fn lemma_fits_from(r: Rule, c: Seq<SyntaxNode>, k: int, i: int)
    requires
        0 <= k <= i < c.len(),
        first_misfit(r, c, k) is None,
    ensures
        field_fits(r, c[i].text@, i),
    decreases i - k,
{
    if k < i {
        lemma_fits_from(r, c, k + 1, i);
    }
}

/// A field in a value place of a primitive whose fields all fit decodes to
/// a value canonical text can carry.
proof fn lemma_value_valid(r: Rule, c: Seq<SyntaxNode>, i: int)
    requires
        first_misfit(r, c, 0) is None,
        required_fields(r) > 0,
        r != Rule::PrimitiveComment && r != Rule::VariableDefinition,
        i >= 1 || r == Rule::PrimitiveThermal,
        !(r == Rule::PrimitivePolygon && i == 1),
    ensures
        valid_value(value_at(c, i)),
{
    if 0 <= i < c.len() {
        lemma_fits_from(r, c, 0, i);
        if decimal_in(c[i].text@) is Some {
            lemma_decimal_canonical(c[i].text@);
        }
    }
}

proof fn lemma_template_valid(t: SyntaxNode)
    requires
        template_of(t) is Ok,
    ensures
        valid_template(template_of(t)->Ok_0),
{
    let c = t.children@;
    assert forall|j: int| 0 <= j < c.len() && decimal_in(#[trigger] c[j].text@) is Some implies canonical(
        decimal_in(c[j].text@)->0,
    ) by {
        lemma_decimal_canonical(c[j].text@);
    }
    if t.rule == Rule::TemplateName && c.len() > 0 {
        lemma_decimal_list_canonical(c.subrange(1, c.len() as int));
    }
    if t.rule == Rule::TemplateName && c.len() == 0 {
        assert(decimal_list(Seq::<SyntaxNode>::empty()) == Some(
            Seq::<Decimal>::empty(),
        ));
    }
}

proof fn lemma_primitive_valid(p: SyntaxNode)
    requires
        primitive_of(p) is Some,
        field_error(p) is None,
    ensures
        valid_primitive(primitive_of(p)->0),
{
    let c = p.children@;
    let r = p.rule;
    if r != Rule::PrimitiveComment && r != Rule::VariableDefinition {
        assert forall|i: int|
            (i >= 1 || r == Rule::PrimitiveThermal) && !(r == Rule::PrimitivePolygon && i == 1)
                implies #[trigger] valid_value(value_at(c, i)) by {
            lemma_value_valid(r, c, i);
        }
        if r == Rule::PrimitiveOutline {
            let pts = outline_points(c);
            assert forall|k: int| 0 <= k < pts.len() implies valid_value((#[trigger] pts[k]).0)
                && valid_value(pts[k].1) by {
                assert(pts[k] == outline_vertex(c, k));
                assert(valid_value(value_at(c, 1 + 2 * k)));
                assert(valid_value(value_at(c, 2 + 2 * k)));
            }
            assert(valid_value(value_at(c, 3 + 2 * outline_pairs(c) as int)));
        }
    }
}

proof fn lemma_primitives_valid(ps: Seq<SyntaxNode>)
    requires
        primitives_error(ps) is None,
    ensures
        all_valid_primitives(primitives_of(ps)),
    decreases ps.len(),
{
    if ps.len() > 0 {
        lemma_primitives_valid(ps.drop_last());
        let prev = primitives_of(ps.drop_last());
        let all = primitives_of(ps);
        if primitive_of(ps.last()) is Some {
            assert(field_error(ps.last()) is None);
            lemma_primitive_valid(ps.last());
        }
        assert forall|i: int| 0 <= i < all.len() implies valid_primitive(#[trigger] all[i]) by {
            if i < prev.len() {
                assert(all[i] == prev[i]);
            }
        }
    }
}

proof fn lemma_coords_paired(cs: Seq<SyntaxNode>, arcs: bool)
    requires
        coords_of(cs, arcs) is Ok,
    ensures
        (coords_of(cs, arcs)->Ok_0.i is Some) == (coords_of(cs, arcs)->Ok_0.j is Some),
        !arcs ==> coords_of(cs, arcs)->Ok_0.i is None,
    decreases cs.len(),
{
    if cs.len() > 0 {
        lemma_coords_paired(cs.drop_last(), arcs);
    }
}

/// A decoded statement is one that canonical text can carry.
proof fn lemma_statement_valid(n: SyntaxNode)
    requires
        statement_of(n) matches Ok(Some(_)),
    ensures
        valid_command(statement_of(n)->Ok_0->0),
{
    let c = n.children@;
    match n.rule {
        Rule::Ad => {
            lemma_template_valid(c[1]);
        },
        Rule::Am => {
            if c.len() > 0 {
                lemma_primitives_valid(c.subrange(1, c.len() as int));
            }
        },
        Rule::D01 => {
            lemma_coords_paired(c, true);
        },
        Rule::Lr | Rule::Ls => {
            lemma_decimal_canonical(c[0].text@);
        },
        _ => {},
    }
}

/// Every command of `p` stands outside the region structure.
pub open spec fn all_plain(p: Seq<CommandView>) -> bool {
    forall|i: int| 0 <= i < p.len() ==> valid_command(#[trigger] p[i])
}

proof fn lemma_state_concat(a: Seq<CommandView>, b: Seq<CommandView>, st: Option<bool>)
    ensures
        region_state(a + b, st) == region_state(b, region_state(a, st)),
    decreases b.len(),
{
    if b.len() == 0 {
        assert(a + b =~= a);
    } else {
        lemma_state_concat(a, b.drop_last(), st);
        assert((a + b).drop_last() =~= a + b.drop_last());
    }
}

proof fn lemma_plain_state(p: Seq<CommandView>, inside: bool)
    requires
        all_plain(p),
    ensures
        region_state(p, Some(inside)) == Some(inside),
    decreases p.len(),
{
    if p.len() > 0 {
        lemma_plain_state(p.drop_last(), inside);
        assert(valid_command(p[p.len() - 1]));
    }
}

/// What a sequence of decoded nodes satisfies: inside a region only plain
/// commands, outside it regions that open and close in turn.
pub open spec fn well_formed(cs: Seq<CommandView>, in_region: bool) -> bool {
    if in_region {
        all_plain(cs)
    } else {
        region_state(cs, Some(false)) == Some(false)
    }
}

proof fn lemma_well_formed_concat(a: Seq<CommandView>, b: Seq<CommandView>, in_region: bool)
    requires
        well_formed(a, in_region),
        well_formed(b, in_region),
    ensures
        well_formed(a + b, in_region),
{
    if in_region {
        assert forall|i: int| 0 <= i < (a + b).len() implies valid_command(#[trigger] (a + b)[i]) by {
            if i < a.len() {
                assert((a + b)[i] == a[i]);
            } else {
                assert((a + b)[i] == b[i - a.len()]);
            }
        }
    } else {
        lemma_state_concat(a, b, Some(false));
    }
}

proof fn lemma_node_well_formed(n: SyntaxNode, in_region: bool)
    requires
        decode_node(n, in_region) is Ok,
    ensures
        well_formed(decode_node(n, in_region)->Ok_0, in_region),
    decreases n, n.children@.len() + 1,
{
    let c = n.children@;
    let cs = decode_node(n, in_region)->Ok_0;
    if is_statement(n.rule) {
        match statement_of(n) {
            Ok(Some(cmd)) => {
                lemma_statement_valid(n);
                assert(cs =~= seq![cmd]);
                assert(seq![cmd][0] == cmd);
                assert(seq![cmd].drop_last() =~= Seq::<CommandView>::empty());
                assert(seq![cmd].last() == cmd);
                assert(region_state(Seq::<CommandView>::empty(), Some(false)) == Some(false));
            },
            _ => {
                assert(cs =~= Seq::<CommandView>::empty());
            },
        }
    } else if n.rule == Rule::RegionStatement {
        lemma_contours_plain(n, c.len() as int);
        let body = decode_contours(n, c.len() as int)->Ok_0;
        assert(cs == seq![CommandView::G36] + body + seq![CommandView::G37]);
        lemma_plain_state(body, true);
        lemma_state_concat(seq![CommandView::G36], body, Some(false));
        lemma_state_concat(seq![CommandView::G36] + body, seq![CommandView::G37], Some(false));
        assert(region_state(seq![CommandView::G36], Some(false)) == Some(true)) by {
            assert(seq![CommandView::G36].drop_last() =~= Seq::<CommandView>::empty());
            assert(seq![CommandView::G36].last() == CommandView::G36);
            assert(region_state(Seq::<CommandView>::empty(), Some(false)) == Some(false));
        }
        assert(region_state(seq![CommandView::G37], Some(true)) == Some(false)) by {
            assert(seq![CommandView::G37].drop_last() =~= Seq::<CommandView>::empty());
            assert(seq![CommandView::G37].last() == CommandView::G37);
            assert(region_state(Seq::<CommandView>::empty(), Some(true)) == Some(true));
        }
    } else if is_inert(n.rule) {
    } else {
        lemma_children_well_formed(n, c.len() as int, in_region);
    }
}

proof fn lemma_children_well_formed(n: SyntaxNode, k: int, in_region: bool)
    requires
        decode_children(n, k, in_region) is Ok,
    ensures
        well_formed(decode_children(n, k, in_region)->Ok_0, in_region),
    decreases n, k,
{
    if k <= 0 || k > n.children@.len() {
        assert(all_plain(Seq::<CommandView>::empty()));
    } else {
        assert(decreases_to!(n => n.children@[k - 1]));
        lemma_children_well_formed(n, k - 1, in_region);
        lemma_node_well_formed(n.children@[k - 1], in_region);
        lemma_well_formed_concat(
            decode_children(n, k - 1, in_region)->Ok_0,
            decode_node(n.children@[k - 1], in_region)->Ok_0,
            in_region,
        );
    }
}

proof fn lemma_contours_plain(n: SyntaxNode, k: int)
    requires
        decode_contours(n, k) is Ok,
    ensures
        all_plain(decode_contours(n, k)->Ok_0),
    decreases n, k,
{
    if k <= 1 || k > n.children@.len() {
        assert(all_plain(Seq::<CommandView>::empty()));
    } else {
        lemma_contours_plain(n, k - 1);
        if contour_run(n.children@, k) {
            let ct = n.children@[k - 1];
            assert(decreases_to!(n => n.children@[k - 1]));
            lemma_children_well_formed(ct, ct.children@.len() as int, true);
            lemma_well_formed_concat(
                decode_contours(n, k - 1)->Ok_0,
                decode_children(ct, ct.children@.len() as int, true)->Ok_0,
                true,
            );
        }
    }
}

/// Regions never nest: in every command sequence the parser returns, each
/// region begin marker is closed by an end marker before the next one opens,
/// and none is left open.
pub proof fn parsed_regions_do_not_nest(root: SyntaxNode)
    requires
        parse_of(root) is Ok,
    ensures
        region_state(parse_of(root)->Ok_0, Some(false)) == Some(false),
{
    lemma_children_well_formed(root, root.children@.len() as int, false);
}

/// Round-trip stability: every command sequence the parser returns is one
/// that `emit` accepts, and `emit` guarantees that parsing the tree it
/// returns gives that sequence back, identical.
pub proof fn parsed_sequences_re_emit(root: SyntaxNode)
    requires
        parse_of(root) is Ok,
    ensures
        emittable(parse_of(root)->Ok_0),
{
    lemma_children_well_formed(root, root.children@.len() as int, false);
}

} // verus!
