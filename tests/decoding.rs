use gerbers::command::{
    AMPrimitive, ApertureDefinition, ApertureTemplate, D01Operation, D02Operation,
    FormatSpecification, MacroValue, Mirroring, Polarity, Unit,
};
use gerbers::number::{parse_decimal, parse_i32, parse_u32, parse_u8, Decimal};
use gerbers::{Command, Gerber, GerberError, GerberParser, Rule, SyntaxNode};

fn tok(s: &str) -> SyntaxNode {
    SyntaxNode::leaf(Rule::Token, s.to_string())
}

fn node(rule: Rule, children: Vec<SyntaxNode>) -> SyntaxNode {
    SyntaxNode::new(rule, String::new(), children)
}

fn toks(rule: Rule, values: &[&str]) -> SyntaxNode {
    node(rule, values.iter().map(|v| tok(v)).collect())
}

fn dec(mantissa: i64, scale: u32) -> Decimal {
    Decimal { mantissa, scale }
}

fn decode(n: SyntaxNode) -> Result<Vec<Command>, GerberError> {
    let mut commands = Vec::new();
    Gerber::parse_pair(&n, &mut commands)?;
    Ok(commands)
}

fn semantic_message(r: Result<Vec<Command>, GerberError>) -> String {
    match r {
        Err(GerberError::SemanticError(m)) => m,
        other => panic!("expected a semantic error, got {:?}", other),
    }
}

#[test]
fn format_with_four_tokens_decodes() {
    let r = decode(toks(Rule::Fs, &["2", "6", "2", "6"])).unwrap();
    assert_eq!(
        r,
        vec![Command::FS(FormatSpecification {
            x_integer_digits: 2,
            x_decimal_digits: 6,
            y_integer_digits: 2,
            y_decimal_digits: 6,
        })]
    );
}

#[test]
fn format_with_three_or_five_tokens_fails() {
    assert_eq!(
        semantic_message(decode(toks(Rule::Fs, &["2", "6", "2"]))),
        "Missing Y decimal digits in FS command."
    );
    assert_eq!(
        semantic_message(decode(toks(Rule::Fs, &["2", "6", "2", "6", "1"]))),
        "Unexpected additional arguments for FS command."
    );
    assert_eq!(
        semantic_message(decode(toks(Rule::Fs, &["2", "x", "2", "6"]))),
        "X decimal digits could not be parsed as a number."
    );
}

#[test]
fn draw_with_i_but_no_j_fails() {
    let n = node(Rule::D01, vec![toks(Rule::XCoord, &["5"]), toks(Rule::IjCoords, &["100"])]);
    assert_eq!(semantic_message(decode(n)), "Missing J parameter.");
}

#[test]
fn draw_with_both_offsets_fills_both() {
    let n = node(
        Rule::D01,
        vec![toks(Rule::XCoord, &["5"]), toks(Rule::IjCoords, &["100", "-200"])],
    );
    assert_eq!(
        decode(n).unwrap(),
        vec![Command::D01(D01Operation { x: Some(5), y: None, i: Some(100), j: Some(-200) })]
    );
}

#[test]
fn move_ignores_offsets_and_keeps_last_value() {
    let n = node(
        Rule::D02,
        vec![
            toks(Rule::XCoord, &["1"]),
            toks(Rule::IjCoords, &["7"]),
            toks(Rule::XCoord, &["2"]),
        ],
    );
    assert_eq!(decode(n).unwrap(), vec![Command::D02(D02Operation { x: Some(2), y: None })]);
}

#[test]
fn bad_coordinate_is_named() {
    let n = node(Rule::D03, vec![toks(Rule::YCoord, &["1.5"])]);
    assert_eq!(semantic_message(decode(n)), "Y coordinate '1.5' could not be parsed as a number.");
}

#[test]
fn region_with_two_contours_is_flattened() {
    let contour = |x: &str| {
        node(
            Rule::Contour,
            vec![
                node(Rule::D02, vec![toks(Rule::XCoord, &[x])]),
                node(Rule::D01, vec![toks(Rule::YCoord, &["9"])]),
            ],
        )
    };
    let n = node(
        Rule::RegionStatement,
        vec![node(Rule::G36, vec![]), contour("1"), contour("2"), node(Rule::G37, vec![])],
    );
    let mv = |x: i32| Command::D02(D02Operation { x: Some(x), y: None });
    let dr = Command::D01(D01Operation { x: None, y: Some(9), i: None, j: None });
    assert_eq!(
        decode(n).unwrap(),
        vec![Command::G36, mv(1), dr.clone(), mv(2), dr, Command::G37]
    );
}

#[test]
fn nested_region_fails() {
    let inner = node(
        Rule::RegionStatement,
        vec![node(Rule::G36, vec![]), node(Rule::Contour, vec![]), node(Rule::G37, vec![])],
    );
    let n = node(
        Rule::RegionStatement,
        vec![node(Rule::G36, vec![]), node(Rule::Contour, vec![inner]), node(Rule::G37, vec![])],
    );
    assert_eq!(semantic_message(decode(n)), "Nested region statement in contour.");
}

#[test]
fn region_without_contour_fails() {
    let n = node(Rule::RegionStatement, vec![node(Rule::G36, vec![])]);
    assert_eq!(semantic_message(decode(n)), "Expected contour");
    let n = node(Rule::RegionStatement, vec![]);
    assert_eq!(semantic_message(decode(n)), "Missing command.");
}

#[test]
fn unknown_unit_is_named() {
    assert_eq!(semantic_message(decode(toks(Rule::Mo, &["CM"]))), "Unrecognized unit: CM");
    assert_eq!(decode(toks(Rule::Mo, &["mm"])).unwrap(), vec![Command::MO(Unit::Millimeters)]);
    assert_eq!(decode(toks(Rule::Mo, &["In"])).unwrap(), vec![Command::MO(Unit::Inches)]);
    assert_eq!(
        semantic_message(decode(toks(Rule::Mo, &["MM", "IN"]))),
        "Unexpected additional arguments for MO command."
    );
    assert_eq!(
        semantic_message(decode(toks(Rule::Mo, &[]))),
        "No unit was specified for MO command."
    );
}

#[test]
fn empty_tree_is_an_empty_file() {
    match GerberParser::parse_tree(&node(Rule::Other, vec![])) {
        Err(GerberError::SemanticError(m)) => assert_eq!(m, "Empty Gerber file."),
        _ => panic!("an empty tree must fail"),
    }
    let end_of_input_only = node(Rule::Other, vec![node(Rule::Other, vec![])]);
    match GerberParser::parse_tree(&end_of_input_only) {
        Err(GerberError::SemanticError(m)) => assert_eq!(m, "Empty Gerber file."),
        _ => panic!("a tree with no statement must fail"),
    }
}

#[test]
fn failing_statement_leaves_commands_unchanged() {
    let mut commands = vec![Command::G01];
    let bad = node(
        Rule::Other,
        vec![node(Rule::G02, vec![]), toks(Rule::Lp, &["Q"])],
    );
    let r = Gerber::parse_pair(&bad, &mut commands);
    assert!(matches!(r, Err(GerberError::SemanticError(ref m)) if m == "Unrecognized polarity: Q"));
    assert_eq!(commands, vec![Command::G01]);
}

#[test]
fn unrecognized_nodes_pass_their_children_through() {
    let n = node(Rule::Other, vec![node(Rule::Other, vec![node(Rule::G75, vec![])]), tok("x")]);
    assert_eq!(decode(n).unwrap(), vec![Command::G75]);
}

#[test]
fn block_and_step_repeat_are_inert() {
    let n = node(Rule::AbStatement, vec![node(Rule::G01, vec![])]);
    assert_eq!(decode(n).unwrap(), vec![]);
    let n = node(Rule::SrStatement, vec![tok("2")]);
    assert_eq!(decode(n).unwrap(), vec![]);
}

#[test]
fn comment_takes_one_argument() {
    assert_eq!(decode(toks(Rule::G04, &["hi"])).unwrap(), vec![Command::G04("hi".to_string())]);
    assert_eq!(
        semantic_message(decode(toks(Rule::G04, &["a", "b"]))),
        "Unexpected additional arguments for G04 command."
    );
    assert_eq!(semantic_message(decode(toks(Rule::G04, &[]))), "No comment was detected for G04.");
}

#[test]
fn polarity_and_mirroring_keywords() {
    assert_eq!(decode(toks(Rule::Lp, &["c"])).unwrap(), vec![Command::LP(Polarity::Clear)]);
    assert_eq!(decode(toks(Rule::Lm, &["N"])).unwrap(), vec![Command::LM(Mirroring::NoMirroring)]);
    assert_eq!(decode(toks(Rule::Lm, &["xy"])).unwrap(), vec![Command::LM(Mirroring::XY)]);
    assert_eq!(decode(toks(Rule::Lm, &["Y"])).unwrap(), vec![Command::LM(Mirroring::Y)]);
    assert_eq!(
        semantic_message(decode(toks(Rule::Lm, &["YX"]))),
        "Unrecognized mirroring parameter: YX"
    );
    assert_eq!(semantic_message(decode(toks(Rule::Lp, &[]))), "Missing polarity in LP command.");
}

#[test]
fn rotation_and_scaling_are_exact() {
    assert_eq!(decode(toks(Rule::Lr, &["45.0"])).unwrap(), vec![Command::LR(dec(45, 0))]);
    assert_eq!(decode(toks(Rule::Ls, &["0.50"])).unwrap(), vec![Command::LS(dec(5, 1))]);
    assert_eq!(
        semantic_message(decode(toks(Rule::Lr, &["abc"]))),
        "Rotation angle 'abc' could not be parsed as a number."
    );
    assert_eq!(
        semantic_message(decode(toks(Rule::Ls, &[]))),
        "Missing scaling factor in LS command."
    );
}

#[test]
fn aperture_codes_and_templates() {
    let n = node(Rule::Ad, vec![tok("D22"), toks(Rule::TemplatePolygon, &["1.5", "6", "30", "0.2"])]);
    assert_eq!(
        decode(n).unwrap(),
        vec![Command::AD(ApertureDefinition {
            code: 22,
            template: ApertureTemplate::Polygon(dec(15, 1), 6, Some(dec(30, 0)), Some(dec(2, 1))),
        })]
    );
    let n = node(Rule::Ad, vec![tok("D23"), toks(Rule::TemplateName, &["M", "1", "-0.25"])]);
    assert_eq!(
        decode(n).unwrap(),
        vec![Command::AD(ApertureDefinition {
            code: 23,
            template: ApertureTemplate::Macro("M".to_string(), vec![dec(1, 0), dec(-25, 2)]),
        })]
    );
    let n = node(Rule::Ad, vec![tok("Dx")]);
    assert_eq!(
        semantic_message(decode(n)),
        "Aperture code 'Dx' could not be parsed as an integer."
    );
    let n = node(Rule::Ad, vec![tok("D10")]);
    assert_eq!(semantic_message(decode(n)), "Missing aperture template in AD command.");
    let n = node(Rule::Ad, vec![tok("D10"), toks(Rule::TemplateCircle, &[])]);
    assert_eq!(semantic_message(decode(n)), "Missing circle diameter in AD command.");
    let n = node(Rule::Ad, vec![tok("D10"), toks(Rule::Token, &["1"])]);
    assert_eq!(semantic_message(decode(n)), "Unsupported aperture template in AD command.");
    assert_eq!(decode(toks(Rule::Dnn, &["D0123"])).unwrap(), vec![Command::Dnn(123)]);
    assert_eq!(
        semantic_message(decode(toks(Rule::Dnn, &[]))),
        "Missing aperture code in Dnn command."
    );
}

#[test]
fn attributes_keep_their_values_in_order() {
    assert_eq!(
        decode(toks(Rule::Ta, &[".AperFunction", "ComponentPad"])).unwrap(),
        vec![Command::TA(".AperFunction".to_string(), vec!["ComponentPad".to_string()])]
    );
    assert_eq!(
        decode(toks(Rule::To, &[".N", "Net1", "Net2"])).unwrap(),
        vec![Command::TO(".N".to_string(), vec!["Net1".to_string(), "Net2".to_string()])]
    );
    assert_eq!(decode(toks(Rule::Td, &[])).unwrap(), vec![Command::TD(None)]);
    assert_eq!(decode(toks(Rule::Td, &[".N"])).unwrap(), vec![Command::TD(Some(".N".to_string()))]);
    assert_eq!(
        semantic_message(decode(toks(Rule::Tf, &[]))),
        "Missing attribute name in TF command."
    );
}

#[test]
fn macro_primitives_decode_in_order() {
    let n = node(
        Rule::Am,
        vec![
            tok("SHAPE"),
            toks(Rule::PrimitiveComment, &["note"]),
            toks(Rule::VariableDefinition, &["3", "$1x2"]),
            toks(Rule::PrimitiveCircle, &["1", "1.5", "0", "0"]),
            toks(Rule::PrimitiveOutline, &["1", "0", "0", "1", "0", "1", "1", "0", "0", "30"]),
            toks(Rule::Other, &["9"]),
            toks(Rule::PrimitivePolygon, &["0", "8", "0", "0", "$1", "0"]),
        ],
    );
    let z = MacroValue::Number(dec(0, 0));
    let one = MacroValue::Number(dec(1, 0));
    assert_eq!(
        decode(n).unwrap(),
        vec![Command::AM(
            "SHAPE".to_string(),
            vec![
                AMPrimitive::Comment("note".to_string()),
                AMPrimitive::VariableDefinition(3, "$1x2".to_string()),
                AMPrimitive::Circle(true, MacroValue::Number(dec(15, 1)), z.clone(), z.clone(), None),
                AMPrimitive::Outline(
                    true,
                    vec![
                        (z.clone(), z.clone()),
                        (one.clone(), z.clone()),
                        (one.clone(), one.clone()),
                        (z.clone(), z.clone()),
                    ],
                    MacroValue::Number(dec(30, 0)),
                ),
                AMPrimitive::Polygon(
                    false,
                    8,
                    z.clone(),
                    z.clone(),
                    MacroValue::Expression("$1".to_string()),
                    z.clone(),
                ),
            ],
        )]
    );
}

#[test]
fn numeric_tokens() {
    assert_eq!(parse_u32("+7"), Some(7));
    assert_eq!(parse_u32("-0"), None);
    assert_eq!(parse_u32("4294967295"), Some(4294967295));
    assert_eq!(parse_u32("4294967296"), None);
    assert_eq!(parse_u32(""), None);
    assert_eq!(parse_u8("255"), Some(255));
    assert_eq!(parse_u8("256"), None);
    assert_eq!(parse_i32("-2147483648"), Some(-2147483648));
    assert_eq!(parse_i32("2147483648"), None);
    assert_eq!(parse_i32("-"), None);
    assert_eq!(parse_i32("00012"), Some(12));
    assert_eq!(parse_decimal("0.010"), Some(dec(1, 2)));
    assert_eq!(parse_decimal("-3.50"), Some(dec(-35, 1)));
    assert_eq!(parse_decimal(".5"), Some(dec(5, 1)));
    assert_eq!(parse_decimal("5."), Some(dec(5, 0)));
    assert_eq!(parse_decimal("+100"), Some(dec(100, 0)));
    assert_eq!(parse_decimal("."), None);
    assert_eq!(parse_decimal("1e5"), None);
    assert_eq!(parse_decimal("1.2.3"), None);
    assert_eq!(parse_decimal(""), None);
}

#[test]
fn error_messages_name_their_kind() {
    assert_eq!(
        GerberError::SemanticError("x".to_string()).message(),
        "Semantic error: x"
    );
    assert_eq!(GerberError::IoError("gone".to_string()).message(), "I/O error: gone");
    assert_eq!(
        GerberError::ParseError { line: 3, message: "bad".to_string() }.message(),
        "Parse error at line 3: bad"
    );
}

#[test]
fn standalone_region_markers_are_set_aside() {
    let n = node(
        Rule::Other,
        vec![
            node(Rule::G36, vec![]),
            node(Rule::G36, vec![]),
            node(Rule::D02, vec![toks(Rule::XCoord, &["1"])]),
            node(Rule::G37, vec![]),
        ],
    );
    assert_eq!(decode(n).unwrap(), vec![Command::D02(D02Operation { x: Some(1), y: None })]);
}

#[test]
fn region_marker_inside_contour_fails() {
    let n = node(
        Rule::RegionStatement,
        vec![
            node(Rule::G36, vec![]),
            node(Rule::Contour, vec![node(Rule::G37, vec![])]),
            node(Rule::G37, vec![]),
        ],
    );
    assert_eq!(semantic_message(decode(n)), "Unsupported node in contour.");
}

#[test]
fn unrecognized_node_inside_contour_fails() {
    let n = node(
        Rule::RegionStatement,
        vec![
            node(Rule::G36, vec![]),
            node(Rule::Contour, vec![node(Rule::Other, vec![node(Rule::G01, vec![])])]),
            node(Rule::G37, vec![]),
        ],
    );
    assert_eq!(semantic_message(decode(n)), "Unsupported node in contour.");
}

#[test]
fn region_needs_a_contour() {
    let n = node(Rule::RegionStatement, vec![node(Rule::G36, vec![]), node(Rule::G37, vec![])]);
    assert_eq!(semantic_message(decode(n)), "Expected contour");
}

#[test]
fn macro_primitive_with_missing_field_fails() {
    let am = |p: SyntaxNode| node(Rule::Am, vec![tok("M"), p]);
    assert_eq!(
        semantic_message(decode(am(toks(Rule::PrimitiveCircle, &["1"])))),
        "Missing field 2 of circle primitive."
    );
    assert_eq!(
        semantic_message(decode(am(toks(Rule::PrimitiveThermal, &["0", "0", "1", "0.5", "0.1"])))),
        "Missing field 6 of thermal primitive."
    );
    assert_eq!(
        semantic_message(decode(am(toks(Rule::VariableDefinition, &["1"])))),
        "Missing field 2 of variable definition primitive."
    );
    assert_eq!(
        semantic_message(decode(am(toks(Rule::PrimitiveOutline, &["1", "0", "0", "1", "0"])))),
        "Unpaired coordinate in outline primitive."
    );
}

#[test]
fn macro_field_that_is_no_number_or_expression_fails() {
    let am = |p: SyntaxNode| node(Rule::Am, vec![tok("M"), p]);
    assert_eq!(
        semantic_message(decode(am(toks(Rule::PrimitiveCircle, &["1", "0.5", "abc", "0"])))),
        "Field 3 of circle primitive could not be parsed."
    );
    assert_eq!(
        semantic_message(decode(am(toks(Rule::PrimitiveCircle, &["2", "0.5", "0", "0"])))),
        "Field 1 of circle primitive could not be parsed."
    );
    assert_eq!(
        semantic_message(decode(am(toks(Rule::PrimitivePolygon, &["1", "$2", "0", "0", "1", "0"])))),
        "Field 2 of polygon primitive could not be parsed."
    );
    let ok = decode(am(toks(Rule::PrimitiveThermal, &["0", "0", "$1+0.2", "($2)/2", "0.1", "45"])))
        .unwrap();
    assert_eq!(
        ok,
        vec![Command::AM(
            "M".to_string(),
            vec![AMPrimitive::Thermal(
                MacroValue::Number(dec(0, 0)),
                MacroValue::Number(dec(0, 0)),
                MacroValue::Expression("$1+0.2".to_string()),
                MacroValue::Expression("($2)/2".to_string()),
                MacroValue::Number(dec(1, 1)),
                MacroValue::Number(dec(45, 0)),
            )],
        )]
    );
}
