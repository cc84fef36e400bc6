use gerbers::command::{
    AMPrimitive, ApertureDefinition, ApertureTemplate, D01Operation, D02Operation, D03Operation,
    FormatSpecification, MacroValue, Polarity, Unit,
};
use gerbers::number::Decimal;
use gerbers::{Command, GerberParser, Rule, SyntaxNode};

fn tok(s: &str) -> SyntaxNode {
    SyntaxNode::leaf(Rule::Token, s.to_string())
}

fn node(rule: Rule, children: Vec<SyntaxNode>) -> SyntaxNode {
    SyntaxNode::new(rule, String::new(), children)
}

fn toks(rule: Rule, values: &[&str]) -> SyntaxNode {
    node(rule, values.iter().map(|v| tok(v)).collect())
}

fn coords(rule: Rule, x: Option<&str>, y: Option<&str>, ij: Option<(&str, &str)>) -> SyntaxNode {
    let mut children = Vec::new();
    if let Some(x) = x {
        children.push(toks(Rule::XCoord, &[x]));
    }
    if let Some(y) = y {
        children.push(toks(Rule::YCoord, &[y]));
    }
    if let Some((i, j)) = ij {
        children.push(toks(Rule::IjCoords, &[i, j]));
    }
    node(rule, children)
}

fn d01(x: Option<&str>, y: Option<&str>) -> SyntaxNode {
    coords(Rule::D01, x, y, None)
}

fn d02(x: Option<&str>, y: Option<&str>) -> SyntaxNode {
    coords(Rule::D02, x, y, None)
}

fn d03(x: Option<&str>, y: Option<&str>) -> SyntaxNode {
    coords(Rule::D03, x, y, None)
}

fn ad(code: &str, rule: Rule, params: &[&str]) -> SyntaxNode {
    node(Rule::Ad, vec![tok(code), toks(rule, params)])
}

fn region(contours: Vec<Vec<SyntaxNode>>) -> SyntaxNode {
    let mut children = vec![node(Rule::G36, vec![])];
    for body in contours {
        children.push(node(Rule::Contour, body));
    }
    children.push(node(Rule::G37, vec![]));
    node(Rule::RegionStatement, children)
}

fn plain(rule: Rule) -> SyntaxNode {
    node(rule, vec![])
}

fn dec(mantissa: i64, scale: u32) -> Decimal {
    Decimal { mantissa, scale }
}

fn num(mantissa: i64, scale: u32) -> MacroValue {
    MacroValue::Number(dec(mantissa, scale))
}

fn d01op(x: Option<i32>, y: Option<i32>) -> Command {
    Command::D01(D01Operation { x, y, i: None, j: None })
}

fn two_square_boxes() -> SyntaxNode {
    node(
        Rule::Other,
        vec![
            toks(Rule::G04, &["Ucamco ex. 1: Two square boxes"]),
            toks(Rule::Mo, &["MM"]),
            toks(Rule::Fs, &["2", "6", "2", "6"]),
            toks(Rule::Tf, &[".Part", "Other", "example"]),
            toks(Rule::Lp, &["D"]),
            ad("D10", Rule::TemplateCircle, &["0.010"]),
            toks(Rule::Dnn, &["D10"]),
            d02(Some("0"), Some("0")),
            plain(Rule::G01),
            d01(Some("5000000"), Some("0")),
            d01(None, Some("5000000")),
            d01(Some("0"), None),
            d01(None, Some("0")),
            d02(Some("6000000"), None),
            d01(Some("11000000"), None),
            d01(None, Some("5000000")),
            d01(Some("6000000"), None),
            d01(None, Some("0")),
            plain(Rule::M02),
        ],
    )
}

#[test]
fn standard_examples_test_parse_two_square_boxes() {
    let gerber = GerberParser::parse_tree(&two_square_boxes()).expect("Failed to parse Gerber file");

    assert!(gerber.commands.len() > 0, "No commands were parsed");

    let expected_commands = vec![
        Command::G04("Ucamco ex. 1: Two square boxes".to_string()),
        Command::MO(Unit::Millimeters),
        Command::FS(FormatSpecification {
            x_integer_digits: 2,
            x_decimal_digits: 6,
            y_integer_digits: 2,
            y_decimal_digits: 6,
        }),
        Command::TF(".Part".to_string(), vec!["Other".to_string(), "example".to_string()]),
        Command::LP(Polarity::Dark),
        Command::AD(ApertureDefinition { code: 10, template: ApertureTemplate::Circle(dec(1, 2), None) }),
        Command::Dnn(10),
        Command::D02(D02Operation { x: Some(0), y: Some(0) }),
        Command::G01,
        d01op(Some(5000000), Some(0)),
        d01op(None, Some(5000000)),
        d01op(Some(0), None),
        d01op(None, Some(0)),
        Command::D02(D02Operation { x: Some(6000000), y: None }),
        d01op(Some(11000000), None),
        d01op(None, Some(5000000)),
        d01op(Some(6000000), None),
        d01op(None, Some(0)),
        Command::M02,
    ];

    assert_eq!(gerber.commands.len(), expected_commands.len(), "Command list length does not match.");

    for i in 0..expected_commands.len() {
        assert_eq!(gerber.commands.get(i), expected_commands.get(i), "Command list is not the same");
    }
}

#[test]
fn test_non_overlapping_countour() {
    let tree = node(
        Rule::Other,
        vec![
            toks(Rule::G04, &["Non-overlapping contours"]),
            toks(Rule::Mo, &["MM"]),
            toks(Rule::Fs, &["2", "6", "2", "6"]),
            ad("D10", Rule::TemplateCircle, &["1.00000"]),
            plain(Rule::G01),
            toks(Rule::Lp, &["D"]),
            region(vec![
                vec![
                    d02(Some("0"), Some("5000000")),
                    d01(None, Some("10000000")),
                    d01(Some("10000000"), None),
                    d01(None, Some("0")),
                    d01(Some("0"), None),
                    d01(None, Some("5000000")),
                ],
                vec![
                    d02(Some("-1000000"), None),
                    d01(Some("-5000000"), Some("1000000")),
                    d01(Some("-9000000"), Some("5000000")),
                    d01(Some("-5000000"), Some("9000000")),
                    d01(Some("-1000000"), Some("5000000")),
                ],
            ]),
            plain(Rule::M02),
        ],
    );
    let gerber = GerberParser::parse_tree(&tree).expect("Failed to parse Gerber file");

    assert!(gerber.commands.len() > 0, "No commands were parsed");

    let expected_commands = vec![
        Command::G04("Non-overlapping contours".to_string()),
        Command::MO(Unit::Millimeters),
        Command::FS(FormatSpecification {
            x_integer_digits: 2,
            x_decimal_digits: 6,
            y_integer_digits: 2,
            y_decimal_digits: 6,
        }),
        Command::AD(ApertureDefinition { code: 10, template: ApertureTemplate::Circle(dec(1, 0), None) }),
        Command::G01,
        Command::LP(Polarity::Dark),
        Command::G36,
        Command::D02(D02Operation { x: Some(0), y: Some(5000000) }),
        d01op(None, Some(10000000)),
        d01op(Some(10000000), None),
        d01op(None, Some(0)),
        d01op(Some(0), None),
        d01op(None, Some(5000000)),
        Command::D02(D02Operation { x: Some(-1000000), y: None }),
        d01op(Some(-5000000), Some(1000000)),
        d01op(Some(-9000000), Some(5000000)),
        d01op(Some(-5000000), Some(9000000)),
        d01op(Some(-1000000), Some(5000000)),
        Command::G37,
        Command::M02,
    ];

    assert_eq!(gerber.commands.len(), expected_commands.len(), "Command list length does not match.");

    for i in 0..expected_commands.len() {
        assert_eq!(gerber.commands.get(i), expected_commands.get(i), "Command list is not the same.");
    }
}

#[test]
fn test_polarities_and_apertures() {
    let tree = node(
        Rule::Other,
        vec![
            toks(Rule::G04, &["Ucamco ex. 2: Shapes"]),
            toks(Rule::Mo, &["MM"]),
            toks(Rule::Fs, &["3", "6", "3", "6"]),
            toks(Rule::Tf, &[".FileFunction", "Other", "Sample"]),
            toks(Rule::G04, &["Define Apertures"]),
            node(
                Rule::Am,
                vec![
                    tok("THERMAL80"),
                    toks(Rule::PrimitiveThermal, &["0", "0", "0.800", "0.550", "0.125", "45"]),
                ],
            ),
            ad("D10", Rule::TemplateCircle, &["0.1"]),
            ad("D11", Rule::TemplateCircle, &["0.6"]),
            ad("D12", Rule::TemplateRectangle, &["0.6", "0.6"]),
            ad("D13", Rule::TemplateRectangle, &["0.4", "1.00"]),
            ad("D14", Rule::TemplateRectangle, &["1.00", "0.4"]),
            ad("D15", Rule::TemplateObround, &["0.4", "1.00"]),
            ad("D16", Rule::TemplatePolygon, &["1.00", "3"]),
            ad("D19", Rule::TemplateName, &["THERMAL80"]),
            toks(Rule::G04, &["Start image generation"]),
            toks(Rule::Dnn, &["D10"]),
            d02(Some("0"), Some("2500000")),
            plain(Rule::G01),
            d01(Some("0"), Some("0")),
            d01(Some("2500000"), Some("0")),
            d02(Some("10000000"), Some("10000000")),
            d01(Some("15000000"), None),
            d01(Some("20000000"), Some("15000000")),
            d02(Some("25000000"), None),
            d01(None, Some("10000000")),
            toks(Rule::Dnn, &["D11"]),
            d03(Some("10000000"), Some("10000000")),
            d03(Some("20000000"), None),
            d03(Some("25000000"), None),
            d03(None, Some("15000000")),
            d03(Some("20000000"), None),
            toks(Rule::Dnn, &["D12"]),
            d03(Some("10000000"), Some("15000000")),
            toks(Rule::Dnn, &["D13"]),
            d03(Some("30000000"), Some("15000000")),
            toks(Rule::Dnn, &["D14"]),
            d03(None, Some("12500000")),
            toks(Rule::Dnn, &["D15"]),
            d03(None, Some("10000000")),
            toks(Rule::Dnn, &["D10"]),
            d02(Some("37500000"), Some("10000000")),
            plain(Rule::G75),
            plain(Rule::G03),
            coords(Rule::D01, Some("37500000"), Some("10000000"), Some(("2500000", "0"))),
            toks(Rule::Dnn, &["D16"]),
            d03(Some("34000000"), Some("10000000")),
            d03(Some("35000000"), Some("9000000")),
            region(vec![vec![
                d02(Some("5000000"), Some("20000000")),
                plain(Rule::G01),
                d01(None, Some("37500000")),
                d01(Some("37500000"), None),
                d01(None, Some("20000000")),
                d01(Some("5000000"), None),
            ]]),
            toks(Rule::Lp, &["C"]),
            region(vec![vec![
                d02(Some("10000000"), Some("25000000")),
                d01(None, Some("30000000")),
                plain(Rule::G02),
                coords(Rule::D01, Some("12500000"), Some("32500000"), Some(("2500000", "0"))),
                plain(Rule::G01),
                d01(Some("30000000"), None),
                plain(Rule::G02),
                coords(Rule::D01, Some("30000000"), Some("25000000"), Some(("0", "-3750000"))),
                plain(Rule::G01),
                d01(Some("10000000"), None),
            ]]),
            toks(Rule::Lp, &["D"]),
            toks(Rule::Dnn, &["D10"]),
            d02(Some("15000000"), Some("28750000")),
            d01(Some("20000000"), None),
            toks(Rule::Dnn, &["D11"]),
            d03(Some("15000000"), Some("28750000")),
            d03(Some("20000000"), None),
            toks(Rule::Dnn, &["D19"]),
            d03(Some("28750000"), Some("28750000")),
            plain(Rule::M02),
        ],
    );
    let gerber = GerberParser::parse_tree(&tree).expect("Failed to parse Gerber file");

    assert!(gerber.commands.len() > 0, "No commands were parsed");

    let d03op = |x: Option<i32>, y: Option<i32>| Command::D03(D03Operation { x, y });
    let d02op = |x: Option<i32>, y: Option<i32>| Command::D02(D02Operation { x, y });
    let arc = |x: i32, y: i32, i: i32, j: i32| {
        Command::D01(D01Operation { x: Some(x), y: Some(y), i: Some(i), j: Some(j) })
    };
    let expected_commands = vec![
        Command::G04("Ucamco ex. 2: Shapes".to_string()),
        Command::MO(Unit::Millimeters),
        Command::FS(FormatSpecification {
            x_integer_digits: 3,
            x_decimal_digits: 6,
            y_integer_digits: 3,
            y_decimal_digits: 6,
        }),
        Command::TF(".FileFunction".to_string(), vec!["Other".to_string(), "Sample".to_string()]),
        Command::G04("Define Apertures".to_string()),
        Command::AM(
            "THERMAL80".to_string(),
            vec![AMPrimitive::Thermal(num(0, 0), num(0, 0), num(8, 1), num(55, 2), num(125, 3), num(45, 0))],
        ),
        Command::AD(ApertureDefinition { code: 10, template: ApertureTemplate::Circle(dec(1, 1), None) }),
        Command::AD(ApertureDefinition { code: 11, template: ApertureTemplate::Circle(dec(6, 1), None) }),
        Command::AD(ApertureDefinition {
            code: 12,
            template: ApertureTemplate::Rectangle(dec(6, 1), dec(6, 1), None),
        }),
        Command::AD(ApertureDefinition {
            code: 13,
            template: ApertureTemplate::Rectangle(dec(4, 1), dec(1, 0), None),
        }),
        Command::AD(ApertureDefinition {
            code: 14,
            template: ApertureTemplate::Rectangle(dec(1, 0), dec(4, 1), None),
        }),
        Command::AD(ApertureDefinition {
            code: 15,
            template: ApertureTemplate::Obround(dec(4, 1), dec(1, 0), None),
        }),
        Command::AD(ApertureDefinition {
            code: 16,
            template: ApertureTemplate::Polygon(dec(1, 0), 3, None, None),
        }),
        Command::AD(ApertureDefinition {
            code: 19,
            template: ApertureTemplate::Macro("THERMAL80".to_string(), vec![]),
        }),
        Command::G04("Start image generation".to_string()),
        Command::Dnn(10),
        d02op(Some(0), Some(2500000)),
        Command::G01,
        d01op(Some(0), Some(0)),
        d01op(Some(2500000), Some(0)),
        d02op(Some(10000000), Some(10000000)),
        d01op(Some(15000000), None),
        d01op(Some(20000000), Some(15000000)),
        d02op(Some(25000000), None),
        d01op(None, Some(10000000)),
        Command::Dnn(11),
        d03op(Some(10000000), Some(10000000)),
        d03op(Some(20000000), None),
        d03op(Some(25000000), None),
        d03op(None, Some(15000000)),
        d03op(Some(20000000), None),
        Command::Dnn(12),
        d03op(Some(10000000), Some(15000000)),
        Command::Dnn(13),
        d03op(Some(30000000), Some(15000000)),
        Command::Dnn(14),
        d03op(None, Some(12500000)),
        Command::Dnn(15),
        d03op(None, Some(10000000)),
        Command::Dnn(10),
        d02op(Some(37500000), Some(10000000)),
        Command::G75,
        Command::G03,
        arc(37500000, 10000000, 2500000, 0),
        Command::Dnn(16),
        d03op(Some(34000000), Some(10000000)),
        d03op(Some(35000000), Some(9000000)),
        Command::G36,
        d02op(Some(5000000), Some(20000000)),
        Command::G01,
        d01op(None, Some(37500000)),
        d01op(Some(37500000), None),
        d01op(None, Some(20000000)),
        d01op(Some(5000000), None),
        Command::G37,
        Command::LP(Polarity::Clear),
        Command::G36,
        d02op(Some(10000000), Some(25000000)),
        d01op(None, Some(30000000)),
        Command::G02,
        arc(12500000, 32500000, 2500000, 0),
        Command::G01,
        d01op(Some(30000000), None),
        Command::G02,
        arc(30000000, 25000000, 0, -3750000),
        Command::G01,
        d01op(Some(10000000), None),
        Command::G37,
        Command::LP(Polarity::Dark),
        Command::Dnn(10),
        d02op(Some(15000000), Some(28750000)),
        d01op(Some(20000000), None),
        Command::Dnn(11),
        d03op(Some(15000000), Some(28750000)),
        d03op(Some(20000000), None),
        Command::Dnn(19),
        d03op(Some(28750000), Some(28750000)),
        Command::M02,
    ];

    assert_eq!(gerber.commands.len(), expected_commands.len(), "Command list length does not match.");

    for i in 0..expected_commands.len() {
        assert_eq!(gerber.commands.get(i), expected_commands.get(i), "Command list is not the same.");
    }
}

#[test]
fn two_square_sample_yields_nineteen_commands_in_order() {
    let gerber = GerberParser::parse_tree(&two_square_boxes()).unwrap();
    assert_eq!(gerber.commands.len(), 19);
    assert_eq!(gerber.commands[0], Command::G04("Ucamco ex. 1: Two square boxes".to_string()));
    assert_eq!(gerber.commands[13], Command::D02(D02Operation { x: Some(6000000), y: None }));
    assert_eq!(gerber.commands[18], Command::M02);
}

fn re_parsed(tree: &SyntaxNode) -> (Vec<Command>, Vec<Command>) {
    let first = GerberParser::parse_tree(tree).unwrap().commands;
    let emitted = gerbers::emit::emit(&first);
    let second = GerberParser::parse_tree(&emitted).unwrap().commands;
    (first, second)
}

#[test]
fn re_emitting_two_squares_gives_the_same_commands() {
    let (first, second) = re_parsed(&two_square_boxes());
    assert_eq!(first, second);
}

#[test]
fn re_emitting_regions_and_macros_gives_the_same_commands() {
    let tree = node(
        Rule::Other,
        vec![
            node(
                Rule::Am,
                vec![
                    tok("OUT"),
                    toks(Rule::PrimitiveOutline, &["1", "0", "0", "1", "0", "1", "1", "0", "0", "30"]),
                    toks(Rule::PrimitiveCircle, &["0", "0.5", "-1.25", "0", "15"]),
                ],
            ),
            ad("D11", Rule::TemplatePolygon, &["1.00", "5", "22.5"]),
            ad("D12", Rule::TemplateName, &["OUT", "0.001", "-3"]),
            toks(Rule::Lr, &["-90.50"]),
            region(vec![
                vec![d02(Some("1"), None), coords(Rule::D01, Some("2"), Some("-3"), Some(("4", "5")))],
                vec![d02(None, Some("7")), plain(Rule::G01)],
            ]),
            toks(Rule::Td, &[]),
            plain(Rule::M02),
        ],
    );
    let (first, second) = re_parsed(&tree);
    assert_eq!(first.len(), 12);
    assert_eq!(first, second);
}

#[test]
fn tree_of_set_aside_nodes_is_an_empty_file() {
    let tree = node(Rule::Other, vec![node(Rule::AbStatement, vec![]), node(Rule::G37, vec![])]);
    assert!(GerberParser::parse_tree(&tree).is_err());
}

#[test]
fn canonical_number_text() {
    assert_eq!(gerbers::emit::decimal_text(dec(1, 2)), "0.01");
    assert_eq!(gerbers::emit::decimal_text(dec(-35, 1)), "-3.5");
    assert_eq!(gerbers::emit::decimal_text(dec(5, 0)), "5");
    assert_eq!(gerbers::emit::decimal_text(dec(1, 5)), "0.00001");
    assert_eq!(gerbers::emit::decimal_text(dec(12345, 2)), "123.45");
    assert_eq!(gerbers::emit::int_text(-3750000), "-3750000");
    assert_eq!(gerbers::emit::uint_text(0), "0");
    assert_eq!(gerbers::emit::uint_text(4294967295), "4294967295");
}
