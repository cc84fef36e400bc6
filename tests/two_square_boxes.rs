use gerbers::command::{
    self, ApertureDefinition, ApertureTemplate, D01Operation, D02Operation, FormatSpecification,
    Polarity,
};
use gerbers::number::Decimal;
use gerbers::{Command, GerberParser, Rule, SyntaxNode};

fn leaf(s: &str) -> SyntaxNode {
    SyntaxNode::leaf(Rule::Token, s.to_string())
}

fn branch(rule: Rule, children: Vec<SyntaxNode>) -> SyntaxNode {
    SyntaxNode::new(rule, String::new(), children)
}

fn values(rule: Rule, vs: &[&str]) -> SyntaxNode {
    branch(rule, vs.iter().map(|v| leaf(v)).collect())
}

fn operation(rule: Rule, x: Option<&str>, y: Option<&str>) -> SyntaxNode {
    let mut children = Vec::new();
    if let Some(x) = x {
        children.push(values(Rule::XCoord, &[x]));
    }
    if let Some(y) = y {
        children.push(values(Rule::YCoord, &[y]));
    }
    branch(rule, children)
}

/// The tree of the two-square sample: `X6000000D02*` moves to the second
/// square with Y held.
fn sample() -> SyntaxNode {
    let d01 = |x, y| operation(Rule::D01, x, y);
    branch(
        Rule::Other,
        vec![
            values(Rule::G04, &["Ucamco ex. 1: Two square boxes"]),
            values(Rule::Mo, &["MM"]),
            values(Rule::Fs, &["2", "6", "2", "6"]),
            values(Rule::Tf, &[".Part", "Other", "example"]),
            values(Rule::Lp, &["D"]),
            branch(Rule::Ad, vec![leaf("D10"), values(Rule::TemplateCircle, &["0.010"])]),
            values(Rule::Dnn, &["D10"]),
            operation(Rule::D02, Some("0"), Some("0")),
            branch(Rule::G01, vec![]),
            d01(Some("5000000"), Some("0")),
            d01(None, Some("5000000")),
            d01(Some("0"), None),
            d01(None, Some("0")),
            operation(Rule::D02, Some("6000000"), None),
            d01(Some("11000000"), None),
            d01(None, Some("5000000")),
            d01(Some("6000000"), None),
            d01(None, Some("0")),
            branch(Rule::M02, vec![]),
        ],
    )
}

fn draw(x: Option<i32>, y: Option<i32>) -> Command {
    Command::D01(D01Operation { x, y, i: None, j: None })
}

#[test]
fn two_square_boxes_test_parse_two_square_boxes() {
    let gerber = GerberParser::parse_tree(&sample()).expect("Failed to parse Gerber file");

    assert!(gerber.commands.len() > 0, "No commands were parsed");

    let expected_commands = vec![
        Command::G04("Ucamco ex. 1: Two square boxes".to_string()),
        Command::MO(command::Unit::Millimeters),
        Command::FS(FormatSpecification {
            x_integer_digits: 2,
            x_decimal_digits: 6,
            y_integer_digits: 2,
            y_decimal_digits: 6,
        }),
        Command::TF(".Part".to_string(), vec!["Other".to_string(), "example".to_string()]),
        Command::LP(Polarity::Dark),
        Command::AD(ApertureDefinition {
            code: 10,
            template: ApertureTemplate::Circle(Decimal { mantissa: 1, scale: 2 }, None),
        }),
        Command::Dnn(10),
        Command::D02(D02Operation { x: Some(0), y: Some(0) }),
        Command::G01,
        draw(Some(5000000), Some(0)),
        draw(None, Some(5000000)),
        draw(Some(0), None),
        draw(None, Some(0)),
        Command::D02(D02Operation { x: Some(6000000), y: None }),
        draw(Some(11000000), None),
        draw(None, Some(5000000)),
        draw(Some(6000000), None),
        draw(None, Some(0)),
        Command::M02,
    ];

    match &gerber.commands[0] {
        Command::G04(comment) => {
            assert!(comment.contains("Two square boxes"), "Expected comment about square boxes, got: {}", comment);
        }
        _ => panic!("First command should be a G04 comment"),
    }

    let has_mm_command =
        gerber.commands.iter().any(|cmd| matches!(cmd, Command::MO(command::Unit::Millimeters)));
    assert!(has_mm_command, "Missing millimeter unit command");

    match gerber.commands.last() {
        Some(Command::M02) => {}
        _ => panic!("Last command should be M02"),
    }

    println!("{:?}", &gerber.commands);

    assert_eq!(
        gerber.commands.len(),
        expected_commands.len(),
        "Expected {} commands, got {}",
        expected_commands.len(),
        gerber.commands.len()
    );

    for (i, (expected, actual)) in expected_commands.iter().zip(gerber.commands.iter()).enumerate() {
        match (expected, actual) {
            (Command::G04(exp_text), Command::G04(act_text)) => {
                assert_eq!(
                    exp_text, act_text,
                    "Command {} mismatch: expected G04 with text '{}', got '{}'",
                    i, exp_text, act_text
                );
            }
            (Command::MO(exp_unit), Command::MO(act_unit)) => {
                assert!(matches!(exp_unit, command::Unit::Millimeters), "Command {} mismatch: expected MO Millimeters", i);
                assert!(matches!(act_unit, command::Unit::Millimeters), "Command {} mismatch: got MO with wrong unit", i);
            }
            _ => {}
        }
    }

    let first_square_present = verify_square_commands(&gerber.commands, 0, 0, 5000000, 5000000);
    assert!(first_square_present, "First square drawing commands not found");

    let second_square_present = verify_square_commands(&gerber.commands, 6000000, 0, 11000000, 5000000);
    assert!(second_square_present, "Second square drawing commands not found");
}

/// Whether a move to the starting corner is followed by draws along the four
/// sides; an axis the source leaves out holds its value.
fn verify_square_commands(commands: &[Command], start_x: i32, start_y: i32, end_x: i32, end_y: i32) -> bool {
    let start_idx = commands.iter().position(|cmd| {
        matches!(cmd, Command::D02(op) if op.x == Some(start_x) && (op.y == Some(start_y) || op.y.is_none()))
    });

    if let Some(idx) = start_idx {
        if idx + 4 >= commands.len() {
            return false;
        }
        let rest = &commands[idx + 1..];
        let side1 = rest.iter().any(|cmd| {
            matches!(cmd, Command::D01(op) if op.x == Some(end_x) && (op.y == Some(start_y) || op.y.is_none()))
        });
        let side2 = rest.iter().any(|cmd| {
            matches!(cmd, Command::D01(op) if (op.x == Some(end_x) || op.x.is_none()) && op.y == Some(end_y))
        });
        let side3 = rest.iter().any(|cmd| {
            matches!(cmd, Command::D01(op) if op.x == Some(start_x) && (op.y == Some(end_y) || op.y.is_none()))
        });
        let side4 = rest.iter().any(|cmd| {
            matches!(cmd, Command::D01(op) if (op.x == Some(start_x) || op.x.is_none()) && op.y == Some(start_y))
        });
        return side1 && side2 && side3 && side4;
    }

    false
}
