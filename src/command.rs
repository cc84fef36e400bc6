//! The command model: one value per decoded Gerber statement.
use vstd::prelude::*;
use crate::number::Decimal;

verus! {

/// The unit of measurement, set by the MO command.
#[derive(Clone, Copy, Debug, PartialEq, Eq, Structural)]
pub enum Unit {
    /// `%MOMM*%`
    Millimeters,
    /// `%MOIN*%`
    Inches,
}

/// The coordinate format, set by the FS command: how many integer and
/// decimal digits every later coordinate carries.
#[derive(Clone, Copy, Debug, PartialEq, Eq, Structural)]
pub struct FormatSpecification {
    pub x_integer_digits: u8,
    pub x_decimal_digits: u8,
    pub y_integer_digits: u8,
    pub y_decimal_digits: u8,
}

/// An aperture with its D code, created by the AD command.
#[derive(Clone, Debug, PartialEq)]
pub struct ApertureDefinition {
    pub code: u32,
    pub template: ApertureTemplate,
}

/// The shape an aperture is made from.
#[derive(Clone, Debug, PartialEq)]
pub enum ApertureTemplate {
    /// Diameter, optional hole diameter.
    Circle(Decimal, Option<Decimal>),
    /// X size, y size, optional hole diameter.
    Rectangle(Decimal, Decimal, Option<Decimal>),
    /// X size, y size, optional hole diameter.
    Obround(Decimal, Decimal, Option<Decimal>),
    /// Outer diameter, vertex count, optional rotation, optional hole diameter.
    Polygon(Decimal, u32, Option<Decimal>, Option<Decimal>),
    /// Macro name and its parameters.
    Macro(String, Vec<Decimal>),
}

/// A numeric field of an aperture macro primitive: a number, or an
/// arithmetic expression over macro variables, kept as its text and never
/// evaluated.
#[derive(Clone, Debug, PartialEq)]
pub enum MacroValue {
    Number(Decimal),
    Expression(String),
}

/// One primitive of an aperture macro body.
#[derive(Clone, Debug, PartialEq)]
pub enum AMPrimitive {
    Comment(String),
    /// Exposure, diameter, center x, center y, optional rotation.
    Circle(bool, MacroValue, MacroValue, MacroValue, Option<MacroValue>),
    /// Exposure, width, start x, start y, end x, end y, rotation.
    VectorLine(bool, MacroValue, MacroValue, MacroValue, MacroValue, MacroValue, MacroValue),
    /// Exposure, width, height, center x, center y, rotation.
    CenterLine(bool, MacroValue, MacroValue, MacroValue, MacroValue, MacroValue),
    /// Exposure, vertices, rotation.
    Outline(bool, Vec<(MacroValue, MacroValue)>, MacroValue),
    /// Exposure, vertex count, center x, center y, diameter, rotation.
    Polygon(bool, u32, MacroValue, MacroValue, MacroValue, MacroValue),
    /// Center x, center y, outer diameter, inner diameter, gap, rotation.
    Thermal(MacroValue, MacroValue, MacroValue, MacroValue, MacroValue, MacroValue),
    /// Variable number and its expression text, kept unevaluated.
    VariableDefinition(u32, String),
}

/// The coordinates of a D01 (plot) operation; an absent axis keeps its
/// previous value.
#[derive(Clone, Copy, Debug, PartialEq, Eq, Structural)]
pub struct D01Operation {
    pub x: Option<i32>,
    pub y: Option<i32>,
    pub i: Option<i32>,
    pub j: Option<i32>,
}

/// The coordinates of a D02 (move) operation.
#[derive(Clone, Copy, Debug, PartialEq, Eq, Structural)]
pub struct D02Operation {
    pub x: Option<i32>,
    pub y: Option<i32>,
}

/// The coordinates of a D03 (flash) operation.
#[derive(Clone, Copy, Debug, PartialEq, Eq, Structural)]
pub struct D03Operation {
    pub x: Option<i32>,
    pub y: Option<i32>,
}

/// Polarity, set by the LP command.
#[derive(Clone, Copy, Debug, PartialEq, Eq, Structural)]
pub enum Polarity {
    Dark,
    Clear,
}

/// Mirroring, set by the LM command.
#[derive(Clone, Copy, Debug, PartialEq, Eq, Structural)]
pub enum Mirroring {
    NoMirroring,
    X,
    Y,
    XY,
}

/// The parameters of an SR (step and repeat) statement.
#[derive(Clone, Copy, Debug, PartialEq, Eq, Structural)]
pub struct StepAndRepeat {
    pub x_repeats: u32,
    pub y_repeats: u32,
    pub x_step: Decimal,
    pub y_step: Decimal,
}

/// A Gerber command.
#[derive(Clone, Debug, PartialEq)]
pub enum Command {
    /// Comment.
    G04(String),
    /// Unit.
    MO(Unit),
    /// Coordinate format.
    FS(FormatSpecification),
    /// Aperture definition.
    AD(ApertureDefinition),
    /// Aperture macro: name and primitive body.
    AM(String, Vec<AMPrimitive>),
    /// Aperture selection.
    Dnn(u32),
    /// Linear plot mode.
    G01,
    /// Clockwise circular plot mode.
    G02,
    /// Counterclockwise circular plot mode.
    G03,
    /// Multi-quadrant mode.
    G75,
    /// Plot.
    D01(D01Operation),
    /// Move.
    D02(D02Operation),
    /// Flash.
    D03(D03Operation),
    /// Load polarity.
    LP(Polarity),
    /// Load mirroring.
    LM(Mirroring),
    /// Load rotation, in degrees.
    LR(Decimal),
    /// Load scaling.
    LS(Decimal),
    /// Region begin.
    G36,
    /// Region end.
    G37,
    /// Aperture block open (with a code) or close. The parser does not
    /// produce it: aperture block statements are recognized and set aside
    /// whole, not expanded.
    AB(Option<u32>),
    /// Step and repeat open (with parameters) or close. The parser does not
    /// produce it: step-and-repeat statements are recognized and set aside
    /// whole, not expanded.
    SR(Option<StepAndRepeat>),
    /// File attribute: name and values.
    TF(String, Vec<String>),
    /// Aperture attribute: name and values.
    TA(String, Vec<String>),
    /// Object attribute: name and values.
    TO(String, Vec<String>),
    /// Attribute deletion: one name, or all when absent.
    TD(Option<String>),
    /// End of file.
    M02,
}

/// The mathematical value of an `ApertureTemplate`.
pub enum TemplateView {
    Circle(Decimal, Option<Decimal>),
    Rectangle(Decimal, Decimal, Option<Decimal>),
    Obround(Decimal, Decimal, Option<Decimal>),
    Polygon(Decimal, u32, Option<Decimal>, Option<Decimal>),
    Macro(Seq<char>, Seq<Decimal>),
}

/// The mathematical value of a `MacroValue`.
pub enum MacroValueView {
    Number(Decimal),
    Expression(Seq<char>),
}

impl View for MacroValue {
    type V = MacroValueView;

    open spec fn view(&self) -> MacroValueView {
        match self {
            MacroValue::Number(d) => MacroValueView::Number(*d),
            MacroValue::Expression(s) => MacroValueView::Expression(s@),
        }
    }
}

pub open spec fn opt_value_view(v: Option<MacroValue>) -> Option<MacroValueView> {
    match v {
        Some(x) => Some(x@),
        None => None,
    }
}

pub open spec fn points_view(ps: Seq<(MacroValue, MacroValue)>) -> Seq<(MacroValueView, MacroValueView)> {
    ps.map_values(|p: (MacroValue, MacroValue)| (p.0@, p.1@))
}

/// The mathematical value of an `AMPrimitive`.
pub enum PrimitiveView {
    Comment(Seq<char>),
    Circle(bool, MacroValueView, MacroValueView, MacroValueView, Option<MacroValueView>),
    VectorLine(
        bool,
        MacroValueView,
        MacroValueView,
        MacroValueView,
        MacroValueView,
        MacroValueView,
        MacroValueView,
    ),
    CenterLine(bool, MacroValueView, MacroValueView, MacroValueView, MacroValueView, MacroValueView),
    Outline(bool, Seq<(MacroValueView, MacroValueView)>, MacroValueView),
    Polygon(bool, u32, MacroValueView, MacroValueView, MacroValueView, MacroValueView),
    Thermal(
        MacroValueView,
        MacroValueView,
        MacroValueView,
        MacroValueView,
        MacroValueView,
        MacroValueView,
    ),
    VariableDefinition(u32, Seq<char>),
}

/// The mathematical value of a `Command`.
pub enum CommandView {
    G04(Seq<char>),
    MO(Unit),
    FS(FormatSpecification),
    AD(u32, TemplateView),
    AM(Seq<char>, Seq<PrimitiveView>),
    Dnn(u32),
    G01,
    G02,
    G03,
    G75,
    D01(D01Operation),
    D02(D02Operation),
    D03(D03Operation),
    LP(Polarity),
    LM(Mirroring),
    LR(Decimal),
    LS(Decimal),
    G36,
    G37,
    AB(Option<u32>),
    SR(Option<StepAndRepeat>),
    TF(Seq<char>, Seq<Seq<char>>),
    TA(Seq<char>, Seq<Seq<char>>),
    TO(Seq<char>, Seq<Seq<char>>),
    TD(Option<Seq<char>>),
    M02,
}

pub open spec fn strings_view(v: Seq<String>) -> Seq<Seq<char>> {
    v.map_values(|s: String| s@)
}

impl View for ApertureTemplate {
    type V = TemplateView;

    open spec fn view(&self) -> TemplateView {
        match self {
            ApertureTemplate::Circle(d, h) => TemplateView::Circle(*d, *h),
            ApertureTemplate::Rectangle(x, y, h) => TemplateView::Rectangle(*x, *y, *h),
            ApertureTemplate::Obround(x, y, h) => TemplateView::Obround(*x, *y, *h),
            ApertureTemplate::Polygon(d, n, r, h) => TemplateView::Polygon(*d, *n, *r, *h),
            ApertureTemplate::Macro(name, ps) => TemplateView::Macro(name@, ps@),
        }
    }
}

impl View for AMPrimitive {
    type V = PrimitiveView;

    open spec fn view(&self) -> PrimitiveView {
        match self {
            AMPrimitive::Comment(s) => PrimitiveView::Comment(s@),
            AMPrimitive::Circle(e, d, x, y, r) => PrimitiveView::Circle(
                *e,
                d@,
                x@,
                y@,
                opt_value_view(*r),
            ),
            AMPrimitive::VectorLine(e, w, a, b, c, d, r) => PrimitiveView::VectorLine(
                *e,
                w@,
                a@,
                b@,
                c@,
                d@,
                r@,
            ),
            AMPrimitive::CenterLine(e, w, h, x, y, r) => PrimitiveView::CenterLine(
                *e,
                w@,
                h@,
                x@,
                y@,
                r@,
            ),
            AMPrimitive::Outline(e, ps, r) => PrimitiveView::Outline(*e, points_view(ps@), r@),
            AMPrimitive::Polygon(e, n, x, y, d, r) => PrimitiveView::Polygon(
                *e,
                *n,
                x@,
                y@,
                d@,
                r@,
            ),
            AMPrimitive::Thermal(x, y, o, i, g, r) => PrimitiveView::Thermal(
                x@,
                y@,
                o@,
                i@,
                g@,
                r@,
            ),
            AMPrimitive::VariableDefinition(n, s) => PrimitiveView::VariableDefinition(*n, s@),
        }
    }
}

pub open spec fn primitives_view(v: Seq<AMPrimitive>) -> Seq<PrimitiveView> {
    v.map_values(|p: AMPrimitive| p@)
}

impl View for Command {
    type V = CommandView;

    open spec fn view(&self) -> CommandView {
        match self {
            Command::G04(s) => CommandView::G04(s@),
            Command::MO(u) => CommandView::MO(*u),
            Command::FS(f) => CommandView::FS(*f),
            Command::AD(d) => CommandView::AD(d.code, d.template@),
            Command::AM(name, ps) => CommandView::AM(name@, primitives_view(ps@)),
            Command::Dnn(c) => CommandView::Dnn(*c),
            Command::G01 => CommandView::G01,
            Command::G02 => CommandView::G02,
            Command::G03 => CommandView::G03,
            Command::G75 => CommandView::G75,
            Command::D01(op) => CommandView::D01(*op),
            Command::D02(op) => CommandView::D02(*op),
            Command::D03(op) => CommandView::D03(*op),
            Command::LP(p) => CommandView::LP(*p),
            Command::LM(m) => CommandView::LM(*m),
            Command::LR(d) => CommandView::LR(*d),
            Command::LS(d) => CommandView::LS(*d),
            Command::G36 => CommandView::G36,
            Command::G37 => CommandView::G37,
            Command::AB(c) => CommandView::AB(*c),
            Command::SR(s) => CommandView::SR(*s),
            Command::TF(n, vs) => CommandView::TF(n@, strings_view(vs@)),
            Command::TA(n, vs) => CommandView::TA(n@, strings_view(vs@)),
            Command::TO(n, vs) => CommandView::TO(n@, strings_view(vs@)),
            Command::TD(n) => CommandView::TD(
                match n {
                    Some(s) => Some(s@),
                    None => None,
                },
            ),
            Command::M02 => CommandView::M02,
        }
    }
}

pub open spec fn commands_view(v: Seq<Command>) -> Seq<CommandView> {
    v.map_values(|c: Command| c@)
}

pub proof fn lemma_commands_view_push(v: Seq<Command>, c: Command)
    ensures
        commands_view(v.push(c)) == commands_view(v).push(c@),
{
    assert(commands_view(v.push(c)) =~= commands_view(v).push(c@));
}

pub proof fn lemma_commands_view_add(v: Seq<Command>, w: Seq<Command>)
    ensures
        commands_view(v + w) == commands_view(v) + commands_view(w),
{
    assert(commands_view(v + w) =~= commands_view(v) + commands_view(w));
}

} // verus!
