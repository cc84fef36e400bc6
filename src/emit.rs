//! Canonical re-emission: commands back into the syntax nodes a grammar
//! engine would produce for their canonical source text.
use vstd::prelude::*;
use vstd::string::*;
use crate::aperture::{
    decimal_list, field_error, field_fits, first_misfit, flag_at, is_expression, outline_pairs,
    outline_points, outline_vertex, primitive_of, primitives_error, primitives_of, template_of,
    value_of_text,
};
use crate::command::{
    AMPrimitive, ApertureTemplate, Command, CommandView, D01Operation, MacroValue,
    MacroValueView, Mirroring, Polarity, PrimitiveView, TemplateView, Unit, commands_view,
    points_view, primitives_view, strings_view,
};
use crate::fields::{code_in, strip_d};
use crate::number::{
    all_digits, decimal_in, digit_value, digits_value, fraction_part, int_in, int_in_i32,
    integer_part, is_digit, is_negative_text, lemma_dot_index, push_range, signed_body,
    trim_zeros, uint_in, uint_in_u32, uint_in_u8, unsigned_body, Decimal,
};
use crate::parser::{
    contour_run, decode_children, decode_contours, decode_node, is_statement, parse_of,
};
use crate::statement::{coords_of, format_of, no_coords, statement_of, values_of};
use crate::syntax::{Rule, SyntaxNode};

verus! {

pub open spec fn digit_char(d: int) -> char {
    if d == 0 {
        '0'
    } else if d == 1 {
        '1'
    } else if d == 2 {
        '2'
    } else if d == 3 {
        '3'
    } else if d == 4 {
        '4'
    } else if d == 5 {
        '5'
    } else if d == 6 {
        '6'
    } else if d == 7 {
        '7'
    } else if d == 8 {
        '8'
    } else {
        '9'
    }
}

/// The decimal digits of `n`, most significant first, with no leading zero.
pub open spec fn nat_digits(n: nat) -> Seq<char>
    decreases n,
{
    if n < 10 {
        seq![digit_char(n as int)]
    } else {
        nat_digits(n / 10).push(digit_char((n % 10) as int))
    }
}

/// The canonical text of an integer.
pub open spec fn int_chars(v: int) -> Seq<char> {
    if v < 0 {
        seq!['-'] + nat_digits((-v) as nat)
    } else {
        nat_digits(v as nat)
    }
}

pub open spec fn zeros(k: nat) -> Seq<char> {
    Seq::new(k, |i: int| '0')
}

/// `ds` with a decimal point placed `s` digits from its end, padded with
/// leading zeros so that a digit stands before the point.
pub open spec fn place_point(ds: Seq<char>, s: nat) -> Seq<char> {
    if s == 0 {
        ds
    } else {
        let p = if ds.len() < s + 1 {
            zeros((s + 1 - ds.len()) as nat) + ds
        } else {
            ds
        };
        p.subrange(0, p.len() - s) + seq!['.'] + p.subrange(p.len() - s, p.len() as int)
    }
}

pub open spec fn abs(v: int) -> nat {
    if v < 0 {
        (-v) as nat
    } else {
        v as nat
    }
}

/// The canonical text of a decimal.
pub open spec fn decimal_chars(d: Decimal) -> Seq<char> {
    let body = place_point(nat_digits(abs(d.mantissa as int)), d.scale as nat);
    if d.mantissa < 0 {
        seq!['-'] + body
    } else {
        body
    }
}

/// A decimal in the form decoding gives: no trailing zero after the point,
/// and a mantissa whose magnitude fits.
pub open spec fn canonical(d: Decimal) -> bool {
    d.mantissa > i64::MIN && (d.scale == 0 || d.mantissa % 10 != 0)
}

proof fn lemma_digit_char(d: int)
    requires
        0 <= d < 10,
    ensures
        is_digit(digit_char(d)),
        digit_value(digit_char(d)) == d,
        digit_char(d) != '.',
        digit_char(d) != '+',
        digit_char(d) != '-',
        d != 0 ==> digit_char(d) != '0',
{
}

pub proof fn lemma_nat_digits(n: nat)
    ensures
        all_digits(nat_digits(n)),
        digits_value(nat_digits(n)) == n,
        nat_digits(n).len() >= 1,
        nat_digits(n).last() == digit_char((n % 10) as int),
    decreases n,
{
    if n < 10 {
        lemma_digit_char(n as int);
        assert(seq![digit_char(n as int)].drop_last() =~= Seq::<char>::empty());
        assert(digits_value(nat_digits(n)) == 10 * digits_value(Seq::<char>::empty())
            + digit_value(digit_char(n as int)));
    } else {
        lemma_nat_digits(n / 10);
        lemma_digit_char((n % 10) as int);
        let s = nat_digits(n);
        assert(s.drop_last() =~= nat_digits(n / 10));
        assert(s.last() == digit_char((n % 10) as int));
        assert(digits_value(s) == 10 * digits_value(nat_digits(n / 10)) + digit_value(
            digit_char((n % 10) as int),
        ));
        assert(10 * (n / 10) + n % 10 == n);
        assert forall|i: int| 0 <= i < s.len() implies is_digit(#[trigger] s[i]) by {
            if i < s.len() - 1 {
                assert(s[i] == nat_digits(n / 10)[i]);
            }
        }
    }
}

/// Leading zeros do not change the value of a digit string.
proof fn lemma_leading_zeros(k: nat, s: Seq<char>)
    ensures
        digits_value(zeros(k) + s) == digits_value(s),
    decreases s.len(), k,
{
    if s.len() == 0 {
        assert(zeros(k) + s =~= zeros(k));
        if k > 0 {
            assert(zeros(k).drop_last() =~= zeros((k - 1) as nat));
            lemma_leading_zeros((k - 1) as nat, s);
            assert(zeros((k - 1) as nat) + s =~= zeros((k - 1) as nat));
        }
    } else {
        assert((zeros(k) + s).drop_last() =~= zeros(k) + s.drop_last());
        lemma_leading_zeros(k, s.drop_last());
    }
}

pub proof fn lemma_uint_round_trip(n: nat, max: int)
    requires
        n <= max,
    ensures
        uint_in(nat_digits(n), max) == Some(n as int),
{
    lemma_nat_digits(n);
    lemma_digit_char(digit_value(nat_digits(n)[0]));
    assert(nat_digits(n)[0] != '+');
    assert(unsigned_body(nat_digits(n)) == nat_digits(n));
}

pub proof fn lemma_int_round_trip(v: int, min: int, max: int)
    requires
        min <= v <= max,
        min <= 0 <= max,
    ensures
        int_in(int_chars(v), min, max) == Some(v),
{
    let n = abs(v);
    lemma_nat_digits(n);
    assert(is_digit(nat_digits(n)[0]));
    if v < 0 {
        assert((seq!['-'] + nat_digits(n)).drop_first() =~= nat_digits(n));
    } else {
        assert(nat_digits(n)[0] != '+' && nat_digits(n)[0] != '-');
        assert(signed_body(int_chars(v)) == nat_digits(n));
    }
}

pub proof fn lemma_decimal_round_trip(d: Decimal)
    requires
        canonical(d),
    ensures
        decimal_in(decimal_chars(d)) == Some(d),
{
    let m = d.mantissa as int;
    let s = d.scale as nat;
    let ds = nat_digits(abs(m));
    lemma_nat_digits(abs(m));
    let b = place_point(ds, s);
    let text = decimal_chars(d);
    let p = if ds.len() < s + 1 {
        zeros((s + 1 - ds.len()) as nat) + ds
    } else {
        ds
    };
    assert(all_digits(p)) by {
        assert forall|i: int| 0 <= i < p.len() implies is_digit(#[trigger] p[i]) by {
            if ds.len() < s + 1 {
                let z = (s + 1 - ds.len()) as nat;
                if i >= z {
                    assert(p[i] == ds[i - z]);
                }
            }
        }
    }
    assert(digits_value(p) == abs(m)) by {
        if ds.len() < s + 1 {
            lemma_leading_zeros((s + 1 - ds.len()) as nat, ds);
        }
    }
    assert(is_digit(b[0])) by {
        if s == 0 {
        } else {
            assert(b[0] == p[0]);
        }
    }
    assert(signed_body(text) =~= b) by {
        if m < 0 {
            assert((seq!['-'] + b).drop_first() =~= b);
        }
    }
    assert(is_negative_text(text) == (m < 0));
    if s == 0 {
        lemma_dot_index(b, b.len() as int);
        assert(integer_part(b) =~= ds);
        assert(fraction_part(b) =~= Seq::<char>::empty());
        assert(trim_zeros(Seq::<char>::empty()) =~= Seq::<char>::empty());
        assert(ds + Seq::<char>::empty() =~= ds);
    } else {
        let k = p.len() - s;
        lemma_dot_index(b, k);
        assert(integer_part(b) =~= p.subrange(0, k));
        assert(fraction_part(b) =~= p.subrange(k, p.len() as int));
        let f = p.subrange(k, p.len() as int);
        assert(f.last() == ds.last());
        assert(abs(m) % 10 != 0);
        lemma_digit_char((abs(m) % 10) as int);
        assert(trim_zeros(f) == f);
        assert(p.subrange(0, k) + f =~= p);
    }
}

fn digit_of(d: u64) -> (c: char)
    requires
        d < 10,
    ensures
        c == digit_char(d as int),
{
    if d == 0 {
        '0'
    } else if d == 1 {
        '1'
    } else if d == 2 {
        '2'
    } else if d == 3 {
        '3'
    } else if d == 4 {
        '4'
    } else if d == 5 {
        '5'
    } else if d == 6 {
        '6'
    } else if d == 7 {
        '7'
    } else if d == 8 {
        '8'
    } else {
        '9'
    }
}

fn push_digits(v: &mut Vec<char>, n: u64)
    ensures
        final(v)@ == old(v)@ + nat_digits(n as nat),
    decreases n,
{
    if n >= 10 {
        push_digits(v, n / 10);
    }
    let ghost mid = v@;
    v.push(digit_of(n % 10));
    proof {
        if n >= 10 {
            assert(v@ =~= old(v)@ + nat_digits(n as nat));
        } else {
            assert(v@ =~= old(v)@ + nat_digits(n as nat));
        }
    }
}

/// The characters that canonical numbers are written with.
pub open spec fn number_char(c: char) -> bool {
    is_digit(c) || c == '-' || c == '.'
}

fn push_number_char(s: &mut String, c: char)
    requires
        number_char(c),
    ensures
        final(s)@ == old(s)@.push(c),
{
    proof {
        reveal_strlit("0");
        reveal_strlit("1");
        reveal_strlit("2");
        reveal_strlit("3");
        reveal_strlit("4");
        reveal_strlit("5");
        reveal_strlit("6");
        reveal_strlit("7");
        reveal_strlit("8");
        reveal_strlit("9");
        reveal_strlit("-");
        reveal_strlit(".");
    }
    if c == '0' {
        s.append("0");
    } else if c == '1' {
        s.append("1");
    } else if c == '2' {
        s.append("2");
    } else if c == '3' {
        s.append("3");
    } else if c == '4' {
        s.append("4");
    } else if c == '5' {
        s.append("5");
    } else if c == '6' {
        s.append("6");
    } else if c == '7' {
        s.append("7");
    } else if c == '8' {
        s.append("8");
    } else if c == '9' {
        s.append("9");
    } else if c == '-' {
        s.append("-");
    } else {
        s.append(".");
    }
    assert(s@ =~= old(s)@.push(c));
}

/// The text whose characters are `cs`.
fn number_string(cs: &Vec<char>) -> (r: String)
    requires
        forall|i: int| 0 <= i < cs@.len() ==> number_char(#[trigger] cs@[i]),
    ensures
        r@ == cs@,
{
    let mut r = String::new();
    let mut i: usize = 0;
    while i < cs.len()
        invariant
            i <= cs@.len(),
            forall|j: int| 0 <= j < cs@.len() ==> number_char(#[trigger] cs@[j]),
            r@ == cs@.subrange(0, i as int),
        decreases cs@.len() - i,
    {
        push_number_char(&mut r, cs[i]);
        i = i + 1;
        assert(r@ =~= cs@.subrange(0, i as int));
    }
    assert(cs@.subrange(0, i as int) =~= cs@);
    r
}

/// The canonical text of an unsigned integer.
pub fn uint_text(n: u64) -> (r: String)
    ensures
        r@ == nat_digits(n as nat),
{
    let mut v: Vec<char> = Vec::new();
    push_digits(&mut v, n);
    proof {
        lemma_nat_digits(n as nat);
        assert(v@ =~= nat_digits(n as nat));
    }
    number_string(&v)
}

/// The canonical text of a signed integer.
pub fn int_text(x: i64) -> (r: String)
    requires
        x > i64::MIN,
    ensures
        r@ == int_chars(x as int),
{
    let mut v: Vec<char> = Vec::new();
    if x < 0 {
        v.push('-');
        push_digits(&mut v, (-x) as u64);
    } else {
        push_digits(&mut v, x as u64);
    }
    proof {
        lemma_nat_digits(abs(x as int));
        assert(v@ =~= int_chars(x as int));
        assert forall|i: int| 0 <= i < v@.len() implies number_char(#[trigger] v@[i]) by {
            if x < 0 && i > 0 {
                assert(v@[i] == nat_digits(abs(x as int))[i - 1]);
            }
        }
    }
    number_string(&v)
}

/// Every character of a decimal's canonical text is a digit, a sign or the
/// point.
proof fn lemma_decimal_chars(d: Decimal)
    ensures
        forall|i: int| 0 <= i < decimal_chars(d).len() ==> number_char(#[trigger] decimal_chars(d)[i]),
{
    let m = d.mantissa as int;
    let s = d.scale as nat;
    let ds = nat_digits(abs(m));
    lemma_nat_digits(abs(m));
    let b = place_point(ds, s);
    let p = if ds.len() < s + 1 {
        zeros((s + 1 - ds.len()) as nat) + ds
    } else {
        ds
    };
    assert forall|q: int| 0 <= q < p.len() implies is_digit(#[trigger] p[q]) by {
        if ds.len() < s + 1 && q >= (s + 1 - ds.len()) {
            assert(p[q] == ds[q - (s + 1 - ds.len())]);
        }
    }
    assert forall|j: int| 0 <= j < b.len() implies number_char(#[trigger] b[j]) by {
        if s != 0 {
            let cut = p.len() - s;
            if j < cut {
                assert(b[j] == p[j]);
            } else if j > cut {
                assert(b[j] == p[j - 1]);
            }
        }
    }
    assert forall|i: int| 0 <= i < decimal_chars(d).len() implies number_char(
        #[trigger] decimal_chars(d)[i],
    ) by {
        if m < 0 && i > 0 {
            assert(decimal_chars(d)[i] == b[i - 1]);
        }
    }
}

/// `ds` with the point placed `s` digits from the end.
fn point_chars(ds: &Vec<char>, s: u32) -> (r: Vec<char>)
    requires
        s > 0,
    ensures
        r@ == place_point(ds@, s as nat),
{
    let mut p: Vec<char> = Vec::new();
    let len = ds.len() as u64;
    if len < (s as u64) + 1 {
        let z: u64 = (s as u64) + 1 - len;
        let mut k: u64 = 0;
        while k < z
            invariant
                k <= z,
                p@ == zeros(k as nat),
            decreases z - k,
        {
            p.push('0');
            k = k + 1;
            assert(p@ =~= zeros(k as nat));
        }
    }
    push_range(&mut p, ds, 0, ds.len());
    assert(ds@.subrange(0, ds@.len() as int) =~= ds@);
    let cut = p.len() - (s as usize);
    let mut out: Vec<char> = Vec::new();
    push_range(&mut out, &p, 0, cut);
    out.push('.');
    push_range(&mut out, &p, cut, p.len());
    assert(out@ =~= place_point(ds@, s as nat));
    out
}

/// The canonical text of a decimal.
pub fn decimal_text(d: Decimal) -> (r: String)
    requires
        canonical(d),
    ensures
        r@ == decimal_chars(d),
{
    let m = d.mantissa;
    let magnitude: u64 = if m < 0 {
        (-m) as u64
    } else {
        m as u64
    };
    let mut ds: Vec<char> = Vec::new();
    push_digits(&mut ds, magnitude);
    assert(ds@ =~= nat_digits(abs(m as int)));
    let body = if d.scale == 0 {
        ds
    } else {
        point_chars(&ds, d.scale)
    };
    let mut out: Vec<char> = Vec::new();
    if m < 0 {
        out.push('-');
    }
    push_range(&mut out, &body, 0, body.len());
    proof {
        assert(body@.subrange(0, body@.len() as int) =~= body@);
        assert(out@ =~= decimal_chars(d));
        lemma_decimal_chars(d);
    }
    number_string(&out)
}

pub open spec fn canonical_opt(d: Option<Decimal>) -> bool {
    match d {
        Some(x) => canonical(x),
        None => true,
    }
}

pub open spec fn all_canonical(ps: Seq<Decimal>) -> bool {
    forall|i: int| 0 <= i < ps.len() ==> canonical(#[trigger] ps[i])
}

/// A template that canonical text can carry: exact decimals, and no hole
/// on a polygon without a rotation before it.
pub open spec fn valid_template(t: TemplateView) -> bool {
    match t {
        TemplateView::Circle(d, h) => canonical(d) && canonical_opt(h),
        TemplateView::Rectangle(x, y, h) => canonical(x) && canonical(y) && canonical_opt(h),
        TemplateView::Obround(x, y, h) => canonical(x) && canonical(y) && canonical_opt(h),
        TemplateView::Polygon(d, _n, r, h) => canonical(d) && canonical_opt(r) && canonical_opt(h)
            && (r is None ==> h is None),
        TemplateView::Macro(_name, ps) => all_canonical(ps),
    }
}

/// A macro field that canonical text can carry: an exact number, or an
/// expression that no number reading would take for one.
pub open spec fn valid_value(v: MacroValueView) -> bool {
    match v {
        MacroValueView::Number(d) => canonical(d),
        MacroValueView::Expression(t) => is_expression(t),
    }
}

pub open spec fn valid_value_opt(v: Option<MacroValueView>) -> bool {
    match v {
        Some(x) => valid_value(x),
        None => true,
    }
}

/// A macro primitive that canonical text can carry.
pub open spec fn valid_primitive(p: PrimitiveView) -> bool {
    match p {
        PrimitiveView::Comment(_) => true,
        PrimitiveView::Circle(_e, d, x, y, r) => valid_value(d) && valid_value(x) && valid_value(y)
            && valid_value_opt(r),
        PrimitiveView::VectorLine(_e, w, a, b, c, d, r) => valid_value(w) && valid_value(a)
            && valid_value(b) && valid_value(c) && valid_value(d) && valid_value(r),
        PrimitiveView::CenterLine(_e, w, h, x, y, r) => valid_value(w) && valid_value(h)
            && valid_value(x) && valid_value(y) && valid_value(r),
        PrimitiveView::Outline(_e, pts, r) => pts.len() >= 1 && valid_value(r) && forall|i: int|
            0 <= i < pts.len() ==> valid_value((#[trigger] pts[i]).0) && valid_value(pts[i].1),
        PrimitiveView::Polygon(_e, _n, x, y, d, r) => valid_value(x) && valid_value(y)
            && valid_value(d) && valid_value(r),
        PrimitiveView::Thermal(x, y, o, i, g, r) => valid_value(x) && valid_value(y)
            && valid_value(o) && valid_value(i) && valid_value(g) && valid_value(r),
        PrimitiveView::VariableDefinition(_, _) => true,
    }
}

fn token(text: String) -> (r: SyntaxNode)
    ensures
        r.rule == Rule::Token,
        r.text == text,
        r.children@.len() == 0,
{
    SyntaxNode::leaf(Rule::Token, text)
}

fn decimal_token(d: Decimal) -> (r: SyntaxNode)
    requires
        canonical(d),
    ensures
        r.children@.len() == 0,
        decimal_in(r.text@) == Some(d),
{
    proof {
        lemma_decimal_round_trip(d);
    }
    token(decimal_text(d))
}

fn u32_token(n: u32) -> (r: SyntaxNode)
    ensures
        r.children@.len() == 0,
        uint_in_u32(r.text@) == Some(n),
{
    proof {
        lemma_uint_round_trip(n as nat, u32::MAX as int);
    }
    token(uint_text(n as u64))
}

fn flag_token(e: bool) -> (r: SyntaxNode)
    ensures
        r.children@.len() == 0,
        int_in_i32(r.text@) == Some(if e { 1i32 } else { 0i32 }),
{
    let v: i64 = if e {
        1
    } else {
        0
    };
    proof {
        lemma_int_round_trip(v as int, i32::MIN as int, i32::MAX as int);
    }
    token(int_text(v))
}

fn node_of(rule: Rule, children: Vec<SyntaxNode>) -> (r: SyntaxNode)
    ensures
        r.rule == rule,
        r.children == children,
{
    SyntaxNode::new(rule, String::new(), children)
}

/// The node of a template, as canonical text would give it.
pub fn emit_template(t: &ApertureTemplate) -> (r: SyntaxNode)
    requires
        valid_template(t@),
    ensures
        template_of(r) == Ok::<TemplateView, Seq<char>>(t@),
{
    let mut c: Vec<SyntaxNode> = Vec::new();
    match t {
        ApertureTemplate::Circle(d, h) => {
            c.push(decimal_token(*d));
            match h {
                Some(x) => c.push(decimal_token(*x)),
                None => {},
            }
            node_of(Rule::TemplateCircle, c)
        },
        ApertureTemplate::Rectangle(x, y, h) => {
            c.push(decimal_token(*x));
            c.push(decimal_token(*y));
            match h {
                Some(v) => c.push(decimal_token(*v)),
                None => {},
            }
            node_of(Rule::TemplateRectangle, c)
        },
        ApertureTemplate::Obround(x, y, h) => {
            c.push(decimal_token(*x));
            c.push(decimal_token(*y));
            match h {
                Some(v) => c.push(decimal_token(*v)),
                None => {},
            }
            node_of(Rule::TemplateObround, c)
        },
        ApertureTemplate::Polygon(d, n, rot, h) => {
            c.push(decimal_token(*d));
            c.push(u32_token(*n));
            match rot {
                Some(v) => c.push(decimal_token(*v)),
                None => {},
            }
            match h {
                Some(v) => c.push(decimal_token(*v)),
                None => {},
            }
            node_of(Rule::TemplatePolygon, c)
        },
        ApertureTemplate::Macro(name, ps) => {
            c.push(token(name.clone()));
            assert(t@ == TemplateView::Macro(name@, ps@));
            assert(all_canonical(ps@));
            let mut i: usize = 0;
            while i < ps.len()
                invariant
                    i <= ps@.len(),
                    all_canonical(ps@),
                    c@.len() == i + 1,
                    c@[0].text@ == name@,
                    decimal_list(c@.subrange(1, i + 1)) == Some(ps@.subrange(0, i as int)),
                decreases ps@.len() - i,
            {
                let ghost before = c@;
                c.push(decimal_token(ps[i]));
                assert(c@.subrange(1, i + 2).drop_last() =~= before.subrange(1, i + 1));
                assert(c@.subrange(1, i + 2).last() == c@[i + 1]);
                assert(ps@.subrange(0, i + 1) =~= ps@.subrange(0, i as int).push(ps@[i as int]));
                i = i + 1;
            }
            assert(ps@.subrange(0, i as int) =~= ps@);
            assert(c@.subrange(1, c@.len() as int) =~= c@.subrange(1, i + 1));
            node_of(Rule::TemplateName, c)
        },
    }
}

/// Every field of `c` fits its place in a primitive of rule `r`.
pub open spec fn all_fit(r: Rule, c: Seq<SyntaxNode>) -> bool {
    forall|j: int| 0 <= j < c.len() ==> field_fits(r, (#[trigger] c[j]).text@, j)
}

proof fn lemma_all_fit(r: Rule, c: Seq<SyntaxNode>, k: int)
    requires
        all_fit(r, c),
        0 <= k,
    ensures
        first_misfit(r, c, k) is None,
    decreases c.len() - k,
{
    if k < c.len() {
        lemma_all_fit(r, c, k + 1);
    }
}

/// Appends a field node that fits its place.
fn push_field(c: &mut Vec<SyntaxNode>, t: SyntaxNode, Ghost(r): Ghost<Rule>)
    requires
        all_fit(r, old(c)@),
        field_fits(r, t.text@, old(c)@.len() as int),
    ensures
        final(c)@ == old(c)@.push(t),
        all_fit(r, final(c)@),
{
    c.push(t);
    assert forall|j: int| 0 <= j < c@.len() implies field_fits(r, (#[trigger] c@[j]).text@, j) by {
        if j < c@.len() - 1 {
            assert(c@[j] == old(c)@[j]);
        }
    }
}

fn value_token(v: &MacroValue) -> (r: SyntaxNode)
    requires
        valid_value(v@),
    ensures
        r.children@.len() == 0,
        value_of_text(r.text@) == v@,
        decimal_in(r.text@) is Some || is_expression(r.text@),
{
    match v {
        MacroValue::Number(d) => decimal_token(*d),
        MacroValue::Expression(t) => token(t.clone()),
    }
}

/// The node of a macro primitive, as canonical text would give it.
pub fn emit_primitive(p: &AMPrimitive) -> (r: SyntaxNode)
    requires
        valid_primitive(p@),
    ensures
        primitive_of(r) == Some(p@),
        field_error(r) is None,
{
    let mut c: Vec<SyntaxNode> = Vec::new();
    let r = match p {
        AMPrimitive::Comment(s) => {
            let g = Ghost(Rule::PrimitiveComment);
            push_field(&mut c, token(s.clone()), g);
            node_of(Rule::PrimitiveComment, c)
        },
        AMPrimitive::Circle(e, d, x, y, rot) => {
            let g = Ghost(Rule::PrimitiveCircle);
            push_field(&mut c, flag_token(*e), g);
            push_field(&mut c, value_token(d), g);
            push_field(&mut c, value_token(x), g);
            push_field(&mut c, value_token(y), g);
            match rot {
                Some(v) => push_field(&mut c, value_token(v), g),
                None => {},
            }
            node_of(Rule::PrimitiveCircle, c)
        },
        AMPrimitive::VectorLine(e, w, a, b, cc, d, rot) => {
            let g = Ghost(Rule::PrimitiveVectorLine);
            push_field(&mut c, flag_token(*e), g);
            push_field(&mut c, value_token(w), g);
            push_field(&mut c, value_token(a), g);
            push_field(&mut c, value_token(b), g);
            push_field(&mut c, value_token(cc), g);
            push_field(&mut c, value_token(d), g);
            push_field(&mut c, value_token(rot), g);
            node_of(Rule::PrimitiveVectorLine, c)
        },
        AMPrimitive::CenterLine(e, w, h, x, y, rot) => {
            let g = Ghost(Rule::PrimitiveCenterLine);
            push_field(&mut c, flag_token(*e), g);
            push_field(&mut c, value_token(w), g);
            push_field(&mut c, value_token(h), g);
            push_field(&mut c, value_token(x), g);
            push_field(&mut c, value_token(y), g);
            push_field(&mut c, value_token(rot), g);
            node_of(Rule::PrimitiveCenterLine, c)
        },
        AMPrimitive::Outline(e, pts, rot) => emit_outline(*e, pts, rot),
        AMPrimitive::Polygon(e, n, x, y, d, rot) => {
            let g = Ghost(Rule::PrimitivePolygon);
            push_field(&mut c, flag_token(*e), g);
            push_field(&mut c, u32_token(*n), g);
            push_field(&mut c, value_token(x), g);
            push_field(&mut c, value_token(y), g);
            push_field(&mut c, value_token(d), g);
            push_field(&mut c, value_token(rot), g);
            node_of(Rule::PrimitivePolygon, c)
        },
        AMPrimitive::Thermal(x, y, o, i, gap, rot) => {
            let g = Ghost(Rule::PrimitiveThermal);
            push_field(&mut c, value_token(x), g);
            push_field(&mut c, value_token(y), g);
            push_field(&mut c, value_token(o), g);
            push_field(&mut c, value_token(i), g);
            push_field(&mut c, value_token(gap), g);
            push_field(&mut c, value_token(rot), g);
            node_of(Rule::PrimitiveThermal, c)
        },
        AMPrimitive::VariableDefinition(n, s) => {
            let g = Ghost(Rule::VariableDefinition);
            push_field(&mut c, u32_token(*n), g);
            push_field(&mut c, token(s.clone()), g);
            node_of(Rule::VariableDefinition, c)
        },
    };
    proof {
        lemma_all_fit(r.rule, r.children@, 0);
    }
    r
}

fn emit_outline(e: bool, pts: &Vec<(MacroValue, MacroValue)>, rot: &MacroValue) -> (r: SyntaxNode)
    requires
        valid_primitive(PrimitiveView::Outline(e, points_view(pts@), rot@)),
    ensures
        primitive_of(r) == Some(PrimitiveView::Outline(e, points_view(pts@), rot@)),
        r.rule == Rule::PrimitiveOutline,
        all_fit(Rule::PrimitiveOutline, r.children@),
        r.children@.len() == 2 * pts@.len() + 2,
        pts@.len() >= 1,
{
    let g = Ghost(Rule::PrimitiveOutline);
    let ghost pv = points_view(pts@);
    let mut c: Vec<SyntaxNode> = Vec::new();
    push_field(&mut c, flag_token(e), g);
    let mut i: usize = 0;
    while i < pts.len()
        invariant
            g@ == Rule::PrimitiveOutline,
            pv == points_view(pts@),
            i <= pts@.len(),
            pts@.len() >= 1,
            forall|j: int| 0 <= j < pv.len() ==> valid_value((#[trigger] pv[j]).0) && valid_value(pv[j].1),
            c@.len() == 1 + 2 * i,
            all_fit(Rule::PrimitiveOutline, c@),
            int_in_i32(c@[0].text@) == Some(if e { 1i32 } else { 0i32 }),
            forall|j: int| 0 <= j < i ==> value_of_text((#[trigger] c@[1 + 2 * j]).text@) == pv[j].0
                && value_of_text(c@[2 + 2 * j].text@) == pv[j].1,
        decreases pts@.len() - i,
    {
        let ghost before = c@;
        assert(pv[i as int] == (pts@[i as int].0@, pts@[i as int].1@));
        let tx = value_token(&pts[i].0);
        assert(c@.len() == 1 + 2 * i);
        assert(field_fits(Rule::PrimitiveOutline, tx.text@, 1 + 2 * i));
        push_field(&mut c, tx, g);
        let ty = value_token(&pts[i].1);
        assert(field_fits(Rule::PrimitiveOutline, ty.text@, 2 + 2 * i));
        push_field(&mut c, ty, g);
        assert forall|j: int| 0 <= j < i + 1 implies value_of_text((#[trigger] c@[1 + 2 * j]).text@)
            == pv[j].0 && value_of_text(c@[2 + 2 * j].text@) == pv[j].1 by {
            if j < i {
                assert(c@[1 + 2 * j] == before[1 + 2 * j]);
                assert(c@[2 + 2 * j] == before[2 + 2 * j]);
            }
        }
        i = i + 1;
    }
    push_field(&mut c, value_token(rot), g);
    let r = node_of(Rule::PrimitiveOutline, c);
    proof {
        let cs = r.children@;
        assert(cs.len() == 2 * pts@.len() + 2);
        assert(outline_pairs(cs) == pts@.len() - 1);
        assert forall|k: int| 0 <= k < pv.len() implies #[trigger] outline_vertex(cs, k) == pv[k] by {
            assert(cs[1 + 2 * k] == c@[1 + 2 * k]);
        }
        assert(outline_points(cs) =~= pv);
        assert(flag_at(cs, 0) == e);
    }
    r
}

pub open spec fn all_valid_primitives(ps: Seq<PrimitiveView>) -> bool {
    forall|i: int| 0 <= i < ps.len() ==> valid_primitive(#[trigger] ps[i])
}

/// A command that canonical text can carry on its own; region markers are
/// carried by the region around them.
pub open spec fn valid_command(c: CommandView) -> bool {
    match c {
        CommandView::AD(_, t) => valid_template(t),
        CommandView::AM(_, ps) => all_valid_primitives(ps),
        CommandView::D01(op) => (op.i is Some) == (op.j is Some),
        CommandView::LR(d) => canonical(d),
        CommandView::LS(d) => canonical(d),
        CommandView::G36 | CommandView::G37 | CommandView::AB(_) | CommandView::SR(_) => false,
        _ => true,
    }
}

fn int_token(v: i32) -> (r: SyntaxNode)
    ensures
        r.children@.len() == 0,
        int_in_i32(r.text@) == Some(v),
{
    proof {
        lemma_int_round_trip(v as int, i32::MIN as int, i32::MAX as int);
    }
    token(int_text(v as i64))
}

fn u8_token(n: u8) -> (r: SyntaxNode)
    ensures
        r.children@.len() == 0,
        uint_in_u8(r.text@) == Some(n),
{
    proof {
        lemma_uint_round_trip(n as nat, u8::MAX as int);
    }
    token(uint_text(n as u64))
}

fn code_token(n: u32) -> (r: SyntaxNode)
    ensures
        r.children@.len() == 0,
        code_in(r.text@) == Some(n),
{
    let digits = uint_text(n as u64);
    let text = String::from_str("D").concat(digits.as_str());
    proof {
        reveal_strlit("D");
        lemma_uint_round_trip(n as nat, u32::MAX as int);
        lemma_nat_digits(n as nat);
        lemma_digit_char(digit_value(digits@[0]));
        assert(text@.drop_first() =~= digits@);
        assert(strip_d(text@) == strip_d(digits@));
        assert(strip_d(digits@) == digits@);
    }
    token(text)
}

fn keyword_token(k: &str) -> (r: SyntaxNode)
    ensures
        r.children@.len() == 0,
        r.text@ == k@,
{
    token(String::from_str(k))
}

/// The coordinate nodes of an operation: those of its present axes.
fn emit_coords(op: D01Operation, arcs: bool) -> (r: Vec<SyntaxNode>)
    requires
        (op.i is Some) == (op.j is Some),
        !arcs ==> op.i is None,
    ensures
        coords_of(r@, arcs) == Ok::<D01Operation, Seq<char>>(op),
{
    let mut c: Vec<SyntaxNode> = Vec::new();
    let ghost mut cur = no_coords();
    assert(coords_of(c@, arcs) == Ok::<D01Operation, Seq<char>>(cur));
    match op.x {
        Some(x) => {
            let mut t = Vec::new();
            t.push(int_token(x));
            let ghost before = c@;
            c.push(node_of(Rule::XCoord, t));
            assert(c@.drop_last() =~= before);
            proof {
                cur = D01Operation { x: Some(x), y: cur.y, i: cur.i, j: cur.j };
            }
        },
        None => {},
    }
    assert(coords_of(c@, arcs) == Ok::<D01Operation, Seq<char>>(cur));
    match op.y {
        Some(y) => {
            let mut t = Vec::new();
            t.push(int_token(y));
            let ghost before = c@;
            c.push(node_of(Rule::YCoord, t));
            assert(c@.drop_last() =~= before);
            proof {
                cur = D01Operation { x: cur.x, y: Some(y), i: cur.i, j: cur.j };
            }
        },
        None => {},
    }
    assert(coords_of(c@, arcs) == Ok::<D01Operation, Seq<char>>(cur));
    if arcs {
        match (op.i, op.j) {
            (Some(i), Some(j)) => {
                let mut t = Vec::new();
                t.push(int_token(i));
                t.push(int_token(j));
                let ghost before = c@;
                c.push(node_of(Rule::IjCoords, t));
                assert(c@.drop_last() =~= before);
                proof {
                    cur = D01Operation { x: cur.x, y: cur.y, i: Some(i), j: Some(j) };
                }
            },
            _ => {},
        }
    }
    assert(cur == op);
    c
}

/// The node of a command, as canonical text would give it.
pub fn emit_command(c: &Command) -> (r: SyntaxNode)
    requires
        valid_command(c@),
    ensures
        is_statement(r.rule),
        statement_of(r) == Ok::<Option<CommandView>, Seq<char>>(Some(c@)),
{
    let mut ch: Vec<SyntaxNode> = Vec::new();
    proof {
        reveal_strlit("MM");
        reveal_strlit("IN");
        reveal_strlit("D");
        reveal_strlit("C");
        reveal_strlit("N");
        reveal_strlit("X");
        reveal_strlit("Y");
        reveal_strlit("XY");
    }
    match c {
        Command::G04(s) => {
            ch.push(token(s.clone()));
            node_of(Rule::G04, ch)
        },
        Command::MO(u) => {
            match u {
                Unit::Millimeters => ch.push(keyword_token("MM")),
                Unit::Inches => ch.push(keyword_token("IN")),
            }
            node_of(Rule::Mo, ch)
        },
        Command::FS(f) => {
            ch.push(u8_token(f.x_integer_digits));
            ch.push(u8_token(f.x_decimal_digits));
            ch.push(u8_token(f.y_integer_digits));
            ch.push(u8_token(f.y_decimal_digits));
            let r = node_of(Rule::Fs, ch);
            assert(format_of(r.children@) == Ok::<crate::command::FormatSpecification, Seq<char>>(*f));
            r
        },
        Command::AD(def) => {
            ch.push(code_token(def.code));
            ch.push(emit_template(&def.template));
            node_of(Rule::Ad, ch)
        },
        Command::AM(name, prims) => emit_macro(name, prims),
        Command::Dnn(code) => {
            ch.push(code_token(*code));
            node_of(Rule::Dnn, ch)
        },
        Command::G01 => node_of(Rule::G01, ch),
        Command::G02 => node_of(Rule::G02, ch),
        Command::G03 => node_of(Rule::G03, ch),
        Command::G75 => node_of(Rule::G75, ch),
        Command::D01(op) => node_of(Rule::D01, emit_coords(*op, true)),
        Command::D02(op) => node_of(
            Rule::D02,
            emit_coords(D01Operation { x: op.x, y: op.y, i: None, j: None }, false),
        ),
        Command::D03(op) => node_of(
            Rule::D03,
            emit_coords(D01Operation { x: op.x, y: op.y, i: None, j: None }, false),
        ),
        Command::LP(p) => {
            match p {
                Polarity::Dark => ch.push(keyword_token("D")),
                Polarity::Clear => ch.push(keyword_token("C")),
            }
            node_of(Rule::Lp, ch)
        },
        Command::LM(m) => {
            match m {
                Mirroring::NoMirroring => ch.push(keyword_token("N")),
                Mirroring::X => ch.push(keyword_token("X")),
                Mirroring::Y => ch.push(keyword_token("Y")),
                Mirroring::XY => ch.push(keyword_token("XY")),
            }
            node_of(Rule::Lm, ch)
        },
        Command::LR(d) => {
            ch.push(decimal_token(*d));
            node_of(Rule::Lr, ch)
        },
        Command::LS(d) => {
            ch.push(decimal_token(*d));
            node_of(Rule::Ls, ch)
        },
        Command::TF(name, vals) => node_of(Rule::Tf, emit_attribute(name, vals)),
        Command::TA(name, vals) => node_of(Rule::Ta, emit_attribute(name, vals)),
        Command::TO(name, vals) => node_of(Rule::To, emit_attribute(name, vals)),
        Command::TD(name) => {
            match name {
                Some(s) => ch.push(token(s.clone())),
                None => {},
            }
            node_of(Rule::Td, ch)
        },
        Command::M02 => node_of(Rule::M02, ch),
        Command::G36 | Command::G37 | Command::AB(_) | Command::SR(_) => {
            assert(false);
            node_of(Rule::Other, ch)
        },
    }
}

fn emit_attribute(name: &String, vals: &Vec<String>) -> (r: Vec<SyntaxNode>)
    ensures
        r@.len() >= 1,
        r@[0].text@ == name@,
        values_of(r@) == strings_view(vals@),
{
    let mut c: Vec<SyntaxNode> = Vec::new();
    c.push(token(name.clone()));
    let mut i: usize = 0;
    while i < vals.len()
        invariant
            i <= vals@.len(),
            c@.len() == i + 1,
            c@[0].text@ == name@,
            forall|j: int| 0 <= j < i ==> (#[trigger] c@[j + 1]).text@ == vals@[j]@,
        decreases vals@.len() - i,
    {
        let ghost before = c@;
        c.push(token(vals[i].clone()));
        assert forall|j: int| 0 <= j < i + 1 implies (#[trigger] c@[j + 1]).text@ == vals@[j]@ by {
            if j < i {
                assert(c@[j + 1] == before[j + 1]);
            }
        }
        i = i + 1;
    }
    assert(values_of(c@) =~= strings_view(vals@));
    c
}

fn emit_macro(name: &String, prims: &Vec<AMPrimitive>) -> (r: SyntaxNode)
    requires
        all_valid_primitives(primitives_view(prims@)),
    ensures
        is_statement(r.rule),
        statement_of(r) == Ok::<Option<CommandView>, Seq<char>>(
            Some(CommandView::AM(name@, primitives_view(prims@))),
        ),
{
    let mut c: Vec<SyntaxNode> = Vec::new();
    c.push(token(name.clone()));
    let mut i: usize = 0;
    assert(c@.subrange(1, 1) =~= Seq::<SyntaxNode>::empty());
    assert(primitives_view(prims@.subrange(0, 0)) =~= Seq::<PrimitiveView>::empty());
    while i < prims.len()
        invariant
            i <= prims@.len(),
            all_valid_primitives(primitives_view(prims@)),
            c@.len() == i + 1,
            c@[0].text@ == name@,
            primitives_of(c@.subrange(1, i + 1)) == primitives_view(prims@.subrange(0, i as int)),
            primitives_error(c@.subrange(1, i + 1)) is None,
        decreases prims@.len() - i,
    {
        assert(primitives_view(prims@)[i as int] == prims@[i as int]@);
        let node = emit_primitive(&prims[i]);
        let ghost before = c@;
        c.push(node);
        assert(c@.subrange(1, i + 2).drop_last() =~= before.subrange(1, i + 1));
        assert(c@.subrange(1, i + 2).last() == node);
        assert(primitives_view(prims@.subrange(0, i + 1)) =~= primitives_view(
            prims@.subrange(0, i as int),
        ).push(prims@[i as int]@));
        i = i + 1;
    }
    assert(prims@.subrange(0, i as int) =~= prims@);
    assert(c@.subrange(1, c@.len() as int) =~= c@.subrange(1, i + 1));
    node_of(Rule::Am, c)
}

/// Where a command sequence stands after `cs`, from `start`: `Some(true)`
/// inside a region, `Some(false)` outside, `None` once it is malformed.
pub open spec fn region_state(cs: Seq<CommandView>, start: Option<bool>) -> Option<bool>
    decreases cs.len(),
{
    if cs.len() == 0 {
        start
    } else {
        match region_state(cs.drop_last(), start) {
            None => None,
            Some(inside) => match cs.last() {
                CommandView::G36 => if inside {
                    None
                } else {
                    Some(true)
                },
                CommandView::G37 => if inside {
                    Some(false)
                } else {
                    None
                },
                c => if valid_command(c) {
                    Some(inside)
                } else {
                    None
                },
            },
        }
    }
}

/// A sequence canonical text can carry: at least one command, all valid,
/// with regions opened and closed in turn, none left open.
pub open spec fn emittable(cs: Seq<CommandView>) -> bool {
    cs.len() > 0 && region_state(cs, Some(false)) == Some(false)
}

/// A list of sibling nodes, decoded one after the other.
pub open spec fn decode_list(s: Seq<SyntaxNode>, in_region: bool) -> Result<
    Seq<CommandView>,
    Seq<char>,
>
    decreases s.len(),
{
    if s.len() == 0 {
        Ok(Seq::empty())
    } else {
        match decode_list(s.drop_last(), in_region) {
            Err(m) => Err(m),
            Ok(a) => match decode_node(s.last(), in_region) {
                Err(m) => Err(m),
                Ok(b) => Ok(a + b),
            },
        }
    }
}

proof fn lemma_decode_children_list(n: SyntaxNode, k: int, in_region: bool)
    requires
        0 <= k <= n.children@.len(),
    ensures
        decode_children(n, k, in_region) == decode_list(n.children@.subrange(0, k), in_region),
    decreases k,
{
    if k > 0 {
        lemma_decode_children_list(n, k - 1, in_region);
        assert(n.children@.subrange(0, k).drop_last() =~= n.children@.subrange(0, k - 1));
    }
}

/// A region of one contour decodes to its markers around the contour.
proof fn lemma_single_contour(region: SyntaxNode)
    requires
        region.rule == Rule::RegionStatement,
        region.children@.len() == 3,
        region.children@[1].rule == Rule::Contour,
        region.children@[2].rule == Rule::G37,
        decode_list(region.children@[1].children@, true) is Ok,
    ensures
        decode_node(region, false) == Ok::<Seq<CommandView>, Seq<char>>(
            seq![CommandView::G36] + decode_list(region.children@[1].children@, true)->Ok_0
                + seq![CommandView::G37],
        ),
{
    let ct = region.children@[1];
    lemma_decode_children_list(ct, ct.children@.len() as int, true);
    assert(ct.children@.subrange(0, ct.children@.len() as int) =~= ct.children@);
    let body = decode_list(ct.children@, true)->Ok_0;
    assert(contour_run(region.children@, 2));
    assert(!contour_run(region.children@, 3));
    assert(decode_contours(region, 1) == Ok::<Seq<CommandView>, Seq<char>>(Seq::empty()));
    assert(decode_contours(region, 2) == Ok::<Seq<CommandView>, Seq<char>>(Seq::empty() + body));
    assert(Seq::<CommandView>::empty() + body =~= body);
}

/// The syntax tree of a command sequence, as its canonical source text
/// would give it; parsing it gives the sequence back.
#[verifier::rlimit(100)]
pub fn emit(commands: &Vec<Command>) -> (r: SyntaxNode)
    requires
        emittable(commands_view(commands@)),
    ensures
        parse_of(r) == Ok::<Seq<CommandView>, Seq<char>>(commands_view(commands@)),
{
    let ghost cv = commands_view(commands@);
    let mut nodes: Vec<SyntaxNode> = Vec::new();
    let mut body: Vec<SyntaxNode> = Vec::new();
    let mut inside = false;
    let ghost mut open: int = 0;
    let mut i: usize = 0;
    assert(cv.subrange(0, 0) =~= Seq::<CommandView>::empty());
    while i < commands.len()
        invariant
            cv == commands_view(commands@),
            emittable(cv),
            i <= commands@.len(),
            region_state(cv.subrange(0, i as int), Some(false)) == Some(inside),
            !inside ==> decode_list(nodes@, false) == Ok::<Seq<CommandView>, Seq<char>>(
                cv.subrange(0, i as int),
            ),
            inside ==> 0 <= open < i && cv[open] == CommandView::G36 && decode_list(nodes@, false)
                == Ok::<Seq<CommandView>, Seq<char>>(cv.subrange(0, open)) && decode_list(
                body@,
                true,
            ) == Ok::<Seq<CommandView>, Seq<char>>(cv.subrange(open + 1, i as int)),
        decreases commands@.len() - i,
    {
        let ghost prefix = cv.subrange(0, i as int);
        assert(cv.subrange(0, i + 1).drop_last() =~= prefix);
        assert(cv.subrange(0, i + 1).last() == cv[i as int]);
        assert(cv[i as int] == commands@[i as int]@);
        proof {
            lemma_state_prefix(cv, i + 1);
        }
        match &commands[i] {
            Command::G36 => {
                body = Vec::new();
                inside = true;
                proof {
                    open = i as int;
                    assert(cv.subrange(open + 1, i + 1) =~= Seq::<CommandView>::empty());
                }
            },
            Command::G37 => {
                let mut parts: Vec<SyntaxNode> = Vec::new();
                parts.push(node_of(Rule::G36, Vec::new()));
                let mut contour_body: Vec<SyntaxNode> = Vec::new();
                let ghost taken = body@;
                contour_body.append(&mut body);
                assert(contour_body@ =~= taken);
                parts.push(node_of(Rule::Contour, contour_body));
                parts.push(node_of(Rule::G37, Vec::new()));
                let region = node_of(Rule::RegionStatement, parts);
                proof {
                    lemma_single_contour(region);
                }
                let ghost before = nodes@;
                nodes.push(region);
                inside = false;
                proof {
                    assert(nodes@.drop_last() =~= before);
                    assert(cv.subrange(0, i + 1) =~= cv.subrange(0, open) + (seq![CommandView::G36]
                        + cv.subrange(open + 1, i as int) + seq![CommandView::G37]));
                }
            },
            cmd => {
                let node = emit_command(cmd);
                proof {
                    assert(node.rule != Rule::RegionStatement);
                    assert(decode_node(node, inside) == Ok::<Seq<CommandView>, Seq<char>>(
                        seq![cmd@],
                    ));
                }
                if inside {
                    let ghost before = body@;
                    body.push(node);
                    assert(body@.drop_last() =~= before);
                    assert(cv.subrange(open + 1, i + 1) =~= cv.subrange(open + 1, i as int) + seq![
                        cmd@,
                    ]);
                } else {
                    let ghost before = nodes@;
                    nodes.push(node);
                    assert(nodes@.drop_last() =~= before);
                    assert(cv.subrange(0, i + 1) =~= prefix + seq![cmd@]);
                }
            },
        }
        i = i + 1;
    }
    assert(cv.subrange(0, i as int) =~= cv);
    let root = node_of(Rule::Other, nodes);
    proof {
        lemma_decode_children_list(root, root.children@.len() as int, false);
        assert(root.children@.subrange(0, root.children@.len() as int) =~= root.children@);
    }
    root
}

/// A malformed prefix leaves the whole sequence malformed.
proof fn lemma_state_prefix(cs: Seq<CommandView>, k: int)
    requires
        0 <= k <= cs.len(),
        region_state(cs, Some(false)) is Some,
    ensures
        region_state(cs.subrange(0, k), Some(false)) is Some,
    decreases cs.len(),
{
    if k < cs.len() {
        assert(cs.drop_last().subrange(0, k) =~= cs.subrange(0, k));
        lemma_state_prefix(cs.drop_last(), k);
    } else {
        assert(cs.subrange(0, k) =~= cs);
    }
}

} // verus!
