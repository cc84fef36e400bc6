//! The walk over the syntax tree: statements in document order, regions
//! flattened into begin marker, contour operations and end marker.
//!
//! A region is walked by a loop over its contours, and a contour body holds
//! statements only, so regions add no depth. Only nodes of rules with no
//! meaning of their own, whose children are visited in their place, are
//! walked by recursion.
use vstd::prelude::*;
use crate::command::{
    Command, CommandView, commands_view, lemma_commands_view_add, lemma_commands_view_push,
};
use crate::error::{is_semantic, semantic, GerberError};
use crate::statement::{statement, statement_of};
use crate::syntax::{Rule, SyntaxNode};

verus! {

/// Rules whose node stands for one command.
pub open spec fn is_statement(r: Rule) -> bool {
    match r {
        Rule::G04 | Rule::Mo | Rule::Fs | Rule::Ad | Rule::Am | Rule::Dnn | Rule::G01 | Rule::G02
        | Rule::G03 | Rule::G75 | Rule::D01 | Rule::D02 | Rule::D03 | Rule::Lp | Rule::Lm
        | Rule::Lr | Rule::Ls | Rule::Tf | Rule::Ta | Rule::To | Rule::Td | Rule::M02 => true,
        _ => false,
    }
}

/// Nodes recognized and set aside: aperture block and step-and-repeat
/// statements, which are not expanded, and region markers standing outside
/// a region statement, since a region comes only from a region statement.
pub open spec fn is_inert(r: Rule) -> bool {
    r == Rule::AbStatement || r == Rule::SrStatement || r == Rule::G36 || r == Rule::G37
}

/// The children at positions `1 .. k` are all contours.
pub open spec fn contour_run(c: Seq<SyntaxNode>, k: int) -> bool {
    forall|j: int| 1 <= j < k ==> (#[trigger] c[j]).rule == Rule::Contour
}

/// A node, decoded. Inside a region (`in_region`) only statements may
/// stand; anything else fails there. Outside, a region statement gives its
/// markers around its contour bodies, and a node of a rule with no meaning
/// of its own contributes what its children decode to.
pub open spec fn decode_node(n: SyntaxNode, in_region: bool) -> Result<
    Seq<CommandView>,
    Seq<char>,
>
    decreases n, n.children@.len() + 1,
{
    let c = n.children@;
    if is_statement(n.rule) {
        match statement_of(n) {
            Err(m) => Err(m),
            Ok(Some(cmd)) => Ok(seq![cmd]),
            Ok(None) => Ok(Seq::empty()),
        }
    } else if in_region {
        if n.rule == Rule::RegionStatement {
            Err("Nested region statement in contour."@)
        } else {
            Err("Unsupported node in contour."@)
        }
    } else if n.rule == Rule::RegionStatement {
        if c.len() == 0 {
            Err("Missing command."@)
        } else if c.len() == 1 || c[1].rule != Rule::Contour {
            Err("Expected contour"@)
        } else {
            match decode_contours(n, c.len() as int) {
                Err(m) => Err(m),
                Ok(body) => Ok(seq![CommandView::G36] + body + seq![CommandView::G37]),
            }
        }
    } else if is_inert(n.rule) {
        Ok(Seq::empty())
    } else {
        decode_children(n, c.len() as int, in_region)
    }
}

/// The first `k` children of `n`, decoded one after the other; the first
/// failure is the result.
pub open spec fn decode_children(n: SyntaxNode, k: int, in_region: bool) -> Result<
    Seq<CommandView>,
    Seq<char>,
>
    decreases n, k,
{
    if k <= 0 || k > n.children@.len() {
        Ok(Seq::empty())
    } else {
        match decode_children(n, k - 1, in_region) {
            Err(m) => Err(m),
            Ok(a) => match decode_node(n.children@[k - 1], in_region) {
                Err(m) => Err(m),
                Ok(b) => Ok(a + b),
            },
        }
    }
}

/// The bodies of the contours among the children at positions `1 .. k` of
/// a region, up to the first child that is no contour.
pub open spec fn decode_contours(n: SyntaxNode, k: int) -> Result<Seq<CommandView>, Seq<char>>
    decreases n, k,
{
    if k <= 1 || k > n.children@.len() {
        Ok(Seq::empty())
    } else {
        match decode_contours(n, k - 1) {
            Err(m) => Err(m),
            Ok(a) => if contour_run(n.children@, k) {
                let ct = n.children@[k - 1];
                match decode_children(ct, ct.children@.len() as int, true) {
                    Err(m) => Err(m),
                    Ok(b) => Ok(a + b),
                }
            } else {
                Ok(a)
            },
        }
    }
}

/// A failure among the first `k` children is the failure of them all.
pub proof fn lemma_children_err(n: SyntaxNode, k: int, j: int, in_region: bool)
    requires
        0 <= k <= j <= n.children@.len(),
        decode_children(n, k, in_region) is Err,
    ensures
        decode_children(n, j, in_region) == decode_children(n, k, in_region),
    decreases j - k,
{
    if k < j {
        lemma_children_err(n, k, j - 1, in_region);
    }
}

/// A failure among the first contours is the failure of the region body.
pub proof fn lemma_contours_err(n: SyntaxNode, k: int, j: int)
    requires
        1 <= k <= j <= n.children@.len(),
        decode_contours(n, k) is Err,
    ensures
        decode_contours(n, j) == decode_contours(n, k),
    decreases j - k,
{
    if k < j {
        lemma_contours_err(n, k, j - 1);
    }
}

/// Children after the first one that is no contour add nothing.
pub proof fn lemma_contours_stop(n: SyntaxNode, k: int, j: int)
    requires
        1 <= k <= j <= n.children@.len(),
        k < n.children@.len() ==> n.children@[k].rule != Rule::Contour,
    ensures
        decode_contours(n, j) == decode_contours(n, k),
    decreases j - k,
{
    if k < j {
        lemma_contours_stop(n, k, j - 1);
        assert(!contour_run(n.children@, j));
    }
}

/// Appends what `n` decodes to; on failure `out` may hold a part of it.
pub(crate) fn decode_node_into(n: &SyntaxNode, in_region: bool, out: &mut Vec<Command>) -> (r: Result<
    (),
    GerberError,
>)
    ensures
        match decode_node(*n, in_region) {
            Ok(cs) => r is Ok && commands_view(final(out)@) == commands_view(old(out)@) + cs,
            Err(m) => r matches Err(e) && is_semantic(e, m),
        },
    decreases n, n.children@.len() + 1,
{
    let c = &n.children;
    if is_statement_rule(n.rule) {
        let ghost before = out@;
        match statement(n)? {
            Some(cmd) => {
                out.push(cmd);
                proof {
                    lemma_commands_view_push(before, cmd);
                    assert(commands_view(out@) =~= commands_view(before) + seq![cmd@]);
                }
            },
            None => {
                assert(commands_view(out@) =~= commands_view(before) + Seq::empty());
            },
        }
        return Ok(());
    }
    if in_region {
        if n.rule == Rule::RegionStatement {
            return Err(semantic("Nested region statement in contour."));
        }
        return Err(semantic("Unsupported node in contour."));
    }
    if n.rule == Rule::RegionStatement {
        if c.len() == 0 {
            return Err(semantic("Missing command."));
        }
        if c.len() == 1 || c[1].rule != Rule::Contour {
            return Err(semantic("Expected contour"));
        }
        let ghost before = out@;
        out.push(Command::G36);
        proof {
            lemma_commands_view_push(before, Command::G36);
        }
        let ghost mid = out@;
        decode_contours_into(n, out)?;
        let ghost after = out@;
        out.push(Command::G37);
        proof {
            lemma_commands_view_push(after, Command::G37);
            let body = commands_view(after).subrange(
                commands_view(mid).len() as int,
                commands_view(after).len() as int,
            );
            assert(commands_view(out@) =~= commands_view(before) + (seq![CommandView::G36] + body
                + seq![CommandView::G37]));
        }
        return Ok(());
    }
    if n.rule == Rule::AbStatement || n.rule == Rule::SrStatement || n.rule == Rule::G36 || n.rule
        == Rule::G37 {
        assert(commands_view(out@) =~= commands_view(out@) + Seq::empty());
        return Ok(());
    }
    decode_children_into(n, in_region, out)
}

fn is_statement_rule(r: Rule) -> (b: bool)
    ensures
        b == is_statement(r),
{
    match r {
        Rule::G04 | Rule::Mo | Rule::Fs | Rule::Ad | Rule::Am | Rule::Dnn | Rule::G01 | Rule::G02
        | Rule::G03 | Rule::G75 | Rule::D01 | Rule::D02 | Rule::D03 | Rule::Lp | Rule::Lm
        | Rule::Lr | Rule::Ls | Rule::Tf | Rule::Ta | Rule::To | Rule::Td | Rule::M02 => true,
        _ => false,
    }
}

/// Appends what the children of `n` decode to.
pub(crate) fn decode_children_into(n: &SyntaxNode, in_region: bool, out: &mut Vec<Command>) -> (r: Result<
    (),
    GerberError,
>)
    ensures
        match decode_children(*n, n.children@.len() as int, in_region) {
            Ok(cs) => r is Ok && commands_view(final(out)@) == commands_view(old(out)@) + cs,
            Err(m) => r matches Err(e) && is_semantic(e, m),
        },
    decreases n, n.children@.len(),
{
    let c = &n.children;
    let mut i: usize = 0;
    assert(commands_view(out@) =~= commands_view(old(out)@) + Seq::empty());
    while i < c.len()
        invariant
            c == &n.children,
            i <= c@.len(),
            decode_children(*n, i as int, in_region) matches Ok(cs) && commands_view(out@)
                == commands_view(old(out)@) + cs,
        decreases c@.len() - i,
    {
        let ghost prev = out@;
        let ghost done = decode_children(*n, i as int, in_region)->Ok_0;
        proof {
            assert(decreases_to!(*n => n.children@[i as int]));
        }
        match decode_node_into(&c[i], in_region, out) {
            Ok(()) => {
                assert(commands_view(out@) =~= commands_view(old(out)@) + (done
                    + decode_node(c@[i as int], in_region)->Ok_0));
            },
            Err(e) => {
                proof {
                    lemma_children_err(*n, i + 1, c@.len() as int, in_region);
                }
                return Err(e);
            },
        }
        i = i + 1;
    }
    Ok(())
}

/// Appends what the contours of region `n` decode to.
fn decode_contours_into(n: &SyntaxNode, out: &mut Vec<Command>) -> (r: Result<(), GerberError>)
    requires
        n.children@.len() >= 2,
    ensures
        match decode_contours(*n, n.children@.len() as int) {
            Ok(cs) => r is Ok && commands_view(final(out)@) == commands_view(old(out)@) + cs,
            Err(m) => r matches Err(e) && is_semantic(e, m),
        },
    decreases n, n.children@.len(),
{
    let c = &n.children;
    let mut i: usize = 1;
    assert(commands_view(out@) =~= commands_view(old(out)@) + Seq::empty());
    while i < c.len() && c[i].rule == Rule::Contour
        invariant
            c == &n.children,
            1 <= i <= c@.len(),
            contour_run(c@, i as int),
            decode_contours(*n, i as int) matches Ok(cs) && commands_view(out@)
                == commands_view(old(out)@) + cs,
        decreases c@.len() - i,
    {
        let ghost done = decode_contours(*n, i as int)->Ok_0;
        assert(contour_run(c@, i + 1));
        proof {
            assert(decreases_to!(*n => n.children@[i as int]));
        }
        match decode_children_into(&c[i], true, out) {
            Ok(()) => {
                assert(commands_view(out@) =~= commands_view(old(out)@) + (done
                    + decode_children(c@[i as int], c@[i as int].children@.len() as int, true)->Ok_0));
            },
            Err(e) => {
                proof {
                    lemma_contours_err(*n, i + 1, c@.len() as int);
                }
                return Err(e);
            },
        }
        i = i + 1;
    }
    proof {
        lemma_contours_stop(*n, i as int, c@.len() as int);
    }
    Ok(())
}

/// A parsed Gerber file: its commands, in source order.
pub struct Gerber {
    pub commands: Vec<Command>,
}

/// The entry point of the semantic parser.
pub struct GerberParser;

/// What a whole syntax tree decodes to: the commands of the statements
/// under its root, in order, or the message of the first failure. A tree
/// that yields no command is an empty file, which is an error.
pub open spec fn parse_of(root: SyntaxNode) -> Result<Seq<CommandView>, Seq<char>> {
    match decode_children(root, root.children@.len() as int, false) {
        Err(m) => Err(m),
        Ok(cs) => if cs.len() == 0 {
            Err("Empty Gerber file."@)
        } else {
            Ok(cs)
        },
    }
}

impl Gerber {
    /// Decodes one top-level node and appends its commands to `commands`;
    /// on failure `commands` is left as it was.
    pub fn parse_pair(pair: &SyntaxNode, commands: &mut Vec<Command>) -> (r: Result<
        (),
        GerberError,
    >)
        ensures
            match decode_node(*pair, false) {
                Ok(cs) => r is Ok && commands_view(final(commands)@) == commands_view(
                    old(commands)@,
                ) + cs,
                Err(m) => r matches Err(e) && is_semantic(e, m) && final(commands)@ == old(
                    commands,
                )@,
            },
    {
        let mut buffer: Vec<Command> = Vec::new();
        assert(commands_view(buffer@) =~= Seq::<CommandView>::empty());
        decode_node_into(pair, false, &mut buffer)?;
        let ghost added = buffer@;
        commands.append(&mut buffer);
        proof {
            lemma_commands_view_add(old(commands)@, added);
            assert(commands_view(added) =~= Seq::<CommandView>::empty() + commands_view(added));
        }
        Ok(())
    }
}

impl GerberParser {
    /// Decodes a whole syntax tree: every statement under `root`, in order.
    pub fn parse_tree(root: &SyntaxNode) -> (r: Result<Gerber, GerberError>)
        ensures
            match parse_of(*root) {
                Ok(cs) => r matches Ok(g) && commands_view(g.commands@) == cs,
                Err(m) => r matches Err(e) && is_semantic(e, m),
            },
    {
        let mut commands: Vec<Command> = Vec::new();
        assert(commands_view(commands@) =~= Seq::<CommandView>::empty());
        decode_children_into(root, false, &mut commands)?;
        let ghost cs = decode_children(*root, root.children@.len() as int, false)->Ok_0;
        assert(commands_view(commands@) =~= Seq::<CommandView>::empty() + cs);
        if commands.len() == 0 {
            return Err(semantic("Empty Gerber file."));
        }
        Ok(Gerber { commands })
    }
}

} // verus!
