use vstd::prelude::*;

use crate::ast::{
    child_model, children_model, lemma_children_model, CallExpressionNode, ChildNode, NodeType,
    ProgramNode, SourceNode,
};

verus! {

/// Which side of a node a call is made on.
#[derive(Debug, Clone, Copy, PartialEq, Eq, Structural)]
pub enum Phase {
    Enter,
    Exit,
}

/// The node whose body or parameters hold the node being visited.
#[derive(Debug)]
pub enum ParentNode<'a> {
    Program(&'a ProgramNode),
    CallExpression(&'a CallExpressionNode),
}

/// Whether to call on entering and on leaving each node of one kind.
#[derive(Debug, Clone, Copy, PartialEq, Eq, Structural)]
pub struct VisitorOption {
    pub enter: bool,
    pub exit: bool,
}

/// Whether to call on entering and on leaving the program.
#[derive(Debug, Clone, Copy, PartialEq, Eq, Structural)]
pub struct ProgramVisitorOption {
    pub enter: bool,
    pub exit: bool,
}

/// The calls a traversal makes, by kind of node; a kind left out gets none.
#[derive(Debug, Clone, Copy, PartialEq, Eq, Structural)]
pub struct Visitor {
    pub program: Option<ProgramVisitorOption>,
    pub number_literal: Option<VisitorOption>,
    pub string_literal: Option<VisitorOption>,
    pub call_expression: Option<VisitorOption>,
}

/// Mathematical model of a parent: a program body, or a call's name and parameters.
pub enum ParentModel {
    Program(Seq<SourceNode>),
    Call(Seq<char>, Seq<SourceNode>),
}

pub open spec fn parent_model(p: ParentNode) -> ParentModel {
    match p {
        ParentNode::Program(prog) => ParentModel::Program(prog@),
        ParentNode::CallExpression(c) => ParentModel::Call(c.name@, children_model(c.params@)),
    }
}

pub open spec fn parent_opt_model(p: Option<&ParentNode>) -> Option<ParentModel> {
    match p {
        Some(x) => Some(parent_model(*x)),
        None => None,
    }
}

/// One call of a callback: its phase, the node it was given, and that node's parent.
pub enum Event {
    Program(Phase, Seq<SourceNode>, Option<ParentModel>),
    Node(Phase, SourceNode, Option<ParentModel>),
}

/// The code a traversal calls, written by the user of the traversal. It receives each
/// node with its parent, and keeps whatever it gathers in `self`. `trace` is the
/// sequence of calls it has received; an implementation checked by Verus defines it,
/// and the traversal's contract holds for whatever definition it gives.
pub trait Callbacks {
    open spec fn trace(&self) -> Seq<Event> {
        Seq::empty()
    }

    fn program(&mut self, phase: Phase, node: &ProgramNode, parent: Option<&ParentNode>)
        ensures
            final(self).trace() == old(self).trace().push(
                Event::Program(phase, node@, parent_opt_model(parent)),
            ),
    ;

    fn node(&mut self, phase: Phase, node: &ChildNode, parent: Option<&ParentNode>)
        ensures
            final(self).trace() == old(self).trace().push(
                Event::Node(phase, node@, parent_opt_model(parent)),
            ),
    ;
}

impl Visitor {
    /// A visitor that makes no calls.
    pub fn new() -> (r: Self)
        ensures
            r.program is None,
            r.number_literal is None,
            r.string_literal is None,
            r.call_expression is None,
    {
        Self { program: None, number_literal: None, string_literal: None, call_expression: None }
    }

    /// Sets the calls made at the program.
    pub fn program(self, enter: bool, exit: bool) -> (r: Self)
        ensures
            r == (Visitor { program: Some(ProgramVisitorOption { enter, exit }), ..self }),
    {
        Self { program: Some(ProgramVisitorOption { enter, exit }), ..self }
    }

    /// Sets the calls made at number literals.
    pub fn number_literal(self, enter: bool, exit: bool) -> (r: Self)
        ensures
            r == (Visitor { number_literal: Some(VisitorOption { enter, exit }), ..self }),
    {
        Self { number_literal: Some(VisitorOption { enter, exit }), ..self }
    }

    /// Sets the calls made at string literals.
    pub fn string_literal(self, enter: bool, exit: bool) -> (r: Self)
        ensures
            r == (Visitor { string_literal: Some(VisitorOption { enter, exit }), ..self }),
    {
        Self { string_literal: Some(VisitorOption { enter, exit }), ..self }
    }

    /// Sets the calls made at call expressions.
    pub fn call_expression(self, enter: bool, exit: bool) -> (r: Self)
        ensures
            r == (Visitor { call_expression: Some(VisitorOption { enter, exit }), ..self }),
    {
        Self { call_expression: Some(VisitorOption { enter, exit }), ..self }
    }
}

/// Whether `v` calls at nodes of kind `kind` on `phase`.
pub open spec fn hooked(v: Visitor, kind: NodeType, phase: Phase) -> bool {
    let o = match kind {
        NodeType::Program => match v.program {
            Some(p) => Some(VisitorOption { enter: p.enter, exit: p.exit }),
            None => None,
        },
        NodeType::NumberLiteral => v.number_literal,
        NodeType::StringLiteral => v.string_literal,
        NodeType::CallExpression => v.call_expression,
    };
    match o {
        Some(x) => if phase == Phase::Enter {
            x.enter
        } else {
            x.exit
        },
        None => false,
    }
}

pub open spec fn source_kind(n: SourceNode) -> NodeType {
    match n {
        SourceNode::Number(_) => NodeType::NumberLiteral,
        SourceNode::Str(_) => NodeType::StringLiteral,
        SourceNode::Call(_, _) => NodeType::CallExpression,
    }
}

/// The calls made for a node and everything below it: entering it, its parameters
/// in order (each with this node as parent), leaving it.
pub open spec fn node_events(v: Visitor, n: SourceNode, parent: ParentModel) -> Seq<Event>
    decreases n,
{
    let k = source_kind(n);
    let enter = if hooked(v, k, Phase::Enter) {
        seq![Event::Node(Phase::Enter, n, Some(parent))]
    } else {
        seq![]
    };
    let exit = if hooked(v, k, Phase::Exit) {
        seq![Event::Node(Phase::Exit, n, Some(parent))]
    } else {
        seq![]
    };
    let inner = match n {
        SourceNode::Call(name, ps) => children_events(v, ps, ParentModel::Call(name, ps)),
        _ => seq![],
    };
    enter + inner + exit
}

/// The calls made for a sequence of sibling nodes, in order.
pub open spec fn children_events(v: Visitor, ps: Seq<SourceNode>, parent: ParentModel) -> Seq<
    Event,
>
    decreases ps,
{
    if ps.len() == 0 {
        seq![]
    } else {
        children_events(v, ps.drop_last(), parent) + node_events(v, ps.last(), parent)
    }
}

/// The calls made for a whole program given with parent `parent`.
pub open spec fn program_events(
    v: Visitor,
    body: Seq<SourceNode>,
    parent: Option<ParentModel>,
) -> Seq<Event> {
    let enter = if hooked(v, NodeType::Program, Phase::Enter) {
        seq![Event::Program(Phase::Enter, body, parent)]
    } else {
        seq![]
    };
    let exit = if hooked(v, NodeType::Program, Phase::Exit) {
        seq![Event::Program(Phase::Exit, body, parent)]
    } else {
        seq![]
    };
    enter + children_events(v, body, ParentModel::Program(body)) + exit
}

fn is_hooked(v: &Visitor, kind: NodeType, phase: Phase) -> (r: bool)
    ensures
        r == hooked(*v, kind, phase),
{
    let o = match kind {
        NodeType::Program => match v.program {
            Some(p) => Some(VisitorOption { enter: p.enter, exit: p.exit }),
            None => None,
        },
        NodeType::NumberLiteral => v.number_literal,
        NodeType::StringLiteral => v.string_literal,
        NodeType::CallExpression => v.call_expression,
    };
    match o {
        Some(x) => match phase {
            Phase::Enter => x.enter,
            Phase::Exit => x.exit,
        },
        None => false,
    }
}

/// Walks the program depth first, calling `callbacks` on entering and leaving each
/// node as `visitor` asks, each time with the node and its parent.
pub fn traverse<C: Callbacks>(root: &ProgramNode, visitor: &Visitor, callbacks: &mut C)
    ensures
        final(callbacks).trace() == old(callbacks).trace() + program_events(*visitor, root@, None),
{
    traverse_node_program(root, None, visitor, callbacks);
}

fn traverse_node_program<C: Callbacks>(
    node: &ProgramNode,
    parent: Option<&ParentNode>,
    visitor: &Visitor,
    callbacks: &mut C,
)
    ensures
        final(callbacks).trace() == old(callbacks).trace() + program_events(
            *visitor,
            node@,
            parent_opt_model(parent),
        ),
{
    let ghost start = callbacks.trace();
    let ghost pm = parent_opt_model(parent);
    if is_hooked(visitor, NodeType::Program, Phase::Enter) {
        callbacks.program(Phase::Enter, node, parent);
    }
    let ghost entered = callbacks.trace();
    let current_parent = ParentNode::Program(node);
    traverse_array(&node.body, &current_parent, visitor, callbacks);
    let ghost walked = callbacks.trace();
    if is_hooked(visitor, NodeType::Program, Phase::Exit) {
        callbacks.program(Phase::Exit, node, parent);
    }
    let ghost enter = if hooked(*visitor, NodeType::Program, Phase::Enter) {
        seq![Event::Program(Phase::Enter, node@, pm)]
    } else {
        seq![]
    };
    let ghost exit = if hooked(*visitor, NodeType::Program, Phase::Exit) {
        seq![Event::Program(Phase::Exit, node@, pm)]
    } else {
        seq![]
    };
    assert(entered =~= start + enter);
    assert(callbacks.trace() =~= walked + exit);
    assert(callbacks.trace() =~= start + program_events(*visitor, node@, pm));
}

fn traverse_array<C: Callbacks>(
    array: &Vec<ChildNode>,
    parent: &ParentNode,
    visitor: &Visitor,
    callbacks: &mut C,
)
    ensures
        final(callbacks).trace() == old(callbacks).trace() + children_events(
            *visitor,
            children_model(array@),
            parent_model(*parent),
        ),
    decreases array@, 0int,
{
    let ghost start = callbacks.trace();
    let ghost pm = parent_model(*parent);
    let n = array.len();
    proof {
        lemma_children_model(array@);
        assert(children_model(array@).take(0) =~= seq![]);
        assert(callbacks.trace() =~= start + children_events(*visitor, seq![], pm));
    }
    for i in 0..n
        invariant
            n == array.len(),
            pm == parent_model(*parent),
            children_model(array@).len() == n,
            forall|j: int| 0 <= j < n ==> #[trigger] children_model(array@)[j] == child_model(array@[j]),
            callbacks.trace() == start + children_events(
                *visitor,
                children_model(array@).take(i as int),
                pm,
            ),
    {
        proof {
            assert(decreases_to!(array@ => array@[i as int]));
        }
        traverse_node(&array[i], parent, visitor, callbacks);
        proof {
            let t = children_model(array@).take(i + 1);
            assert(t.drop_last() =~= children_model(array@).take(i as int));
            assert(callbacks.trace() =~= start + children_events(*visitor, t, pm));
        }
    }
    proof {
        assert(children_model(array@).take(n as int) =~= children_model(array@));
    }
}

fn traverse_node<C: Callbacks>(
    node: &ChildNode,
    parent: &ParentNode,
    visitor: &Visitor,
    callbacks: &mut C,
)
    ensures
        final(callbacks).trace() == old(callbacks).trace() + node_events(
            *visitor,
            node@,
            parent_model(*parent),
        ),
    decreases *node, 1int,
{
    let ghost start = callbacks.trace();
    let ghost pm = parent_model(*parent);
    let ghost k = source_kind(node@);
    let kind = match node {
        ChildNode::NumberLiteral(_) => NodeType::NumberLiteral,
        ChildNode::StringLiteral(_) => NodeType::StringLiteral,
        ChildNode::CallExpression(_) => NodeType::CallExpression,
    };
    assert(kind == k);
    if is_hooked(visitor, kind, Phase::Enter) {
        callbacks.node(Phase::Enter, node, Some(parent));
    }
    let ghost entered = callbacks.trace();
    if let ChildNode::CallExpression(call_node) = node {
        let current_parent = ParentNode::CallExpression(call_node);
        proof {
            assert(decreases_to!(*node => (*node)->CallExpression_0));
            assert(decreases_to!(*call_node => call_node.params));
            assert(decreases_to!(call_node.params => call_node.params@));
        }
        traverse_array(&call_node.params, &current_parent, visitor, callbacks);
    }
    let ghost walked = callbacks.trace();
    if is_hooked(visitor, kind, Phase::Exit) {
        callbacks.node(Phase::Exit, node, Some(parent));
    }
    let ghost enter = if hooked(*visitor, k, Phase::Enter) {
        seq![Event::Node(Phase::Enter, node@, Some(pm))]
    } else {
        seq![]
    };
    let ghost exit = if hooked(*visitor, k, Phase::Exit) {
        seq![Event::Node(Phase::Exit, node@, Some(pm))]
    } else {
        seq![]
    };
    assert(entered =~= start + enter);
    assert(callbacks.trace() =~= walked + exit);
    assert(callbacks.trace() =~= start + node_events(*visitor, node@, pm));
}

} // verus!
