use vstd::prelude::*;

use crate::ast::{
    child_model, children_model, lemma_children_model, lemma_transformed_seq_model,
    transformed_model, transformed_seq_model, ChildNode, Identifier, ProgramNode, SourceNode,
    TargetNode, TransformedNode,
};

verus! {

/// The target form of a source node, as it stands inside another expression.
pub open spec fn lower(e: SourceNode) -> TargetNode
    decreases e,
{
    match e {
        SourceNode::Number(v) => TargetNode::Number(v),
        SourceNode::Str(v) => TargetNode::Str(v),
        SourceNode::Call(name, ps) => TargetNode::Call(name, lower_all(ps)),
    }
}

pub open spec fn lower_all(ps: Seq<SourceNode>) -> Seq<TargetNode>
    decreases ps,
{
    if ps.len() == 0 {
        Seq::empty()
    } else {
        lower_all(ps.drop_last()).push(lower(ps.last()))
    }
}

/// The target form of a source node: nested nodes stand as they are, top-level
/// nodes become statements.
pub open spec fn transform_node(e: SourceNode, is_nested: bool) -> TargetNode {
    if is_nested {
        lower(e)
    } else {
        TargetNode::Statement(Box::new(lower(e)))
    }
}

/// The target program for a source program body.
pub open spec fn transform_program(body: Seq<SourceNode>) -> TargetNode {
    TargetNode::Program(body.map_values(|e: SourceNode| transform_node(e, false)))
}

pub proof fn lemma_lower_all(ps: Seq<SourceNode>)
    ensures
        lower_all(ps).len() == ps.len(),
        forall|i: int| 0 <= i < ps.len() ==> #[trigger] lower_all(ps)[i] == lower(ps[i]),
    decreases ps.len(),
{
    if ps.len() > 0 {
        lemma_lower_all(ps.drop_last());
    }
}

/// Rewrites a source program into a target program; the source is left as it was.
pub fn transform(ast: &mut ProgramNode) -> (r: TransformedNode)
    ensures
        *final(ast) == *old(ast),
        r@ == transform_program(old(ast)@),
{
    transform_recursive(ast)
}

fn transform_recursive(node: &ProgramNode) -> (r: TransformedNode)
    ensures
        r@ == transform_program(node@),
{
    let mut body: Vec<TransformedNode> = Vec::new();
    let n = node.body.len();
    proof {
        lemma_children_model(node.body@);
    }
    for i in 0..n
        invariant
            n == node.body.len(),
            body.len() == i,
            forall|j: int|
                0 <= j < i ==> transformed_model(#[trigger] body@[j]) == transform_node(
                    child_model(node.body@[j]),
                    false,
                ),
    {
        let transformed = transform_child_node(&node.body[i], false);
        body.push(transformed);
    }
    proof {
        lemma_children_model(node.body@);
        lemma_transformed_seq_model(body@);
        assert(transformed_seq_model(body@) =~= node@.map_values(
            |e: SourceNode| transform_node(e, false),
        ));
    }
    TransformedNode::Program { body }
}

fn transform_child_node(node: &ChildNode, is_nested: bool) -> (r: TransformedNode)
    ensures
        r@ == transform_node(node@, is_nested),
    decreases node,
{
    let expr = match node {
        ChildNode::NumberLiteral(num_node) => TransformedNode::NumberLiteral {
            value: num_node.value.clone(),
        },
        ChildNode::StringLiteral(str_node) => TransformedNode::StringLiteral {
            value: str_node.value.clone(),
        },
        ChildNode::CallExpression(call_node) => {
            let mut arguments: Vec<TransformedNode> = Vec::new();
            let n = call_node.params.len();
            proof {
                lemma_children_model(call_node.params@);
            }
            for i in 0..n
                invariant
                    *node == ChildNode::CallExpression(*call_node),
                    n == call_node.params.len(),
                    arguments.len() == i,
                    forall|j: int|
                        0 <= j < i ==> transformed_model(#[trigger] arguments@[j]) == lower(
                            child_model(call_node.params@[j]),
                        ),
            {
                proof {
                    assert(decreases_to!(*call_node => call_node.params));
                    assert(decreases_to!(call_node.params => call_node.params[i as int]));
                    assert(decreases_to!(*node => (*node)->CallExpression_0));
                }
                let transformed_param = transform_child_node(&call_node.params[i], true);
                arguments.push(transformed_param);
            }
            proof {
                lemma_children_model(call_node.params@);
                lemma_transformed_seq_model(arguments@);
                lemma_lower_all(children_model(call_node.params@));
                assert(transformed_seq_model(arguments@) =~= lower_all(
                    children_model(call_node.params@),
                ));
            }
            let r = TransformedNode::CallExpression {
                callee: Identifier::new(call_node.name.clone()),
                arguments,
            };
            assert(r@ == lower(node@));
            r
        },
    };
    assert(expr@ == lower(node@));
    if !is_nested {
        TransformedNode::ExpressionStatement { expression: Box::new(expr) }
    } else {
        expr
    }
}

} // verus!
