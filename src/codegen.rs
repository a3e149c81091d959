use vstd::prelude::*;

use crate::ast::{lemma_transformed_seq_model, transformed_model, transformed_seq_model, TargetNode, TransformedNode};
use crate::error::Result;

verus! {

/// The code for a target node.
pub open spec fn render(t: TargetNode) -> Seq<char>
    decreases t,
{
    match t {
        TargetNode::Program(body) => render_all(body),
        TargetNode::Statement(e) => render(*e).push(';'),
        TargetNode::Call(name, args) => name + seq!['('] + render_args(args) + seq![')'],
        TargetNode::Number(v) => v,
        TargetNode::Str(v) => seq!['"'] + v + seq!['"'],
    }
}

/// The code for each node, one after another with nothing between them.
pub open spec fn render_all(ts: Seq<TargetNode>) -> Seq<char>
    decreases ts,
{
    if ts.len() == 0 {
        Seq::empty()
    } else {
        render_all(ts.drop_last()) + render(ts.last())
    }
}

/// The code for each node, separated by a comma and a space.
pub open spec fn render_args(ts: Seq<TargetNode>) -> Seq<char>
    decreases ts,
{
    if ts.len() == 0 {
        Seq::empty()
    } else if ts.len() == 1 {
        render(ts[0])
    } else {
        render_args(ts.drop_last()) + seq![',', ' '] + render(ts.last())
    }
}

/// Generates code for a target node. Every node has a rendering, so this never fails.
pub fn codegen(node: &TransformedNode) -> (r: Result<String>)
    ensures
        r matches Ok(code) && code@ == render(node@),
    decreases node,
{
    match node {
        TransformedNode::Program { body } => {
            let mut code = String::new();
            let n = body.len();
            let ghost ms = transformed_seq_model(body@);
            proof {
                lemma_transformed_seq_model(body@);
                assert(ms.take(0) =~= seq![]);
            }
            for i in 0..n
                invariant
                    *node == (TransformedNode::Program { body: *body }),
                    n == body.len(),
                    ms == transformed_seq_model(body@),
                    ms.len() == n,
                    forall|j: int| 0 <= j < n ==> #[trigger] ms[j] == transformed_model(body@[j]),
                    code@ == render_all(ms.take(i as int)),
            {
                proof {
                    assert(decreases_to!(*node => (*node)->Program_body));
                    assert(decreases_to!(*body => body[i as int]));
                }
                let statement = match codegen(&body[i]) {
                    Ok(s) => s,
                    Err(e) => {
                        return Err(e);
                    },
                };
                code.append(statement.as_str());
                proof {
                    assert(ms.take(i + 1).drop_last() =~= ms.take(i as int));
                }
            }
            proof {
                assert(ms.take(n as int) =~= ms);
            }
            Ok(code)
        },
        TransformedNode::ExpressionStatement { expression } => {
            proof {
                assert(decreases_to!(*node => (*node)->expression));
            }
            let mut code = match codegen(expression) {
                Ok(s) => s,
                Err(e) => {
                    return Err(e);
                },
            };
            code.push(';');
            Ok(code)
        },
        TransformedNode::CallExpression { callee, arguments } => {
            let mut code = callee.name.clone();
            code.push('(');
            let n = arguments.len();
            let ghost ms = transformed_seq_model(arguments@);
            let ghost head = callee.name@.push('(');
            proof {
                lemma_transformed_seq_model(arguments@);
                assert(head + render_args(ms.take(0)) =~= head);
            }
            for i in 0..n
                invariant
                    *node == (TransformedNode::CallExpression {
                        callee: *callee,
                        arguments: *arguments,
                    }),
                    n == arguments.len(),
                    ms == transformed_seq_model(arguments@),
                    ms.len() == n,
                    forall|j: int|
                        0 <= j < n ==> #[trigger] ms[j] == transformed_model(arguments@[j]),
                    head == callee.name@.push('('),
                    code@ == head + render_args(ms.take(i as int)),
            {
                proof {
                    assert(decreases_to!(*node => (*node)->arguments));
                    assert(decreases_to!(*arguments => arguments[i as int]));
                }
                let arg = match codegen(&arguments[i]) {
                    Ok(s) => s,
                    Err(e) => {
                        return Err(e);
                    },
                };
                if i > 0 {
                    code.push(',');
                    code.push(' ');
                }
                code.append(arg.as_str());
                proof {
                    let t = ms.take(i + 1);
                    assert(t.drop_last() =~= ms.take(i as int));
                    if i == 0 {
                        assert(render_args(t) == render(ms[0]));
                        assert(code@ =~= head + render_args(t));
                    } else {
                        assert(code@ =~= head + render_args(t));
                    }
                }
            }
            code.push(')');
            proof {
                assert(ms.take(n as int) =~= ms);
                assert(code@ =~= callee.name@ + seq!['('] + render_args(ms) + seq![')']);
            }
            Ok(code)
        },
        TransformedNode::NumberLiteral { value } => Ok(value.clone()),
        TransformedNode::StringLiteral { value } => {
            let mut code = String::new();
            code.push('"');
            code.append(value.as_str());
            code.push('"');
            proof {
                assert(code@ =~= seq!['"'] + value@ + seq!['"']);
            }
            Ok(code)
        },
    }
}

} // verus!
