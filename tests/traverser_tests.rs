use tiny_compiler_rs::ast::{CallExpressionNode, ChildNode, NumberLiteralNode, ProgramNode};
use tiny_compiler_rs::traverser::{traverse, Callbacks, ParentNode, Phase, Visitor};

/// Records each call as a short label.
struct Recorder {
    visited: Vec<String>,
}

impl Callbacks for Recorder {
    fn program(&mut self, phase: Phase, _node: &ProgramNode, _parent: Option<&ParentNode>) {
        match phase {
            Phase::Enter => self.visited.push("program_enter".to_string()),
            Phase::Exit => self.visited.push("program_exit".to_string()),
        }
    }

    fn node(&mut self, phase: Phase, node: &ChildNode, _parent: Option<&ParentNode>) {
        let kind = match node {
            ChildNode::NumberLiteral(_) => "number",
            ChildNode::StringLiteral(_) => "string",
            ChildNode::CallExpression(_) => "call",
        };
        let side = match phase {
            Phase::Enter => "enter",
            Phase::Exit => "exit",
        };
        self.visited.push(format!("{}_{}", kind, side));
    }
}

#[test]
fn test_traverse_simple_program() {
    let mut program = ProgramNode::new();
    program.body.push(ChildNode::NumberLiteral(NumberLiteralNode::new("42".to_string())));

    let visitor = Visitor::new().program(true, true).number_literal(true, true);
    let mut recorder = Recorder { visited: Vec::new() };

    traverse(&program, &visitor, &mut recorder);

    let visits = &recorder.visited;
    assert_eq!(visits.len(), 4);
    assert_eq!(visits[0], "program_enter");
    assert_eq!(visits[1], "number_enter");
    assert_eq!(visits[2], "number_exit");
    assert_eq!(visits[3], "program_exit");
}

#[test]
fn test_traverse_call_expression() {
    let mut program = ProgramNode::new();
    let mut call_expr = CallExpressionNode::new("add".to_string());
    call_expr.params.push(ChildNode::NumberLiteral(NumberLiteralNode::new("1".to_string())));
    call_expr.params.push(ChildNode::NumberLiteral(NumberLiteralNode::new("2".to_string())));
    program.body.push(ChildNode::CallExpression(call_expr));

    let visitor = Visitor::new().call_expression(true, true).number_literal(true, false);
    let mut recorder = Recorder { visited: Vec::new() };

    traverse(&program, &visitor, &mut recorder);

    let visits = &recorder.visited;
    assert!(visits.contains(&"call_enter".to_string()));
    assert!(visits.contains(&"call_exit".to_string()));
    assert_eq!(visits.iter().filter(|&x| x == "number_enter").count(), 2);
}
