use vstd::prelude::*;

verus! {

/// The kinds of node in a source tree.
#[derive(Debug, Clone, Copy, PartialEq, Eq, Structural)]
pub enum NodeType {
    Program,
    NumberLiteral,
    StringLiteral,
    CallExpression,
}

/// Every source node can tell its kind.
pub trait AstNode {
    spec fn kind(&self) -> NodeType;

    fn node_type(&self) -> (r: NodeType)
        ensures
            r == self.kind(),
    ;
}

/// A number literal; its text is kept exactly as written.
#[derive(Debug, Clone, PartialEq, Eq)]
pub struct NumberLiteralNode {
    pub value: String,
}

/// A string literal, holding its content after escapes were resolved.
#[derive(Debug, Clone, PartialEq, Eq)]
pub struct StringLiteralNode {
    pub value: String,
}

/// A call `(name param ...)`.
#[derive(Debug, PartialEq, Eq)]
pub struct CallExpressionNode {
    pub name: String,
    pub params: Vec<ChildNode>,
    /// Scratch space for passes that rewrite the tree; the parser leaves it empty.
    pub context: Option<Vec<TransformedNode>>,
}

/// The root of a source tree.
#[derive(Debug, PartialEq, Eq)]
pub struct ProgramNode {
    pub body: Vec<ChildNode>,
    /// Scratch space for passes that rewrite the tree; the parser leaves it empty.
    pub context: Option<Vec<TransformedNode>>,
}

/// A node that may stand in a program body or among a call's parameters.
#[derive(Debug, PartialEq, Eq)]
pub enum ChildNode {
    NumberLiteral(NumberLiteralNode),
    StringLiteral(StringLiteralNode),
    CallExpression(CallExpressionNode),
}

/// A node of the target tree, from which code is generated.
#[derive(Debug, PartialEq, Eq)]
pub enum TransformedNode {
    Program { body: Vec<TransformedNode> },
    ExpressionStatement { expression: Box<TransformedNode> },
    CallExpression { callee: Identifier, arguments: Vec<TransformedNode> },
    NumberLiteral { value: String },
    StringLiteral { value: String },
}

/// The name of a called function in the target tree.
#[derive(Debug, Clone, PartialEq, Eq)]
pub struct Identifier {
    pub name: String,
}

/// Mathematical model of a source node.
pub enum SourceNode {
    Number(Seq<char>),
    Str(Seq<char>),
    Call(Seq<char>, Seq<SourceNode>),
}

/// Mathematical model of a target node.
pub enum TargetNode {
    Program(Seq<TargetNode>),
    Statement(Box<TargetNode>),
    Call(Seq<char>, Seq<TargetNode>),
    Number(Seq<char>),
    Str(Seq<char>),
}

pub open spec fn child_model(n: ChildNode) -> SourceNode
    decreases n,
{
    match n {
        ChildNode::NumberLiteral(x) => SourceNode::Number(x.value@),
        ChildNode::StringLiteral(x) => SourceNode::Str(x.value@),
        ChildNode::CallExpression(c) => SourceNode::Call(c.name@, children_model(c.params@)),
    }
}

pub open spec fn children_model(ps: Seq<ChildNode>) -> Seq<SourceNode>
    decreases ps,
{
    if ps.len() == 0 {
        Seq::empty()
    } else {
        children_model(ps.drop_last()).push(child_model(ps.last()))
    }
}

pub open spec fn transformed_model(n: TransformedNode) -> TargetNode
    decreases n,
{
    match n {
        TransformedNode::Program { body } => TargetNode::Program(transformed_seq_model(body@)),
        TransformedNode::ExpressionStatement { expression } => TargetNode::Statement(
            Box::new(transformed_model(*expression)),
        ),
        TransformedNode::CallExpression { callee, arguments } => TargetNode::Call(
            callee.name@,
            transformed_seq_model(arguments@),
        ),
        TransformedNode::NumberLiteral { value } => TargetNode::Number(value@),
        TransformedNode::StringLiteral { value } => TargetNode::Str(value@),
    }
}

pub open spec fn transformed_seq_model(ns: Seq<TransformedNode>) -> Seq<TargetNode>
    decreases ns,
{
    if ns.len() == 0 {
        Seq::empty()
    } else {
        transformed_seq_model(ns.drop_last()).push(transformed_model(ns.last()))
    }
}

impl View for ChildNode {
    type V = SourceNode;

    open spec fn view(&self) -> SourceNode {
        child_model(*self)
    }
}

impl View for ProgramNode {
    type V = Seq<SourceNode>;

    open spec fn view(&self) -> Seq<SourceNode> {
        children_model(self.body@)
    }
}

impl View for TransformedNode {
    type V = TargetNode;

    open spec fn view(&self) -> TargetNode {
        transformed_model(*self)
    }
}

/// Whether no call node at or below `n` has its `context` set.
pub open spec fn context_free(n: ChildNode) -> bool
    decreases n,
{
    match n {
        ChildNode::CallExpression(c) => c.context is None && all_context_free(c.params@),
        _ => true,
    }
}

pub open spec fn all_context_free(ps: Seq<ChildNode>) -> bool
    decreases ps,
{
    if ps.len() == 0 {
        true
    } else {
        all_context_free(ps.drop_last()) && context_free(ps.last())
    }
}

pub proof fn lemma_children_model(ps: Seq<ChildNode>)
    ensures
        children_model(ps).len() == ps.len(),
        forall|i: int| 0 <= i < ps.len() ==> #[trigger] children_model(ps)[i] == child_model(ps[i]),
    decreases ps.len(),
{
    if ps.len() > 0 {
        lemma_children_model(ps.drop_last());
    }
}

pub proof fn lemma_transformed_seq_model(ns: Seq<TransformedNode>)
    ensures
        transformed_seq_model(ns).len() == ns.len(),
        forall|i: int|
            0 <= i < ns.len() ==> #[trigger] transformed_seq_model(ns)[i] == transformed_model(
                ns[i],
            ),
    decreases ns.len(),
{
    if ns.len() > 0 {
        lemma_transformed_seq_model(ns.drop_last());
    }
}

impl AstNode for NumberLiteralNode {
    open spec fn kind(&self) -> NodeType {
        NodeType::NumberLiteral
    }

    fn node_type(&self) -> (r: NodeType) {
        NodeType::NumberLiteral
    }
}

impl AstNode for StringLiteralNode {
    open spec fn kind(&self) -> NodeType {
        NodeType::StringLiteral
    }

    fn node_type(&self) -> (r: NodeType) {
        NodeType::StringLiteral
    }
}

impl AstNode for CallExpressionNode {
    open spec fn kind(&self) -> NodeType {
        NodeType::CallExpression
    }

    fn node_type(&self) -> (r: NodeType) {
        NodeType::CallExpression
    }
}

impl AstNode for ProgramNode {
    open spec fn kind(&self) -> NodeType {
        NodeType::Program
    }

    fn node_type(&self) -> (r: NodeType) {
        NodeType::Program
    }
}

impl AstNode for ChildNode {
    open spec fn kind(&self) -> NodeType {
        match self {
            ChildNode::NumberLiteral(_) => NodeType::NumberLiteral,
            ChildNode::StringLiteral(_) => NodeType::StringLiteral,
            ChildNode::CallExpression(_) => NodeType::CallExpression,
        }
    }

    fn node_type(&self) -> (r: NodeType) {
        match self {
            ChildNode::NumberLiteral(node) => node.node_type(),
            ChildNode::StringLiteral(node) => node.node_type(),
            ChildNode::CallExpression(node) => node.node_type(),
        }
    }
}

impl Clone for ChildNode {
    fn clone(&self) -> (r: Self)
        ensures
            r@ == self@,
        decreases self,
    {
        match self {
            ChildNode::NumberLiteral(n) => ChildNode::NumberLiteral(NumberLiteralNode::new(n.value.clone())),
            ChildNode::StringLiteral(n) => ChildNode::StringLiteral(StringLiteralNode::new(n.value.clone())),
            ChildNode::CallExpression(c) => ChildNode::CallExpression(c.clone()),
        }
    }
}

impl Clone for CallExpressionNode {
    fn clone(&self) -> (r: Self)
        ensures
            r.name@ == self.name@,
            children_model(r.params@) == children_model(self.params@),
            r.context is None <==> self.context is None,
        decreases self,
    {
        let mut params: Vec<ChildNode> = Vec::new();
        let n = self.params.len();
        for i in 0..n
            invariant
                n == self.params.len(),
                params.len() == i,
                forall|j: int| 0 <= j < i ==> #[trigger] params@[j]@ == self.params@[j]@,
        {
            params.push(self.params[i].clone());
        }
        proof {
            lemma_children_model(params@);
            lemma_children_model(self.params@);
            assert forall|j: int| 0 <= j < n implies #[trigger] children_model(params@)[j] == children_model(self.params@)[j] by {
                assert(params@[j]@ == self.params@[j]@);
            }
            assert(children_model(params@) =~= children_model(self.params@));
        }
        let context = match &self.context {
            None => None,
            Some(v) => Some(clone_transformed_vec(v)),
        };
        CallExpressionNode { name: self.name.clone(), params, context }
    }
}

impl Clone for ProgramNode {
    fn clone(&self) -> (r: Self)
        ensures
            r@ == self@,
    {
        let mut body: Vec<ChildNode> = Vec::new();
        let n = self.body.len();
        for i in 0..n
            invariant
                n == self.body.len(),
                body.len() == i,
                forall|j: int| 0 <= j < i ==> #[trigger] body@[j]@ == self.body@[j]@,
        {
            body.push(self.body[i].clone());
        }
        proof {
            lemma_children_model(body@);
            lemma_children_model(self.body@);
            assert forall|j: int| 0 <= j < n implies #[trigger] children_model(body@)[j] == children_model(self.body@)[j] by {
                assert(body@[j]@ == self.body@[j]@);
            }
            assert(children_model(body@) =~= children_model(self.body@));
        }
        let context = match &self.context {
            None => None,
            Some(v) => Some(clone_transformed_vec(v)),
        };
        ProgramNode { body, context }
    }
}

fn clone_transformed_vec(v: &Vec<TransformedNode>) -> (r: Vec<TransformedNode>)
    ensures
        transformed_seq_model(r@) == transformed_seq_model(v@),
    decreases v,
{
    let mut out: Vec<TransformedNode> = Vec::new();
    let n = v.len();
    for i in 0..n
        invariant
            n == v.len(),
            out.len() == i,
            forall|j: int| 0 <= j < i ==> #[trigger] out@[j]@ == v@[j]@,
    {
        proof {
            assert(decreases_to!(*v => v[i as int]));
        }
        out.push(v[i].clone());
    }
    proof {
        lemma_transformed_seq_model(out@);
        lemma_transformed_seq_model(v@);
        assert forall|j: int| 0 <= j < n implies #[trigger] transformed_seq_model(out@)[j] == transformed_seq_model(v@)[j] by {
            assert(out@[j]@ == v@[j]@);
        }
        assert(transformed_seq_model(out@) =~= transformed_seq_model(v@));
    }
    out
}

impl Clone for TransformedNode {
    fn clone(&self) -> (r: Self)
        ensures
            r@ == self@,
        decreases self,
    {
        match self {
            TransformedNode::Program { body } => {
                TransformedNode::Program { body: clone_transformed_vec(body) }
            },
            TransformedNode::ExpressionStatement { expression } => {
                TransformedNode::ExpressionStatement { expression: Box::new((**expression).clone()) }
            },
            TransformedNode::CallExpression { callee, arguments } => {
                TransformedNode::CallExpression {
                    callee: Identifier::new(callee.name.clone()),
                    arguments: clone_transformed_vec(arguments),
                }
            },
            TransformedNode::NumberLiteral { value } => TransformedNode::NumberLiteral {
                value: value.clone(),
            },
            TransformedNode::StringLiteral { value } => TransformedNode::StringLiteral {
                value: value.clone(),
            },
        }
    }
}

impl NumberLiteralNode {
    pub fn new(value: String) -> (r: Self)
        ensures
            r.value == value,
    {
        Self { value }
    }
}

impl StringLiteralNode {
    pub fn new(value: String) -> (r: Self)
        ensures
            r.value == value,
    {
        Self { value }
    }
}

impl CallExpressionNode {
    /// A call of `name` with no parameters yet.
    pub fn new(name: String) -> (r: Self)
        ensures
            r.name == name,
            r.params@.len() == 0,
            r.context is None,
    {
        Self { name, params: Vec::new(), context: None }
    }
}

impl ProgramNode {
    /// A program with an empty body.
    pub fn new() -> (r: Self)
        ensures
            r.body@.len() == 0,
            r.context is None,
    {
        Self { body: Vec::new(), context: None }
    }
}

impl Default for ProgramNode {
    fn default() -> (r: Self)
        ensures
            r.body@.len() == 0,
            r.context is None,
    {
        Self::new()
    }
}

impl Identifier {
    pub fn new(name: String) -> (r: Self)
        ensures
            r.name == name,
    {
        Self { name }
    }
}

} // verus!
