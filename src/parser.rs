use vstd::prelude::*;

use crate::ast::{
    all_context_free, child_model, children_model, context_free, lemma_children_model, CallExpressionNode, ChildNode,
    NumberLiteralNode, ProgramNode, SourceNode, StringLiteralNode,
};
use crate::error::{CompilerError, Failure, Outcome, Result};
use crate::tokenizer::{lexemes, Lexeme, Token, TokenType};

verus! {

pub open spec fn is_open(t: Lexeme) -> bool {
    t.0 == TokenType::Paren && t.1 == seq!['(']
}

pub open spec fn is_close(t: Lexeme) -> bool {
    t.0 == TokenType::Paren && t.1 == seq![')']
}

/// The node that starts at token `pos`, and the position just after it.
pub open spec fn parse_node(t: Seq<Lexeme>, pos: int) -> Outcome<(SourceNode, int)>
    decreases t.len() - pos, 1int,
{
    if pos < 0 || pos >= t.len() {
        Err(Failure::UnexpectedEof)
    } else if t[pos].0 == TokenType::Number {
        Ok((SourceNode::Number(t[pos].1), pos + 1))
    } else if t[pos].0 == TokenType::String {
        Ok((SourceNode::Str(t[pos].1), pos + 1))
    } else if is_open(t[pos]) {
        if pos + 1 >= t.len() {
            Err(Failure::UnexpectedEof)
        } else if t[pos + 1].0 != TokenType::Name {
            Err(Failure::UnexpectedToken(t[pos + 1].1, pos + 1))
        } else {
            match parse_params(t, pos + 2, seq![]) {
                Ok((ps, end)) => Ok((SourceNode::Call(t[pos + 1].1, ps), end)),
                Err(e) => Err(e),
            }
        }
    } else {
        Err(Failure::UnexpectedToken(t[pos].1, pos))
    }
}

/// The parameters of a call from token `pos` up to its closing parenthesis, after
/// those already read (`acc`), and the position just after that parenthesis.
/// A node always covers at least one token, which the guard on `next` records.
pub open spec fn parse_params(t: Seq<Lexeme>, pos: int, acc: Seq<SourceNode>) -> Outcome<
    (Seq<SourceNode>, int),
>
    decreases t.len() - pos, 2int,
{
    if pos < 0 || pos >= t.len() {
        Err(Failure::UnexpectedEof)
    } else if is_close(t[pos]) {
        Ok((acc, pos + 1))
    } else {
        match parse_node(t, pos) {
            Ok((n, next)) => if pos < next <= t.len() {
                parse_params(t, next, acc.push(n))
            } else {
                Err(Failure::UnexpectedEof)
            },
            Err(e) => Err(e),
        }
    }
}

/// The top-level nodes from token `pos` to the end, after those already read.
pub open spec fn parse_body(t: Seq<Lexeme>, pos: int, acc: Seq<SourceNode>) -> Outcome<
    Seq<SourceNode>,
>
    decreases t.len() - pos,
{
    if pos < 0 || pos >= t.len() {
        Ok(acc)
    } else {
        match parse_node(t, pos) {
            Ok((n, next)) => if pos < next <= t.len() {
                parse_body(t, next, acc.push(n))
            } else {
                Err(Failure::UnexpectedEof)
            },
            Err(e) => Err(e),
        }
    }
}

/// The program that the tokens `t` spell.
pub open spec fn parse_program(t: Seq<Lexeme>) -> Outcome<Seq<SourceNode>> {
    parse_body(t, 0, seq![])
}

/// Builds a source tree from tokens, with one cursor that only moves forward.
pub struct Parser {
    tokens: Vec<Token>,
    current: usize,
}

impl Parser {
    /// The tokens being parsed.
    pub closed spec fn input(&self) -> Seq<Lexeme> {
        lexemes(self.tokens@)
    }

    /// The position of the next token to read.
    pub closed spec fn cursor(&self) -> int {
        self.current as int
    }

    pub fn new(tokens: Vec<Token>) -> (r: Self)
        ensures
            r.input() == lexemes(tokens@),
            r.cursor() == 0,
    {
        Self { tokens, current: 0 }
    }

    /// Parses the tokens from the cursor to the end into a program.
    pub fn parse(&mut self) -> (r: Result<ProgramNode>)
        ensures
            final(self).input() == old(self).input(),
            match parse_body(old(self).input(), old(self).cursor(), seq![]) {
                Ok(body) => r matches Ok(p) && p@ == body && p.context is None && all_context_free(
                    p.body@,
                ),
                Err(e) => r matches Err(x) && x@ == e,
            },
    {
        let ghost t = self.input();
        let ghost start = self.current as int;
        let mut root = ProgramNode::new();
        proof {
            lemma_children_model(root.body@);
        }
        while self.current < self.tokens.len()
            invariant
                t == old(self).input(),
                t == lexemes(self.tokens@),
                t.len() == self.tokens@.len(),
                start == old(self).cursor(),
                root.context is None,
                all_context_free(root.body@),
                parse_body(t, start, seq![]) == parse_body(t, self.current as int, root@),
            decreases self.tokens.len() - self.current,
        {
            let ghost before = root@;
            let node = self.walk();
            match node {
                Ok(n) => {
                    let ghost body = root.body@;
                    root.body.push(n);
                    proof {
                        lemma_children_model(body);
                        assert(root.body@.drop_last() =~= body);
                        assert(root@ == before.push(child_model(n)));
                        assert(all_context_free(root.body@));
                    }
                },
                Err(e) => {
                    return Err(e);
                },
            }
        }
        Ok(root)
    }

    /// Parses one node at the cursor.
    fn walk(&mut self) -> (r: Result<ChildNode>)
        requires
            old(self).current <= old(self).tokens.len(),
        ensures
            final(self).tokens@ == old(self).tokens@,
            final(self).current <= final(self).tokens.len(),
            match parse_node(old(self).input(), old(self).cursor()) {
                Ok((n, next)) => r matches Ok(x) && x@ == n && final(self).cursor() == next
                    && old(self).cursor() < next && context_free(x),
                Err(e) => r matches Err(x) && x@ == e,
            },
        decreases old(self).tokens.len() - old(self).current,
    {
        let ghost t = self.input();
        let ghost pos = self.current as int;
        proof {
            lemma_lexemes(self.tokens@);
        }
        if self.current >= self.tokens.len() {
            return Err(CompilerError::UnexpectedEof);
        }
        let kind = self.tokens[self.current].token_type;
        match kind {
            TokenType::Number => {
                let value = self.tokens[self.current].value.clone();
                self.current += 1;
                Ok(ChildNode::NumberLiteral(NumberLiteralNode::new(value)))
            },
            TokenType::String => {
                let value = self.tokens[self.current].value.clone();
                self.current += 1;
                Ok(ChildNode::StringLiteral(StringLiteralNode::new(value)))
            },
            _ => {
                if !(kind == TokenType::Paren && is_single(&self.tokens[self.current].value, '(')) {
                    return Err(
                        CompilerError::UnexpectedToken {
                            token: self.tokens[self.current].value.clone(),
                            position: self.current,
                        },
                    );
                }
                self.current += 1;
                if self.current >= self.tokens.len() {
                    return Err(CompilerError::UnexpectedEof);
                }
                if self.tokens[self.current].token_type != TokenType::Name {
                    return Err(
                        CompilerError::UnexpectedToken {
                            token: self.tokens[self.current].value.clone(),
                            position: self.current,
                        },
                    );
                }
                let mut node = CallExpressionNode::new(self.tokens[self.current].value.clone());
                self.current += 1;
                proof {
                    lemma_children_model(node.params@);
                }
                while self.current < self.tokens.len() && !(self.tokens[self.current].token_type
                    == TokenType::Paren && is_single(&self.tokens[self.current].value, ')'))
                    invariant
                        t == lexemes(self.tokens@),
                        t.len() == self.tokens@.len(),
                        pos + 2 <= self.current <= self.tokens.len(),
                        pos + 1 < t.len(),
                        is_open(t[pos]),
                        t[pos + 1].0 == TokenType::Name,
                        node.name@ == t[pos + 1].1,
                        node.context is None,
                        all_context_free(node.params@),
                        parse_params(t, pos + 2, seq![]) == parse_params(
                            t,
                            self.current as int,
                            children_model(node.params@),
                        ),
                        old(self).tokens@ == self.tokens@,
                        old(self).current == pos,
                    decreases self.tokens.len() - self.current,
                {
                    let param = self.walk();
                    match param {
                        Ok(p) => {
                            let ghost ps = node.params@;
                            node.params.push(p);
                            proof {
                                lemma_children_model(ps);
                                assert(node.params@.drop_last() =~= ps);
                                assert(all_context_free(node.params@));
                            }
                        },
                        Err(e) => {
                            return Err(e);
                        },
                    }
                }
                if self.current >= self.tokens.len() {
                    return Err(CompilerError::UnexpectedEof);
                }
                self.current += 1;
                Ok(ChildNode::CallExpression(node))
            },
        }
    }
}

proof fn lemma_lexemes(ts: Seq<Token>)
    ensures
        lexemes(ts).len() == ts.len(),
        forall|i: int| 0 <= i < ts.len() ==> #[trigger] lexemes(ts)[i] == ts[i]@,
{
}

/// Whether `s` is the one-character text `c`.
fn is_single(s: &String, c: char) -> (r: bool)
    ensures
        r == (s@ == seq![c]),
{
    let text = s.as_str();
    if text.unicode_len() != 1 {
        return false;
    }
    let first = text.get_char(0);
    if first == c {
        assert(s@ =~= seq![c]);
        true
    } else {
        false
    }
}

/// Parses tokens into a program.
pub fn parse(tokens: Vec<Token>) -> (r: Result<ProgramNode>)
    ensures
        match parse_program(lexemes(tokens@)) {
            Ok(body) => r matches Ok(p) && p@ == body && p.context is None && all_context_free(
                    p.body@,
                ),
            Err(e) => r matches Err(x) && x@ == e,
        },
{
    let mut parser = Parser::new(tokens);
    parser.parse()
}

} // verus!
