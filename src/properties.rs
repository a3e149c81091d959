use vstd::prelude::*;

use crate::ast::{SourceNode, TargetNode};
use crate::codegen::{render, render_all};
use crate::compiler::compile_spec;
use crate::error::Failure;
use crate::parser::{parse_body, parse_program};
use crate::error::Outcome;
use crate::codegen::render_args;
use crate::parser::{is_close, is_open, parse_node, parse_params};
use crate::tokenizer::{
    char_at, emit, is_digit, is_letter, is_name_char, is_number_char, is_whitespace, lemma_emit_emit,
    lex, lex_from, lex_step, mode_rank, LexMode, LexStep, Lexeme, TokenType,
};
use crate::transformer::{lemma_lower_all, lower, lower_all, transform_node, transform_program};

verus! {

proof fn lemma_blank_suffix(s: Seq<char>, pos: int)
    requires
        0 <= pos <= s.len(),
        forall|i: int| 0 <= i < s.len() ==> is_whitespace(#[trigger] s[i]),
    ensures
        lex_from(s, pos, LexMode::Start) == Ok::<Seq<Lexeme>, Failure>(seq![]),
    decreases s.len() - pos,
{
    if pos < s.len() {
        lemma_blank_suffix(s, pos + 1);
    }
}

/// Source text made of whitespace only (the empty text included) compiles to empty code.
pub proof fn lemma_blank_source_compiles_to_nothing(s: Seq<char>)
    requires
        forall|i: int| 0 <= i < s.len() ==> is_whitespace(#[trigger] s[i]),
    ensures
        compile_spec(s) == Ok::<Seq<char>, Failure>(seq![]),
{
    lemma_blank_suffix(s, 0);
    let body: Seq<SourceNode> = seq![];
    assert(parse_program(seq![]) == Ok::<Seq<SourceNode>, Failure>(body));
    assert(body.map_values(|e: SourceNode| transform_node(e, false)) =~= seq![]);
    assert(render(transform_program(body)) == render_all(seq![]));
}

/// The statements that a program body compiles to, one for each top-level node.
pub open spec fn statements(body: Seq<SourceNode>) -> Seq<Seq<char>> {
    body.map_values(|e: SourceNode| render(lower(e)).push(';'))
}

proof fn lemma_render_statements(body: Seq<SourceNode>)
    ensures
        render_all(body.map_values(|e: SourceNode| transform_node(e, false)))
            == statements(body).flatten(),
    decreases body.len(),
{
    let ts = body.map_values(|e: SourceNode| transform_node(e, false));
    if body.len() == 0 {
        assert(statements(body) =~= seq![]);
        assert(statements(body).flatten() =~= seq![]);
    } else {
        let init = body.drop_last();
        lemma_render_statements(init);
        assert(ts.drop_last() =~= init.map_values(|e: SourceNode| transform_node(e, false)));
        assert(ts.last() == transform_node(body.last(), false));
        assert(render(ts.last()) == render(lower(body.last())).push(';'));
        assert(statements(body) =~= statements(init).push(render(lower(body.last())).push(';')));
        statements(init).lemma_flatten_push(render(lower(body.last())).push(';'));
    }
}

/// Each top-level node of the source gives exactly one statement of the output, ending
/// in `;`, and the output is those statements in order.
pub proof fn lemma_one_statement_per_node(s: Seq<char>, tokens: Seq<Lexeme>, body: Seq<SourceNode>)
    requires
        lex(s) == Ok::<Seq<Lexeme>, Failure>(tokens),
        parse_program(tokens) == Ok::<Seq<SourceNode>, Failure>(body),
    ensures
        compile_spec(s) == Ok::<Seq<char>, Failure>(statements(body).flatten()),
        statements(body).len() == body.len(),
        forall|i: int|
            0 <= i < body.len() ==> (#[trigger] statements(body)[i]).last() == ';',
{
    lemma_render_statements(body);
}

/// How deeply calls nest in a source node (a literal has depth zero).
pub open spec fn depth(e: SourceNode) -> nat
    decreases e,
{
    match e {
        SourceNode::Call(_, ps) => 1 + max_depth(ps),
        _ => 0,
    }
}

pub open spec fn max_depth(ps: Seq<SourceNode>) -> nat
    decreases ps,
{
    if ps.len() == 0 {
        0
    } else {
        let a = max_depth(ps.drop_last());
        let b = depth(ps.last());
        if a >= b {
            a
        } else {
            b
        }
    }
}

/// How deeply calls nest in a target node.
pub open spec fn target_depth(t: TargetNode) -> nat
    decreases t,
{
    match t {
        TargetNode::Program(body) => target_max_depth(body),
        TargetNode::Statement(e) => target_depth(*e),
        TargetNode::Call(_, args) => 1 + target_max_depth(args),
        _ => 0,
    }
}

pub open spec fn target_max_depth(ts: Seq<TargetNode>) -> nat
    decreases ts,
{
    if ts.len() == 0 {
        0
    } else {
        let a = target_max_depth(ts.drop_last());
        let b = target_depth(ts.last());
        if a >= b {
            a
        } else {
            b
        }
    }
}

/// Lowering a node keeps the depth to which calls nest in it.
pub proof fn lemma_lower_keeps_depth(e: SourceNode)
    ensures
        target_depth(lower(e)) == depth(e),
    decreases e,
{
    if let SourceNode::Call(_, ps) = e {
        lemma_lower_all_keeps_depth(ps);
    }
}

proof fn lemma_lower_all_keeps_depth(ps: Seq<SourceNode>)
    ensures
        target_max_depth(lower_all(ps)) == max_depth(ps),
    decreases ps,
{
    if ps.len() > 0 {
        lemma_lower_all_keeps_depth(ps.drop_last());
        lemma_lower_keeps_depth(ps.last());
        assert(lower_all(ps).drop_last() =~= lower_all(ps.drop_last()));
    }
}

proof fn lemma_statements_keep_depth(body: Seq<SourceNode>)
    ensures
        target_max_depth(body.map_values(|e: SourceNode| transform_node(e, false)))
            == max_depth(body),
    decreases body.len(),
{
    if body.len() > 0 {
        let init = body.drop_last();
        lemma_statements_keep_depth(init);
        lemma_lower_keeps_depth(body.last());
        let ts = body.map_values(|e: SourceNode| transform_node(e, false));
        assert(ts.drop_last() =~= init.map_values(|e: SourceNode| transform_node(e, false)));
        assert(ts.last() == transform_node(body.last(), false));
        assert(target_depth(ts.last()) == target_depth(lower(body.last())));
    }
}

/// Calls nest as deeply in the compiled program as in the source program, top-level
/// node by top-level node and over the whole program.
pub proof fn lemma_transform_keeps_depth(body: Seq<SourceNode>)
    ensures
        target_depth(transform_program(body)) == max_depth(body),
        forall|i: int|
            0 <= i < body.len() ==> target_depth(
                #[trigger] transform_program(body)->Program_0[i],
            ) == depth(body[i]),
{
    lemma_statements_keep_depth(body);
    assert forall|i: int| 0 <= i < body.len() implies target_depth(
        #[trigger] transform_program(body)->Program_0[i],
    ) == depth(body[i]) by {
        lemma_lower_keeps_depth(body[i]);
    }
}

/// Whether the lexer, started at `pos` in `mode`, comes to position `i` between two
/// tokens (in its start mode: outside any string literal, name or number) without
/// failing on the way.
pub open spec fn lexes_through(s: Seq<char>, pos: int, mode: LexMode, i: int) -> bool
    decreases s.len() - pos, mode_rank(mode),
{
    if pos == i && mode is Start {
        true
    } else if pos > i {
        false
    } else {
        match lex_step(char_at(s, pos), pos, mode) {
            LexStep::Next(_, used, next) => lexes_through(s, pos + used, next, i),
            _ => false,
        }
    }
}

/// `w` inserted into `s` at position `i`.
pub open spec fn insert_at(s: Seq<char>, i: int, w: Seq<char>) -> Seq<char> {
    s.subrange(0, i) + w + s.subrange(i, s.len() as int)
}

/// Moves the position that an invalid-character failure reports by `d`.
pub open spec fn shift_failure(e: Failure, d: int) -> Failure {
    match e {
        Failure::InvalidCharacter(c, p) => Failure::InvalidCharacter(c, p + d),
        _ => e,
    }
}

pub open spec fn shift_outcome<T>(r: Outcome<T>, d: int) -> Outcome<T> {
    match r {
        Ok(v) => Ok(v),
        Err(e) => Err(shift_failure(e, d)),
    }
}

proof fn lemma_step_at(c: Option<char>, a: int, b: int, mode: LexMode)
    ensures
        match lex_step(c, a, mode) {
            LexStep::Fail(e) => lex_step(c, b, mode) == LexStep::Fail(shift_failure(e, b - a)),
            other => lex_step(c, b, mode) == other,
        },
{
}

/// Lexing depends only on the characters from the starting position on; a failure's
/// position moves with them.
proof fn lemma_lex_suffix(s: Seq<char>, a: int, t: Seq<char>, b: int, mode: LexMode)
    requires
        0 <= a <= s.len(),
        0 <= b <= t.len(),
        s.subrange(a, s.len() as int) == t.subrange(b, t.len() as int),
    ensures
        lex_from(t, b, mode) == shift_outcome(lex_from(s, a, mode), b - a),
    decreases s.len() - a, mode_rank(mode),
{
    let x = s.subrange(a, s.len() as int);
    let y = t.subrange(b, t.len() as int);
    assert(x.len() == s.len() - a);
    assert(y.len() == t.len() - b);
    assert(s.len() - a == t.len() - b);
    if a < s.len() {
        assert(x[0] == s[a]);
        assert(y[0] == t[b]);
    }
    assert(char_at(s, a) == char_at(t, b));
    lemma_step_at(char_at(s, a), a, b, mode);
    match lex_step(char_at(s, a), a, mode) {
        LexStep::Next(out, used, next) => {
            if used == 1 {
                assert(s.subrange(a + 1, s.len() as int) =~= s.subrange(a, s.len() as int).subrange(
                    1,
                    s.len() - a,
                ));
                assert(t.subrange(b + 1, t.len() as int) =~= t.subrange(b, t.len() as int).subrange(
                    1,
                    t.len() - b,
                ));
            }
            lemma_lex_suffix(s, a + used, t, b + used, next);
        },
        _ => {},
    }
}

proof fn lemma_skip_blank(s: Seq<char>, from: int, to: int)
    requires
        0 <= from <= to <= s.len(),
        forall|k: int| from <= k < to ==> is_whitespace(#[trigger] s[k]),
    ensures
        lex_from(s, from, LexMode::Start) == lex_from(s, to, LexMode::Start),
    decreases to - from,
{
    if from < to {
        lemma_skip_blank(s, from + 1, to);
    }
}

proof fn lemma_insert_blank_from(s: Seq<char>, i: int, w: Seq<char>, pos: int, mode: LexMode)
    requires
        0 <= pos <= i <= s.len(),
        w.len() > 0,
        forall|k: int| 0 <= k < w.len() ==> is_whitespace(#[trigger] w[k]),
        lexes_through(s, pos, mode, i),
    ensures
        lex_from(insert_at(s, i, w), pos, mode) == shift_outcome(lex_from(s, pos, mode), w.len() as int),
    decreases s.len() - pos, mode_rank(mode),
{
    let s2 = insert_at(s, i, w);
    assert(s2.len() == s.len() + w.len());
    if pos == i && mode is Start {
        assert forall|k: int| i <= k < i + w.len() implies is_whitespace(#[trigger] s2[k]) by {
            assert(s2[k] == w[k - i]);
        }
        lemma_skip_blank(s2, i, i + w.len());
        assert(s.subrange(i, s.len() as int) =~= s2.subrange(i + w.len(), s2.len() as int));
        lemma_lex_suffix(s, i, s2, i + w.len(), LexMode::Start);
    } else {
        match lex_step(char_at(s, pos), pos, mode) {
            LexStep::Next(out, used, next) => {
                assert(lexes_through(s, pos + used, next, i));
                if pos < i {
                    assert(char_at(s2, pos) == char_at(s, pos));
                } else {
                    assert(s2[i] == w[0]);
                    assert(used == 0);
                    assert(char_at(s2, pos) == Some(w[0]));
                }
                assert(lex_step(char_at(s2, pos), pos, mode) == lex_step(char_at(s, pos), pos, mode));
                lemma_insert_blank_from(s, i, w, pos + used, next);
            },
            _ => {},
        }
    }
}

/// Inserting a run of whitespace where the lexer stands between tokens leaves the
/// tokens, and so the compiled code, unchanged; only the position that an
/// invalid-character failure reports moves by the length of the run. Read from
/// `insert_at(s, i, w)` back to `s`, this is the removal of such a run.
pub proof fn lemma_whitespace_insensitive(s: Seq<char>, i: int, w: Seq<char>)
    requires
        0 <= i <= s.len(),
        w.len() > 0,
        forall|k: int| 0 <= k < w.len() ==> is_whitespace(#[trigger] w[k]),
        lexes_through(s, 0, LexMode::Start, i),
    ensures
        lex(insert_at(s, i, w)) == shift_outcome(lex(s), w.len() as int),
        lex(s) is Ok ==> compile_spec(insert_at(s, i, w)) == compile_spec(s),
        lex(s) is Err ==> compile_spec(insert_at(s, i, w)) == shift_outcome(
            compile_spec(s),
            w.len() as int,
        ),
{
    lemma_insert_blank_from(s, i, w, 0, LexMode::Start);
}

/// Whether `t` is `s` with one run of whitespace inserted where the lexer, reading
/// `s`, stands between tokens.
pub open spec fn blank_insertion(s: Seq<char>, t: Seq<char>) -> bool {
    exists|i: int, w: Seq<char>|
        {
            &&& 0 <= i <= s.len()
            &&& w.len() > 0
            &&& forall|k: int| 0 <= k < w.len() ==> is_whitespace(#[trigger] w[k])
            &&& lexes_through(s, 0, LexMode::Start, i)
            &&& t == #[trigger] insert_at(s, i, w)
        }
}

/// One edit of whitespace between tokens: a run inserted, or a run removed.
pub open spec fn blank_edit(s: Seq<char>, t: Seq<char>) -> bool {
    blank_insertion(s, t) || blank_insertion(t, s)
}

proof fn lemma_blank_insertion(s: Seq<char>, t: Seq<char>)
    requires
        blank_insertion(s, t),
    ensures
        lex(s) is Ok <==> lex(t) is Ok,
        lex(s) is Ok ==> compile_spec(t) == compile_spec(s),
        compile_spec(s) is Ok <==> compile_spec(t) is Ok,
{
    let (i, w) = choose|i: int, w: Seq<char>|
        {
            &&& 0 <= i <= s.len()
            &&& w.len() > 0
            &&& forall|k: int| 0 <= k < w.len() ==> is_whitespace(#[trigger] w[k])
            &&& lexes_through(s, 0, LexMode::Start, i)
            &&& t == #[trigger] insert_at(s, i, w)
        };
    lemma_whitespace_insensitive(s, i, w);
}

/// Any chain of whitespace edits between tokens, insertions and removals in any
/// order, leaves the compiled code unchanged: the first text compiles exactly when
/// the last does, and then to the same code.
pub proof fn lemma_whitespace_edits(texts: Seq<Seq<char>>)
    requires
        texts.len() > 0,
        forall|j: int| 0 <= j < texts.len() - 1 ==> blank_edit(#[trigger] texts[j], texts[j + 1]),
    ensures
        compile_spec(texts[0]) is Ok <==> compile_spec(texts.last()) is Ok,
        compile_spec(texts[0]) is Ok ==> compile_spec(texts.last()) == compile_spec(texts[0]),
    decreases texts.len(),
{
    if texts.len() > 1 {
        let init = texts.drop_last();
        assert forall|j: int| 0 <= j < init.len() - 1 implies blank_edit(
            #[trigger] init[j],
            init[j + 1],
        ) by {
            assert(blank_edit(texts[j], texts[j + 1]));
        }
        lemma_whitespace_edits(init);
        let a = texts[texts.len() - 2];
        let b = texts.last();
        assert(blank_edit(texts[texts.len() - 2], texts[texts.len() - 2 + 1]));
        if blank_insertion(a, b) {
            lemma_blank_insertion(a, b);
        } else {
            lemma_blank_insertion(b, a);
        }
    }
}

/// A name: a letter, then letters and underscores.
pub open spec fn is_name_text(f: Seq<char>) -> bool {
    &&& f.len() > 0
    &&& is_letter(f[0])
    &&& forall|j: int| 0 <= j < f.len() ==> is_name_char(#[trigger] f[j])
}

/// A number literal: a digit, then digits and decimal points.
pub open spec fn is_number_text(v: Seq<char>) -> bool {
    &&& v.len() > 0
    &&& is_digit(v[0])
    &&& forall|j: int| 0 <= j < v.len() ==> is_number_char(#[trigger] v[j])
}

/// The literals, each preceded by one space.
pub open spec fn spaced(a: Seq<Seq<char>>) -> Seq<char>
    decreases a.len(),
{
    if a.len() == 0 {
        seq![]
    } else {
        spaced(a.drop_last()) + seq![' '] + a.last()
    }
}

/// The literals, separated by a comma and a space.
pub open spec fn comma_joined(a: Seq<Seq<char>>) -> Seq<char>
    decreases a.len(),
{
    if a.len() == 0 {
        seq![]
    } else if a.len() == 1 {
        a[0]
    } else {
        comma_joined(a.drop_last()) + seq![',', ' '] + a.last()
    }
}

proof fn lemma_emit_nothing(r: Outcome<Seq<Lexeme>>)
    ensures
        emit(seq![], r) == r,
{
    if let Ok(ts) = r {
        assert(seq![] + ts =~= ts);
    }
}

proof fn lemma_name_run(s: Seq<char>, p: int, f: Seq<char>, k: int)
    requires
        0 <= p,
        p + f.len() <= s.len(),
        1 <= k <= f.len(),
        s.subrange(p, p + f.len()) == f,
        forall|j: int| 0 <= j < f.len() ==> is_name_char(#[trigger] f[j]),
    ensures
        lex_from(s, p + k, LexMode::Name(f.take(k))) == lex_from(
            s,
            p + f.len(),
            LexMode::Name(f),
        ),
    decreases f.len() - k,
{
    if k < f.len() {
        assert(s.subrange(p, p + f.len())[k] == s[p + k]);
        assert(f.take(k).push(f[k]) =~= f.take(k + 1));
        lemma_name_run(s, p, f, k + 1);
    } else {
        assert(f.take(k) =~= f);
    }
}

proof fn lemma_number_run(s: Seq<char>, p: int, v: Seq<char>, k: int)
    requires
        0 <= p,
        p + v.len() <= s.len(),
        1 <= k <= v.len(),
        s.subrange(p, p + v.len()) == v,
        forall|j: int| 0 <= j < v.len() ==> is_number_char(#[trigger] v[j]),
    ensures
        lex_from(s, p + k, LexMode::Number(v.take(k))) == lex_from(
            s,
            p + v.len(),
            LexMode::Number(v),
        ),
    decreases v.len() - k,
{
    if k < v.len() {
        assert(s.subrange(p, p + v.len())[k] == s[p + k]);
        assert(v.take(k).push(v[k]) =~= v.take(k + 1));
        lemma_number_run(s, p, v, k + 1);
    } else {
        assert(v.take(k) =~= v);
    }
}

proof fn lemma_lex_name(s: Seq<char>, p: int, f: Seq<char>)
    requires
        0 <= p,
        p + f.len() <= s.len(),
        s.subrange(p, p + f.len()) == f,
        is_name_text(f),
        p + f.len() < s.len() ==> !is_name_char(s[p + f.len()]),
    ensures
        lex_from(s, p, LexMode::Start) == emit(
            seq![(TokenType::Name, f)],
            lex_from(s, p + f.len(), LexMode::Start),
        ),
{
    assert(s.subrange(p, p + f.len())[0] == s[p]);
    assert(seq![f[0]] =~= f.take(1));
    lemma_name_run(s, p, f, 1);
    lemma_emit_nothing(lex_from(s, p + 1, LexMode::Name(seq![f[0]])));
}

proof fn lemma_lex_number(s: Seq<char>, p: int, v: Seq<char>)
    requires
        0 <= p,
        p + v.len() <= s.len(),
        s.subrange(p, p + v.len()) == v,
        is_number_text(v),
        p + v.len() < s.len() ==> !is_number_char(s[p + v.len()]),
    ensures
        lex_from(s, p, LexMode::Start) == emit(
            seq![(TokenType::Number, v)],
            lex_from(s, p + v.len(), LexMode::Start),
        ),
{
    assert(s.subrange(p, p + v.len())[0] == s[p]);
    assert(seq![v[0]] =~= v.take(1));
    lemma_number_run(s, p, v, 1);
    lemma_emit_nothing(lex_from(s, p + 1, LexMode::Number(seq![v[0]])));
}

pub open spec fn number_lexemes(a: Seq<Seq<char>>) -> Seq<Lexeme> {
    a.map_values(|v: Seq<char>| (TokenType::Number, v))
}

pub open spec fn number_nodes(a: Seq<Seq<char>>) -> Seq<SourceNode> {
    a.map_values(|v: Seq<char>| SourceNode::Number(v))
}

proof fn lemma_lex_spaced(s: Seq<char>, p: int, a: Seq<Seq<char>>)
    requires
        0 <= p,
        p + spaced(a).len() <= s.len(),
        s.subrange(p, p + spaced(a).len()) == spaced(a),
        forall|i: int| 0 <= i < a.len() ==> is_number_text(#[trigger] a[i]),
        p + spaced(a).len() < s.len() ==> !is_number_char(s[p + spaced(a).len()]),
    ensures
        lex_from(s, p, LexMode::Start) == emit(
            number_lexemes(a),
            lex_from(s, p + spaced(a).len(), LexMode::Start),
        ),
    decreases a.len(),
{
    if a.len() == 0 {
        assert(number_lexemes(a) =~= seq![]);
        lemma_emit_nothing(lex_from(s, p, LexMode::Start));
    } else {
        let init = a.drop_last();
        let v = a.last();
        let q = p + spaced(init).len();
        let whole = spaced(a);
        let big = s.subrange(p, p + whole.len());
        assert(whole == spaced(init) + seq![' '] + v);
        assert(s.subrange(p, q) =~= big.subrange(0, q - p));
        assert(whole.subrange(0, spaced(init).len() as int) =~= spaced(init));
        assert(whole[spaced(init).len() as int] == ' ');
        assert(s.subrange(p, p + whole.len())[q - p] == s[q]);
        lemma_lex_spaced(s, p, init);
        lemma_emit_nothing(lex_from(s, q + 1, LexMode::Start));
        assert(lex_from(s, q, LexMode::Start) == lex_from(s, q + 1, LexMode::Start));
        assert(s.subrange(q + 1, q + 1 + v.len()) =~= big.subrange(q + 1 - p, whole.len() as int));
        assert(whole.subrange(spaced(init).len() as int + 1, whole.len() as int) =~= v);
        assert(is_number_text(a[a.len() - 1]));
        lemma_lex_number(s, q + 1, v);
        lemma_emit_emit(
            number_lexemes(init),
            seq![(TokenType::Number, v)],
            lex_from(s, q + 1 + v.len(), LexMode::Start),
        );
        assert(number_lexemes(a) =~= number_lexemes(init) + seq![(TokenType::Number, v)]);
    }
}

proof fn lemma_spaced_starts_with_space(a: Seq<Seq<char>>)
    requires
        a.len() > 0,
    ensures
        spaced(a).len() > 0,
        spaced(a)[0] == ' ',
    decreases a.len(),
{
    let init = a.drop_last();
    if init.len() > 0 {
        lemma_spaced_starts_with_space(init);
    }
    assert((spaced(init) + seq![' '] + a.last())[0] == if init.len() > 0 {
        spaced(init)[0]
    } else {
        ' '
    });
}

proof fn lemma_parse_numbers(t: Seq<Lexeme>, a: Seq<Seq<char>>, k: int)
    requires
        0 <= k <= a.len(),
        t.len() == a.len() + 3,
        forall|i: int| 0 <= i < a.len() ==> #[trigger] t[i + 2] == (TokenType::Number, a[i]),
        t[a.len() as int + 2] == (TokenType::Paren, seq![')']),
    ensures
        parse_params(t, k + 2, number_nodes(a).take(k)) == Ok::<(Seq<SourceNode>, int), Failure>(
            (number_nodes(a), a.len() as int + 3),
        ),
    decreases a.len() - k,
{
    if k < a.len() {
        assert(t[k + 2] == (TokenType::Number, a[k]));
        assert(parse_node(t, k + 2) == Ok::<(SourceNode, int), Failure>(
            (SourceNode::Number(a[k]), k + 3),
        ));
        assert(number_nodes(a).take(k).push(SourceNode::Number(a[k])) =~= number_nodes(a).take(
            k + 1,
        ));
        lemma_parse_numbers(t, a, k + 1);
    } else {
        assert(number_nodes(a).take(k) =~= number_nodes(a));
    }
}

proof fn lemma_render_numbers(a: Seq<Seq<char>>)
    ensures
        render_args(lower_all(number_nodes(a))) == comma_joined(a),
    decreases a.len(),
{
    let ts = lower_all(number_nodes(a));
    lemma_lower_all(number_nodes(a));
    if a.len() > 0 {
        let init = a.drop_last();
        lemma_render_numbers(init);
        lemma_lower_all(number_nodes(init));
        assert(number_nodes(a).drop_last() =~= number_nodes(init));
        assert(ts.drop_last() =~= lower_all(number_nodes(init)));
        assert(number_nodes(a)[a.len() - 1] == SourceNode::Number(a.last()));
        assert(ts.last() == TargetNode::Number(a.last()));
        assert(render(ts.last()) == a.last());
        if a.len() == 1 {
            assert(ts[0] == TargetNode::Number(a[0]));
            assert(render_args(ts) == render(ts[0]));
        } else {
            assert(render_args(ts) == render_args(ts.drop_last()) + seq![',', ' '] + render(
                ts.last(),
            ));
        }
    }
}

/// A single call whose arguments are number literals, written with one space before
/// each argument, compiles to the call with its arguments separated by `, ` and
/// nothing after the last one.
pub proof fn lemma_single_call_round_trip(f: Seq<char>, a: Seq<Seq<char>>)
    requires
        is_name_text(f),
        forall|i: int| 0 <= i < a.len() ==> is_number_text(#[trigger] a[i]),
    ensures
        compile_spec(seq!['('] + f + spaced(a) + seq![')']) == Ok::<Seq<char>, Failure>(
            f + seq!['('] + comma_joined(a) + seq![')', ';'],
        ),
{
    let s = seq!['('] + f + spaced(a) + seq![')'];
    let n = a.len() as int;
    let m = f.len() as int;
    let end = 1 + m + spaced(a).len();
    assert(s.len() == end + 1);
    assert(s[end] == ')');
    // lexing
    assert(s.subrange(1, 1 + m) =~= f);
    assert(s.subrange(1 + m, end) =~= spaced(a));
    if n > 0 {
        lemma_spaced_starts_with_space(a);
        assert(s[1 + m] == spaced(a)[0]);
    } else {
        assert(s[1 + m] == ')');
    }
    lemma_lex_name(s, 1, f);
    lemma_lex_spaced(s, 1 + m, a);
    assert(lex_from(s, end + 1, LexMode::Start) == Ok::<Seq<Lexeme>, Failure>(seq![]));
    let close: Seq<Lexeme> = seq![(TokenType::Paren, seq![')'])];
    assert(lex_from(s, end, LexMode::Start) == emit(close, lex_from(s, end + 1, LexMode::Start)));
    assert(close + seq![] =~= close);
    let open: Seq<Lexeme> = seq![(TokenType::Paren, seq!['('])];
    let name: Seq<Lexeme> = seq![(TokenType::Name, f)];
    assert(lex_from(s, 0, LexMode::Start) == emit(open, lex_from(s, 1, LexMode::Start)));
    lemma_emit_emit(name, number_lexemes(a), Ok(close));
    lemma_emit_emit(open, name + number_lexemes(a), Ok(close));
    let t = open + name + number_lexemes(a) + close;
    assert(open + ((name + number_lexemes(a)) + close) =~= t);
    assert(lex(s) == Ok::<Seq<Lexeme>, Failure>(t));
    // parsing
    assert(t.len() == n + 3);
    assert forall|i: int| 0 <= i < n implies #[trigger] t[i + 2] == (TokenType::Number, a[i]) by {}
    assert(t[n + 2] == (TokenType::Paren, seq![')']));
    lemma_parse_numbers(t, a, 0);
    assert(number_nodes(a).take(0) =~= seq![]);
    let call = SourceNode::Call(f, number_nodes(a));
    assert(parse_node(t, 0) == Ok::<(SourceNode, int), Failure>((call, n + 3)));
    let body: Seq<SourceNode> = seq![call];
    assert(seq![].push(call) == body);
    assert(parse_body(t, n + 3, body) == Ok::<Seq<SourceNode>, Failure>(body));
    assert(parse_program(t) == Ok::<Seq<SourceNode>, Failure>(body));
    // rendering
    lemma_render_numbers(a);
    let ts = body.map_values(|e: SourceNode| transform_node(e, false));
    assert(ts.len() == 1);
    assert(ts.drop_last() =~= seq![]);
    assert(render(transform_program(body)) == render_all(ts));
    assert(render_all(ts) == render_all(seq![]) + render(ts[0]));
    assert(ts[0] == transform_node(call, false));
    assert(lower(call) == TargetNode::Call(f, lower_all(number_nodes(a))));
    assert(render(lower(call)) == f + seq!['('] + comma_joined(a) + seq![')']);
    assert(render(ts[0]) == (f + seq!['('] + comma_joined(a) + seq![')']).push(';'));
    assert(render_all(ts) =~= f + seq!['('] + comma_joined(a) + seq![')', ';']);
}

pub open spec fn paren_delta(c: char) -> int {
    if c == '(' {
        1
    } else if c == ')' {
        -1
    } else {
        0
    }
}

/// Opening parentheses of `t` less its closing ones.
pub open spec fn balance(t: Seq<char>) -> int
    decreases t.len(),
{
    if t.len() == 0 {
        0
    } else {
        balance(t.drop_last()) + paren_delta(t.last())
    }
}

/// How deeply parentheses nest in `t`: the largest balance of a prefix.
pub open spec fn paren_depth(t: Seq<char>) -> int
    decreases t.len(),
{
    if t.len() == 0 {
        0
    } else {
        let a = paren_depth(t.drop_last());
        let b = balance(t);
        if a >= b {
            a
        } else {
            b
        }
    }
}

pub open spec fn paren_free(t: Seq<char>) -> bool {
    forall|i: int| 0 <= i < t.len() ==> #[trigger] t[i] != '(' && t[i] != ')'
}

/// Whether no name or literal in the node holds a parenthesis.
pub open spec fn plain_node(e: SourceNode) -> bool
    decreases e,
{
    match e {
        SourceNode::Number(v) => paren_free(v),
        SourceNode::Str(v) => paren_free(v),
        SourceNode::Call(name, ps) => paren_free(name) && plain_nodes(ps),
    }
}

pub open spec fn plain_nodes(ps: Seq<SourceNode>) -> bool
    decreases ps,
{
    if ps.len() == 0 {
        true
    } else {
        plain_nodes(ps.drop_last()) && plain_node(ps.last())
    }
}

proof fn lemma_depth_at_least_balance(t: Seq<char>)
    ensures
        paren_depth(t) >= balance(t),
        paren_depth(t) >= 0,
    decreases t.len(),
{
    if t.len() > 0 {
        lemma_depth_at_least_balance(t.drop_last());
    }
}

proof fn lemma_paren_free(t: Seq<char>)
    requires
        paren_free(t),
    ensures
        balance(t) == 0,
        paren_depth(t) == 0,
    decreases t.len(),
{
    if t.len() > 0 {
        assert(paren_free(t.drop_last()));
        lemma_paren_free(t.drop_last());
        assert(t[t.len() - 1] != '(' && t[t.len() - 1] != ')');
    }
}

proof fn lemma_concat(x: Seq<char>, y: Seq<char>)
    ensures
        balance(x + y) == balance(x) + balance(y),
        paren_depth(x + y) == if paren_depth(x) >= balance(x) + paren_depth(y) {
            paren_depth(x)
        } else {
            balance(x) + paren_depth(y)
        },
    decreases y.len(),
{
    lemma_depth_at_least_balance(x);
    if y.len() == 0 {
        assert(x + y =~= x);
    } else {
        let y0 = y.drop_last();
        lemma_concat(x, y0);
        lemma_depth_at_least_balance(y);
        assert((x + y).drop_last() =~= x + y0);
        assert((x + y).last() == y.last());
    }
}

/// The text of a node of the source, compiled as an argument: its parentheses are
/// balanced and nest as deeply as its calls.
proof fn lemma_rendered_depth(e: SourceNode)
    requires
        plain_node(e),
    ensures
        balance(render(lower(e))) == 0,
        paren_depth(render(lower(e))) == depth(e),
    decreases e,
{
    match e {
        SourceNode::Number(v) => {
            lemma_paren_free(v);
            assert(render(lower(e)) == v);
            assert(depth(e) == 0);
        },
        SourceNode::Str(v) => {
            let q: Seq<char> = seq!['"'];
            lemma_paren_free(q);
            lemma_paren_free(v);
            lemma_concat(q, v);
            lemma_concat(q + v, q);
            assert(render(lower(e)) == q + v + q);
        },
        SourceNode::Call(name, ps) => {
            let args = render_args(lower_all(ps));
            lemma_rendered_args(ps);
            let open: Seq<char> = seq!['('];
            let close: Seq<char> = seq![')'];
            assert(open.drop_last() =~= seq![]);
            assert(close.drop_last() =~= seq![]);
            assert(balance(open.drop_last()) == 0);
            assert(balance(close.drop_last()) == 0);
            assert(paren_depth(open.drop_last()) == 0);
            assert(paren_depth(close.drop_last()) == 0);
            assert(open.last() == '(');
            assert(close.last() == ')');
            assert(balance(open) == 1);
            assert(balance(close) == -1);
            assert(paren_depth(open) == 1);
            assert(paren_depth(close) == 0);
            assert(render(lower(e)) == name + open + args + close);
            lemma_paren_free(name);
            lemma_concat(name, open);
            lemma_concat(name + open, args);
            lemma_concat(name + open + args, close);
            lemma_depth_at_least_balance(args);
        },
    }
}

proof fn lemma_rendered_args(ps: Seq<SourceNode>)
    requires
        plain_nodes(ps),
    ensures
        balance(render_args(lower_all(ps))) == 0,
        paren_depth(render_args(lower_all(ps))) == max_depth(ps),
    decreases ps,
{
    let ts = lower_all(ps);
    lemma_lower_all(ps);
    if ps.len() == 0 {
    } else {
        let init = ps.drop_last();
        lemma_lower_all(init);
        assert(ts.drop_last() =~= lower_all(init));
        lemma_rendered_depth(ps.last());
        lemma_rendered_args(init);
        if ps.len() == 1 {
            assert(init =~= seq![]);
            assert(render_args(ts) == render(ts[0]));
        } else {
            let sep: Seq<char> = seq![',', ' '];
            lemma_paren_free(sep);
            let left = render_args(lower_all(init));
            lemma_concat(left, sep);
            lemma_concat(left + sep, render(lower(ps.last())));
            lemma_depth_at_least_balance(render(lower(ps.last())));
        }
    }
}

proof fn lemma_rendered_statements_depth(body: Seq<SourceNode>)
    requires
        plain_nodes(body),
    ensures
        balance(statements(body).flatten()) == 0,
        paren_depth(statements(body).flatten()) == max_depth(body),
    decreases body.len(),
{
    if body.len() == 0 {
        assert(statements(body) =~= seq![]);
        assert(statements(body).flatten() =~= seq![]);
    } else {
        let init = body.drop_last();
        let last = render(lower(body.last())).push(';');
        lemma_rendered_statements_depth(init);
        assert(statements(body) =~= statements(init).push(last));
        statements(init).lemma_flatten_push(last);
        lemma_rendered_depth(body.last());
        let semi: Seq<char> = seq![';'];
        lemma_paren_free(semi);
        assert(last =~= render(lower(body.last())) + semi);
        lemma_concat(render(lower(body.last())), semi);
        lemma_concat(statements(init).flatten(), last);
        lemma_depth_at_least_balance(last);
    }
}

/// When no name or literal of the source holds a parenthesis, the parentheses of the
/// compiled code are balanced and nest exactly as deeply as the calls of the source.
pub proof fn lemma_output_parens_nest_as_calls(s: Seq<char>, tokens: Seq<Lexeme>, body: Seq<SourceNode>)
    requires
        lex(s) == Ok::<Seq<Lexeme>, Failure>(tokens),
        parse_program(tokens) == Ok::<Seq<SourceNode>, Failure>(body),
        plain_nodes(body),
    ensures
        compile_spec(s) matches Ok(out) && balance(out) == 0 && paren_depth(out) == max_depth(body),
{
    lemma_render_statements(body);
    lemma_rendered_statements_depth(body);
}

/// The parentheses among the tokens, in order: the parentheses of the source text that
/// stand outside string literals.
pub open spec fn paren_tokens(t: Seq<Lexeme>) -> Seq<char>
    decreases t.len(),
{
    if t.len() == 0 {
        seq![]
    } else {
        paren_tokens(t.drop_last()) + if t.last().0 == TokenType::Paren {
            t.last().1
        } else {
            seq![]
        }
    }
}

proof fn lemma_paren_tokens_concat(x: Seq<Lexeme>, y: Seq<Lexeme>)
    ensures
        paren_tokens(x + y) == paren_tokens(x) + paren_tokens(y),
    decreases y.len(),
{
    if y.len() == 0 {
        assert(x + y =~= x);
        assert(paren_tokens(x) + seq![] =~= paren_tokens(x));
    } else {
        lemma_paren_tokens_concat(x, y.drop_last());
        assert((x + y).drop_last() =~= x + y.drop_last());
        assert((x + y).last() == y.last());
        let tail = if y.last().0 == TokenType::Paren {
            y.last().1
        } else {
            seq![]
        };
        assert(paren_tokens(x) + paren_tokens(y.drop_last()) + tail =~= paren_tokens(x) + (
        paren_tokens(y.drop_last()) + tail));
    }
}

proof fn lemma_paren_tokens_split(t: Seq<Lexeme>, a: int, b: int, c: int)
    requires
        0 <= a <= b <= c <= t.len(),
    ensures
        paren_tokens(t.subrange(a, c)) == paren_tokens(t.subrange(a, b)) + paren_tokens(
            t.subrange(b, c),
        ),
{
    assert(t.subrange(a, c) =~= t.subrange(a, b) + t.subrange(b, c));
    lemma_paren_tokens_concat(t.subrange(a, b), t.subrange(b, c));
}

proof fn lemma_one_token(t: Seq<Lexeme>, pos: int)
    requires
        0 <= pos < t.len(),
    ensures
        paren_tokens(t.subrange(pos, pos + 1)) == if t[pos].0 == TokenType::Paren {
            t[pos].1
        } else {
            seq![]
        },
{
    let u = t.subrange(pos, pos + 1);
    assert(u.drop_last() =~= seq![]);
    assert(paren_tokens(u.drop_last()) =~= seq![]);
    assert(u.last() == t[pos]);
    assert(seq![] + (if t[pos].0 == TokenType::Paren {
        t[pos].1
    } else {
        seq![]
    }) =~= (if t[pos].0 == TokenType::Paren {
        t[pos].1
    } else {
        seq![]
    }));
}

proof fn lemma_max_depth_cons(n: SourceNode, r: Seq<SourceNode>)
    ensures
        max_depth(seq![n] + r) == if depth(n) >= max_depth(r) {
            depth(n)
        } else {
            max_depth(r)
        },
    decreases r.len(),
{
    if r.len() == 0 {
        assert(seq![n] + r =~= seq![n]);
        assert(seq![n].drop_last() =~= seq![]);
        assert(max_depth(seq![n].drop_last()) == 0);
        assert(max_depth(seq![n]) == depth(n));
    } else {
        lemma_max_depth_cons(n, r.drop_last());
        assert((seq![n] + r).drop_last() =~= seq![n] + r.drop_last());
        assert((seq![n] + r).last() == r.last());
        assert(max_depth(seq![n] + r) == if max_depth(seq![n] + r.drop_last()) >= depth(r.last()) {
            max_depth(seq![n] + r.drop_last())
        } else {
            depth(r.last())
        });
    }
}

proof fn lemma_single_paren(c: char)
    ensures
        balance(seq![c]) == paren_delta(c),
        paren_depth(seq![c]) == if paren_delta(c) > 0 {
            paren_delta(c)
        } else {
            0
        },
{
    assert(seq![c].drop_last() =~= seq![]);
    assert(balance(seq![c].drop_last()) == 0);
    assert(paren_depth(seq![c].drop_last()) == 0);
}

proof fn lemma_node_parens(t: Seq<Lexeme>, pos: int)
    ensures
        match parse_node(t, pos) {
            Ok((n, next)) => {
                &&& pos < next <= t.len()
                &&& balance(paren_tokens(t.subrange(pos, next))) == 0
                &&& paren_depth(paren_tokens(t.subrange(pos, next))) == depth(n)
            },
            Err(_) => true,
        },
    decreases t.len() - pos, 1int,
{
    if 0 <= pos < t.len() {
        if t[pos].0 == TokenType::Number || t[pos].0 == TokenType::String {
            lemma_one_token(t, pos);
        } else if is_open(t[pos]) && pos + 1 < t.len() && t[pos + 1].0 == TokenType::Name {
            lemma_params_parens(t, pos + 2, seq![]);
            if let Ok((ps, end)) = parse_params(t, pos + 2, seq![]) {
                assert(ps.skip(0) =~= ps);
                lemma_one_token(t, pos);
                lemma_one_token(t, pos + 1);
                lemma_paren_tokens_split(t, pos, pos + 1, end);
                lemma_paren_tokens_split(t, pos + 1, pos + 2, end);
                let inner = paren_tokens(t.subrange(pos + 2, end));
                assert(paren_tokens(t.subrange(pos, end)) =~= seq!['('] + inner);
                lemma_single_paren('(');
                lemma_concat(seq!['('], inner);
                lemma_depth_at_least_balance(inner);
            }
        }
    }
}

proof fn lemma_params_parens(t: Seq<Lexeme>, pos: int, acc: Seq<SourceNode>)
    ensures
        match parse_params(t, pos, acc) {
            Ok((ps, end)) => {
                &&& pos < end <= t.len()
                &&& acc.len() <= ps.len()
                &&& ps.take(acc.len() as int) == acc
                &&& balance(paren_tokens(t.subrange(pos, end))) == -1
                &&& paren_depth(paren_tokens(t.subrange(pos, end))) == max_depth(
                    ps.skip(acc.len() as int),
                )
            },
            Err(_) => true,
        },
    decreases t.len() - pos, 2int,
{
    if 0 <= pos < t.len() {
        if is_close(t[pos]) {
            lemma_one_token(t, pos);
            lemma_single_paren(')');
            assert(acc.take(acc.len() as int) =~= acc);
            assert(acc.skip(acc.len() as int) =~= seq![]);
        } else {
            lemma_node_parens(t, pos);
            if let Ok((n, next)) = parse_node(t, pos) {
                lemma_params_parens(t, next, acc.push(n));
                if let Ok((ps, end)) = parse_params(t, next, acc.push(n)) {
                    assert(ps.take(acc.len() as int) =~= ps.take(acc.len() as int + 1).take(
                        acc.len() as int,
                    ));
                    assert(acc.push(n).take(acc.len() as int) =~= acc);
                    assert(ps[acc.len() as int] == ps.take(acc.len() as int + 1)[acc.len() as int]);
                    assert(ps.skip(acc.len() as int) =~= seq![n] + ps.skip(acc.len() as int + 1));
                    lemma_max_depth_cons(n, ps.skip(acc.len() as int + 1));
                    lemma_paren_tokens_split(t, pos, next, end);
                    lemma_concat(
                        paren_tokens(t.subrange(pos, next)),
                        paren_tokens(t.subrange(next, end)),
                    );
                }
            }
        }
    }
}

proof fn lemma_body_parens(t: Seq<Lexeme>, pos: int, acc: Seq<SourceNode>)
    requires
        0 <= pos <= t.len(),
    ensures
        match parse_body(t, pos, acc) {
            Ok(body) => {
                &&& acc.len() <= body.len()
                &&& body.take(acc.len() as int) == acc
                &&& balance(paren_tokens(t.subrange(pos, t.len() as int))) == 0
                &&& paren_depth(paren_tokens(t.subrange(pos, t.len() as int))) == max_depth(
                    body.skip(acc.len() as int),
                )
            },
            Err(_) => true,
        },
    decreases t.len() - pos,
{
    if pos >= t.len() {
        assert(t.subrange(pos, t.len() as int) =~= seq![]);
        assert(acc.take(acc.len() as int) =~= acc);
        assert(acc.skip(acc.len() as int) =~= seq![]);
    } else {
        lemma_node_parens(t, pos);
        if let Ok((n, next)) = parse_node(t, pos) {
            lemma_body_parens(t, next, acc.push(n));
            if let Ok(body) = parse_body(t, next, acc.push(n)) {
                assert(body.take(acc.len() as int) =~= body.take(acc.len() as int + 1).take(
                    acc.len() as int,
                ));
                assert(acc.push(n).take(acc.len() as int) =~= acc);
                assert(body[acc.len() as int] == body.take(acc.len() as int + 1)[acc.len() as int]);
                assert(body.skip(acc.len() as int) =~= seq![n] + body.skip(acc.len() as int + 1));
                lemma_max_depth_cons(n, body.skip(acc.len() as int + 1));
                lemma_paren_tokens_split(t, pos, next, t.len() as int);
                lemma_concat(
                    paren_tokens(t.subrange(pos, next)),
                    paren_tokens(t.subrange(next, t.len() as int)),
                );
            }
        }
    }
}

/// The parentheses of a source program that parses are balanced and nest exactly as
/// deeply as its calls.
pub proof fn lemma_input_parens_nest_as_calls(tokens: Seq<Lexeme>, body: Seq<SourceNode>)
    requires
        parse_program(tokens) == Ok::<Seq<SourceNode>, Failure>(body),
    ensures
        balance(paren_tokens(tokens)) == 0,
        paren_depth(paren_tokens(tokens)) == max_depth(body),
{
    lemma_body_parens(tokens, 0, seq![]);
    assert(tokens.subrange(0, tokens.len() as int) =~= tokens);
    assert(body.skip(0) =~= body);
}

/// When no name or literal of the source holds a parenthesis, parentheses nest as
/// deeply in the compiled code as in the source text (outside its string literals).
pub proof fn lemma_parens_nest_alike(s: Seq<char>, tokens: Seq<Lexeme>, body: Seq<SourceNode>)
    requires
        lex(s) == Ok::<Seq<Lexeme>, Failure>(tokens),
        parse_program(tokens) == Ok::<Seq<SourceNode>, Failure>(body),
        plain_nodes(body),
    ensures
        compile_spec(s) matches Ok(out) && paren_depth(out) == paren_depth(paren_tokens(tokens)),
{
    lemma_output_parens_nest_as_calls(s, tokens, body);
    lemma_input_parens_nest_as_calls(tokens, body);
}

} // verus!
