//! The shunting-yard conversion of a token sequence to postfix order, and
//! the postfix evaluator, which lays the numeric work out as an evaluation
//! plan: the steps in the exact order a stack machine would apply them, and
//! the outcome that holds once every step has succeeded.
use vstd::prelude::*;
use vstd::string::StringExecFns;

use crate::error::CalcError;
use crate::error::CalcErrorView;
use crate::lex::dup_numeral;
use crate::lex::dup_token;
use crate::lex::lemma_tokens_view_index;
use crate::lex::lemma_tokens_view_len;
use crate::lex::lemma_tokens_view_push;
use crate::lex::lemma_tokens_view_subrange;
use crate::lex::tokens_view;
use crate::lex::Function;
use crate::lex::Numeral;
use crate::lex::NumeralView;
use crate::lex::Operator;
use crate::lex::Token;
use crate::lex::TokenView;

verus! {

/// A sequence in reverse order.
pub open spec fn spec_rev<A>(s: Seq<A>) -> Seq<A> {
    Seq::new(s.len(), |i: int| s[s.len() - 1 - i])
}

/// Whether the operator pop loop keeps popping: the stack top is an operator
/// that binds tighter than the current one (or as tight, when
/// left-associative), or a function, which always binds tighter.
pub open spec fn spec_pop_continue(stack: Seq<TokenView>, cur: Operator) -> bool {
    stack.len() > 0 && match stack.last() {
        TokenView::Operator(x) => x.precedence > cur.precedence || (x.precedence == cur.precedence
            && x.is_left_associative),
        TokenView::Function(_) => true,
        _ => false,
    }
}

/// The operator pop loop: operators that bind tighter than the current one
/// move from the stack to the output.
pub open spec fn spec_pop_ops(stack: Seq<TokenView>, out: Seq<TokenView>, cur: Operator) -> (
    Seq<TokenView>,
    Seq<TokenView>,
)
    decreases stack.len(),
{
    if !spec_pop_continue(stack, cur) {
        (stack, out)
    } else {
        spec_pop_ops(stack.drop_last(), out.push(stack.last()), cur)
    }
}

/// The parenthesis pop loop: operators move from the stack to the output
/// until an opening parenthesis, or a comma lying directly on a function, is
/// consumed; an emptied stack means the boundary was never found.
pub open spec fn spec_pop_until_paren(stack: Seq<TokenView>, out: Seq<TokenView>) -> Option<
    (Seq<TokenView>, Seq<TokenView>),
>
    decreases stack.len(),
{
    if stack.len() == 0 {
        None
    } else {
        let tok = stack.last();
        let rest = stack.drop_last();
        if tok == TokenView::LParen {
            Some((rest, out))
        } else if tok == TokenView::Comma && (rest.len() == 0 || rest.last() is Function) {
            Some((rest, out))
        } else {
            spec_pop_until_paren(rest, out.push(tok))
        }
    }
}

/// Whether an opening parenthesis is still on the operator stack: at the end
/// of the input it never found its closing partner.
pub open spec fn spec_has_lparen(stack: Seq<TokenView>) -> bool {
    exists|j: int| 0 <= j < stack.len() && stack[j] == TokenView::LParen
}

proof fn lemma_has_lparen_drop_non(stack: Seq<TokenView>)
    requires
        stack.len() > 0,
        stack.last() != TokenView::LParen,
    ensures
        spec_has_lparen(stack) == spec_has_lparen(stack.drop_last()),
{
    if spec_has_lparen(stack) {
        let j = choose|j: int| 0 <= j < stack.len() && stack[j] == TokenView::LParen;
        assert(j != stack.len() - 1);
        assert(stack.drop_last()[j] == TokenView::LParen);
    }
    if spec_has_lparen(stack.drop_last()) {
        let j = choose|j: int|
            0 <= j < stack.drop_last().len() && stack.drop_last()[j] == TokenView::LParen;
        assert(stack[j] == TokenView::LParen);
    }
}

/// The shunting-yard conversion of the tokens from position `i` on, given
/// the output and operator stack built so far.
pub open spec fn spec_postfix_from(
    ts: Seq<TokenView>,
    i: int,
    out: Seq<TokenView>,
    stack: Seq<TokenView>,
) -> Result<Seq<TokenView>, CalcErrorView>
    decreases ts.len() - i,
{
    if i < 0 || i >= ts.len() {
        if spec_has_lparen(stack) {
            Err(CalcErrorView::Syntax("Mismatched parentheses!"@))
        } else {
            Ok(out + spec_rev(stack))
        }
    } else {
        match ts[i] {
            TokenView::Num(_) => spec_postfix_from(ts, i + 1, out.push(ts[i]), stack),
            TokenView::Function(_) => spec_postfix_from(ts, i + 1, out, stack.push(ts[i])),
            TokenView::Operator(cur) => {
                let (stack1, out1) = spec_pop_ops(stack, out, cur);
                spec_postfix_from(ts, i + 1, out1, stack1.push(ts[i]))
            },
            TokenView::LParen => spec_postfix_from(ts, i + 1, out, stack.push(ts[i])),
            _ => match spec_pop_until_paren(stack, out) {
                None => Err(CalcErrorView::Syntax("Mismatched parentheses!"@)),
                Some((stack1, out1)) => {
                    if ts[i] == TokenView::Comma {
                        if i + 1 < ts.len() && ts[i + 1] == TokenView::Comma {
                            Err(CalcErrorView::Syntax("Empty argument"@))
                        } else {
                            spec_postfix_from(ts, i + 1, out1, stack1.push(TokenView::Comma))
                        }
                    } else {
                        spec_postfix_from(ts, i + 1, out1, stack1)
                    }
                },
            },
        }
    }
}

/// What the conversion to postfix returns for a token sequence.
pub open spec fn spec_to_postfix(ts: Seq<TokenView>) -> Result<Seq<TokenView>, CalcErrorView> {
    spec_postfix_from(ts, 0, Seq::empty(), Seq::empty())
}

/// Decides `spec_pop_continue` on the operator stack.
fn pop_continue(stack: &Vec<Token>, cur: Operator) -> (r: bool)
    ensures
        r == spec_pop_continue(tokens_view(stack@), cur),
{
    broadcast use lemma_tokens_view_len, lemma_tokens_view_index;

    proof {
        if stack@.len() > 0 {
            assert(tokens_view(stack@).last() == stack@.last()@);
        }
    }
    match stack.last() {
        Some(Token::Operator(x)) => x.precedence > cur.precedence || (x.precedence
            == cur.precedence && x.is_left_associative),
        Some(Token::Function(_)) => true,
        _ => false,
    }
}

/// Runs the parenthesis pop loop; hands the two stacks back together with
/// whether the boundary was found.
#[verifier::loop_isolation(false)]
fn pop_until_paren(op_stack: Vec<Token>, postfixed: Vec<Token>) -> (r: (Vec<Token>, Vec<Token>, bool))
    ensures
        match spec_pop_until_paren(tokens_view(op_stack@), tokens_view(postfixed@)) {
            Some((s2, o2)) => r.2 && tokens_view(r.0@) == s2 && tokens_view(r.1@) == o2,
            None => !r.2,
        },
{
    broadcast use
        lemma_tokens_view_push,
        lemma_tokens_view_len,
        lemma_tokens_view_index,
        lemma_tokens_view_subrange;

    let ghost target = spec_pop_until_paren(tokens_view(op_stack@), tokens_view(postfixed@));
    let mut op_stack = op_stack;
    let mut postfixed = postfixed;
    loop
        invariant
            spec_pop_until_paren(tokens_view(op_stack@), tokens_view(postfixed@)) == target,
        decreases op_stack@.len(),
    {
        let ghost sv = tokens_view(op_stack@);
        let ghost pv = tokens_view(postfixed@);
        proof {
            assert(sv.len() == op_stack@.len());
            if op_stack@.len() > 0 {
                assert(sv.last() == op_stack@.last()@);
                if op_stack@.len() > 1 {
                    assert(sv.drop_last().last() == op_stack@.drop_last().last()@);
                }
            }
        }
        match op_stack.pop() {
            None => {
                proof {
                    assert(sv.len() == 0);
                    assert(spec_pop_until_paren(sv, pv) is None);
                }
                return (op_stack, postfixed, false);
            },
            Some(t) => {
                proof {
                    assert(tokens_view(op_stack@) =~= sv.drop_last());
                    assert(t@ == sv.last());
                }
                if matches!(t, Token::LParen) {
                    proof {
                        assert(spec_pop_until_paren(sv, pv) == Some(
                            (sv.drop_last(), pv),
                        ));
                    }
                    return (op_stack, postfixed, true);
                }
                let below_fn = match op_stack.last() {
                    None => true,
                    Some(Token::Function(_)) => true,
                    _ => false,
                };
                proof {
                    assert(below_fn == (sv.drop_last().len() == 0 || sv.drop_last().last()
                        is Function));
                }
                if matches!(t, Token::Comma) && below_fn {
                    proof {
                        assert(spec_pop_until_paren(sv, pv) == Some(
                            (sv.drop_last(), pv),
                        ));
                    }
                    return (op_stack, postfixed, true);
                }
                proof {
                    assert(spec_pop_until_paren(sv, pv) == spec_pop_until_paren(
                        sv.drop_last(),
                        pv.push(sv.last()),
                    ));
                }
                postfixed.push(t);
                proof {
                    assert(tokens_view(postfixed@) == pv.push(sv.last()));
                    assert(spec_pop_until_paren(
                        tokens_view(op_stack@),
                        tokens_view(postfixed@),
                    ) == target);
                }
            },
        }
    }
}

/// Converts a token sequence to postfix order by the shunting-yard
/// algorithm, exactly as `spec_to_postfix` says.
pub fn to_postfix(tokens: Vec<Token>) -> (r: Result<Vec<Token>, CalcError>)
    ensures
        match r {
            Ok(ts) => spec_to_postfix(tokens_view(tokens@)) == Ok::<
                Seq<TokenView>,
                CalcErrorView,
            >(tokens_view(ts@)),
            Err(e) => spec_to_postfix(tokens_view(tokens@)) == Err::<
                Seq<TokenView>,
                CalcErrorView,
            >(e@),
        },
{
    broadcast use
        lemma_tokens_view_push,
        lemma_tokens_view_len,
        lemma_tokens_view_index,
        lemma_tokens_view_subrange;

    let ghost tv = tokens_view(tokens@);
    let mut postfixed: Vec<Token> = Vec::new();
    let mut op_stack: Vec<Token> = Vec::new();
    proof {
        assert(tokens_view(postfixed@) =~= Seq::<TokenView>::empty());
        assert(tokens_view(op_stack@) =~= Seq::<TokenView>::empty());
    }
    let n = tokens.len();
    let mut i: usize = 0;
    while i < n
        invariant
            n == tokens@.len(),
            tv == tokens_view(tokens@),
            i <= n,
            spec_postfix_from(tv, i as int, tokens_view(postfixed@), tokens_view(op_stack@))
                == spec_to_postfix(tv),
        decreases n - i,
    {
        let ghost ov = tokens_view(postfixed@);
        let ghost sv = tokens_view(op_stack@);
        proof {
            assert(tv[i as int] == tokens@[i as int]@);
        }
        let t = dup_token(&tokens[i]);
        match t {
            Token::Num(_) => {
                proof {
                    assert(t@ == tv[i as int]);
                    assert(tv[i as int] is Num);
                    assert(spec_postfix_from(tv, i as int, ov, sv) == spec_postfix_from(
                        tv,
                        i + 1,
                        ov.push(tv[i as int]),
                        sv,
                    ));
                }
                postfixed.push(t);
                proof {
                    assert(tokens_view(postfixed@) == ov.push(tv[i as int]));
                    assert(spec_postfix_from(tv, i + 1, tokens_view(postfixed@), sv)
                        == spec_to_postfix(tv));
                }
            },
            Token::Function(_) => {
                proof {
                    assert(t@ == tv[i as int]);
                    assert(spec_postfix_from(tv, i as int, ov, sv) == spec_postfix_from(
                        tv,
                        i + 1,
                        ov,
                        sv.push(tv[i as int]),
                    ));
                }
                op_stack.push(t);
                proof {
                    assert(tokens_view(op_stack@) == sv.push(tv[i as int]));
                    assert(spec_postfix_from(tv, i + 1, ov, tokens_view(op_stack@))
                        == spec_to_postfix(tv));
                }
            },
            Token::Operator(cur_op) => {
                let ghost popped = spec_pop_ops(sv, ov, cur_op);
                while pop_continue(&op_stack, cur_op)
                    invariant
                        spec_pop_ops(tokens_view(op_stack@), tokens_view(postfixed@), cur_op)
                            == popped,
                    decreases op_stack@.len(),
                {
                    let ghost sv2 = tokens_view(op_stack@);
                    let ghost ov2 = tokens_view(postfixed@);
                    proof {
                        assert(sv2.len() == op_stack@.len());
                        assert(sv2.last() == op_stack@.last()@);
                    }
                    match op_stack.pop() {
                        Some(top) => {
                            proof {
                                assert(top@ == sv2.last());
                                assert(tokens_view(op_stack@) =~= sv2.drop_last());
                            }
                            postfixed.push(top);
                            proof {
                                assert(tokens_view(postfixed@) == ov2.push(sv2.last()));
                                assert(spec_pop_ops(sv2, ov2, cur_op) == spec_pop_ops(
                                    sv2.drop_last(),
                                    ov2.push(sv2.last()),
                                    cur_op,
                                ));
                                assert(spec_pop_ops(
                                    tokens_view(op_stack@),
                                    tokens_view(postfixed@),
                                    cur_op,
                                ) == popped);
                            }
                        },
                        None => {},
                    }
                }
                proof {
                    assert((tokens_view(op_stack@), tokens_view(postfixed@)) == popped);
                }
                op_stack.push(t);
                proof {
                    assert(tokens_view(op_stack@) == popped.0.push(tv[i as int]));
                    assert(spec_postfix_from(tv, i as int, ov, sv) == spec_postfix_from(
                        tv,
                        i + 1,
                        popped.1,
                        popped.0.push(tv[i as int]),
                    ));
                    assert(spec_postfix_from(
                        tv,
                        i + 1,
                        tokens_view(postfixed@),
                        tokens_view(op_stack@),
                    ) == spec_to_postfix(tv));
                }
            },
            Token::LParen => {
                proof {
                    assert(t@ == tv[i as int]);
                    assert(spec_postfix_from(tv, i as int, ov, sv) == spec_postfix_from(
                        tv,
                        i + 1,
                        ov,
                        sv.push(tv[i as int]),
                    ));
                }
                op_stack.push(t);
                proof {
                    assert(tokens_view(op_stack@) == sv.push(tv[i as int]));
                    assert(spec_postfix_from(tv, i + 1, ov, tokens_view(op_stack@))
                        == spec_to_postfix(tv));
                }
            },
            _ => {
                let (s2, p2, found) = pop_until_paren(op_stack, postfixed);
                op_stack = s2;
                postfixed = p2;
                if !found {
                    proof {
                        assert(spec_pop_until_paren(sv, ov) is None);
                    }
                    return Err(CalcError::Syntax(String::from_str("Mismatched parentheses!")));
                }
                proof {
                    assert(spec_pop_until_paren(sv, ov) == Some(
                        (tokens_view(op_stack@), tokens_view(postfixed@)),
                    ));
                }
                let ghost s1 = tokens_view(op_stack@);
                let ghost o1 = tokens_view(postfixed@);
                if matches!(t, Token::Comma) {
                    if i + 1 < n && matches!(&tokens[i + 1], Token::Comma) {
                        proof {
                            assert(tv[i + 1] == tokens@[i + 1]@);
                        }
                        return Err(CalcError::Syntax(String::from_str("Empty argument")));
                    }
                    proof {
                        if i + 1 < n {
                            assert(tv[i + 1] == tokens@[i + 1]@);
                        }
                        assert(spec_postfix_from(tv, i as int, ov, sv) == spec_postfix_from(
                            tv,
                            i + 1,
                            o1,
                            s1.push(TokenView::Comma),
                        ));
                    }
                    op_stack.push(t);
                    proof {
                        assert(tokens_view(op_stack@) == s1.push(TokenView::Comma));
                        assert(spec_postfix_from(
                            tv,
                            i + 1,
                            tokens_view(postfixed@),
                            tokens_view(op_stack@),
                        ) == spec_to_postfix(tv));
                    }
                } else {
                    proof {
                        assert(tv[i as int] == TokenView::RParen);
                        assert(spec_postfix_from(tv, i as int, ov, sv) == spec_postfix_from(
                            tv,
                            i + 1,
                            o1,
                            s1,
                        ));
                    }
                }
            },
        }
        i += 1;
    }
    let ghost drained = tokens_view(postfixed@) + spec_rev(tokens_view(op_stack@));
    let ghost sv_end = tokens_view(op_stack@);
    proof {
        assert(spec_postfix_from(tv, n as int, tokens_view(postfixed@), tokens_view(op_stack@))
            == (if spec_has_lparen(sv_end) {
            Err::<Seq<TokenView>, CalcErrorView>(
                CalcErrorView::Syntax("Mismatched parentheses!"@),
            )
        } else {
            Ok::<Seq<TokenView>, CalcErrorView>(drained)
        }));
    }
    while op_stack.len() > 0
        invariant
            tv == tokens_view(tokens@),
            tokens_view(postfixed@) + spec_rev(tokens_view(op_stack@)) == drained,
            spec_has_lparen(sv_end) == spec_has_lparen(tokens_view(op_stack@)),
            spec_to_postfix(tv) == (if spec_has_lparen(sv_end) {
                Err::<Seq<TokenView>, CalcErrorView>(
                    CalcErrorView::Syntax("Mismatched parentheses!"@),
                )
            } else {
                Ok::<Seq<TokenView>, CalcErrorView>(drained)
            }),
        decreases op_stack@.len(),
    {
        let ghost sv = tokens_view(op_stack@);
        let ghost pv = tokens_view(postfixed@);
        proof {
            assert(sv.len() == op_stack@.len());
            assert(sv.last() == op_stack@.last()@);
        }
        match op_stack.pop() {
            Some(top) => {
                proof {
                    assert(top@ == sv.last());
                    assert(tokens_view(op_stack@) =~= sv.drop_last());
                }
                if matches!(top, Token::LParen) {
                    proof {
                        assert(sv.last() == TokenView::LParen);
                        assert(spec_has_lparen(sv));
                    }
                    return Err(CalcError::Syntax(String::from_str("Mismatched parentheses!")));
                }
                proof {
                    lemma_has_lparen_drop_non(sv);
                }
                postfixed.push(top);
                proof {
                    assert(tokens_view(postfixed@) == pv.push(sv.last()));
                    assert(pv.push(sv.last()) + spec_rev(sv.drop_last()) =~= pv + spec_rev(sv));
                    assert(tokens_view(postfixed@) + spec_rev(tokens_view(op_stack@))
                        == drained);
                }
            },
            None => {},
        }
    }
    proof {
        assert(!spec_has_lparen(tokens_view(op_stack@)));
        assert(spec_rev(tokens_view(op_stack@)) =~= Seq::<TokenView>::empty());
        assert(tokens_view(postfixed@) + Seq::<TokenView>::empty() =~= tokens_view(postfixed@));
    }
    Ok(postfixed)
}

/// A reference to a value available while an evaluation plan runs.
#[derive(Debug)]
pub enum Arg {
    /// A numeral of the token stream.
    Value(Numeral),
    /// The result of an earlier step of the plan.
    Computed(usize),
}

/// The mathematical model of an `Arg`.
pub enum ArgView {
    Value(NumeralView),
    Computed(int),
}

impl View for Arg {
    type V = ArgView;

    open spec fn view(&self) -> ArgView {
        match self {
            Arg::Value(n) => ArgView::Value(n@),
            Arg::Computed(k) => ArgView::Computed(*k as int),
        }
    }
}

/// One numeric step of an evaluation plan.
#[derive(Debug)]
pub enum Step {
    /// Apply a binary operator: the left operand first.
    Op { op: Operator, lhs: Arg, rhs: Arg },
    /// Apply a registry function to its arguments, in calling order.
    Fun { f: Function, args: Vec<Arg> },
}

/// The mathematical model of a `Step`.
pub enum StepView {
    Op { op: Operator, lhs: ArgView, rhs: ArgView },
    Fun { f: Function, args: Seq<ArgView> },
}

impl View for Step {
    type V = StepView;

    open spec fn view(&self) -> StepView {
        match self {
            Step::Op { op, lhs, rhs } => StepView::Op { op: *op, lhs: lhs@, rhs: rhs@ },
            Step::Fun { f, args } => StepView::Fun { f: *f, args: args_view(args@) },
        }
    }
}

/// The model of an argument sequence.
pub open spec fn args_view(s: Seq<Arg>) -> Seq<ArgView> {
    s.map_values(|a: Arg| a@)
}

/// The model of a step sequence.
pub open spec fn steps_view(s: Seq<Step>) -> Seq<StepView> {
    s.map_values(|st: Step| st@)
}

/// An evaluation plan: the numeric steps of a postfix run, in the order the
/// stack machine applies them, and what evaluation comes to once every step
/// has succeeded — the value of the expression, or the error the run ends
/// with. An error in the plan's outcome is reached only after all the steps
/// before it, so a step that fails first speaks first.
#[derive(Debug)]
pub struct EvalPlan {
    pub steps: Vec<Step>,
    pub outcome: Result<Arg, CalcError>,
}

/// The mathematical model of an `EvalPlan`.
pub struct EvalPlanView {
    pub steps: Seq<StepView>,
    pub outcome: Result<ArgView, CalcErrorView>,
}

impl View for EvalPlan {
    type V = EvalPlanView;

    open spec fn view(&self) -> EvalPlanView {
        EvalPlanView {
            steps: steps_view(self.steps@),
            outcome: match &self.outcome {
                Ok(a) => Ok(a@),
                Err(e) => Err(e@),
            },
        }
    }
}

/// The message of an operand shortage at an operator, and of a leftover at
/// the end of a run.
pub open spec fn msg_too_many_operators() -> Seq<char> {
    "Too many operators, too few operands"@
}

/// The message of an argument shortage at a function of the given arity.
pub open spec fn msg_too_few_arguments(arity: nat) -> Seq<char> {
    if arity == 1 {
        "Too few arguments for function, need 1"@
    } else {
        "Too few arguments for function, need 2"@
    }
}

/// The postfix run over the tokens from position `i` on, given the steps
/// laid out and the operand stack so far.
pub open spec fn spec_plan_from(
    ts: Seq<TokenView>,
    i: int,
    steps: Seq<StepView>,
    stack: Seq<ArgView>,
) -> EvalPlanView
    decreases ts.len() - i,
{
    if i < 0 || i >= ts.len() {
        if stack.len() == 1 {
            EvalPlanView { steps, outcome: Ok(stack[0]) }
        } else {
            EvalPlanView { steps, outcome: Err(CalcErrorView::Parser(msg_too_many_operators())) }
        }
    } else {
        match ts[i] {
            TokenView::Num(n) => spec_plan_from(ts, i + 1, steps, stack.push(ArgView::Value(n))),
            TokenView::Operator(op) => {
                if stack.len() >= 2 {
                    let rhs = stack[stack.len() - 1];
                    let lhs = stack[stack.len() - 2];
                    spec_plan_from(
                        ts,
                        i + 1,
                        steps.push(StepView::Op { op, lhs, rhs }),
                        stack.drop_last().drop_last().push(ArgView::Computed(steps.len() as int)),
                    )
                } else {
                    EvalPlanView {
                        steps,
                        outcome: Err(CalcErrorView::Parser(msg_too_many_operators())),
                    }
                }
            },
            TokenView::Function(f) => {
                let a = f.spec_arity();
                if stack.len() >= a {
                    let args = stack.subrange(stack.len() - a, stack.len() as int);
                    spec_plan_from(
                        ts,
                        i + 1,
                        steps.push(StepView::Fun { f, args }),
                        stack.subrange(0, stack.len() - a).push(
                            ArgView::Computed(steps.len() as int),
                        ),
                    )
                } else {
                    EvalPlanView {
                        steps,
                        outcome: Err(CalcErrorView::Parser(msg_too_few_arguments(a))),
                    }
                }
            },
            _ => EvalPlanView {
                steps,
                outcome: Err(CalcErrorView::Syntax("Mismatched parentheses!"@)),
            },
        }
    }
}

/// What the postfix evaluator lays out for a postfix token sequence.
pub open spec fn spec_eval_postfix(ts: Seq<TokenView>) -> EvalPlanView {
    spec_plan_from(ts, 0, Seq::empty(), Seq::empty())
}

/// Whether an argument reference is resolvable once `k` steps stand before
/// it: a numeral always is, a computed result only when an earlier step made
/// it.
pub open spec fn spec_arg_wf(a: ArgView, k: int) -> bool {
    match a {
        ArgView::Value(_) => true,
        ArgView::Computed(j) => 0 <= j < k,
    }
}

/// Whether the step at position `k` of a plan reads only earlier results and
/// hands its function exactly as many arguments as its arity asks.
pub open spec fn spec_step_wf(s: StepView, k: int) -> bool {
    match s {
        StepView::Op { op, lhs, rhs } => spec_arg_wf(lhs, k) && spec_arg_wf(rhs, k),
        StepView::Fun { f, args } => args.len() == f.spec_arity() && (forall|j: int|
            0 <= j < args.len() ==> spec_arg_wf(#[trigger] args[j], k)),
    }
}

/// A plan is well formed when every step, and the outcome, refer only to
/// numerals and to the results of earlier steps: the steps can be run in
/// order, each finding what it needs already computed.
pub open spec fn spec_plan_wf(p: EvalPlanView) -> bool {
    (forall|k: int| 0 <= k < p.steps.len() ==> spec_step_wf(#[trigger] p.steps[k], k)) && (match p.outcome {
        Ok(a) => spec_arg_wf(a, p.steps.len() as int),
        Err(_) => true,
    })
}

proof fn lemma_plan_from_wf(ts: Seq<TokenView>, i: int, steps: Seq<StepView>, stack: Seq<ArgView>)
    requires
        forall|k: int| 0 <= k < steps.len() ==> spec_step_wf(#[trigger] steps[k], k),
        forall|j: int| 0 <= j < stack.len() ==> spec_arg_wf(#[trigger] stack[j], steps.len() as int),
    ensures
        spec_plan_wf(spec_plan_from(ts, i, steps, stack)),
    decreases ts.len() - i,
{
    if i < 0 || i >= ts.len() {
    } else {
        match ts[i] {
            TokenView::Num(n) => {
                let stack2 = stack.push(ArgView::Value(n));
                assert forall|j: int| 0 <= j < stack2.len() implies spec_arg_wf(
                    #[trigger] stack2[j],
                    steps.len() as int,
                ) by {
                    if j < stack.len() {
                        assert(stack2[j] == stack[j]);
                    }
                }
                lemma_plan_from_wf(ts, i + 1, steps, stack2);
            },
            TokenView::Operator(op) => {
                if stack.len() >= 2 {
                    let rhs = stack[stack.len() - 1];
                    let lhs = stack[stack.len() - 2];
                    let steps2 = steps.push(StepView::Op { op, lhs, rhs });
                    let stack2 = stack.drop_last().drop_last().push(
                        ArgView::Computed(steps.len() as int),
                    );
                    assert forall|k: int| 0 <= k < steps2.len() implies spec_step_wf(
                        #[trigger] steps2[k],
                        k,
                    ) by {
                        if k < steps.len() {
                            assert(steps2[k] == steps[k]);
                        } else {
                            assert(steps2[k] == StepView::Op { op, lhs, rhs });
                        }
                    }
                    assert forall|j: int| 0 <= j < stack2.len() implies spec_arg_wf(
                        #[trigger] stack2[j],
                        steps2.len() as int,
                    ) by {
                        if j < stack2.len() - 1 {
                            assert(stack2[j] == stack[j]);
                            assert(spec_arg_wf(stack[j], steps.len() as int));
                        }
                    }
                    lemma_plan_from_wf(ts, i + 1, steps2, stack2);
                }
            },
            TokenView::Function(f) => {
                let a = f.spec_arity();
                if stack.len() >= a {
                    let args = stack.subrange(stack.len() - a, stack.len() as int);
                    let steps2 = steps.push(StepView::Fun { f, args });
                    let stack2 = stack.subrange(0, stack.len() - a).push(
                        ArgView::Computed(steps.len() as int),
                    );
                    assert forall|k: int| 0 <= k < steps2.len() implies spec_step_wf(
                        #[trigger] steps2[k],
                        k,
                    ) by {
                        if k < steps.len() {
                            assert(steps2[k] == steps[k]);
                        } else {
                            assert(steps2[k] == StepView::Fun { f, args });
                            assert forall|j: int| 0 <= j < args.len() implies spec_arg_wf(
                                #[trigger] args[j],
                                k,
                            ) by {
                                assert(args[j] == stack[stack.len() - a + j]);
                                assert(spec_arg_wf(stack[stack.len() - a + j], steps.len() as int));
                            }
                        }
                    }
                    assert forall|j: int| 0 <= j < stack2.len() implies spec_arg_wf(
                        #[trigger] stack2[j],
                        steps2.len() as int,
                    ) by {
                        if j < stack2.len() - 1 {
                            assert(stack2[j] == stack[j]);
                            assert(spec_arg_wf(stack[j], steps.len() as int));
                        }
                    }
                    lemma_plan_from_wf(ts, i + 1, steps2, stack2);
                }
            },
            _ => {},
        }
    }
}

/// Every plan the postfix evaluator lays out is well formed: its steps can
/// be run in order, each finding what it needs already computed.
pub proof fn lemma_eval_postfix_wf(ts: Seq<TokenView>)
    ensures
        spec_plan_wf(spec_eval_postfix(ts)),
{
    lemma_plan_from_wf(ts, 0, Seq::empty(), Seq::empty());
}

broadcast proof fn lemma_args_view_len(s: Seq<Arg>)
    ensures
        #[trigger] args_view(s).len() == s.len(),
{
}

broadcast proof fn lemma_args_view_index(s: Seq<Arg>, i: int)
    requires
        0 <= i < s.len(),
    ensures
        #[trigger] args_view(s)[i] == s[i]@,
{
}

broadcast proof fn lemma_steps_view_len(s: Seq<Step>)
    ensures
        #[trigger] steps_view(s).len() == s.len(),
{
}

broadcast proof fn lemma_args_view_push(s: Seq<Arg>, a: Arg)
    ensures
        #[trigger] args_view(s.push(a)) == args_view(s).push(a@),
{
    assert(args_view(s.push(a)) =~= args_view(s).push(a@));
}

broadcast proof fn lemma_args_view_subrange(s: Seq<Arg>, a: int, b: int)
    requires
        0 <= a <= b <= s.len(),
    ensures
        #[trigger] args_view(s.subrange(a, b)) == args_view(s).subrange(a, b),
{
    assert(args_view(s.subrange(a, b)) =~= args_view(s).subrange(a, b));
}

broadcast proof fn lemma_steps_view_push(s: Seq<Step>, st: Step)
    ensures
        #[trigger] steps_view(s.push(st)) == steps_view(s).push(st@),
{
    assert(steps_view(s.push(st)) =~= steps_view(s).push(st@));
}

/// Simulates the stack machine over a postfix token sequence and lays its
/// numeric work out as an evaluation plan, exactly as `spec_eval_postfix`
/// says.
pub fn eval_postfix(postfixed: Vec<Token>) -> (r: EvalPlan)
    ensures
        r@ == spec_eval_postfix(tokens_view(postfixed@)),
        spec_plan_wf(r@),
{
    proof {
        lemma_eval_postfix_wf(tokens_view(postfixed@));
    }
    broadcast use
        lemma_args_view_push,
        lemma_steps_view_push,
        lemma_args_view_len,
        lemma_args_view_index,
        lemma_args_view_subrange,
        lemma_steps_view_len,
        lemma_tokens_view_len,
        lemma_tokens_view_index;

    let ghost tv = tokens_view(postfixed@);
    let mut steps: Vec<Step> = Vec::new();
    let mut num_stack: Vec<Arg> = Vec::new();
    proof {
        assert(steps_view(steps@) =~= Seq::<StepView>::empty());
        assert(args_view(num_stack@) =~= Seq::<ArgView>::empty());
    }
    let n = postfixed.len();
    let mut i: usize = 0;
    while i < n
        invariant
            n == postfixed@.len(),
            tv == tokens_view(postfixed@),
            i <= n,
            spec_plan_from(tv, i as int, steps_view(steps@), args_view(num_stack@))
                == spec_eval_postfix(tv),
            spec_plan_wf(spec_eval_postfix(tv)),
        decreases n - i,
    {
        proof {
            assert(tv[i as int] == postfixed@[i as int]@);
        }
        let ghost stv = steps_view(steps@);
        let ghost asv = args_view(num_stack@);
        match &postfixed[i] {
            Token::Num(n0) => {
                num_stack.push(Arg::Value(dup_numeral(n0)));
                proof {
                    assert(tv[i as int] == TokenView::Num(n0@));
                    assert(args_view(num_stack@) == asv.push(ArgView::Value(n0@)));
                    assert(spec_plan_from(tv, i as int, stv, asv) == spec_plan_from(
                        tv,
                        i + 1,
                        stv,
                        asv.push(ArgView::Value(n0@)),
                    ));
                    assert(spec_plan_from(tv, i + 1, steps_view(steps@), args_view(num_stack@))
                        == spec_eval_postfix(tv));
                }
            },
            Token::Operator(op) => {
                let op = *op;
                proof {
                    assert(tv[i as int] == TokenView::Operator(op));
                }
                if num_stack.len() >= 2 {
                    proof {
                        assert(asv[asv.len() - 1] == num_stack@[num_stack@.len() - 1]@);
                        assert(asv[asv.len() - 2] == num_stack@[num_stack@.len() - 2]@);
                    }
                    let rhs = match num_stack.pop() {
                        Some(a) => a,
                        None => vstd::pervasive::unreached(),
                    };
                    let lhs = match num_stack.pop() {
                        Some(a) => a,
                        None => vstd::pervasive::unreached(),
                    };
                    proof {
                        assert(rhs@ == asv[asv.len() - 1]);
                        assert(lhs@ == asv[asv.len() - 2]);
                        assert(args_view(num_stack@) =~= asv.drop_last().drop_last());
                    }
                    let k = steps.len();
                    proof {
                        assert(k as int == stv.len());
                    }
                    steps.push(Step::Op { op, lhs, rhs });
                    num_stack.push(Arg::Computed(k));
                    proof {
                        assert(steps_view(steps@) == stv.push(
                            StepView::Op { op, lhs: asv[asv.len() - 2], rhs: asv[asv.len() - 1] },
                        ));
                        assert(args_view(num_stack@) == asv.drop_last().drop_last().push(
                            ArgView::Computed(stv.len() as int),
                        ));
                        assert(spec_plan_from(
                            tv,
                            i + 1,
                            steps_view(steps@),
                            args_view(num_stack@),
                        ) == spec_eval_postfix(tv));
                    }
                } else {
                    proof {
                        assert(asv.len() < 2);
                        assert(spec_plan_from(tv, i as int, stv, asv) == (EvalPlanView {
                            steps: stv,
                            outcome: Err(CalcErrorView::Parser(msg_too_many_operators())),
                        }));
                    }
                    return EvalPlan {
                        steps,
                        outcome: Err(
                            CalcError::Parser(
                                String::from_str("Too many operators, too few operands"),
                            ),
                        ),
                    };
                }
            },
            Token::Function(f) => {
                let f = *f;
                proof {
                    assert(tv[i as int] == TokenView::Function(f));
                }
                let a = f.arity();
                if num_stack.len() >= a {
                    let k = steps.len();
                    proof {
                        assert(k as int == stv.len());
                        assert(asv[asv.len() - 1] == num_stack@[num_stack@.len() - 1]@);
                        if a == 2 {
                            assert(asv[asv.len() - 2] == num_stack@[num_stack@.len() - 2]@);
                        }
                    }
                    let mut args: Vec<Arg> = Vec::new();
                    if a == 2 {
                        let r2 = match num_stack.pop() {
                            Some(x) => x,
                            None => vstd::pervasive::unreached(),
                        };
                        let r1 = match num_stack.pop() {
                            Some(x) => x,
                            None => vstd::pervasive::unreached(),
                        };
                        args.push(r1);
                        args.push(r2);
                        proof {
                            assert(args_view(args@) =~= asv.subrange(
                                asv.len() - 2,
                                asv.len() as int,
                            ));
                            assert(args_view(num_stack@) =~= asv.subrange(0, asv.len() - 2));
                        }
                    } else {
                        let r1 = match num_stack.pop() {
                            Some(x) => x,
                            None => vstd::pervasive::unreached(),
                        };
                        args.push(r1);
                        proof {
                            assert(args_view(args@) =~= asv.subrange(
                                asv.len() - 1,
                                asv.len() as int,
                            ));
                            assert(args_view(num_stack@) =~= asv.subrange(0, asv.len() - 1));
                        }
                    }
                    let ghost remaining = args_view(num_stack@);
                    steps.push(Step::Fun { f, args });
                    num_stack.push(Arg::Computed(k));
                    proof {
                        assert(steps_view(steps@) == stv.push(
                            StepView::Fun {
                                f,
                                args: asv.subrange(
                                    asv.len() - f.spec_arity(),
                                    asv.len() as int,
                                ),
                            },
                        ));
                        assert(args_view(num_stack@) == remaining.push(
                            ArgView::Computed(stv.len() as int),
                        ));
                        assert(spec_plan_from(
                            tv,
                            i + 1,
                            steps_view(steps@),
                            args_view(num_stack@),
                        ) == spec_eval_postfix(tv));
                    }
                } else {
                    proof {
                        assert(asv.len() < f.spec_arity());
                        assert(spec_plan_from(tv, i as int, stv, asv) == (EvalPlanView {
                            steps: stv,
                            outcome: Err(
                                CalcErrorView::Parser(msg_too_few_arguments(f.spec_arity())),
                            ),
                        }));
                    }
                    let msg = if a == 1 {
                        String::from_str("Too few arguments for function, need 1")
                    } else {
                        String::from_str("Too few arguments for function, need 2")
                    };
                    return EvalPlan { steps, outcome: Err(CalcError::Parser(msg)) };
                }
            },
            _ => {
                proof {
                    assert(spec_plan_from(tv, i as int, stv, asv) == (EvalPlanView {
                        steps: stv,
                        outcome: Err(CalcErrorView::Syntax("Mismatched parentheses!"@)),
                    }));
                }
                return EvalPlan {
                    steps,
                    outcome: Err(
                        CalcError::Syntax(String::from_str("Mismatched parentheses!")),
                    ),
                };
            },
        }
        i += 1;
    }
    let ghost asv = args_view(num_stack@);
    if num_stack.len() == 1 {
        proof {
            assert(asv[0] == num_stack@[0]@);
            assert(spec_plan_from(tv, n as int, steps_view(steps@), asv) == (EvalPlanView {
                steps: steps_view(steps@),
                outcome: Ok(asv[0]),
            }));
        }
        let a = match num_stack.pop() {
            Some(x) => x,
            None => vstd::pervasive::unreached(),
        };
        proof {
            assert(a@ == asv[0]);
        }
        EvalPlan { steps, outcome: Ok(a) }
    } else {
        proof {
            assert(asv.len() != 1);
            assert(spec_plan_from(tv, n as int, steps_view(steps@), asv) == (EvalPlanView {
                steps: steps_view(steps@),
                outcome: Err(CalcErrorView::Parser(msg_too_many_operators())),
            }));
        }
        EvalPlan {
            steps,
            outcome: Err(
                CalcError::Parser(String::from_str("Too many operators, too few operands")),
            ),
        }
    }
}

} // verus!
