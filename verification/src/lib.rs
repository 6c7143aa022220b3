//! An arithmetic expression evaluator: a tokenizer, a shunting-yard postfix
//! converter, and a postfix evaluator.
//!
//! The pipeline is symbolic about machine numbers: a numeric operand is
//! carried as the text of its literal, a named constant, the previous-answer
//! placeholder, or a synthesized unit, and the postfix evaluator lays the
//! numeric work out as an [`parse::EvalPlan`]: the applications of operators
//! and functions in the exact order a stack machine would perform them, and
//! the outcome the run ends with once every application has succeeded. A
//! caller holding floating-point arithmetic resolves the numerals and runs
//! the plan's steps in order; the first application that fails decides the
//! result, and otherwise the plan's outcome does.
use vstd::prelude::*;
use vstd::string::StrSliceExecFns;
use vstd::string::StringExecFns;

pub mod error;
pub mod format;
pub mod lex;
pub mod parse;

use crate::error::CalcError;
use crate::error::CalcErrorView;
use crate::format::autobalance_parens;
use crate::format::push_char;
use crate::format::spec_autobalance;
use crate::lex::lexer;
use crate::lex::spec_lexer;
use crate::lex::Numeral;
use crate::lex::NumeralView;
use crate::parse::eval_postfix;
use crate::parse::spec_eval_postfix;
use crate::parse::spec_to_postfix;
use crate::parse::steps_view;
use crate::parse::to_postfix;
use crate::parse::Arg;
use crate::parse::ArgView;
use crate::parse::EvalPlan;
use crate::parse::EvalPlanView;

verus! {

/// Whether a character counts as whitespace when the input is cleaned.
pub open spec fn spec_is_space(c: char) -> bool {
    c == ' ' || c == '\t' || c == '\n' || c == '\r'
}

/// The input without its leading whitespace.
pub open spec fn spec_trim_front(s: Seq<char>) -> Seq<char>
    decreases s.len(),
{
    if s.len() > 0 && spec_is_space(s[0]) {
        spec_trim_front(s.subrange(1, s.len() as int))
    } else {
        s
    }
}

/// The input without its trailing whitespace.
pub open spec fn spec_trim_back(s: Seq<char>) -> Seq<char>
    decreases s.len(),
{
    if s.len() > 0 && spec_is_space(s.last()) {
        spec_trim_back(s.drop_last())
    } else {
        s
    }
}

/// The input without its space characters.
pub open spec fn spec_remove_spaces(s: Seq<char>) -> Seq<char>
    decreases s.len(),
{
    if s.len() == 0 {
        Seq::empty()
    } else {
        spec_remove_spaces(s.drop_last()) + (if s.last() == ' ' {
            Seq::<char>::empty()
        } else {
            seq![s.last()]
        })
    }
}

/// How the driver cleans raw input: whitespace is trimmed at both ends and
/// every interior space character is removed.
pub open spec fn spec_clean(s: Seq<char>) -> Seq<char> {
    spec_remove_spaces(spec_trim_back(spec_trim_front(s)))
}

/// Whether the character at a position of the input is whitespace.
fn at_space(input: &str, i: usize) -> (r: bool)
    requires
        i < input@.len(),
    ensures
        r == spec_is_space(input@[i as int]),
{
    let c = input.get_char(i);
    c == ' ' || c == '\t' || c == '\n' || c == '\r'
}

/// Cleans the input as `spec_clean` says.
fn clean_input(input: &str) -> (r: String)
    ensures
        r@ == spec_clean(input@),
{
    let n = input.unicode_len();
    proof {
        assert(input@.subrange(0, n as int) =~= input@);
    }
    let mut start: usize = 0;
    while start < n && at_space(input, start)
        invariant
            n == input@.len(),
            start <= n,
            spec_trim_front(input@) == spec_trim_front(input@.subrange(start as int, n as int)),
        decreases n - start,
    {
        proof {
            let cur = input@.subrange(start as int, n as int);
            assert(cur[0] == input@[start as int]);
            assert(cur.subrange(1, cur.len() as int) =~= input@.subrange(start + 1, n as int));
        }
        start += 1;
    }
    let ghost trimmed_front = input@.subrange(start as int, n as int);
    proof {
        assert(spec_trim_front(input@) == trimmed_front);
    }
    let mut end: usize = n;
    while end > start && at_space(input, end - 1)
        invariant
            n == input@.len(),
            start <= end <= n,
            trimmed_front == input@.subrange(start as int, n as int),
            spec_trim_back(trimmed_front) == spec_trim_back(
                input@.subrange(start as int, end as int),
            ),
        decreases end,
    {
        proof {
            let cur = input@.subrange(start as int, end as int);
            assert(cur.last() == input@[end - 1]);
            assert(cur.drop_last() =~= input@.subrange(start as int, end - 1));
        }
        end -= 1;
    }
    let ghost trimmed = input@.subrange(start as int, end as int);
    proof {
        let cur = input@.subrange(start as int, end as int);
        if end > start {
            assert(cur.last() == input@[end - 1]);
        }
        assert(spec_trim_back(trimmed_front) == trimmed);
        assert(spec_clean(input@) == spec_remove_spaces(trimmed));
    }
    let mut out = String::new();
    let mut k: usize = start;
    while k < end
        invariant
            n == input@.len(),
            start <= k <= end <= n,
            trimmed == input@.subrange(start as int, end as int),
            out@ == spec_remove_spaces(input@.subrange(start as int, k as int)),
        decreases end - k,
    {
        let c = input.get_char(k);
        proof {
            let a = input@.subrange(start as int, k + 1);
            let b = input@.subrange(start as int, k as int);
            assert(a.drop_last() =~= b);
            assert(a.last() == input@[k as int]);
        }
        if c != ' ' {
            push_char(&mut out, c);
            proof {
                assert(spec_remove_spaces(input@.subrange(start as int, k as int)).push(c)
                    =~= spec_remove_spaces(input@.subrange(start as int, k as int)) + seq![c]);
            }
        } else {
            proof {
                assert(spec_remove_spaces(input@.subrange(start as int, k as int))
                    + Seq::<char>::empty() =~= spec_remove_spaces(
                    input@.subrange(start as int, k as int),
                ));
            }
        }
        k += 1;
    }
    proof {
        assert(input@.subrange(start as int, end as int) == trimmed);
    }
    out
}

/// The plan whose only content is the literal zero: what an empty input
/// evaluates to.
pub open spec fn spec_zero_plan() -> EvalPlanView {
    EvalPlanView {
        steps: Seq::empty(),
        outcome: Ok(ArgView::Value(NumeralView::Literal("0"@))),
    }
}

/// What the driver returns: the cleaned input is checked for the help
/// keyword and emptiness, its parentheses are balanced, and the result is
/// tokenized, converted to postfix order and laid out as an evaluation plan;
/// the first failure of any stage is the result.
pub open spec fn spec_eval_expr(input: Seq<char>, has_prev: bool) -> Result<
    EvalPlanView,
    CalcErrorView,
> {
    let cleaned = spec_clean(input);
    if cleaned == "help"@ {
        Err(CalcErrorView::Help)
    } else if cleaned.len() == 0 {
        Ok(spec_zero_plan())
    } else {
        match spec_autobalance(cleaned) {
            Err(e) => Err(e),
            Ok(balanced) => match spec_lexer(balanced, has_prev) {
                Err(e) => Err(e),
                Ok(tokens) => match spec_to_postfix(tokens) {
                    Err(e) => Err(e),
                    Ok(post) => Ok(spec_eval_postfix(post)),
                },
            },
        }
    }
}

proof fn lemma_remove_spaces_id(s: Seq<char>)
    requires
        forall|i: int| 0 <= i < s.len() ==> s[i] != ' ',
    ensures
        spec_remove_spaces(s) == s,
    decreases s.len(),
{
    if s.len() > 0 {
        assert(s.last() == s[s.len() - 1]);
        lemma_remove_spaces_id(s.drop_last());
        assert(spec_remove_spaces(s.drop_last()) + seq![s.last()] =~= s);
    } else {
        assert(spec_remove_spaces(s) =~= s);
    }
}

/// Evaluating a plain numeral builds the plan that is just that numeral:
/// no numeric steps, and the literal itself as the outcome, whatever the
/// configured precision makes of it afterwards.
pub proof fn lemma_eval_expr_numeral(s: Seq<char>, has_prev: bool)
    requires
        crate::lex::spec_plain_numeral(s),
    ensures
        spec_eval_expr(s, has_prev) == Ok::<EvalPlanView, CalcErrorView>(
            EvalPlanView {
                steps: Seq::empty(),
                outcome: Ok(ArgView::Value(NumeralView::Literal(s))),
            },
        ),
{
    // cleaning leaves a numeral alone
    assert(crate::lex::spec_is_digit(s[0]) || s[0] == '.');
    assert(!spec_is_space(s[0]));
    assert(s.last() == s[s.len() - 1]);
    assert(!spec_is_space(s.last()));
    assert forall|i: int| 0 <= i < s.len() implies s[i] != ' ' by {
        assert(crate::lex::spec_is_digit(s[i]) || s[i] == '.');
    }
    lemma_remove_spaces_id(s);
    assert(spec_clean(s) == s);
    // a numeral is not the help keyword
    reveal_strlit("help");
    if s == "help"@ {
        assert(crate::lex::spec_is_digit(s[0]) || s[0] == '.');
        assert(false);
    }
    // its parentheses are balanced already
    crate::format::lemma_count_char_absent(s, '(');
    crate::format::lemma_count_char_absent(s, ')');
    assert(spec_autobalance(s) == Ok::<Seq<char>, CalcErrorView>(s));
    // it tokenizes as one numeric literal
    crate::lex::lemma_lexer_numeral(s, has_prev);
    let ts = seq![crate::lex::TokenView::Num(NumeralView::Literal(s))];
    // postfix conversion hands the single number through
    assert(Seq::<crate::lex::TokenView>::empty().push(ts[0]) =~= ts);
    assert(ts + crate::parse::spec_rev(Seq::<crate::lex::TokenView>::empty()) =~= ts);
    assert(crate::parse::spec_postfix_from(ts, 0, Seq::empty(), Seq::empty())
        == crate::parse::spec_postfix_from(ts, 1, ts, Seq::empty()));
    assert(crate::parse::spec_postfix_from(ts, 1, ts, Seq::empty()) == Ok::<
        Seq<crate::lex::TokenView>,
        CalcErrorView,
    >(ts));
    assert(spec_to_postfix(ts) == Ok::<Seq<crate::lex::TokenView>, CalcErrorView>(ts));
    // the plan holds no steps and the literal as its outcome
    let stack1 = Seq::<ArgView>::empty().push(ArgView::Value(NumeralView::Literal(s)));
    assert(crate::parse::spec_plan_from(ts, 0, Seq::empty(), Seq::empty())
        == crate::parse::spec_plan_from(ts, 1, Seq::empty(), stack1));
    assert(stack1.len() == 1);
    assert(stack1[0] == ArgView::Value(NumeralView::Literal(s)));
}

/// Evaluates a math expression down to an evaluation plan, exactly as
/// `spec_eval_expr` says. The result depends on the input text and the
/// presence of a previous answer alone, so evaluating the same expression
/// again returns the same plan.
pub fn eval_expr(input: &str, has_prev_ans: bool) -> (r: Result<EvalPlan, CalcError>)
    ensures
        match r {
            Ok(p) => spec_eval_expr(input@, has_prev_ans) == Ok::<EvalPlanView, CalcErrorView>(p@),
            Err(e) => spec_eval_expr(input@, has_prev_ans) == Err::<
                EvalPlanView,
                CalcErrorView,
            >(e@),
        },
        match r {
            Ok(p) => crate::parse::spec_plan_wf(p@),
            Err(_) => true,
        },
{
    let cleaned = clean_input(input);
    if cleaned == String::from_str("help") {
        return Err(CalcError::Help);
    }
    if cleaned.as_str().unicode_len() == 0 {
        let digits: Vec<char> = vec!['0'];
        let plan = EvalPlan {
            steps: Vec::new(),
            outcome: Ok(Arg::Value(Numeral::Literal(digits))),
        };
        proof {
            reveal_strlit("0");
            assert(digits@ =~= seq!['0']);
            assert(seq!['0'] =~= "0"@);
            assert(plan.steps@ =~= Seq::<crate::parse::Step>::empty());
            assert(steps_view(plan.steps@) =~= Seq::<crate::parse::StepView>::empty());
            assert(plan@ == spec_zero_plan());
        }
        return Ok(plan);
    }
    let balanced = match autobalance_parens(cleaned.as_str()) {
        Ok(b) => b,
        Err(e) => {
            return Err(e);
        },
    };
    let lexed = match lexer(balanced.as_str(), has_prev_ans) {
        Ok(ts) => ts,
        Err(e) => {
            return Err(e);
        },
    };
    let post = match to_postfix(lexed) {
        Ok(ts) => ts,
        Err(e) => {
            return Err(e);
        },
    };
    Ok(eval_postfix(post))
}

} // verus!
