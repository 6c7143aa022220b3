//! String-level helpers: parenthesis auto-balancing and thousands
//! separation, together with small string-building utilities.
use vstd::prelude::*;
use vstd::string::StrSliceExecFns;
use vstd::string::StringExecFns;

use crate::error::CalcError;
use crate::error::CalcErrorView;

verus! {

/// Relies on String::push: appends exactly one character at the end.
#[verifier::external_body]
pub(crate) fn push_char(s: &mut String, c: char)
    ensures
        final(s)@ == old(s)@.push(c),
{
    s.push(c);
}

/// Builds a `String` out of a buffer of characters.
pub(crate) fn chars_string(v: &Vec<char>) -> (r: String)
    ensures
        r@ == v@,
{
    let mut r = String::new();
    let mut i: usize = 0;
    while i < v.len()
        invariant
            i <= v@.len(),
            r@ == v@.subrange(0, i as int),
        decreases v@.len() - i,
    {
        push_char(&mut r, v[i]);
        proof {
            assert(v@.subrange(0, i as int).push(v@[i as int]) =~= v@.subrange(0, i + 1));
        }
        i += 1;
    }
    proof {
        assert(v@.subrange(0, v@.len() as int) =~= v@);
    }
    r
}

/// How many times a character occurs in a sequence.
pub open spec fn spec_count_char(s: Seq<char>, c: char) -> int
    decreases s.len(),
{
    if s.len() == 0 {
        0
    } else {
        spec_count_char(s.drop_last(), c) + if s.last() == c {
            1int
        } else {
            0int
        }
    }
}

/// A run of `n` copies of one character.
pub open spec fn spec_repeat_char(c: char, n: int) -> Seq<char> {
    Seq::new(n as nat, |i| c)
}

/// What auto-balancing does: when opening parentheses outnumber closing
/// ones, the deficit of `)` is appended; when they match, the input passes
/// through unchanged; when closing ones outnumber opening ones, the input is
/// rejected.
pub open spec fn spec_autobalance(s: Seq<char>) -> Result<Seq<char>, CalcErrorView> {
    let opens = spec_count_char(s, '(');
    let closes = spec_count_char(s, ')');
    if opens > closes {
        Ok(s + spec_repeat_char(')', opens - closes))
    } else if opens == closes {
        Ok(s)
    } else {
        Err(CalcErrorView::Syntax("Mismatched parentheses!"@))
    }
}

pub(crate) proof fn lemma_count_char_prefix(s: Seq<char>, c: char, i: int)
    requires
        0 <= i < s.len(),
    ensures
        spec_count_char(s.subrange(0, i + 1), c) == spec_count_char(s.subrange(0, i), c) + if s[i]
            == c {
            1int
        } else {
            0int
        },
{
    let pre = s.subrange(0, i + 1);
    assert(pre.drop_last() =~= s.subrange(0, i));
    assert(pre.last() == s[i]);
}

proof fn lemma_count_char_concat(a: Seq<char>, b: Seq<char>, c: char)
    ensures
        spec_count_char(a + b, c) == spec_count_char(a, c) + spec_count_char(b, c),
    decreases b.len(),
{
    if b.len() == 0 {
        assert(a + b =~= a);
    } else {
        lemma_count_char_concat(a, b.drop_last(), c);
        assert((a + b).drop_last() =~= a + b.drop_last());
        assert((a + b).last() == b.last());
    }
}

proof fn lemma_count_char_repeat(ch: char, n: int, c: char)
    requires
        n >= 0,
    ensures
        spec_count_char(spec_repeat_char(ch, n), c) == if ch == c {
            n
        } else {
            0
        },
    decreases n,
{
    if n > 0 {
        lemma_count_char_repeat(ch, n - 1, c);
        assert(spec_repeat_char(ch, n).drop_last() =~= spec_repeat_char(ch, n - 1));
        assert(spec_repeat_char(ch, n).last() == ch);
    } else {
        assert(spec_repeat_char(ch, 0) =~= Seq::<char>::empty());
    }
}

/// A character that occurs nowhere in a sequence is counted zero times.
pub(crate) proof fn lemma_count_char_absent(s: Seq<char>, c: char)
    requires
        forall|i: int| 0 <= i < s.len() ==> s[i] != c,
    ensures
        spec_count_char(s, c) == 0,
    decreases s.len(),
{
    if s.len() > 0 {
        assert(s.last() == s[s.len() - 1]);
        lemma_count_char_absent(s.drop_last(), c);
    }
}

/// What auto-balancing guarantees: whenever it accepts an input, the result
/// holds exactly as many opening as closing parentheses.
pub proof fn lemma_autobalance_balances(s: Seq<char>)
    requires
        spec_autobalance(s) is Ok,
    ensures
        spec_count_char(spec_autobalance(s)->Ok_0, '(') == spec_count_char(
            spec_autobalance(s)->Ok_0,
            ')',
        ),
{
    let opens = spec_count_char(s, '(');
    let closes = spec_count_char(s, ')');
    if opens > closes {
        let tail = spec_repeat_char(')', opens - closes);
        lemma_count_char_concat(s, tail, '(');
        lemma_count_char_concat(s, tail, ')');
        lemma_count_char_repeat(')', opens - closes, '(');
        lemma_count_char_repeat(')', opens - closes, ')');
    }
}

/// Balances the parentheses of the input as `spec_autobalance` says.
pub fn autobalance_parens(input: &str) -> (r: Result<String, CalcError>)
    ensures
        match r {
            Ok(s) => spec_autobalance(input@) == Ok::<Seq<char>, CalcErrorView>(s@),
            Err(e) => spec_autobalance(input@) == Err::<Seq<char>, CalcErrorView>(e@),
        },
{
    let n = input.unicode_len();
    let mut left: usize = 0;
    let mut right: usize = 0;
    let mut i: usize = 0;
    while i < n
        invariant
            n == input@.len(),
            i <= n,
            left == spec_count_char(input@.subrange(0, i as int), '('),
            right == spec_count_char(input@.subrange(0, i as int), ')'),
            left <= i,
            right <= i,
        decreases n - i,
    {
        let c = input.get_char(i);
        proof {
            lemma_count_char_prefix(input@, '(', i as int);
            lemma_count_char_prefix(input@, ')', i as int);
        }
        if c == '(' {
            left += 1;
        } else if c == ')' {
            right += 1;
        }
        i += 1;
    }
    proof {
        assert(input@.subrange(0, n as int) =~= input@);
    }
    if left > right {
        let deficit = left - right;
        let mut balanced = String::from_str(input);
        let mut k: usize = 0;
        proof {
            reveal_strlit(")");
        }
        while k < deficit
            invariant
                k <= deficit,
                balanced@ == input@ + spec_repeat_char(')', k as int),
                ")"@ =~= seq![')'],
            decreases deficit - k,
        {
            balanced.append(")");
            proof {
                assert(input@ + spec_repeat_char(')', k as int) + ")"@ =~= input@
                    + spec_repeat_char(')', k + 1));
            }
            k += 1;
        }
        Ok(balanced)
    } else if left == right {
        Ok(String::from_str(input))
    } else {
        Err(CalcError::Syntax(String::from_str("Mismatched parentheses!")))
    }
}

/// Where a thousands separator belongs: after the character at `p`, every
/// three characters counted from the right end, never after the last
/// character and never after a minus sign.
pub open spec fn spec_sep_after(s: Seq<char>, p: int) -> bool {
    let from_right = s.len() - 1 - p;
    from_right % 3 == 0 && from_right != 0 && s[p] != '-'
}

/// The suffix of the thousands-separated rendering from position `p` on.
pub open spec fn spec_thousand_sep_from(s: Seq<char>, p: int) -> Seq<char>
    decreases s.len() - p,
{
    if p < 0 || p >= s.len() {
        Seq::empty()
    } else {
        seq![s[p]] + (if spec_sep_after(s, p) {
            seq![',']
        } else {
            Seq::<char>::empty()
        }) + spec_thousand_sep_from(s, p + 1)
    }
}

/// The input with a comma inserted after every third character counted from
/// the right end, minus signs excepted.
pub open spec fn spec_thousand_sep(s: Seq<char>) -> Seq<char> {
    spec_thousand_sep_from(s, 0)
}

/// Inserts thousands separators as `spec_thousand_sep` says.
pub fn thousand_sep(inp: &str) -> (r: String)
    ensures
        r@ == spec_thousand_sep(inp@),
{
    let n = inp.unicode_len();
    let mut out = String::new();
    let mut p: usize = 0;
    while p < n
        invariant
            n == inp@.len(),
            p <= n,
            out@ + spec_thousand_sep_from(inp@, p as int) == spec_thousand_sep(inp@),
        decreases n - p,
    {
        let ghost prev = out@;
        let c = inp.get_char(p);
        push_char(&mut out, c);
        let from_right = n - 1 - p;
        if from_right % 3 == 0 && from_right != 0 && c != '-' {
            push_char(&mut out, ',');
            proof {
                assert(out@ =~= prev + (seq![c] + seq![','] + Seq::<char>::empty()));
            }
        } else {
            proof {
                assert(out@ =~= prev + (seq![c] + Seq::<char>::empty() + Seq::<char>::empty()));
            }
        }
        proof {
            assert(spec_thousand_sep_from(inp@, p as int) == seq![inp@[p as int]] + (if
            spec_sep_after(inp@, p as int) {
                seq![',']
            } else {
                Seq::<char>::empty()
            }) + spec_thousand_sep_from(inp@, p + 1));
            assert(out@ + spec_thousand_sep_from(inp@, p + 1) =~= prev + spec_thousand_sep_from(
                inp@,
                p as int,
            ));
        }
        p += 1;
    }
    proof {
        assert(out@ + spec_thousand_sep_from(inp@, n as int) =~= out@);
    }
    out
}

} // verus!
