//! Token types, the operator/function/constant registry, and the tokenizer.
//!
//! A numeric operand is kept symbolically (`Numeral`): the digits of a
//! literal as written, a named constant, the previous-answer placeholder, or
//! a synthesized unit. Resolving a `Numeral` to a machine number is left to
//! the caller that runs an evaluation plan.
use vstd::prelude::*;
use vstd::string::StrSliceExecFns;
use vstd::string::StringExecFns;

use crate::error::CalcError;
use crate::error::CalcErrorView;
use crate::format::chars_string;
use crate::format::lemma_count_char_prefix;
use crate::format::spec_count_char;

verus! {

/// Angle unit used by the trigonometric functions.
#[derive(Debug, Clone, Copy, PartialEq, Eq, Structural)]
pub enum AngleUnit {
    Degree,
    Radian,
    Gradian,
}

impl Default for AngleUnit {
    fn default() -> (r: Self)
        ensures
            r == AngleUnit::Degree,
    {
        AngleUnit::Degree
    }
}

/// Context threaded read-only through evaluation.
#[derive(Debug, Clone, Copy, PartialEq, Eq, Structural)]
pub struct FunctionContext {
    pub angle_unit: AngleUnit,
}

impl Default for FunctionContext {
    fn default() -> (r: Self)
        ensures
            r.angle_unit == AngleUnit::Degree,
    {
        FunctionContext { angle_unit: AngleUnit::Degree }
    }
}

/// A binary operator: its symbol, precedence rank (higher binds tighter) and
/// associativity. The numeric relation behind the symbol is applied by the
/// caller that runs an evaluation plan.
#[derive(Debug, Clone, Copy, PartialEq, Eq, Structural)]
pub struct Operator {
    pub token: char,
    pub precedence: u8,
    pub is_left_associative: bool,
}

/// A named function of the registry, of arity 1 or 2.
#[derive(Debug, Clone, Copy, PartialEq, Eq, Structural)]
pub enum Function {
    Sin,
    Cos,
    Tan,
    Csc,
    Sec,
    Cot,
    Sinh,
    Cosh,
    Tanh,
    Ln,
    Log2,
    Log10,
    Sqrt,
    Ceil,
    Floor,
    Rad,
    Deg,
    Abs,
    Asin,
    Acos,
    Atan,
    Acsc,
    Asec,
    Acot,
    Exp,
    Exp2,
    Round,
    Log,
    Nroot,
}

impl Function {
    /// How many arguments the function consumes.
    pub open spec fn spec_arity(self) -> nat {
        match self {
            Function::Log | Function::Nroot => 2,
            _ => 1,
        }
    }

    pub fn arity(&self) -> (r: usize)
        ensures
            r == self.spec_arity(),
    {
        match self {
            Function::Log | Function::Nroot => 2,
            _ => 1,
        }
    }
}

/// A numeric operand, kept symbolically.
#[derive(Debug)]
pub enum Numeral {
    /// A numeric literal as written: digits with at most one decimal point.
    Literal(Vec<char>),
    /// The previous-answer placeholder `_`.
    PrevAns,
    /// The base of the natural logarithm.
    E,
    /// The ratio of a circle's circumference to its diameter.
    Pi,
    /// A synthesized literal `1`.
    One,
    /// A synthesized literal `-1`.
    MinusOne,
}

/// The mathematical model of a `Numeral`.
pub enum NumeralView {
    Literal(Seq<char>),
    PrevAns,
    E,
    Pi,
    One,
    MinusOne,
}

impl View for Numeral {
    type V = NumeralView;

    open spec fn view(&self) -> NumeralView {
        match self {
            Numeral::Literal(s) => NumeralView::Literal(s@),
            Numeral::PrevAns => NumeralView::PrevAns,
            Numeral::E => NumeralView::E,
            Numeral::Pi => NumeralView::Pi,
            Numeral::One => NumeralView::One,
            Numeral::MinusOne => NumeralView::MinusOne,
        }
    }
}

/// A lexical token.
#[derive(Debug)]
pub enum Token {
    Operator(Operator),
    Num(Numeral),
    Function(Function),
    LParen,
    RParen,
    Comma,
}

/// The mathematical model of a `Token`.
pub enum TokenView {
    Operator(Operator),
    Num(NumeralView),
    Function(Function),
    LParen,
    RParen,
    Comma,
}

impl View for Token {
    type V = TokenView;

    open spec fn view(&self) -> TokenView {
        match self {
            Token::Operator(op) => TokenView::Operator(*op),
            Token::Num(n) => TokenView::Num(n@),
            Token::Function(f) => TokenView::Function(*f),
            Token::LParen => TokenView::LParen,
            Token::RParen => TokenView::RParen,
            Token::Comma => TokenView::Comma,
        }
    }
}

/// The model of a token sequence.
pub open spec fn tokens_view(ts: Seq<Token>) -> Seq<TokenView> {
    ts.map_values(|t: Token| t@)
}

/// The operator registry: symbol to precedence and associativity.
pub open spec fn spec_operator(c: char) -> Option<Operator> {
    if c == '+' {
        Some(Operator { token: '+', precedence: 2, is_left_associative: true })
    } else if c == '-' {
        Some(Operator { token: '-', precedence: 2, is_left_associative: true })
    } else if c == '*' {
        Some(Operator { token: '*', precedence: 3, is_left_associative: true })
    } else if c == '/' {
        Some(Operator { token: '/', precedence: 3, is_left_associative: true })
    } else if c == '%' {
        Some(Operator { token: '%', precedence: 3, is_left_associative: true })
    } else if c == '^' {
        Some(Operator { token: '^', precedence: 4, is_left_associative: false })
    } else if c == '!' {
        Some(Operator { token: '!', precedence: 4, is_left_associative: true })
    } else {
        None
    }
}

/// Looks a symbol up in the operator registry.
pub fn operator_for(c: char) -> (r: Option<Operator>)
    ensures
        r == spec_operator(c),
{
    if c == '+' {
        Some(Operator { token: '+', precedence: 2, is_left_associative: true })
    } else if c == '-' {
        Some(Operator { token: '-', precedence: 2, is_left_associative: true })
    } else if c == '*' {
        Some(Operator { token: '*', precedence: 3, is_left_associative: true })
    } else if c == '/' {
        Some(Operator { token: '/', precedence: 3, is_left_associative: true })
    } else if c == '%' {
        Some(Operator { token: '%', precedence: 3, is_left_associative: true })
    } else if c == '^' {
        Some(Operator { token: '^', precedence: 4, is_left_associative: false })
    } else if c == '!' {
        Some(Operator { token: '!', precedence: 4, is_left_associative: true })
    } else {
        None
    }
}

/// The synthesized multiplication that binds a unary sign to the primary
/// expression that follows it: it outranks every registry operator.
pub open spec fn spec_unary_mul() -> Operator {
    Operator { token: '*', precedence: 10, is_left_associative: true }
}

pub fn unary_mul() -> (r: Operator)
    ensures
        r == spec_unary_mul(),
{
    Operator { token: '*', precedence: 10, is_left_associative: true }
}

/// The names of the registry constants, in registry order.
pub open spec fn spec_constant_names() -> Seq<Seq<char>> {
    seq!["e"@, "pi"@]
}

/// The names of the registry functions, in registry order.
pub open spec fn spec_function_names() -> Seq<Seq<char>> {
    seq![
        "sin"@,
        "cos"@,
        "tan"@,
        "csc"@,
        "sec"@,
        "cot"@,
        "sinh"@,
        "cosh"@,
        "tanh"@,
        "ln"@,
        "log2"@,
        "log10"@,
        "sqrt"@,
        "ceil"@,
        "floor"@,
        "rad"@,
        "deg"@,
        "abs"@,
        "asin"@,
        "acos"@,
        "atan"@,
        "acsc"@,
        "asec"@,
        "acot"@,
        "exp"@,
        "exp2"@,
        "round"@,
        "log"@,
        "nroot"@,
    ]
}

pub fn constant_names() -> (r: Vec<&'static str>)
    ensures
        r@.map_values(|s: &str| s@) == spec_constant_names(),
{
    let r: Vec<&'static str> = vec!["e", "pi"];
    proof {
        assert(r@.map_values(|s: &str| s@) =~= spec_constant_names());
    }
    r
}

pub fn function_names() -> (r: Vec<&'static str>)
    ensures
        r@.map_values(|s: &str| s@) == spec_function_names(),
{
    let r: Vec<&'static str> = vec![
        "sin", "cos", "tan", "csc", "sec", "cot", "sinh", "cosh", "tanh", "ln", "log2", "log10",
        "sqrt", "ceil", "floor", "rad", "deg", "abs", "asin", "acos", "atan", "acsc", "asec",
        "acot", "exp", "exp2", "round", "log", "nroot",
    ];
    proof {
        assert(r@.map_values(|s: &str| s@) =~= spec_function_names());
    }
    r
}

/// The function registry: name to function.
pub open spec fn spec_function(name: Seq<char>) -> Option<Function> {
    if name == "sin"@ {
        Some(Function::Sin)
    } else if name == "cos"@ {
        Some(Function::Cos)
    } else if name == "tan"@ {
        Some(Function::Tan)
    } else if name == "csc"@ {
        Some(Function::Csc)
    } else if name == "sec"@ {
        Some(Function::Sec)
    } else if name == "cot"@ {
        Some(Function::Cot)
    } else if name == "sinh"@ {
        Some(Function::Sinh)
    } else if name == "cosh"@ {
        Some(Function::Cosh)
    } else if name == "tanh"@ {
        Some(Function::Tanh)
    } else if name == "ln"@ {
        Some(Function::Ln)
    } else if name == "log2"@ {
        Some(Function::Log2)
    } else if name == "log10"@ {
        Some(Function::Log10)
    } else if name == "sqrt"@ {
        Some(Function::Sqrt)
    } else if name == "ceil"@ {
        Some(Function::Ceil)
    } else if name == "floor"@ {
        Some(Function::Floor)
    } else if name == "rad"@ {
        Some(Function::Rad)
    } else if name == "deg"@ {
        Some(Function::Deg)
    } else if name == "abs"@ {
        Some(Function::Abs)
    } else if name == "asin"@ {
        Some(Function::Asin)
    } else if name == "acos"@ {
        Some(Function::Acos)
    } else if name == "atan"@ {
        Some(Function::Atan)
    } else if name == "acsc"@ {
        Some(Function::Acsc)
    } else if name == "asec"@ {
        Some(Function::Asec)
    } else if name == "acot"@ {
        Some(Function::Acot)
    } else if name == "exp"@ {
        Some(Function::Exp)
    } else if name == "exp2"@ {
        Some(Function::Exp2)
    } else if name == "round"@ {
        Some(Function::Round)
    } else if name == "log"@ {
        Some(Function::Log)
    } else if name == "nroot"@ {
        Some(Function::Nroot)
    } else {
        None
    }
}

/// The constant registry: name to value.
pub open spec fn spec_constant(name: Seq<char>) -> Option<NumeralView> {
    if name == "e"@ {
        Some(NumeralView::E)
    } else if name == "pi"@ {
        Some(NumeralView::Pi)
    } else {
        None
    }
}

/// Whether `p` is a prefix of `s` (a full match included).
pub open spec fn spec_is_prefix(p: Seq<char>, s: Seq<char>) -> bool {
    p.len() <= s.len() && p == s.subrange(0, p.len() as int)
}

/// Whether some registry function name starts with `name`.
pub open spec fn spec_function_prefix(name: Seq<char>) -> bool {
    exists|i: int|
        0 <= i < spec_function_names().len() && spec_is_prefix(name, spec_function_names()[i])
}

/// Whether a buffer of characters equals a string slice, character for
/// character.
fn eq_str(v: &Vec<char>, s: &str) -> (r: bool)
    ensures
        r == (v@ == s@),
{
    let n = s.unicode_len();
    if v.len() != n {
        return false;
    }
    let mut i: usize = 0;
    while i < n
        invariant
            n == s@.len(),
            v@.len() == n,
            i <= n,
            forall|j: int| 0 <= j < i ==> v@[j] == s@[j],
        decreases n - i,
    {
        if v[i] != s.get_char(i) {
            return false;
        }
        i += 1;
    }
    proof {
        assert(v@ =~= s@);
    }
    true
}

/// Whether a buffer of characters is a prefix of a string slice.
fn prefix_of_str(v: &Vec<char>, s: &str) -> (r: bool)
    ensures
        r == spec_is_prefix(v@, s@),
{
    let n = s.unicode_len();
    if v.len() > n {
        return false;
    }
    let mut i: usize = 0;
    while i < v.len()
        invariant
            n == s@.len(),
            v@.len() <= n,
            i <= v@.len(),
            forall|j: int| 0 <= j < i ==> v@[j] == s@[j],
        decreases v@.len() - i,
    {
        if v[i] != s.get_char(i) {
            proof {
                assert(v@[i as int] != s@.subrange(0, v@.len() as int)[i as int]);
            }
            return false;
        }
        i += 1;
    }
    proof {
        assert(v@ =~= s@.subrange(0, v@.len() as int));
    }
    true
}

/// Looks a name up in the function registry.
pub fn function_for(name: &Vec<char>) -> (r: Option<Function>)
    ensures
        r == spec_function(name@),
{
    if eq_str(name, "sin") {
        Some(Function::Sin)
    } else if eq_str(name, "cos") {
        Some(Function::Cos)
    } else if eq_str(name, "tan") {
        Some(Function::Tan)
    } else if eq_str(name, "csc") {
        Some(Function::Csc)
    } else if eq_str(name, "sec") {
        Some(Function::Sec)
    } else if eq_str(name, "cot") {
        Some(Function::Cot)
    } else if eq_str(name, "sinh") {
        Some(Function::Sinh)
    } else if eq_str(name, "cosh") {
        Some(Function::Cosh)
    } else if eq_str(name, "tanh") {
        Some(Function::Tanh)
    } else if eq_str(name, "ln") {
        Some(Function::Ln)
    } else if eq_str(name, "log2") {
        Some(Function::Log2)
    } else if eq_str(name, "log10") {
        Some(Function::Log10)
    } else if eq_str(name, "sqrt") {
        Some(Function::Sqrt)
    } else if eq_str(name, "ceil") {
        Some(Function::Ceil)
    } else if eq_str(name, "floor") {
        Some(Function::Floor)
    } else if eq_str(name, "rad") {
        Some(Function::Rad)
    } else if eq_str(name, "deg") {
        Some(Function::Deg)
    } else if eq_str(name, "abs") {
        Some(Function::Abs)
    } else if eq_str(name, "asin") {
        Some(Function::Asin)
    } else if eq_str(name, "acos") {
        Some(Function::Acos)
    } else if eq_str(name, "atan") {
        Some(Function::Atan)
    } else if eq_str(name, "acsc") {
        Some(Function::Acsc)
    } else if eq_str(name, "asec") {
        Some(Function::Asec)
    } else if eq_str(name, "acot") {
        Some(Function::Acot)
    } else if eq_str(name, "exp") {
        Some(Function::Exp)
    } else if eq_str(name, "exp2") {
        Some(Function::Exp2)
    } else if eq_str(name, "round") {
        Some(Function::Round)
    } else if eq_str(name, "log") {
        Some(Function::Log)
    } else if eq_str(name, "nroot") {
        Some(Function::Nroot)
    } else {
        None
    }
}

/// Looks a name up in the constant registry.
pub fn constant_for(name: &Vec<char>) -> (r: Option<Numeral>)
    ensures
        match r {
            Some(n) => spec_constant(name@) == Some(n@),
            None => spec_constant(name@) is None,
        },
{
    if eq_str(name, "e") {
        Some(Numeral::E)
    } else if eq_str(name, "pi") {
        Some(Numeral::Pi)
    } else {
        None
    }
}

/// Whether some registry function name starts with the buffer.
pub fn is_function_prefix(name: &Vec<char>) -> (r: bool)
    ensures
        r == spec_function_prefix(name@),
{
    let names = function_names();
    let ghost views = spec_function_names();
    proof {
        assert(views.len() == names@.len());
    }
    let mut i: usize = 0;
    while i < names.len()
        invariant
            names@.map_values(|s: &str| s@) == views,
            views == spec_function_names(),
            views.len() == names@.len(),
            i <= names@.len(),
            forall|j: int| 0 <= j < i ==> !spec_is_prefix(name@, views[j]),
        decreases names@.len() - i,
    {
        proof {
            assert(names@.map_values(|s: &str| s@)[i as int] == names@[i as int]@);
        }
        if prefix_of_str(name, names[i]) {
            proof {
                assert(spec_is_prefix(name@, views[i as int]));
                assert(spec_is_prefix(name@, spec_function_names()[i as int]));
            }
            return true;
        }
        proof {
            assert(!spec_is_prefix(name@, views[i as int]));
        }
        i += 1;
    }
    proof {
        assert forall|i: int|
            0 <= i < spec_function_names().len() implies !spec_is_prefix(
            name@,
            spec_function_names()[i],
        ) by {
            assert(!spec_is_prefix(name@, views[i]));
        }
    }
    false
}

/// Whether a character is a decimal digit.
pub open spec fn spec_is_digit(c: char) -> bool {
    '0' <= c && c <= '9'
}

/// Whether a character is an ASCII letter.
pub open spec fn spec_is_letter(c: char) -> bool {
    ('a' <= c && c <= 'z') || ('A' <= c && c <= 'Z')
}

/// Whether a buffer of digits and decimal points denotes a numeric literal:
/// at least one digit and at most one decimal point.
pub open spec fn spec_numeral_ok(s: Seq<char>) -> bool {
    (exists|i: int| 0 <= i < s.len() && spec_is_digit(s[i])) && spec_count_char(s, '.') <= 1
}

/// Decides `spec_numeral_ok` on a buffer.
fn numeral_ok(v: &Vec<char>) -> (r: bool)
    ensures
        r == spec_numeral_ok(v@),
{
    let mut dots: usize = 0;
    let mut has_digit = false;
    let mut i: usize = 0;
    while i < v.len()
        invariant
            i <= v@.len(),
            dots == spec_count_char(v@.subrange(0, i as int), '.'),
            dots <= i,
            has_digit == (exists|j: int| 0 <= j < i && spec_is_digit(v@[j])),
        decreases v@.len() - i,
    {
        proof {
            lemma_count_char_prefix(v@, '.', i as int);
        }
        let c = v[i];
        if c == '.' {
            dots += 1;
        }
        if '0' <= c && c <= '9' {
            has_digit = true;
            proof {
                assert(spec_is_digit(v@[i as int]));
            }
        } else {
            proof {
                assert forall|j: int| 0 <= j < i + 1 && spec_is_digit(v@[j]) implies (exists|k: int|
                    0 <= k < i && spec_is_digit(v@[k])) by {
                    assert(j != i);
                }
            }
        }
        i += 1;
    }
    proof {
        assert(v@.subrange(0, v@.len() as int) =~= v@);
    }
    has_digit && dots <= 1
}

/// The state the tokenizer carries from one character to the next: the
/// pending numeric and identifier buffers, whether the last significant
/// character put the scan in operator-expected position, whether a `*` is
/// pending (it may pair with a following `*` into `^`), and the tokens
/// emitted so far.
pub struct LexStateView {
    pub num: Seq<char>,
    pub id: Seq<char>,
    pub last_op: bool,
    pub star: bool,
    pub out: Seq<TokenView>,
}

struct LexState {
    num: Vec<char>,
    id: Vec<char>,
    last_op: bool,
    star: bool,
    out: Vec<Token>,
}

impl View for LexState {
    type V = LexStateView;

    closed spec fn view(&self) -> LexStateView {
        LexStateView {
            num: self.num@,
            id: self.id@,
            last_op: self.last_op,
            star: self.star,
            out: tokens_view(self.out@),
        }
    }
}

/// The tokenizer's starting state: expression start counts as operator
/// position, so that a leading sign is unary.
pub open spec fn spec_lex_init() -> LexStateView {
    LexStateView {
        num: Seq::empty(),
        id: Seq::empty(),
        last_op: true,
        star: false,
        out: Seq::empty(),
    }
}

/// The plain multiplication token, as inserted for implicit multiplication.
pub open spec fn spec_mul_token() -> TokenView {
    TokenView::Operator(Operator { token: '*', precedence: 3, is_left_associative: true })
}

/// The registry operator for a symbol, as a token.
pub open spec fn spec_op_token(c: char) -> TokenView {
    match spec_operator(c) {
        Some(op) => TokenView::Operator(op),
        None => TokenView::Operator(Operator { token: c, precedence: 0, is_left_associative: true }),
    }
}

/// The value of a registry constant, by name.
pub open spec fn spec_constant_value(name: Seq<char>) -> NumeralView {
    match spec_constant(name) {
        Some(n) => n,
        None => NumeralView::One,
    }
}

pub open spec fn msg_fn_expected_parens(name: Seq<char>) -> Seq<char> {
    "Function '"@ + name + "' expected parentheses"@
}

pub open spec fn msg_unexpected_character(name: Seq<char>) -> Seq<char> {
    "Unexpected character '"@ + name + "'"@
}

pub open spec fn msg_unknown_function(name: Seq<char>) -> Seq<char> {
    "Unknown function '"@ + name + "'"@
}

pub open spec fn msg_unexpected_token(c: char) -> Seq<char> {
    "Unexpected token: '"@ + seq![c] + "'"@
}

/// Flushing the pending buffers: a parsable numeric literal is emitted as a
/// number token, or failing that a pending constant name is emitted as its
/// value; an unparsable numeric buffer and an unrecognized identifier stay.
pub open spec fn spec_drain(st: LexStateView) -> LexStateView {
    if spec_numeral_ok(st.num) {
        LexStateView {
            num: Seq::empty(),
            out: st.out.push(TokenView::Num(NumeralView::Literal(st.num))),
            ..st
        }
    } else if spec_constant(st.id) is Some {
        LexStateView {
            id: Seq::empty(),
            out: st.out.push(TokenView::Num(spec_constant_value(st.id))),
            ..st
        }
    } else {
        st
    }
}

/// Flushing a pending numeric literal with implicit multiplication: `2x`
/// reads as `2 * x`.
pub open spec fn spec_flush_num_mul(st: LexStateView) -> LexStateView {
    if spec_numeral_ok(st.num) {
        LexStateView {
            num: Seq::empty(),
            out: st.out.push(TokenView::Num(NumeralView::Literal(st.num))).push(spec_mul_token()),
            ..st
        }
    } else {
        st
    }
}

/// One character of tokenization, with no `*` pending.
pub open spec fn spec_lex_step_inner(st: LexStateView, c: char, has_prev: bool) -> Result<
    LexStateView,
    CalcErrorView,
> {
    if spec_is_digit(c) || c == '.' {
        if st.id.len() > 0 {
            if spec_function(st.id) is Some {
                let id2 = st.id.push(c);
                if spec_function(id2) is None && !spec_function_prefix(id2) {
                    Err(CalcErrorView::Syntax(msg_fn_expected_parens(st.id)))
                } else {
                    Ok(LexStateView { id: id2, ..st })
                }
            } else if spec_constant(st.id) is Some {
                Ok(
                    LexStateView {
                        id: Seq::empty(),
                        num: st.num.push(c),
                        last_op: false,
                        out: st.out.push(TokenView::Num(spec_constant_value(st.id))).push(
                            spec_mul_token(),
                        ),
                        ..st
                    },
                )
            } else {
                let id2 = st.id.push(c);
                if spec_function(id2) is None {
                    Err(CalcErrorView::Syntax(msg_unexpected_character(id2)))
                } else {
                    Ok(LexStateView { id: id2, ..st })
                }
            }
        } else {
            Ok(LexStateView { num: st.num.push(c), last_op: false, ..st })
        }
    } else if c == '_' {
        if !has_prev {
            Err(CalcErrorView::Syntax("No previous answer!"@))
        } else if st.id.len() > 0 {
            if spec_function(st.id) is Some {
                Err(CalcErrorView::Syntax(msg_fn_expected_parens(st.id)))
            } else {
                Err(CalcErrorView::Syntax(msg_unexpected_character(st.id)))
            }
        } else {
            let st1 = spec_flush_num_mul(st);
            Ok(
                LexStateView {
                    last_op: false,
                    out: st1.out.push(TokenView::Num(NumeralView::PrevAns)),
                    ..st1
                },
            )
        }
    } else if spec_is_letter(c) {
        let st1 = spec_flush_num_mul(st);
        Ok(LexStateView { id: st1.id.push(c), last_op: false, ..st1 })
    } else if c == '+' || c == '-' {
        if !st.last_op {
            if spec_numeral_ok(st.num) {
                Ok(
                    LexStateView {
                        num: Seq::empty(),
                        last_op: true,
                        out: st.out.push(TokenView::Num(NumeralView::Literal(st.num))).push(
                            spec_op_token(c),
                        ),
                        ..st
                    },
                )
            } else if spec_constant(st.id) is Some {
                Ok(
                    LexStateView {
                        id: Seq::empty(),
                        last_op: true,
                        out: st.out.push(TokenView::Num(spec_constant_value(st.id))).push(
                            spec_op_token(c),
                        ),
                        ..st
                    },
                )
            } else {
                Ok(LexStateView { out: st.out.push(spec_op_token(c)), ..st })
            }
        } else {
            let sign = if c == '-' {
                NumeralView::MinusOne
            } else {
                NumeralView::One
            };
            Ok(
                LexStateView {
                    out: st.out.push(TokenView::LParen).push(TokenView::Num(sign)).push(
                        TokenView::RParen,
                    ).push(TokenView::Operator(spec_unary_mul())),
                    ..st
                },
            )
        }
    } else if c == '/' || c == '*' || c == '%' || c == '^' || c == '!' {
        let st1 = spec_drain(st);
        if c == '*' {
            Ok(LexStateView { star: true, ..st1 })
        } else if c == '!' {
            Ok(
                LexStateView {
                    last_op: false,
                    out: st1.out.push(spec_op_token('!')).push(TokenView::Num(NumeralView::One)),
                    ..st1
                },
            )
        } else {
            Ok(LexStateView { last_op: true, out: st1.out.push(spec_op_token(c)), ..st1 })
        }
    } else if c == '(' {
        if st.id.len() > 0 {
            match spec_function(st.id) {
                Some(f) => {
                    let st1 = LexStateView {
                        id: Seq::empty(),
                        out: st.out.push(TokenView::Function(f)),
                        ..st
                    };
                    let st2 = if st1.out.len() > 0 && st1.out.last() == TokenView::RParen {
                        LexStateView { out: st1.out.push(spec_mul_token()), ..st1 }
                    } else {
                        st1
                    };
                    Ok(LexStateView { last_op: true, out: st2.out.push(TokenView::LParen), ..st2 })
                },
                None => Err(CalcErrorView::Syntax(msg_unknown_function(st.id))),
            }
        } else {
            let st1 = spec_flush_num_mul(st);
            let st2 = if st1.out.len() > 0 && st1.out.last() == TokenView::RParen {
                LexStateView { out: st1.out.push(spec_mul_token()), ..st1 }
            } else {
                st1
            };
            Ok(LexStateView { last_op: true, out: st2.out.push(TokenView::LParen), ..st2 })
        }
    } else if c == ',' {
        let st1 = spec_drain(st);
        Ok(LexStateView { out: st1.out.push(TokenView::Comma), ..st1 })
    } else if c == ')' {
        let st1 = spec_drain(st);
        Ok(LexStateView { last_op: false, out: st1.out.push(TokenView::RParen), ..st1 })
    } else if c == ' ' {
        Ok(st)
    } else {
        Err(CalcErrorView::Syntax(msg_unexpected_token(c)))
    }
}

/// One character of tokenization. A pending `*` pairs with a following `*`
/// into the exponentiation operator, and otherwise resolves to plain
/// multiplication before the character is processed.
pub open spec fn spec_lex_step(st: LexStateView, c: char, has_prev: bool) -> Result<
    LexStateView,
    CalcErrorView,
> {
    if st.star {
        let st0 = LexStateView { star: false, last_op: true, ..st };
        if c == '*' {
            Ok(LexStateView { out: st0.out.push(spec_op_token('^')), ..st0 })
        } else {
            spec_lex_step_inner(
                LexStateView { out: st0.out.push(spec_op_token('*')), ..st0 },
                c,
                has_prev,
            )
        }
    } else {
        spec_lex_step_inner(st, c, has_prev)
    }
}

/// End of input: a pending `*` is emitted as multiplication, the buffers are
/// flushed, and a pending identifier that is a complete function name is the
/// error of a function used without parentheses.
pub open spec fn spec_lex_finish(st: LexStateView) -> Result<Seq<TokenView>, CalcErrorView> {
    let st1 = if st.star {
        LexStateView { star: false, last_op: true, out: st.out.push(spec_op_token('*')), ..st }
    } else {
        st
    };
    let st2 = spec_drain(st1);
    if st2.id.len() > 0 && spec_function(st2.id) is Some {
        Err(CalcErrorView::Syntax(msg_fn_expected_parens(st2.id)))
    } else {
        Ok(st2.out)
    }
}

/// The token sequence of the input from position `i` on, given the state
/// reached so far.
pub open spec fn spec_lex_from(
    s: Seq<char>,
    i: int,
    st: LexStateView,
    has_prev: bool,
) -> Result<Seq<TokenView>, CalcErrorView>
    decreases s.len() - i,
{
    if i < 0 || i >= s.len() {
        spec_lex_finish(st)
    } else {
        match spec_lex_step(st, s[i], has_prev) {
            Ok(st2) => spec_lex_from(s, i + 1, st2, has_prev),
            Err(e) => Err(e),
        }
    }
}

/// What tokenization returns: the token sequence of the whole input, or the
/// first syntax error.
pub open spec fn spec_lexer(s: Seq<char>, has_prev: bool) -> Result<Seq<TokenView>, CalcErrorView> {
    spec_lex_from(s, 0, spec_lex_init(), has_prev)
}

/// Whether a string is a plain numeral: digits and at most one decimal
/// point, with at least one digit.
pub open spec fn spec_plain_numeral(s: Seq<char>) -> bool {
    s.len() > 0 && (forall|j: int|
        0 <= j < s.len() ==> spec_is_digit(#[trigger] s[j]) || s[j] == '.') && spec_numeral_ok(s)
}

proof fn lemma_lex_numeral_from(s: Seq<char>, i: int, has_prev: bool)
    requires
        0 <= i <= s.len(),
        spec_plain_numeral(s),
    ensures
        spec_lex_from(
            s,
            i,
            LexStateView {
                num: s.subrange(0, i),
                id: Seq::empty(),
                last_op: i == 0,
                star: false,
                out: Seq::empty(),
            },
            has_prev,
        ) == Ok::<Seq<TokenView>, CalcErrorView>(
            seq![TokenView::Num(NumeralView::Literal(s))],
        ),
    decreases s.len() - i,
{
    let st = LexStateView {
        num: s.subrange(0, i),
        id: Seq::<char>::empty(),
        last_op: i == 0,
        star: false,
        out: Seq::<TokenView>::empty(),
    };
    if i == s.len() {
        assert(s.subrange(0, s.len() as int) =~= s);
        assert(spec_numeral_ok(s));
        assert(spec_drain(st).id.len() == 0);
        assert(spec_drain(st).out =~= seq![TokenView::Num(NumeralView::Literal(s))]);
    } else {
        let c = s[i];
        assert(spec_is_digit(c) || c == '.');
        let st2 = LexStateView { num: st.num.push(c), last_op: false, ..st };
        assert(spec_lex_step(st, c, has_prev) == Ok::<LexStateView, CalcErrorView>(st2));
        assert(st.num.push(c) =~= s.subrange(0, i + 1));
        lemma_lex_numeral_from(s, i + 1, has_prev);
    }
}

/// Tokenizing a plain numeral yields exactly that one numeric literal.
pub proof fn lemma_lexer_numeral(s: Seq<char>, has_prev: bool)
    requires
        spec_plain_numeral(s),
    ensures
        spec_lexer(s, has_prev) == Ok::<Seq<TokenView>, CalcErrorView>(
            seq![TokenView::Num(NumeralView::Literal(s))],
        ),
{
    assert(s.subrange(0, 0) =~= Seq::<char>::empty());
    assert(spec_lex_init() == (LexStateView {
        num: s.subrange(0, 0),
        id: Seq::<char>::empty(),
        last_op: true,
        star: false,
        out: Seq::<TokenView>::empty(),
    }));
    lemma_lex_numeral_from(s, 0, has_prev);
}

pub(crate) broadcast proof fn lemma_tokens_view_push(ts: Seq<Token>, t: Token)
    ensures
        #[trigger] tokens_view(ts.push(t)) == tokens_view(ts).push(t@),
{
    assert(tokens_view(ts.push(t)) =~= tokens_view(ts).push(t@));
}

pub(crate) broadcast proof fn lemma_tokens_view_len(ts: Seq<Token>)
    ensures
        #[trigger] tokens_view(ts).len() == ts.len(),
{
}

pub(crate) broadcast proof fn lemma_tokens_view_index(ts: Seq<Token>, i: int)
    requires
        0 <= i < ts.len(),
    ensures
        #[trigger] tokens_view(ts)[i] == ts[i]@,
{
}

pub(crate) broadcast proof fn lemma_tokens_view_drop_last(ts: Seq<Token>)
    requires
        ts.len() > 0,
    ensures
        #[trigger] tokens_view(ts.drop_last()) == tokens_view(ts).drop_last(),
{
    assert(tokens_view(ts.drop_last()) =~= tokens_view(ts).drop_last());
}

pub(crate) broadcast proof fn lemma_tokens_view_subrange(ts: Seq<Token>, a: int, b: int)
    requires
        0 <= a <= b <= ts.len(),
    ensures
        #[trigger] tokens_view(ts.subrange(a, b)) == tokens_view(ts).subrange(a, b),
{
    assert(tokens_view(ts.subrange(a, b)) =~= tokens_view(ts).subrange(a, b));
}

/// Copies a buffer of characters.
pub(crate) fn dup_chars(v: &Vec<char>) -> (r: Vec<char>)
    ensures
        r@ == v@,
{
    let mut r: Vec<char> = Vec::new();
    let mut i: usize = 0;
    while i < v.len()
        invariant
            i <= v@.len(),
            r@ == v@.subrange(0, i as int),
        decreases v@.len() - i,
    {
        r.push(v[i]);
        proof {
            assert(v@.subrange(0, i as int).push(v@[i as int]) =~= v@.subrange(0, i + 1));
        }
        i += 1;
    }
    proof {
        assert(v@.subrange(0, v@.len() as int) =~= v@);
    }
    r
}

/// Copies a numeral.
pub(crate) fn dup_numeral(n: &Numeral) -> (r: Numeral)
    ensures
        r@ == n@,
{
    match n {
        Numeral::Literal(v) => Numeral::Literal(dup_chars(v)),
        Numeral::PrevAns => Numeral::PrevAns,
        Numeral::E => Numeral::E,
        Numeral::Pi => Numeral::Pi,
        Numeral::One => Numeral::One,
        Numeral::MinusOne => Numeral::MinusOne,
    }
}

/// Copies a token.
pub(crate) fn dup_token(t: &Token) -> (r: Token)
    ensures
        r@ == t@,
{
    match t {
        Token::Operator(op) => Token::Operator(*op),
        Token::Num(n) => Token::Num(dup_numeral(n)),
        Token::Function(f) => Token::Function(*f),
        Token::LParen => Token::LParen,
        Token::RParen => Token::RParen,
        Token::Comma => Token::Comma,
    }
}

/// Empties a buffer, handing its contents out.
fn take_buf(v: &mut Vec<char>) -> (r: Vec<char>)
    ensures
        r@ == old(v)@,
        final(v)@ == Seq::<char>::empty(),
{
    let mut tmp: Vec<char> = Vec::new();
    core::mem::swap(&mut tmp, v);
    tmp
}

/// Flushes the buffers as `spec_drain` says.
fn drain_stack(st: LexState) -> (r: LexState)
    ensures
        r@ == spec_drain(st@),
{
    broadcast use lemma_tokens_view_push;

    let mut st = st;
    if numeral_ok(&st.num) {
        let buf = take_buf(&mut st.num);
        st.out.push(Token::Num(Numeral::Literal(buf)));
    } else {
        match constant_for(&st.id) {
            Some(n) => {
                st.id = Vec::new();
                st.out.push(Token::Num(n));
            },
            None => {},
        }
    }
    st
}

/// Flushes a pending numeric literal with implicit multiplication, as
/// `spec_flush_num_mul` says.
fn flush_num_mul(st: LexState) -> (r: LexState)
    ensures
        r@ == spec_flush_num_mul(st@),
{
    broadcast use lemma_tokens_view_push;

    let mut st = st;
    if numeral_ok(&st.num) {
        let buf = take_buf(&mut st.num);
        st.out.push(Token::Num(Numeral::Literal(buf)));
        st.out.push(Token::Operator(Operator { token: '*', precedence: 3, is_left_associative: true }));
    }
    st
}

/// Builds the message naming a buffer between a fixed head and tail.
fn quoted_msg(head: &str, name: &Vec<char>, tail: &str) -> (r: String)
    ensures
        r@ == head@ + name@ + tail@,
{
    let mut m = String::from_str(head);
    m.append(chars_string(name).as_str());
    m.append(tail);
    m
}

/// One character of tokenization, as `spec_lex_step` says.
fn lex_step(st: LexState, c: char, has_prev: bool) -> (r: Result<LexState, CalcError>)
    ensures
        match r {
            Ok(st2) => spec_lex_step(st@, c, has_prev) == Ok::<LexStateView, CalcErrorView>(st2@),
            Err(e) => spec_lex_step(st@, c, has_prev) == Err::<LexStateView, CalcErrorView>(e@),
        },
{
    broadcast use lemma_tokens_view_push;

    let mut st = st;
    if st.star {
        st.star = false;
        st.last_op = true;
        if c == '*' {
            st.out.push(Token::Operator(Operator { token: '^', precedence: 4, is_left_associative: false }));
            return Ok(st);
        }
        st.out.push(Token::Operator(Operator { token: '*', precedence: 3, is_left_associative: true }));
    }
    let ghost st0 = st@;
    let r = lex_step_inner(st, c, has_prev);
    proof {
        assert(spec_lex_step(st0, c, has_prev) == spec_lex_step_inner(st0, c, has_prev));
    }
    r
}

/// One character of tokenization with no `*` pending, as
/// `spec_lex_step_inner` says.
fn lex_step_inner(st: LexState, c: char, has_prev: bool) -> (r: Result<LexState, CalcError>)
    requires
        !st@.star,
    ensures
        match r {
            Ok(st2) => spec_lex_step_inner(st@, c, has_prev) == Ok::<
                LexStateView,
                CalcErrorView,
            >(st2@),
            Err(e) => spec_lex_step_inner(st@, c, has_prev) == Err::<
                LexStateView,
                CalcErrorView,
            >(e@),
        },
{
    broadcast use lemma_tokens_view_push;

    let mut st = st;
    if ('0' <= c && c <= '9') || c == '.' {
        if st.id.len() > 0 {
            if function_for(&st.id).is_some() {
                let msg = quoted_msg("Function '", &st.id, "' expected parentheses");
                st.id.push(c);
                if function_for(&st.id).is_none() && !is_function_prefix(&st.id) {
                    return Err(CalcError::Syntax(msg));
                }
                Ok(st)
            } else {
                match constant_for(&st.id) {
                    Some(n) => {
                        st.id = Vec::new();
                        st.out.push(Token::Num(n));
                        st.out.push(
                            Token::Operator(
                                Operator { token: '*', precedence: 3, is_left_associative: true },
                            ),
                        );
                        st.num.push(c);
                        st.last_op = false;
                        Ok(st)
                    },
                    None => {
                        st.id.push(c);
                        if function_for(&st.id).is_none() {
                            let msg = quoted_msg("Unexpected character '", &st.id, "'");
                            return Err(CalcError::Syntax(msg));
                        }
                        Ok(st)
                    },
                }
            }
        } else {
            st.num.push(c);
            st.last_op = false;
            Ok(st)
        }
    } else if c == '_' {
        if !has_prev {
            return Err(CalcError::Syntax(String::from_str("No previous answer!")));
        }
        if st.id.len() > 0 {
            if function_for(&st.id).is_some() {
                return Err(
                    CalcError::Syntax(quoted_msg("Function '", &st.id, "' expected parentheses")),
                );
            }
            return Err(CalcError::Syntax(quoted_msg("Unexpected character '", &st.id, "'")));
        }
        let mut st = flush_num_mul(st);
        st.last_op = false;
        st.out.push(Token::Num(Numeral::PrevAns));
        Ok(st)
    } else if ('a' <= c && c <= 'z') || ('A' <= c && c <= 'Z') {
        let mut st = flush_num_mul(st);
        st.id.push(c);
        st.last_op = false;
        Ok(st)
    } else if c == '+' || c == '-' {
        let op = Token::Operator(
            Operator {
                token: c,
                precedence: 2,
                is_left_associative: true,
            },
        );
        proof {
            assert(op@ == spec_op_token(c));
        }
        if !st.last_op {
            if numeral_ok(&st.num) {
                let buf = take_buf(&mut st.num);
                st.out.push(Token::Num(Numeral::Literal(buf)));
                st.last_op = true;
                st.out.push(op);
                Ok(st)
            } else {
                match constant_for(&st.id) {
                    Some(n) => {
                        st.id = Vec::new();
                        st.out.push(Token::Num(n));
                        st.last_op = true;
                        st.out.push(op);
                        Ok(st)
                    },
                    None => {
                        st.out.push(op);
                        Ok(st)
                    },
                }
            }
        } else {
            st.out.push(Token::LParen);
            if c == '-' {
                st.out.push(Token::Num(Numeral::MinusOne));
            } else {
                st.out.push(Token::Num(Numeral::One));
            }
            st.out.push(Token::RParen);
            st.out.push(Token::Operator(unary_mul()));
            Ok(st)
        }
    } else if c == '/' || c == '*' || c == '%' || c == '^' || c == '!' {
        let mut st = drain_stack(st);
        if c == '*' {
            st.star = true;
            Ok(st)
        } else if c == '!' {
            st.out.push(Token::Operator(Operator { token: '!', precedence: 4, is_left_associative: true }));
            st.out.push(Token::Num(Numeral::One));
            st.last_op = false;
            Ok(st)
        } else {
            match operator_for(c) {
                Some(o) => {
                    st.out.push(Token::Operator(o));
                    st.last_op = true;
                    Ok(st)
                },
                None => vstd::pervasive::unreached(),
            }
        }
    } else if c == '(' {
        if st.id.len() > 0 {
            match function_for(&st.id) {
                Some(f) => {
                    st.id = Vec::new();
                    st.out.push(Token::Function(f));
                },
                None => {
                    return Err(CalcError::Syntax(quoted_msg("Unknown function '", &st.id, "'")));
                },
            }
        } else {
            st = flush_num_mul(st);
        }
        let insert_mul = match st.out.last() {
            Some(Token::RParen) => true,
            _ => false,
        };
        if insert_mul {
            proof {
                assert(st@.out.len() > 0 && st@.out.last() == TokenView::RParen);
            }
            st.out.push(Token::Operator(Operator { token: '*', precedence: 3, is_left_associative: true }));
        } else {
            proof {
                assert(!(st@.out.len() > 0 && st@.out.last() == TokenView::RParen));
            }
        }
        st.out.push(Token::LParen);
        st.last_op = true;
        Ok(st)
    } else if c == ',' {
        let mut st = drain_stack(st);
        st.out.push(Token::Comma);
        Ok(st)
    } else if c == ')' {
        let mut st = drain_stack(st);
        st.out.push(Token::RParen);
        st.last_op = false;
        Ok(st)
    } else if c == ' ' {
        Ok(st)
    } else {
        let mut m = String::from_str("Unexpected token: '");
        crate::format::push_char(&mut m, c);
        m.append("'");
        proof {
            assert("Unexpected token: '"@.push(c) =~= "Unexpected token: '"@ + seq![c]);
        }
        Err(CalcError::Syntax(m))
    }
}

/// Tokenizes the input: a single left-to-right pass that recognizes numeric
/// literals, constants, function names, operators (with `**` as a synonym
/// for `^`), the previous-answer placeholder, parentheses and commas, and
/// inserts implicit multiplication, exactly as `spec_lexer` says.
pub fn lexer(input: &str, has_prev_ans: bool) -> (r: Result<Vec<Token>, CalcError>)
    ensures
        match r {
            Ok(ts) => spec_lexer(input@, has_prev_ans) == Ok::<
                Seq<TokenView>,
                CalcErrorView,
            >(tokens_view(ts@)),
            Err(e) => spec_lexer(input@, has_prev_ans) == Err::<
                Seq<TokenView>,
                CalcErrorView,
            >(e@),
        },
{
    broadcast use lemma_tokens_view_push;

    let n = input.unicode_len();
    let mut st = LexState {
        num: Vec::new(),
        id: Vec::new(),
        last_op: true,
        star: false,
        out: Vec::new(),
    };
    proof {
        assert(tokens_view(st.out@) =~= Seq::<TokenView>::empty());
        assert(st@ == spec_lex_init());
    }
    let mut i: usize = 0;
    while i < n
        invariant
            n == input@.len(),
            i <= n,
            spec_lex_from(input@, i as int, st@, has_prev_ans) == spec_lexer(
                input@,
                has_prev_ans,
            ),
        decreases n - i,
    {
        let c = input.get_char(i);
        match lex_step(st, c, has_prev_ans) {
            Ok(st2) => {
                st = st2;
            },
            Err(e) => {
                return Err(e);
            },
        }
        i += 1;
    }
    let mut st = st;
    if st.star {
        st.star = false;
        st.last_op = true;
        st.out.push(Token::Operator(Operator { token: '*', precedence: 3, is_left_associative: true }));
    }
    let st = drain_stack(st);
    if st.id.len() > 0 && function_for(&st.id).is_some() {
        return Err(
            CalcError::Syntax(quoted_msg("Function '", &st.id, "' expected parentheses")),
        );
    }
    Ok(st.out)
}

} // verus!
