//! Error taxonomy of the evaluator, and the rendering of each error as a
//! message string.
use vstd::prelude::*;
use vstd::string::StrSliceExecFns;
use vstd::string::StringExecFns;

verus! {

/// Math related errors.
#[derive(Debug, Clone, Copy, PartialEq, Eq, Structural)]
pub enum MathError {
    DivideByZero,
    OutOfBounds,
    UnknownBase,
    TooLarge,
}

/// Generic calculation errors.
#[derive(Debug)]
pub enum CalcError {
    Math(MathError),
    Syntax(String),
    Parser(String),
    Help,
}

/// The mathematical model of a `CalcError`: message payloads as character
/// sequences.
pub enum CalcErrorView {
    Math(MathError),
    Syntax(Seq<char>),
    Parser(Seq<char>),
    Help,
}

impl View for CalcError {
    type V = CalcErrorView;

    open spec fn view(&self) -> CalcErrorView {
        match self {
            CalcError::Math(m) => CalcErrorView::Math(*m),
            CalcError::Syntax(s) => CalcErrorView::Syntax(s@),
            CalcError::Parser(s) => CalcErrorView::Parser(s@),
            CalcError::Help => CalcErrorView::Help,
        }
    }
}

impl PartialEq for CalcError {
    fn eq(&self, other: &Self) -> (r: bool) {
        match (self, other) {
            (CalcError::Math(a), CalcError::Math(b)) => *a == *b,
            (CalcError::Syntax(a), CalcError::Syntax(b)) => *a == *b,
            (CalcError::Parser(a), CalcError::Parser(b)) => *a == *b,
            (CalcError::Help, CalcError::Help) => true,
            _ => false,
        }
    }
}

impl vstd::std_specs::cmp::PartialEqSpecImpl for CalcError {
    open spec fn obeys_eq_spec() -> bool {
        true
    }

    open spec fn eq_spec(&self, other: &CalcError) -> bool {
        match (self, other) {
            (CalcError::Math(a), CalcError::Math(b)) => a == b,
            (CalcError::Syntax(a), CalcError::Syntax(b)) => a@ == b@,
            (CalcError::Parser(a), CalcError::Parser(b)) => a@ == b@,
            (CalcError::Help, CalcError::Help) => true,
            _ => false,
        }
    }
}

impl Eq for CalcError {}

/// Right-aligns a name in a column eight characters wide; a longer name
/// stays as it is.
pub open spec fn spec_pad8(s: Seq<char>) -> Seq<char> {
    if s.len() >= 8 {
        s
    } else {
        Seq::new((8 - s.len()) as nat, |i: int| ' ') + s
    }
}

/// The first `m` names laid out in columns: a line break closes every run of
/// `ipl` names.
pub open spec fn spec_blocks_upto(items: Seq<Seq<char>>, ipl: int, m: int) -> Seq<char>
    decreases m,
{
    if m <= 0 {
        Seq::empty()
    } else {
        spec_blocks_upto(items, ipl, m - 1) + spec_pad8(items[m - 1]) + (if m % ipl == 0 {
            seq!['\n']
        } else {
            Seq::<char>::empty()
        })
    }
}

/// Names laid out in lines of eight-character columns, as many to a line as
/// the width allows, each line closed by a line break.
pub open spec fn spec_blocks(width: int, items: Seq<Seq<char>>) -> Seq<char> {
    let ipl = width / 8;
    spec_blocks_upto(items, ipl, items.len() as int) + (if items.len() as int % ipl != 0 {
        seq!['\n']
    } else {
        Seq::<char>::empty()
    })
}

/// Lays names out in columns as `spec_blocks` says.
pub fn blocks(max_width: usize, items: &Vec<&str>) -> (r: String)
    requires
        max_width >= 8,
    ensures
        r@ == spec_blocks(max_width as int, items@.map_values(|t: &str| t@)),
{
    let ghost iv = items@.map_values(|t: &str| t@);
    let ipl = max_width / 8;
    proof {
        reveal_strlit(" ");
        reveal_strlit("\n");
        assert(iv.len() == items@.len());
    }
    let mut s = String::new();
    let mut i: usize = 0;
    proof {
        assert(s@ =~= spec_blocks_upto(iv, ipl as int, 0));
    }
    while i < items.len()
        invariant
            iv == items@.map_values(|t: &str| t@),
            iv.len() == items@.len(),
            ipl == max_width as int / 8,
            max_width >= 8,
            i <= items@.len(),
            s@ == spec_blocks_upto(iv, ipl as int, i as int),
            " "@ =~= seq![' '],
            "\n"@ =~= seq!['\n'],
        decreases items@.len() - i,
    {
        let ghost base = s@;
        let item = items[i];
        proof {
            assert(iv[i as int] == items@[i as int]@);
        }
        let l = item.unicode_len();
        let mut j = l;
        while j < 8
            invariant
                l == item@.len(),
                l <= j,
                j <= 8 || j == l,
                s@ == base + Seq::new((j - l) as nat, |x: int| ' '),
                " "@ =~= seq![' '],
            decreases 8 - j,
        {
            s.append(" ");
            proof {
                assert(base + Seq::new((j - l) as nat, |x: int| ' ') + " "@ =~= base + Seq::new(
                    (j + 1 - l) as nat,
                    |x: int| ' ',
                ));
            }
            j += 1;
        }
        proof {
            if l >= 8 {
                assert(s@ =~= base);
            }
        }
        s.append(item);
        proof {
            if l >= 8 {
                assert(s@ =~= base + spec_pad8(iv[i as int]));
            } else {
                assert(s@ =~= base + spec_pad8(iv[i as int]));
            }
        }
        if (i + 1) % ipl == 0 {
            s.append("\n");
            proof {
                assert(s@ =~= base + spec_pad8(iv[i as int]) + seq!['\n']);
            }
        } else {
            proof {
                assert(s@ =~= base + spec_pad8(iv[i as int]) + Seq::<char>::empty());
            }
        }
        proof {
            assert(s@ == spec_blocks_upto(iv, ipl as int, i + 1));
        }
        i += 1;
    }
    if items.len() % ipl != 0 {
        s.append("\n");
        proof {
            assert(spec_blocks_upto(iv, ipl as int, iv.len() as int) + "\n"@ =~= spec_blocks_upto(
                iv,
                ipl as int,
                iv.len() as int,
            ) + seq!['\n']);
        }
    } else {
        proof {
            assert(spec_blocks_upto(iv, ipl as int, iv.len() as int) + Seq::<char>::empty()
                =~= spec_blocks_upto(iv, ipl as int, iv.len() as int));
        }
    }
    s
}

/// The help text: the registry's constants, functions and operators.
pub open spec fn spec_help_text() -> Seq<char> {
    "Constants\n"@ + spec_blocks(79, crate::lex::spec_constant_names()) + "\nFunctions\n"@
        + spec_blocks(79, crate::lex::spec_function_names()) + "\nOperators\n"@
        + "+ - * / % ^ !"@ + "\n"@
}

/// The message of an overflowing operator result: it names the largest
/// representable magnitude, whose decimal expansion ends in a long run of
/// zeros.
pub open spec fn msg_too_large() -> Seq<char> {
    "Error: to large to process! Max value: 17976931348623157"@ + crate::format::spec_repeat_char(
        '0',
        292,
    )
}

/// The message each error is rendered as.
pub open spec fn spec_handler(e: CalcErrorView) -> Seq<char> {
    match e {
        CalcErrorView::Math(MathError::DivideByZero) => "Math Error: Divide by zero error!"@,
        CalcErrorView::Math(MathError::OutOfBounds) => "Domain Error: Out of bounds!"@,
        CalcErrorView::Math(MathError::UnknownBase) => "Base too large! Accepted ranges: 0 - 36"@,
        CalcErrorView::Math(MathError::TooLarge) => msg_too_large(),
        CalcErrorView::Syntax(d) => "Syntax Error: "@ + d,
        CalcErrorView::Parser(d) => "Parser Error: "@ + d,
        CalcErrorView::Help => spec_help_text(),
    }
}

/// Renders an error as its message, exactly as `spec_handler` says. For the
/// help pseudo-error this is the help text listing the whole registry.
pub fn handler(e: CalcError) -> (r: String)
    ensures
        r@ == spec_handler(e@),
{
    match e {
        CalcError::Math(MathError::DivideByZero) => String::from_str(
            "Math Error: Divide by zero error!",
        ),
        CalcError::Math(MathError::OutOfBounds) => String::from_str(
            "Domain Error: Out of bounds!",
        ),
        CalcError::Math(MathError::UnknownBase) => String::from_str(
            "Base too large! Accepted ranges: 0 - 36",
        ),
        CalcError::Math(MathError::TooLarge) => {
            let mut m = String::from_str(
                "Error: to large to process! Max value: 17976931348623157",
            );
            proof {
                reveal_strlit("0");
                assert("Error: to large to process! Max value: 17976931348623157"@
                    + crate::format::spec_repeat_char('0', 0) =~= "Error: to large to process! Max value: 17976931348623157"@);
            }
            let mut k: usize = 0;
            while k < 292
                invariant
                    k <= 292,
                    m@ == "Error: to large to process! Max value: 17976931348623157"@
                        + crate::format::spec_repeat_char('0', k as int),
                    "0"@ =~= seq!['0'],
                decreases 292 - k,
            {
                m.append("0");
                proof {
                    assert("Error: to large to process! Max value: 17976931348623157"@
                        + crate::format::spec_repeat_char('0', k as int) + "0"@
                        =~= "Error: to large to process! Max value: 17976931348623157"@
                        + crate::format::spec_repeat_char('0', k + 1));
                }
                k += 1;
            }
            m
        },
        CalcError::Syntax(d) => String::from_str("Syntax Error: ").concat(d.as_str()),
        CalcError::Parser(d) => String::from_str("Parser Error: ").concat(d.as_str()),
        CalcError::Help => {
            let consts = crate::lex::constant_names();
            let funcs = crate::lex::function_names();
            let mut m = String::from_str("Constants\n");
            m.append(blocks(79, &consts).as_str());
            m.append("\nFunctions\n");
            m.append(blocks(79, &funcs).as_str());
            m.append("\nOperators\n");
            m.append("+ - * / % ^ !");
            m.append("\n");
            m
        },
    }
}

} // verus!
