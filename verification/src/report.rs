//! Diagnostics as text, for a driver to show.

use crate::scanner::ScannerError;
use vstd::prelude::*;
use vstd::string::StringExecFns;

verus! {

/// The character of the decimal digit `d`.
pub open spec fn digit_char(d: nat) -> char
    recommends
        d < 10,
{
    (('0' as nat) + d) as char
}

/// The decimal numeral of `n`, without leading zeros.
pub open spec fn decimal(n: nat) -> Seq<char>
    decreases n,
{
    if n < 10 {
        seq![digit_char(n)]
    } else {
        decimal(n / 10).push(digit_char(n % 10))
    }
}

/// A diagnostic as text: its line, then its message.
pub open spec fn rendered(error: ScannerError) -> Seq<char> {
    "line: "@ + decimal(error.line as nat) + " | error: "@ + error.message@
}

/// The report of `errors`: each diagnostic on a line of its own, after a
/// tab, in the order given.
pub open spec fn report(errors: Seq<ScannerError>) -> Seq<char>
    decreases errors.len(),
{
    if errors.len() == 0 {
        Seq::empty()
    } else {
        report(errors.drop_last()) + seq!['\t'] + rendered(errors.last()) + seq!['\n']
    }
}

/// Appends the decimal numeral of `n` to `out`.
pub fn push_decimal(out: &mut String, n: u64)
    ensures
        final(out)@ == old(out)@ + decimal(n as nat),
    decreases n,
{
    if n >= 10 {
        push_decimal(out, n / 10);
    }
    let d: u8 = (n % 10) as u8;
    let c = (48u8 + d) as char;
    assert(c == digit_char((n % 10) as nat));
    out.push(c);
    assert(out@ =~= old(out)@ + decimal(n as nat));
}

/// The diagnostic as text: `line: `, its line, ` | error: `, its message.
pub fn render(error: &ScannerError) -> (text: String)
    ensures
        text@ == rendered(*error),
{
    let mut text = String::from_str("line: ");
    push_decimal(&mut text, error.line);
    text.append(" | error: ");
    text.append(error.message.as_str());
    text
}

/// The report of `errors`, ready to be written out.
pub fn format_parser_errors(errors: &[ScannerError]) -> (text: String)
    ensures
        text@ == report(errors@),
{
    let mut text = String::new();
    let mut i: usize = 0;
    assert(errors@.take(0) =~= Seq::empty());
    while i < errors.len()
        invariant
            i <= errors.len(),
            text@ == report(errors@.take(i as int)),
        decreases errors.len() - i,
    {
        let line = render(&errors[i]);
        text.push('\t');
        text.append(line.as_str());
        text.push('\n');
        proof {
            let upto = errors@.take(i + 1);
            assert(upto.drop_last() =~= errors@.take(i as int));
            assert(upto.last() == errors@[i as int]);
            assert(text@ =~= report(upto));
        }
        i = i + 1;
    }
    assert(errors@.take(errors.len() as int) =~= errors@);
    text
}

} // verus!
