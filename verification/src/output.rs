//! Texts for the outputs of the experiments: protecting text for LaTeX and
//! making LaTeX command names, and the error of an output backend.

use vstd::prelude::*;
use std::path::PathBuf;
use crate::text::char_to_string;

verus! {

/// The path type of std, carried through as it is.
#[verifier::external_type_specification]
#[verifier::external_body]
pub struct ExPathBuf(PathBuf);

/// The I/O error type of std, carried through as it is.
#[verifier::external_type_specification]
#[verifier::external_body]
pub struct ExIoError(std::io::Error);

///What may go wrong when generating an output.
pub enum BackendError {
    CouldNotGenerateFile { filepath: PathBuf, io_error: Option<std::io::Error> },
}

///How LaTeX is told a character: `_` and `%` are escaped with a backslash, the rest kept.
pub open spec fn latex_protected_char(c: char) -> Seq<char> {
    if c == '_' { seq!['\\', '_'] } else if c == '%' { seq!['\\', '%'] } else { seq![c] }
}

///A text with each character as LaTeX is told it.
pub open spec fn latex_protected(text: Seq<char>) -> Seq<char>
    decreases text.len(),
{
    if text.len() == 0 { Seq::empty() } else { latex_protected(text.drop_last()) + latex_protected_char(text.last()) }
}

///Protect a text to be written inside a LaTeX document.
pub fn latex_protect_text(text: &str) -> (r: String)
    ensures
        r@ == latex_protected(text@),
{
    let n = text.unicode_len();
    let mut r = String::new();
    let mut i: usize = 0;
    while i < n
        invariant
            i <= n,
            n == text@.len(),
            r@ == latex_protected(text@.take(i as int)),
        decreases n - i,
    {
        let c = text.get_char(i);
        proof {
            reveal_strlit("\\_");
            reveal_strlit("\\%");
            assert(text@.take(i + 1).drop_last() == text@.take(i as int));
            assert(text@.take(i + 1).last() == c);
        }
        if c == '_' {
            r.append("\\_");
        } else if c == '%' {
            r.append("\\%");
        } else {
            let s = char_to_string(c);
            r.append(s.as_str());
        }
        i = i + 1;
    }
    proof {
        assert(text@.take(n as int) == text@);
    }
    r
}

///The letters a character is replaced by in a LaTeX command name: letters stay, digits become roman numerals behind an `R` (`0` is just `R`), `_` is `u`, `:` is `c` and anything else `x`.
pub open spec fn command_name_part(c: char) -> Seq<char> {
    if ('a' <= c && c <= 'z') || ('A' <= c && c <= 'Z') { seq![c] }
    else if c == '0' { "R"@ }
    else if c == '1' { "RI"@ }
    else if c == '2' { "RII"@ }
    else if c == '3' { "RIII"@ }
    else if c == '4' { "RIV"@ }
    else if c == '5' { "RV"@ }
    else if c == '6' { "RVI"@ }
    else if c == '7' { "RVII"@ }
    else if c == '8' { "RVIII"@ }
    else if c == '9' { "RIX"@ }
    else if c == '_' { "u"@ }
    else if c == ':' { "c"@ }
    else { "x"@ }
}

///A text with each character replaced as in a command name.
pub open spec fn command_name(text: Seq<char>) -> Seq<char>
    decreases text.len(),
{
    if text.len() == 0 { Seq::empty() } else { command_name(text.drop_last()) + command_name_part(text.last()) }
}

fn command_name_piece(c: char) -> (s: &'static str)
    requires
        !(('a' <= c && c <= 'z') || ('A' <= c && c <= 'Z')),
    ensures
        s@ == command_name_part(c),
{
    if c == '0' { "R" }
    else if c == '1' { "RI" }
    else if c == '2' { "RII" }
    else if c == '3' { "RIII" }
    else if c == '4' { "RIV" }
    else if c == '5' { "RV" }
    else if c == '6' { "RVI" }
    else if c == '7' { "RVII" }
    else if c == '8' { "RVIII" }
    else if c == '9' { "RIX" }
    else if c == '_' { "u" }
    else if c == ':' { "c" }
    else { "x" }
}

///Make a command name trying to include all of `text`, replacing all non-alphabetic characters.
pub fn latex_make_command_name(text: &str) -> (r: String)
    ensures
        r@ == command_name(text@),
{
    let n = text.unicode_len();
    let mut r = String::new();
    let mut i: usize = 0;
    while i < n
        invariant
            i <= n,
            n == text@.len(),
            r@ == command_name(text@.take(i as int)),
        decreases n - i,
    {
        let c = text.get_char(i);
        proof {
            assert(text@.take(i + 1).drop_last() == text@.take(i as int));
            assert(text@.take(i + 1).last() == c);
        }
        if ('a' <= c && c <= 'z') || ('A' <= c && c <= 'Z') {
            let s = char_to_string(c);
            r.append(s.as_str());
        } else {
            r.append(command_name_piece(c));
        }
        i = i + 1;
    }
    proof {
        assert(text@.take(n as int) == text@);
    }
    r
}


///The numeral of a run of `k` ones: `I` written `k` times.
pub open spec fn ones(k: nat) -> Seq<char>
    decreases k,
{
    if k == 0 { Seq::empty() } else { ones((k - 1) as nat).push('I') }
}

///The standard roman numeral of a number below ten: one less than five or ten is written subtractively (`IV`, `IX`),
///otherwise a five (`V`) followed by as many ones as are left, each one an `I`.
pub open spec fn standard_roman(n: nat) -> Seq<char> {
    if n == 4 {
        seq!['I', 'V']
    } else if n == 9 {
        seq!['I', 'X']
    } else if n >= 5 {
        seq!['V'] + ones((n - 5) as nat)
    } else {
        ones(n)
    }
}

///The value of a roman symbol.
pub open spec fn roman_symbol(c: char) -> int {
    if c == 'I' { 1 } else if c == 'V' { 5 } else if c == 'X' { 10 } else { 0 }
}

///The value of a roman numeral: symbols add up, except a symbol before a greater one, which is subtracted.
pub open spec fn roman_value(s: Seq<char>) -> int
    decreases s.len(),
{
    if s.len() == 0 {
        0
    } else if s.len() >= 2 && roman_symbol(s[0]) < roman_symbol(s[1]) {
        roman_symbol(s[1]) - roman_symbol(s[0]) + roman_value(s.subrange(2, s.len() as int))
    } else {
        roman_symbol(s[0]) + roman_value(s.drop_first())
    }
}

///No symbol of a numeral is written four times in a row.
pub open spec fn no_four_in_a_row(s: Seq<char>) -> bool {
    forall|i: int| 0 <= i && i + 3 < s.len() ==> !(s[i] == s[i + 1] && s[i + 1] == s[i + 2] && #[trigger] s[i + 2] == s[i + 3])
}

///In a command name a digit `d` becomes `R` followed by the standard roman numeral of `d`, whose value is `d` and which
///never repeats a symbol four times; `0` becomes `R` alone.
pub proof fn lemma_digits_become_roman_numerals(d: nat)
    requires
        d <= 9,
    ensures
        command_name_part(char_of_digit(d)) == seq!['R'] + standard_roman(d),
        roman_value(standard_roman(d)) == d,
        no_four_in_a_row(standard_roman(d)),
{
    reveal_strlit("R");
    reveal_strlit("RI");
    reveal_strlit("RII");
    reveal_strlit("RIII");
    reveal_strlit("RIV");
    reveal_strlit("RV");
    reveal_strlit("RVI");
    reveal_strlit("RVII");
    reveal_strlit("RVIII");
    reveal_strlit("RIX");
    assert(ones(0) =~= Seq::<char>::empty());
    assert(ones(1) =~= seq!['I']);
    assert(ones(2) =~= seq!['I', 'I']);
    assert(ones(3) =~= seq!['I', 'I', 'I']);
    let r = standard_roman(d);
    if d == 0 {
        assert(seq!['R'] + r =~= "R"@);
    } else if d == 1 {
        assert(seq!['R'] + r =~= "RI"@);
    } else if d == 2 {
        assert(seq!['R'] + r =~= "RII"@);
    } else if d == 3 {
        assert(seq!['R'] + r =~= "RIII"@);
    } else if d == 4 {
        assert(seq!['R'] + r =~= "RIV"@);
    } else if d == 5 {
        assert(r =~= seq!['V']);
        assert(seq!['R'] + r =~= "RV"@);
    } else if d == 6 {
        assert(r =~= seq!['V', 'I']);
        assert(seq!['R'] + r =~= "RVI"@);
    } else if d == 7 {
        assert(r =~= seq!['V', 'I', 'I']);
        assert(seq!['R'] + r =~= "RVII"@);
    } else if d == 8 {
        assert(r =~= seq!['V', 'I', 'I', 'I']);
        assert(seq!['R'] + r =~= "RVIII"@);
    } else {
        assert(seq!['R'] + r =~= "RIX"@);
    }
    lemma_small_roman_values();
    if d == 5 {
        assert(r =~= seq!['V']);
    } else if d == 6 {
        assert(r =~= seq!['V', 'I']);
    } else if d == 7 {
        assert(r =~= seq!['V', 'I', 'I']);
    } else if d == 8 {
        assert(r =~= seq!['V', 'I', 'I', 'I']);
    }
}

///The values of the numerals of the digits, symbol by symbol.
proof fn lemma_small_roman_values()
    ensures
        roman_value(Seq::<char>::empty()) == 0,
        roman_value(seq!['I']) == 1,
        roman_value(seq!['I', 'I']) == 2,
        roman_value(seq!['I', 'I', 'I']) == 3,
        roman_value(seq!['I', 'V']) == 4,
        roman_value(seq!['V']) == 5,
        roman_value(seq!['V', 'I']) == 6,
        roman_value(seq!['V', 'I', 'I']) == 7,
        roman_value(seq!['V', 'I', 'I', 'I']) == 8,
        roman_value(seq!['I', 'X']) == 9,
{
    assert(seq!['I'].drop_first() =~= Seq::<char>::empty());
    assert(seq!['I', 'I'].drop_first() =~= seq!['I']);
    assert(seq!['I', 'I', 'I'].drop_first() =~= seq!['I', 'I']);
    assert(seq!['I', 'V'].subrange(2, 2) =~= Seq::<char>::empty());
    assert(seq!['V'].drop_first() =~= Seq::<char>::empty());
    assert(seq!['V', 'I'].drop_first() =~= seq!['I']);
    assert(seq!['V', 'I', 'I'].drop_first() =~= seq!['I', 'I']);
    assert(seq!['V', 'I', 'I', 'I'].drop_first() =~= seq!['I', 'I', 'I']);
    assert(seq!['I', 'X'].subrange(2, 2) =~= Seq::<char>::empty());
    assert(roman_value(Seq::<char>::empty()) == 0);
    assert(roman_value(seq!['I']) == 1);
    assert(roman_value(seq!['I', 'I']) == 2);
    assert(roman_value(seq!['I', 'I', 'I']) == 3);
    assert(roman_value(seq!['V']) == 5);
    assert(roman_value(seq!['V', 'I']) == 6);
    assert(roman_value(seq!['V', 'I', 'I']) == 7);
}

///The character of a decimal digit.
pub open spec fn char_of_digit(d: nat) -> char {
    if d == 0 { '0' } else if d == 1 { '1' } else if d == 2 { '2' } else if d == 3 { '3' } else if d == 4 { '4' }
    else if d == 5 { '5' } else if d == 6 { '6' } else if d == 7 { '7' } else if d == 8 { '8' } else { '9' }
}

} // verus!
