//! A block written as text: eight lines of eight numbers, each number padded
//! on the left to three characters.
use vstd::prelude::*;
use vstd::string::StringExecFns;

verus! {

/// The character of a decimal digit.
pub open spec fn digit(d: int) -> char {
    if d == 0 {
        '0'
    } else if d == 1 {
        '1'
    } else if d == 2 {
        '2'
    } else if d == 3 {
        '3'
    } else if d == 4 {
        '4'
    } else if d == 5 {
        '5'
    } else if d == 6 {
        '6'
    } else if d == 7 {
        '7'
    } else if d == 8 {
        '8'
    } else {
        '9'
    }
}

/// A sample in decimal, padded on the left with spaces to three characters.
pub open spec fn padded(v: int) -> Seq<char> {
    if v >= 100 {
        seq![digit(v / 100), digit((v / 10) % 10), digit(v % 10)]
    } else if v >= 10 {
        seq![' ', digit(v / 10), digit(v % 10)]
    } else {
        seq![' ', ' ', digit(v)]
    }
}

/// The first `n` samples of row `row`, each followed by a space.
pub open spec fn line_prefix(f: Seq<u8>, row: int, n: int) -> Seq<char>
    decreases n,
{
    if n <= 0 {
        Seq::empty()
    } else {
        line_prefix(f, row, n - 1) + padded(f[row * 8 + n - 1] as int) + seq![' ']
    }
}

/// Row `row` as a line: eight padded samples with a space between neighbours,
/// and a line feed at the end.
pub open spec fn line(f: Seq<u8>, row: int) -> Seq<char> {
    line_prefix(f, row, 7) + padded(f[row * 8 + 7] as int) + seq!['\n']
}

/// The first `n` rows as lines.
pub open spec fn lines(f: Seq<u8>, n: int) -> Seq<char>
    decreases n,
{
    if n <= 0 {
        Seq::empty()
    } else {
        lines(f, n - 1) + line(f, n - 1)
    }
}

/// A decimal digit as text.
fn digit_text(d: u8) -> (s: &'static str)
    requires
        d < 10,
    ensures
        s@ == seq![digit(d as int)],
{
    proof {
        reveal_strlit("0");
        reveal_strlit("1");
        reveal_strlit("2");
        reveal_strlit("3");
        reveal_strlit("4");
        reveal_strlit("5");
        reveal_strlit("6");
        reveal_strlit("7");
        reveal_strlit("8");
        reveal_strlit("9");
    }
    let s = if d == 0 {
        "0"
    } else if d == 1 {
        "1"
    } else if d == 2 {
        "2"
    } else if d == 3 {
        "3"
    } else if d == 4 {
        "4"
    } else if d == 5 {
        "5"
    } else if d == 6 {
        "6"
    } else if d == 7 {
        "7"
    } else if d == 8 {
        "8"
    } else {
        "9"
    };
    assert(s@ =~= seq![digit(d as int)]);
    s
}

/// Appends a sample, padded to three characters.
pub fn push_padded(text: &mut String, v: u8)
    ensures
        final(text)@ == old(text)@ + padded(v as int),
{
    proof {
        reveal_strlit(" ");
    }
    if v >= 100 {
        text.append(digit_text(v / 100));
    } else {
        text.append(" ");
    }
    if v >= 10 {
        text.append(digit_text((v / 10) % 10));
    } else {
        text.append(" ");
    }
    text.append(digit_text(v % 10));
    assert(text@ =~= old(text)@ + padded(v as int));
}

/// Appends row `row` of the block as a line.
pub fn push_line(text: &mut String, f: &[u8], row: usize)
    requires
        f.len() == 64,
        row < 8,
    ensures
        final(text)@ == old(text)@ + line(f@, row as int),
{
    proof {
        reveal_strlit(" ");
        reveal_strlit("\n");
    }
    let mut n: usize = 0;
    while n < 7
        invariant
            n <= 7,
            row < 8,
            f.len() == 64,
            "\n"@ == seq!['\n'],
            " "@ == seq![' '],
            text@ == old(text)@ + line_prefix(f@, row as int, n as int),
        decreases 7 - n,
    {
        let ghost before = text@;
        push_padded(text, f[row * 8 + n]);
        text.append(" ");
        proof {
            assert(text@ =~= old(text)@ + line_prefix(f@, row as int, n + 1));
        }
        n += 1;
    }
    push_padded(text, f[row * 8 + 7]);
    text.append("\n");
    assert(text@ =~= old(text)@ + line(f@, row as int));
}

} // verus!
