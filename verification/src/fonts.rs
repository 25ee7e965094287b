use vstd::prelude::*;

verus! {

/// Width of a character in the reference font (Helvetica), in thousandths
/// of the font size. Characters outside the printable ASCII range have no
/// metric here and count as zero.
pub open spec fn spec_char_width(c: char) -> int {
    match c {
        ' ' => 278,
        '!' => 278,
        '"' => 355,
        '#' => 556,
        '$' => 556,
        '%' => 889,
        '&' => 667,
        '\'' => 191,
        '(' => 333,
        ')' => 333,
        '*' => 389,
        '+' => 584,
        ',' => 278,
        '-' => 333,
        '.' => 278,
        '/' => 278,
        '0' => 556,
        '1' => 556,
        '2' => 556,
        '3' => 556,
        '4' => 556,
        '5' => 556,
        '6' => 556,
        '7' => 556,
        '8' => 556,
        '9' => 556,
        ':' => 278,
        ';' => 278,
        '<' => 584,
        '=' => 584,
        '>' => 584,
        '?' => 556,
        '@' => 1015,
        'A' => 667,
        'B' => 667,
        'C' => 722,
        'D' => 722,
        'E' => 667,
        'F' => 611,
        'G' => 778,
        'H' => 722,
        'I' => 278,
        'J' => 500,
        'K' => 667,
        'L' => 556,
        'M' => 833,
        'N' => 722,
        'O' => 778,
        'P' => 667,
        'Q' => 778,
        'R' => 722,
        'S' => 667,
        'T' => 611,
        'U' => 722,
        'V' => 667,
        'W' => 944,
        'X' => 667,
        'Y' => 667,
        'Z' => 611,
        '[' => 278,
        '\\' => 278,
        ']' => 278,
        '^' => 469,
        '_' => 556,
        '`' => 333,
        'a' => 556,
        'b' => 556,
        'c' => 500,
        'd' => 556,
        'e' => 556,
        'f' => 278,
        'g' => 556,
        'h' => 556,
        'i' => 222,
        'j' => 222,
        'k' => 500,
        'l' => 222,
        'm' => 833,
        'n' => 556,
        'o' => 556,
        'p' => 556,
        'q' => 556,
        'r' => 333,
        's' => 500,
        't' => 278,
        'u' => 556,
        'v' => 500,
        'w' => 722,
        'x' => 500,
        'y' => 500,
        'z' => 500,
        '{' => 334,
        '|' => 260,
        '}' => 334,
        '~' => 584,
        _ => 0,
    }
}

/// Natural width of a text in the reference font, in thousandths of the
/// font size: the sum of its characters' widths.
pub open spec fn text_width_millis(s: Seq<char>) -> int
    decreases s.len(),
{
    if s.len() == 0 {
        0
    } else {
        text_width_millis(s.drop_last()) + spec_char_width(s.last())
    }
}

pub fn char_width_millis(c: char) -> (w: u16)
    ensures
        w == spec_char_width(c),
{
    match c {
        ' ' => 278,
        '!' => 278,
        '"' => 355,
        '#' => 556,
        '$' => 556,
        '%' => 889,
        '&' => 667,
        '\'' => 191,
        '(' => 333,
        ')' => 333,
        '*' => 389,
        '+' => 584,
        ',' => 278,
        '-' => 333,
        '.' => 278,
        '/' => 278,
        '0' => 556,
        '1' => 556,
        '2' => 556,
        '3' => 556,
        '4' => 556,
        '5' => 556,
        '6' => 556,
        '7' => 556,
        '8' => 556,
        '9' => 556,
        ':' => 278,
        ';' => 278,
        '<' => 584,
        '=' => 584,
        '>' => 584,
        '?' => 556,
        '@' => 1015,
        'A' => 667,
        'B' => 667,
        'C' => 722,
        'D' => 722,
        'E' => 667,
        'F' => 611,
        'G' => 778,
        'H' => 722,
        'I' => 278,
        'J' => 500,
        'K' => 667,
        'L' => 556,
        'M' => 833,
        'N' => 722,
        'O' => 778,
        'P' => 667,
        'Q' => 778,
        'R' => 722,
        'S' => 667,
        'T' => 611,
        'U' => 722,
        'V' => 667,
        'W' => 944,
        'X' => 667,
        'Y' => 667,
        'Z' => 611,
        '[' => 278,
        '\\' => 278,
        ']' => 278,
        '^' => 469,
        '_' => 556,
        '`' => 333,
        'a' => 556,
        'b' => 556,
        'c' => 500,
        'd' => 556,
        'e' => 556,
        'f' => 278,
        'g' => 556,
        'h' => 556,
        'i' => 222,
        'j' => 222,
        'k' => 500,
        'l' => 222,
        'm' => 833,
        'n' => 556,
        'o' => 556,
        'p' => 556,
        'q' => 556,
        'r' => 333,
        's' => 500,
        't' => 278,
        'u' => 556,
        'v' => 500,
        'w' => 722,
        'x' => 500,
        'y' => 500,
        'z' => 500,
        '{' => 334,
        '|' => 260,
        '}' => 334,
        '~' => 584,
        _ => 0,
    }
}

proof fn lemma_char_width_range(c: char)
    ensures
        0 <= spec_char_width(c) <= 1015,
{
}

proof fn lemma_text_width_nonneg(s: Seq<char>)
    ensures
        0 <= text_width_millis(s) <= 1015 * s.len(),
    decreases s.len(),
{
    if s.len() > 0 {
        lemma_text_width_nonneg(s.drop_last());
        lemma_char_width_range(s.last());
    }
}

/// Measures a text's natural width in the reference font, in thousandths of
/// the font size.
pub fn str_width_millis(text: &str) -> (w: u128)
    ensures
        w == text_width_millis(text@),
        0 <= w <= 1015 * text@.len(),
        w < 0x4000_0000_0000_0000_0000,
{
    let n = text.unicode_len();
    let mut w: u128 = 0;
    let mut i: usize = 0;
    while i < n
        invariant
            0 <= i <= n,
            n == text@.len(),
            w == text_width_millis(text@.take(i as int)),
            w <= 1015 * i,
        decreases n - i,
    {
        let c = text.get_char(i);
        let cw = char_width_millis(c);
        proof {
            assert(text@.take(i + 1).drop_last() =~= text@.take(i as int));
            assert(text@.take(i + 1).last() == text@[i as int]);
        }
        w = w + (cw as u128);
        i = i + 1;
    }
    proof {
        assert(text@.take(n as int) =~= text@);
        lemma_text_width_nonneg(text@);
    }
    w
}

} // verus!
