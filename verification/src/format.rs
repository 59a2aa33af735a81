//! Rendering one output line: each selected count right-aligned in an
//! eight-character column, columns separated by one space, followed by the
//! source's display name if it has one.

use vstd::prelude::*;
use crate::config::Config;
use crate::counts::WcCounts;

verus! {

/// The decimal digit character for `d` (meaningful for `d < 10`).
pub open spec fn digit_char(d: nat) -> char {
    if d == 0 {
        '0'
    } else if d == 1 {
        '1'
    } else if d == 2 {
        '2'
    } else if d == 3 {
        '3'
    } else if d == 4 {
        '4'
    } else if d == 5 {
        '5'
    } else if d == 6 {
        '6'
    } else if d == 7 {
        '7'
    } else if d == 8 {
        '8'
    } else {
        '9'
    }
}

/// The decimal digits of `n`, most significant first, with no leading zero
/// except for `n == 0` itself.
pub open spec fn dec_rep(n: nat) -> Seq<char>
    decreases n,
{
    if n < 10 {
        seq![digit_char(n)]
    } else {
        dec_rep(n / 10).push(digit_char(n % 10))
    }
}

/// `n` space characters.
pub open spec fn spaces(n: nat) -> Seq<char>
    decreases n,
{
    if n == 0 {
        Seq::empty()
    } else {
        spaces((n - 1) as nat).push(' ')
    }
}

/// `s` padded on the left with spaces to at least `width` characters.
pub open spec fn right_aligned(s: Seq<char>, width: nat) -> Seq<char> {
    if s.len() >= width {
        s
    } else {
        spaces((width - s.len()) as nat) + s
    }
}

/// One rendered count field: the decimal digits of `n`, right-aligned in an
/// eight-character column.
pub open spec fn field_rep(n: nat) -> Seq<char> {
    right_aligned(dec_rep(n), 8)
}

proof fn lemma_spaces_len(n: nat)
    ensures
        spaces(n).len() == n,
    decreases n,
{
    if n > 0 {
        lemma_spaces_len((n - 1) as nat);
    }
}

/// A rendered field fills its column: it is never empty.
proof fn lemma_field_rep_len(n: nat)
    ensures
        field_rep(n).len() >= 8,
{
    if dec_rep(n).len() < 8 {
        lemma_spaces_len((8 - dec_rep(n).len()) as nat);
    }
}

/// A further field appended to a line: separated by one space unless the
/// line is still empty.
pub open spec fn append_field(s: Seq<char>, f: Seq<char>) -> Seq<char> {
    if s.len() == 0 {
        f
    } else {
        s.push(' ') + f
    }
}

/// The selected count fields of one record, in the fixed order lines,
/// words, bytes, each rendered in its column and separated by one space.
pub open spec fn joined_fields(c: WcCounts, cfg: Config) -> Seq<char> {
    let after_lines = if cfg.show_lines {
        append_field(Seq::empty(), field_rep(c.lines as nat))
    } else {
        Seq::empty()
    };
    let after_words = if cfg.show_words {
        append_field(after_lines, field_rep(c.words as nat))
    } else {
        after_lines
    };
    if cfg.show_chars {
        append_field(after_words, field_rep(c.chars as nat))
    } else {
        after_words
    }
}

/// A whole output line: the selected fields, then one space and the display
/// name when the source has one.
pub open spec fn output_line(c: WcCounts, cfg: Config, name: Option<Seq<char>>) -> Seq<char> {
    match name {
        Some(nm) => joined_fields(c, cfg).push(' ') + nm,
        None => joined_fields(c, cfg),
    }
}

/// The view of an optional display name.
pub open spec fn name_view(filename: Option<&str>) -> Option<Seq<char>> {
    match filename {
        Some(nm) => Some(nm@),
        None => None,
    }
}

/// The character for one decimal digit.
fn digit_to_char(d: usize) -> (c: char)
    requires
        d < 10,
    ensures
        c == digit_char(d as nat),
{
    if d == 0 {
        '0'
    } else if d == 1 {
        '1'
    } else if d == 2 {
        '2'
    } else if d == 3 {
        '3'
    } else if d == 4 {
        '4'
    } else if d == 5 {
        '5'
    } else if d == 6 {
        '6'
    } else if d == 7 {
        '7'
    } else if d == 8 {
        '8'
    } else {
        '9'
    }
}

/// One rendered count field, built digit by digit: the decimal digits of
/// `n`, right-aligned with spaces to the eight-character column.
fn format_field(n: usize) -> (s: String)
    ensures
        s@ == field_rep(n as nat),
{
    let mut digits: Vec<char> = Vec::new();
    let mut m: usize = n;
    while m >= 10
        invariant
            dec_rep(n as nat) == dec_rep(m as nat) + digits@.reverse(),
        decreases m,
    {
        let d: usize = m % 10;
        let ghost before: Seq<char> = digits@;
        digits.push(digit_to_char(d));
        proof {
            assert(digits@.reverse() =~= seq![digit_char(d as nat)] + before.reverse());
            assert(dec_rep(n as nat) =~= dec_rep((m / 10) as nat) + digits@.reverse());
        }
        m = m / 10;
    }
    let ghost before_last: Seq<char> = digits@;
    digits.push(digit_to_char(m));
    proof {
        assert(digits@.reverse() =~= seq![digit_char(m as nat)] + before_last.reverse());
        assert(digits@.reverse() =~= dec_rep(n as nat));
    }
    let len: usize = digits.len();
    let mut out = String::new();
    let mut k: usize = len;
    proof {
        assert(out@ =~= spaces(0));
    }
    while k < 8
        invariant
            len <= k,
            len < 8 ==> k <= 8,
            len >= 8 ==> k == len,
            out@ == spaces((k - len) as nat),
        decreases 8 - k,
    {
        push_char(&mut out, ' ');
        proof {
            assert(spaces((k + 1 - len) as nat) == spaces((k - len) as nat).push(' '));
        }
        k = k + 1;
    }
    let ghost pad: Seq<char> = out@;
    let mut t: usize = 0;
    proof {
        assert(pad + digits@.reverse().take(0) =~= pad);
    }
    while t < len
        invariant
            0 <= t <= len,
            len == digits@.len(),
            digits@.reverse() == dec_rep(n as nat),
            out@ == pad + digits@.reverse().take(t as int),
        decreases len - t,
    {
        let c: char = digits[len - 1 - t];
        push_char(&mut out, c);
        proof {
            assert(digits@.reverse()[t as int] == c);
            assert(digits@.reverse().take(t + 1) =~= digits@.reverse().take(t as int).push(c));
            assert(pad + digits@.reverse().take(t + 1) =~= (pad + digits@.reverse().take(
                t as int,
            )).push(c));
        }
        t = t + 1;
    }
    proof {
        assert(digits@.reverse().take(len as int) =~= digits@.reverse());
        if len >= 8 {
            assert(pad =~= Seq::<char>::empty());
            assert(pad + dec_rep(n as nat) =~= dec_rep(n as nat));
        }
    }
    out
}

/// Relies on String::push: appends exactly the one character.
#[verifier::external_body]
fn push_char(s: &mut String, c: char)
    ensures
        final(s)@ == old(s)@.push(c),
{
    s.push(c)
}

/// Relies on String::push_str: appends exactly the slice's characters.
#[verifier::external_body]
fn push_str(s: &mut String, t: &str)
    ensures
        final(s)@ == old(s)@ + t@,
{
    s.push_str(t)
}

/// Render the line for one record under the given configuration, with the
/// source's display name when it has one (standard input has none).
pub fn format_output(counts: &WcCounts, config: &Config, filename: Option<&str>) -> (s: String)
    ensures
        s@ == output_line(*counts, *config, name_view(filename)),
{
    let mut out = String::new();
    let mut first: bool = true;
    if config.show_lines {
        let f = format_field(counts.lines);
        push_str(&mut out, f.as_str());
        proof {
            lemma_field_rep_len(counts.lines as nat);
            assert(Seq::<char>::empty() + field_rep(counts.lines as nat) =~= field_rep(
                counts.lines as nat,
            ));
        }
        first = false;
    }
    if config.show_words {
        if !first {
            push_char(&mut out, ' ');
        }
        let f = format_field(counts.words);
        push_str(&mut out, f.as_str());
        proof {
            lemma_field_rep_len(counts.words as nat);
            if first {
                assert(Seq::<char>::empty() + field_rep(counts.words as nat) =~= field_rep(
                    counts.words as nat,
                ));
            }
        }
        first = false;
    }
    if config.show_chars {
        if !first {
            push_char(&mut out, ' ');
        }
        let f = format_field(counts.chars);
        push_str(&mut out, f.as_str());
        proof {
            lemma_field_rep_len(counts.chars as nat);
            if first {
                assert(Seq::<char>::empty() + field_rep(counts.chars as nat) =~= field_rep(
                    counts.chars as nat,
                ));
            }
        }
    }
    assert(out@ == joined_fields(*counts, *config));
    match filename {
        Some(nm) => {
            push_char(&mut out, ' ');
            push_str(&mut out, nm);
        },
        None => {},
    }
    out
}

} // verus!
