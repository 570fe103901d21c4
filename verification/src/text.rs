//! Verified text building blocks: decimal numbers, padding, truncation.
use vstd::prelude::*;

use vstd::string::StrSliceExecFns;
use vstd::string::StringExecFns;

verus! {

/// The digit character for a value between 0 and 9.
pub open spec fn spec_digit_char(v: int) -> char {
    (v + 48) as char
}

/// The decimal numeral of a non-negative number, most significant digit
/// first, without a sign and without leading zeroes.
pub open spec fn spec_dec(n: int) -> Seq<char>
    decreases n,
{
    if n < 10 {
        seq![spec_digit_char(n)]
    } else {
        spec_dec(n / 10).push(spec_digit_char(n % 10))
    }
}

/// A run of `n` spaces.
pub open spec fn spec_spaces(n: int) -> Seq<char> {
    Seq::new(if n >= 0 {
        n as nat
    } else {
        0
    }, |i: int| ' ')
}

/// `s` padded with spaces on the left up to `width` characters.
pub open spec fn spec_pad_left(s: Seq<char>, width: int) -> Seq<char> {
    spec_spaces(width - s.len()) + s
}

/// `s` padded with spaces on the right up to `width` characters.
pub open spec fn spec_pad_right(s: Seq<char>, width: int) -> Seq<char> {
    s + spec_spaces(width - s.len())
}

/// `s` cut to `max` characters with an ellipsis marker appended when it
/// overflows, or padded with spaces to `max` characters when it does not.
pub open spec fn spec_truncate(s: Seq<char>, max: int) -> Seq<char> {
    if s.len() > max {
        s.take(max) + "..."@
    } else {
        s + spec_spaces(max - s.len())
    }
}

/// The one-character string for a digit value.
pub fn digit_str(v: usize) -> (r: &'static str)
    requires
        v < 10,
    ensures
        r@ == seq![spec_digit_char(v as int)],
        r@.len() == 1,
{
    proof {
        reveal_strlit("0");
        reveal_strlit("1");
        reveal_strlit("2");
        reveal_strlit("3");
        reveal_strlit("4");
        reveal_strlit("5");
        reveal_strlit("6");
        reveal_strlit("7");
        reveal_strlit("8");
        reveal_strlit("9");
    }
    match v {
        0 => "0",
        1 => "1",
        2 => "2",
        3 => "3",
        4 => "4",
        5 => "5",
        6 => "6",
        7 => "7",
        8 => "8",
        _ => "9",
    }
}

/// The decimal numeral of `n`.
pub fn dec_string(n: usize) -> (r: String)
    ensures
        r@ == spec_dec(n as int),
    decreases n,
{
    if n < 10 {
        String::from_str(digit_str(n))
    } else {
        let prefix = dec_string(n / 10);
        prefix.concat(digit_str(n % 10))
    }
}

/// A string of `n` spaces.
pub fn spaces(n: usize) -> (r: String)
    ensures
        r@ == spec_spaces(n as int),
{
    proof {
        reveal_strlit(" ");
    }
    let mut out = String::new();
    let mut i: usize = 0;
    while i < n
        invariant
            i <= n,
            out@ == spec_spaces(i as int),
        decreases n - i,
    {
        out.append(" ");
        i = i + 1;
        proof {
            reveal_strlit(" ");
            assert(out@ =~= spec_spaces(i as int));
        }
    }
    proof {
        assert(out@ =~= spec_spaces(n as int));
    }
    out
}

/// `s` padded with spaces on the left up to `width` characters.
pub fn pad_left(s: &str, width: usize) -> (r: String)
    ensures
        r@ == spec_pad_left(s@, width as int),
{
    let len = s.unicode_len();
    if len >= width {
        proof {
            assert(spec_spaces(width - s@.len()) =~= Seq::<char>::empty());
            assert(spec_pad_left(s@, width as int) =~= s@);
        }
        s.to_owned()
    } else {
        let mut out = spaces(width - len);
        out.append(s);
        out
    }
}

/// `s` padded with spaces on the right up to `width` characters.
pub fn pad_right(s: &str, width: usize) -> (r: String)
    ensures
        r@ == spec_pad_right(s@, width as int),
{
    let len = s.unicode_len();
    let mut out = s.to_owned();
    if len >= width {
        proof {
            assert(spec_spaces(width - s@.len()) =~= Seq::<char>::empty());
            assert(spec_pad_right(s@, width as int) =~= s@);
        }
        out
    } else {
        let pad = spaces(width - len);
        out.append(pad.as_str());
        out
    }
}

/// `s` cut to `max_chars` characters with an ellipsis marker appended when
/// it overflows, or padded with spaces for column alignment when it does not.
pub fn truncate_string(s: &str, max_chars: usize) -> (r: String)
    ensures
        r@ == spec_truncate(s@, max_chars as int),
{
    let len = s.unicode_len();
    if len > max_chars {
        let mut out = s.substring_char(0, max_chars).to_owned();
        proof {
            assert(s@.subrange(0, max_chars as int) =~= s@.take(max_chars as int));
        }
        out.append("...");
        out
    } else {
        pad_right(s, max_chars)
    }
}

} // verus!
