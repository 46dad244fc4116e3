//! Verified text helpers shared by the analyses and the listing front
//! ends: option-of-string comparison and cloning, decimal rendering,
//! thousands grouping, and bounded truncation.
//!
//! All contracts speak about sequences of characters, so multi-byte
//! characters count as one position throughout.

use vstd::prelude::*;

verus! {

/// The views of a sequence of strings.
pub open spec fn seq_views(s: Seq<String>) -> Seq<Seq<char>> {
    s.map_values(|x: String| x@)
}

/// Equality of two optional strings, by contents.
pub open spec fn opt_view_eq(a: Option<String>, b: Option<String>) -> bool {
    match (a, b) {
        (Option::None, Option::None) => true,
        (Option::Some(x), Option::Some(y)) => x@ == y@,
        _ => false,
    }
}

/// Compares two optional strings by contents.
pub fn opt_str_eq(a: &Option<String>, b: &Option<String>) -> (r: bool)
    ensures
        r == opt_view_eq(*a, *b),
{
    match (a, b) {
        (Option::None, Option::None) => true,
        (Option::Some(x), Option::Some(y)) => *x == *y,
        _ => false,
    }
}

/// Copies an optional string.
pub fn clone_opt_string(a: &Option<String>) -> (r: Option<String>)
    ensures
        opt_view_eq(*a, r),
        r is Some <==> *a is Some,
{
    match a {
        Option::None => Option::None,
        Option::Some(x) => Option::Some(x.clone()),
    }
}

/// Copies a vector of strings, contents for contents.
pub fn clone_string_vec(v: &Vec<String>) -> (r: Vec<String>)
    ensures
        seq_views(r@) == seq_views(v@),
{
    let mut r: Vec<String> = Vec::new();
    let n = v.len();
    for i in 0..n
        invariant
            n == v@.len(),
            r@.len() == i,
            forall|k: int| 0 <= k < i ==> r@[k]@ == v@[k]@,
    {
        r.push(v[i].clone());
    }
    proof {
        assert(seq_views(r@) =~= seq_views(v@));
    }
    r
}

/// Copies a vector of fixed-point coordinates.
pub fn clone_i64_vec(v: &Vec<i64>) -> (r: Vec<i64>)
    ensures
        r@ == v@,
{
    let mut r: Vec<i64> = Vec::new();
    let n = v.len();
    for i in 0..n
        invariant
            n == v@.len(),
            r@ == v@.take(i as int),
    {
        r.push(v[i]);
        proof {
            assert(r@ =~= v@.take(i + 1));
        }
    }
    proof {
        assert(v@.take(n as int) =~= v@);
    }
    r
}

/// The character of one decimal digit.
pub open spec fn spec_digit(d: int) -> char {
    if d == 0 {
        '0'
    } else if d == 1 {
        '1'
    } else if d == 2 {
        '2'
    } else if d == 3 {
        '3'
    } else if d == 4 {
        '4'
    } else if d == 5 {
        '5'
    } else if d == 6 {
        '6'
    } else if d == 7 {
        '7'
    } else if d == 8 {
        '8'
    } else {
        '9'
    }
}

/// The decimal rendering of a number, most significant digit first.
pub open spec fn spec_dec_chars(n: int) -> Seq<char>
    decreases n,
{
    if n < 10 {
        seq![spec_digit(n)]
    } else {
        spec_dec_chars(n / 10).push(spec_digit(n % 10))
    }
}

fn digit_str(d: usize) -> (r: &'static str)
    requires
        d < 10,
    ensures
        r@ == seq![spec_digit(d as int)],
{
    proof {
        reveal_strlit("0");
        reveal_strlit("1");
        reveal_strlit("2");
        reveal_strlit("3");
        reveal_strlit("4");
        reveal_strlit("5");
        reveal_strlit("6");
        reveal_strlit("7");
        reveal_strlit("8");
        reveal_strlit("9");
    }
    match d {
        0 => "0",
        1 => "1",
        2 => "2",
        3 => "3",
        4 => "4",
        5 => "5",
        6 => "6",
        7 => "7",
        8 => "8",
        _ => "9",
    }
}

/// Renders a number in decimal.
pub fn dec_string(n: usize) -> (r: String)
    ensures
        r@ == spec_dec_chars(n as int),
    decreases n,
{
    let ds = digit_str(n % 10);
    if n < 10 {
        ds.to_owned()
    } else {
        let prefix = dec_string(n / 10);
        let r = prefix.concat(ds);
        proof {
            assert(r@ =~= spec_dec_chars(n as int));
        }
        r
    }
}

/// A remainder below one thousand, zero-padded to three digits.
pub open spec fn spec_pad3(r: int) -> Seq<char> {
    if r < 10 {
        seq!['0', '0'] + spec_dec_chars(r)
    } else if r < 100 {
        seq!['0'] + spec_dec_chars(r)
    } else {
        spec_dec_chars(r)
    }
}

/// The decimal rendering of a number with a comma between each group of
/// three digits, counted from the right.
pub open spec fn spec_grouped_chars(n: int) -> Seq<char>
    decreases n,
{
    if n < 1000 {
        spec_dec_chars(n)
    } else {
        spec_grouped_chars(n / 1000) + seq![','] + spec_pad3(n % 1000)
    }
}

/// Renders a count with thousands separators.
pub fn format_number(n: usize) -> (r: String)
    ensures
        r@ == spec_grouped_chars(n as int),
    decreases n,
{
    proof {
        reveal_strlit(",");
        reveal_strlit("0");
        reveal_strlit("00");
    }
    if n < 1000 {
        dec_string(n)
    } else {
        let prefix = format_number(n / 1000);
        let rem = n % 1000;
        let rem_digits = dec_string(rem);
        let rem_padded: String = if rem < 10 {
            String::from_str("00").concat(rem_digits.as_str())
        } else if rem < 100 {
            String::from_str("0").concat(rem_digits.as_str())
        } else {
            rem_digits
        };
        let r = prefix.concat(",").concat(rem_padded.as_str());
        proof {
            assert(rem_padded@ =~= spec_pad3(rem as int));
            assert(r@ =~= spec_grouped_chars(n as int));
        }
        r
    }
}

/// A string cut to at most `max_len` characters; anything longer keeps
/// its first `max_len - 3` characters and gains a three-dot ellipsis.
pub open spec fn spec_truncated(s: Seq<char>, max_len: int) -> Seq<char> {
    if s.len() <= max_len {
        s
    } else {
        s.take(if max_len >= 3 {
            max_len - 3
        } else {
            0
        }) + "..."@
    }
}

/// Truncates a string for display.
pub fn truncate_string(s: &str, max_len: usize) -> (r: String)
    ensures
        r@ == spec_truncated(s@, max_len as int),
{
    let len = s.unicode_len();
    if len <= max_len {
        s.to_owned()
    } else {
        let cut: usize = if max_len >= 3 {
            max_len - 3
        } else {
            0
        };
        let prefix = s.substring_char(0, cut);
        let r = prefix.to_owned().concat("...");
        proof {
            assert(s@.subrange(0, cut as int) =~= s@.take(cut as int));
        }
        r
    }
}

} // verus!
