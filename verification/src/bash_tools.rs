//! ANSI escape sequences for terminal colour, and the small string
//! builders the diagnostic renderer is made of.

use vstd::prelude::*;
use vstd::string::StringExecFns;

verus! {

pub const BLACK: u8 = 30;

pub const RED: u8 = 31;

pub const GREEN: u8 = 32;

pub const YELLOW: u8 = 33;

pub const BLUE: u8 = 34;

pub const PURPLE: u8 = 35;

pub const CYAN: u8 = 36;

pub const WHITE: u8 = 37;

pub const LIGHT_BLACK: u8 = 90;

pub const LIGHT_RED: u8 = 91;

pub const LIGHT_GREEN: u8 = 92;

pub const LIGHT_YELLOW: u8 = 93;

pub const LIGHT_BLUE: u8 = 94;

pub const LIGHT_PURPLE: u8 = 95;

pub const LIGHT_CYAN: u8 = 96;

pub const LIGHT_WHITE: u8 = 97;

pub const PLAIN: u8 = 0;

pub const BOLD: u8 = 1;

pub const DIM: u8 = 2;

pub const UNDERLINE: u8 = 4;

pub const BLINKING: u8 = 5;

pub const REVERSED: u8 = 7;

pub const RESET_COLOR: &'static str = "\u{001b}[0;0m";

/// Relies on `String::push`: appends the given character to the end
/// of the string.
#[verifier::external_body]
pub fn push_char(s: &mut String, c: char)
    ensures
        final(s)@ == old(s)@.push(c),
{
    s.push(c);
}

/// Relies on `str::chars`: hands out the characters of the string,
/// in order.
#[verifier::external_body]
pub fn string_chars(s: &str) -> (r: Vec<char>)
    ensures
        r@ == s@,
{
    s.chars().collect()
}

/// A string holding exactly the given characters.
pub fn string_of_chars(v: &Vec<char>) -> (r: String)
    ensures
        r@ == v@,
{
    let mut s = String::new();
    let n = v.len();
    let mut i: usize = 0;
    while i < n
        invariant
            i <= n,
            n == v@.len(),
            s@ == v@.take(i as int),
        decreases n - i,
    {
        push_char(&mut s, v[i]);
        i += 1;
        proof {
            assert(s@ =~= v@.take(i as int));
        }
    }
    proof {
        assert(v@.take(n as int) =~= v@);
    }
    s
}

/// The character for one decimal digit.
pub open spec fn digit_char(d: nat) -> char {
    if d == 0 {
        '0'
    } else if d == 1 {
        '1'
    } else if d == 2 {
        '2'
    } else if d == 3 {
        '3'
    } else if d == 4 {
        '4'
    } else if d == 5 {
        '5'
    } else if d == 6 {
        '6'
    } else if d == 7 {
        '7'
    } else if d == 8 {
        '8'
    } else {
        '9'
    }
}

/// The usual decimal rendering of `n`, most significant digit first,
/// without leading zeroes (a single `'0'` for zero).
pub open spec fn dec_rep(n: nat) -> Seq<char>
    decreases n,
{
    if n < 10 {
        seq![digit_char(n)]
    } else {
        dec_rep(n / 10).push(digit_char(n % 10))
    }
}

fn digit_of(d: usize) -> (r: char)
    requires
        d < 10,
    ensures
        r == digit_char(d as nat),
{
    if d == 0 {
        '0'
    } else if d == 1 {
        '1'
    } else if d == 2 {
        '2'
    } else if d == 3 {
        '3'
    } else if d == 4 {
        '4'
    } else if d == 5 {
        '5'
    } else if d == 6 {
        '6'
    } else if d == 7 {
        '7'
    } else if d == 8 {
        '8'
    } else {
        '9'
    }
}

/// The decimal rendering of a number, for line numbers, columns and
/// colour codes.
pub fn usize_to_string(n: usize) -> (r: String)
    ensures
        r@ == dec_rep(n as nat),
    decreases n,
{
    if n < 10 {
        let mut s = String::new();
        push_char(&mut s, digit_of(n));
        proof {
            assert(s@ =~= dec_rep(n as nat));
        }
        s
    } else {
        let mut s = usize_to_string(n / 10);
        push_char(&mut s, digit_of(n % 10));
        s
    }
}

/// How many digits the decimal rendering has, by magnitude.
pub proof fn lemma_dec_rep_len(n: nat)
    ensures
        n < 10 ==> dec_rep(n).len() == 1,
        10 <= n < 100 ==> dec_rep(n).len() == 2,
        100 <= n < 1000 ==> dec_rep(n).len() == 3,
        1000 <= n < 10000 ==> dec_rep(n).len() == 4,
        10000 <= n ==> dec_rep(n).len() >= 5,
    decreases n,
{
    if n >= 10 {
        lemma_dec_rep_len(n / 10);
    }
}

/// `n` copies of the character `c`.
pub open spec fn char_rep(c: char, n: nat) -> Seq<char> {
    Seq::new(n, |i: int| c)
}

/// A string of `n` copies of `c`, used for caret underlines and
/// indents.
pub fn repeat_char(c: char, n: usize) -> (r: String)
    ensures
        r@ == char_rep(c, n as nat),
{
    let mut s = String::new();
    let mut i: usize = 0;
    while i < n
        invariant
            i <= n,
            s@ == char_rep(c, i as nat),
        decreases n - i,
    {
        push_char(&mut s, c);
        i += 1;
        proof {
            assert(s@ =~= char_rep(c, i as nat));
        }
    }
    s
}

/// The view of an ANSI escape sequence selecting a decoration and a
/// colour.
pub open spec fn color_seq(decor: nat, col: nat) -> Seq<char> {
    "\u{001b}["@ + dec_rep(decor) + ";"@ + dec_rep(col) + "m"@
}

/// The ANSI escape sequence that turns on the given decoration and
/// colour.
pub fn color(decor: u8, col: u8) -> (r: String)
    ensures
        r@ == color_seq(decor as nat, col as nat),
{
    let mut s = String::from_str("\u{001b}[");
    s.append(usize_to_string(decor as usize).as_str());
    s.append(";");
    s.append(usize_to_string(col as usize).as_str());
    s.append("m");
    s
}

} // verus!
