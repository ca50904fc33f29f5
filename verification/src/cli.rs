//! The rules on the two command-line arguments of the server: the port and
//! the administrator's password.

use crate::grammar::{in_class, CharClass};
use vstd::prelude::*;
use vstd::string::*;

verus! {

/// The lowest port that the server may listen on.
pub const MIN_PORT: u16 = 1024;

/// The longest administrator password, in bytes.
pub const MAX_ADMIN_PASSWORD: usize = 4096;

/// Whether `c` is a decimal digit.
pub open spec fn is_decimal(c: char) -> bool {
    '0' <= c && c <= '9'
}

/// Whether `s` is made of decimal digits only.
pub open spec fn all_decimal(s: Seq<char>) -> bool {
    forall|i: int| 0 <= i < s.len() ==> is_decimal(#[trigger] s[i])
}

/// The number that the digits `s` write.
pub open spec fn decimal(s: Seq<char>) -> nat
    decreases s.len(),
{
    if s.len() == 0 {
        0
    } else {
        decimal(s.drop_last()) * 10 + (s.last() as nat - '0' as nat) as nat
    }
}

/// The digits of a port argument: the argument without a plus sign in front.
pub open spec fn port_digits(arg: Seq<char>) -> Seq<char> {
    if arg.len() > 0 && arg[0] == '+' {
        arg.skip(1)
    } else {
        arg
    }
}

/// The port that an argument names: an unsigned decimal number, not
/// beginning with `0`, from 1024 to 65,535. A plus sign may stand in front.
pub open spec fn port_of(arg: Seq<char>) -> Option<u16> {
    let digits = port_digits(arg);
    if arg.len() > 0 && arg[0] != '0' && digits.len() > 0 && all_decimal(digits) && MIN_PORT
        <= decimal(digits) <= u16::MAX {
        Some(decimal(digits) as u16)
    } else {
        None
    }
}

/// Whether an administrator password is accepted: at most 4,096 bytes, each
/// a character of string literals.
pub open spec fn admin_password_ok(arg: Seq<char>) -> bool {
    arg.len() <= MAX_ADMIN_PASSWORD && forall|i: int|
        0 <= i < arg.len() ==> in_class(CharClass::Text, #[trigger] arg[i])
}

/// More digits never write a smaller number.
proof fn lemma_decimal_grows(s: Seq<char>, n: int)
    requires
        0 <= n <= s.len(),
        all_decimal(s),
    ensures
        decimal(s.take(n)) <= decimal(s),
    decreases s.len() - n,
{
    if n < s.len() {
        lemma_decimal_grows(s, n + 1);
        assert(s.take(n + 1).drop_last() =~= s.take(n));
        assert(is_decimal(s[n]));
    } else {
        assert(s.take(n) =~= s);
    }
}

/// The character at `pos` of an ASCII text.
fn char_at(s: &str, pos: usize) -> (c: char)
    requires
        s.is_ascii(),
        pos < s@.len(),
    ensures
        c == s@[pos as int],
{
    let b = s.get_ascii(pos);
    assert(s@[pos as int] <= '\u{7f}');
    b as char
}

/// The length of an ASCII text.
fn length(s: &str) -> (n: usize)
    requires
        s.is_ascii(),
    ensures
        n == s@.len(),
{
    proof {
        is_ascii_spec_bytes(s);
    }
    s.as_bytes().len()
}

/// Reads the port argument.
pub fn read_port(arg: &str) -> (res: Option<u16>)
    ensures
        res == port_of(arg@),
{
    if !arg.is_ascii() {
        proof {
            let i = choose|i: int|
                0 <= i < arg@.len() && !('\0' <= #[trigger] arg@[i] <= '\u{7f}');
            let digits = port_digits(arg@);
            if arg@[0] == '+' {
                assert(i > 0);
                assert(digits[i - 1] == arg@[i]);
                assert(!is_decimal(digits[i - 1]));
            } else {
                assert(!is_decimal(digits[i]));
            }
        }
        return None;
    }
    let n = length(arg);
    if n == 0 {
        return None;
    }
    let first = char_at(arg, 0);
    if first == '0' {
        return None;
    }
    let start: usize = if first == '+' {
        1
    } else {
        0
    };
    if start == n {
        return None;
    }
    let ghost digits = port_digits(arg@);
    let mut value: u32 = 0;
    let mut i: usize = start;
    assert(digits.take(0) =~= Seq::empty());
    while i < n
        invariant
            arg.is_ascii(),
            n == arg@.len(),
            digits == port_digits(arg@),
            start <= i <= n,
            start == n - digits.len(),
            all_decimal(digits.take(i - start)),
            value == decimal(digits.take(i - start)),
            value <= u16::MAX,
        decreases n - i,
    {
        let c = char_at(arg, i);
        assert(digits[i - start] == c);
        if !(c >= '0' && c <= '9') {
            return None;
        }
        let ghost longer = digits.take(i - start + 1);
        proof {
            assert(longer.drop_last() =~= digits.take(i - start));
            assert(longer.last() == c);
        }
        let digit = c as u32 - '0' as u32;
        if value * 10 + digit > 65535 {
            proof {
                if all_decimal(digits) {
                    lemma_decimal_grows(digits, i - start + 1);
                }
            }
            return None;
        }
        value = value * 10 + digit;
        i += 1;
    }
    assert(digits.take(i - start) =~= digits);
    if value >= 1024 {
        Some(value as u16)
    } else {
        None
    }
}

/// Whether `c` is a character of string literals.
fn is_text(c: char) -> (r: bool)
    ensures
        r == in_class(CharClass::Text, c),
{
    (c >= 'a' && c <= 'z') || (c >= 'A' && c <= 'Z') || (c >= '0' && c <= '9') || c == '_' || c
        == ' ' || c == ',' || c == ';' || c == '\\' || c == '.' || c == '?' || c == '!' || c
        == '-'
}

/// Checks the administrator password argument.
pub fn check_admin_password(arg: &str) -> (res: bool)
    ensures
        res == admin_password_ok(arg@),
{
    if !arg.is_ascii() {
        return false;
    }
    let n = length(arg);
    if n > MAX_ADMIN_PASSWORD {
        return false;
    }
    let mut i: usize = 0;
    while i < n
        invariant
            arg.is_ascii(),
            n == arg@.len(),
            i <= n,
            forall|j: int| 0 <= j < i ==> in_class(CharClass::Text, #[trigger] arg@[j]),
        decreases n - i,
    {
        if !is_text(char_at(arg, i)) {
            return false;
        }
        i += 1;
    }
    true
}

} // verus!
