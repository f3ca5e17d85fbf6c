use vstd::prelude::*;

verus! {

/// The value of a digit character in `radix`, as `char::to_digit` gives it: `0`-`9`,
/// then `a`-`z` or `A`-`Z` for ten and up; `None` when it is no digit of `radix`.
pub open spec fn digit_value(c: char, radix: int) -> Option<int> {
    let v = if '0' <= c <= '9' {
        c as int - '0' as int
    } else if 'a' <= c <= 'z' {
        c as int - 'a' as int + 10
    } else if 'A' <= c <= 'Z' {
        c as int - 'A' as int + 10
    } else {
        radix
    };
    if v < radix {
        Some(v)
    } else {
        None
    }
}

/// The value of a sequence of digits in `radix`, most significant first.
pub open spec fn digits_value(s: Seq<char>, radix: int) -> Option<int>
    decreases s.len(),
{
    if s.len() == 0 {
        Some(0)
    } else {
        match (digits_value(s.drop_last(), radix), digit_value(s.last(), radix)) {
            (Some(high), Some(low)) => Some(high * radix + low),
            _ => None,
        }
    }
}

/// The integer that std's integer parsing reads from `s`: an optional `+` (or `-` for a
/// signed type) followed by at least one digit of `radix`, and nothing else.
pub open spec fn parse_int(s: Seq<char>, radix: int, signed: bool) -> Option<int> {
    if s.len() == 0 {
        None
    } else {
        let negative = signed && s[0] == '-';
        let digits = if s[0] == '+' || negative {
            s.skip(1)
        } else {
            s
        };
        if digits.len() == 0 {
            None
        } else {
            match digits_value(digits, radix) {
                Some(v) => Some(
                    if negative {
                        -v
                    } else {
                        v
                    },
                ),
                None => None,
            }
        }
    }
}

/// What `i32::from_str_radix(s, radix)` returns, as an option.
pub open spec fn i32_of(s: Seq<char>, radix: int) -> Option<i32> {
    match parse_int(s, radix, true) {
        Some(v) => if i32::MIN <= v <= i32::MAX {
            Some(v as i32)
        } else {
            None
        },
        None => None,
    }
}

/// What `u32::from_str(s)` returns, as an option.
pub open spec fn u32_of(s: Seq<char>) -> Option<u32> {
    match parse_int(s, 10, false) {
        Some(v) => if 0 <= v <= u32::MAX {
            Some(v as u32)
        } else {
            None
        },
        None => None,
    }
}

/// std `i32::from_str_radix`: an optional sign and digits of `radix`, in range; it panics
/// on a radix outside 2 to 36, which `requires` rules out.
#[verifier::external_body]
pub fn i32_from_str_radix(s: &str, radix: u32) -> (r: Option<i32>)
    requires
        2 <= radix <= 36,
    ensures
        r == i32_of(s@, radix as int),
{
    i32::from_str_radix(s, radix).ok()
}

/// std `<u32 as FromStr>::from_str`: an optional `+` and decimal digits, in range.
#[verifier::external_body]
pub fn parse_u32(s: &str) -> (r: Option<u32>)
    ensures
        r == u32_of(s@),
{
    s.parse::<u32>().ok()
}

/// std `<i32 as FromStr>::from_str`: an optional sign and decimal digits, in range.
#[verifier::external_body]
pub fn parse_i32(s: &str) -> (r: Option<i32>)
    ensures
        r == i32_of(s@, 10),
{
    s.parse::<i32>().ok()
}

} // verus!
