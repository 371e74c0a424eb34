//! Parsing of `key=value` tokens that name user functions and user types.
use vstd::prelude::*;
use vstd::string::*;
use num_bigint::BigUint;

verus! {

/// Why a `key=value` token was refused.
#[derive(Debug, Clone, Copy, PartialEq, Eq)]
pub enum MappingError {
    /// The token holds no `=`.
    MissingSeparator,
    /// The text before the first `=` is not a valid key.
    InvalidKey,
}

/// The position of the first `=` in the text.
pub open spec fn first_separator(s: Seq<char>) -> Option<int>
    decreases s.len(),
{
    if s.len() == 0 {
        None
    } else if s[0] == '=' {
        Some(0)
    } else {
        match first_separator(s.drop_first()) {
            Some(k) => Some(k + 1),
            None => None,
        }
    }
}

/// Every character is an ASCII decimal digit.
pub open spec fn all_digits(s: Seq<char>) -> bool {
    forall|i: int| 0 <= i < s.len() ==> '0' <= #[trigger] s[i] && s[i] <= '9'
}

/// The value of a string of decimal digits.
pub open spec fn digits_value(s: Seq<char>) -> int
    decreases s.len(),
{
    if s.len() == 0 {
        0
    } else {
        digits_value(s.drop_last()) * 10 + (s.last() as u32 - '0' as u32)
    }
}

/// The text without one leading `+`.
pub open spec fn unsigned_text(s: Seq<char>) -> Seq<char> {
    if s.len() > 0 && s[0] == '+' {
        s.drop_first()
    } else {
        s
    }
}

/// The `u64` that the text denotes in decimal, with an optional leading `+`.
pub open spec fn u64_of(s: Seq<char>) -> Option<u64> {
    let d = unsigned_text(s);
    if d.len() > 0 && all_digits(d) && digits_value(d) <= u64::MAX {
        Some(digits_value(d) as u64)
    } else {
        None
    }
}

/// A string of digits is worth at least any of its prefixes.
proof fn lemma_prefix_value(s: Seq<char>, k: int)
    requires
        all_digits(s),
        0 <= k <= s.len(),
    ensures
        0 <= digits_value(s.subrange(0, k)) <= digits_value(s),
    decreases s.len(),
{
    if k < s.len() {
        let pre = s.drop_last();
        assert(pre.subrange(0, k) =~= s.subrange(0, k));
        lemma_prefix_value(pre, k);
        lemma_prefix_value(pre, pre.len() as int);
        assert(pre.subrange(0, pre.len() as int) =~= pre);
        assert('0' <= s[s.len() - 1] <= '9');
        let x = digits_value(pre);
        assert(x * 10 >= x) by (nonlinear_arith)
            requires
                x >= 0,
        ;
    } else {
        assert(s.subrange(0, k) =~= s);
        if s.len() > 0 {
            let pre = s.drop_last();
            lemma_prefix_value(pre, pre.len() as int);
            assert(pre.subrange(0, pre.len() as int) =~= pre);
            assert('0' <= s[s.len() - 1] <= '9');
        }
    }
}

/// Parses a decimal `u64`, with an optional leading `+`, as std's `u64`
/// parsing does.
pub fn parse_u64(s: &str) -> (r: Option<u64>)
    ensures
        r == u64_of(s@),
{
    let n = s.unicode_len();
    let mut start: usize = 0;
    if n > 0 && s.get_char(0) == '+' {
        start = 1;
    }
    let ghost d = unsigned_text(s@);
    assert(d =~= s@.subrange(start as int, n as int));
    if start == n {
        return None;
    }
    let mut v: u64 = 0;
    let mut i: usize = start;
    while i < n
        invariant
            start <= i <= n,
            n == s@.len(),
            d == s@.subrange(start as int, n as int),
            d == unsigned_text(s@),
            d.len() > 0,
            all_digits(d.subrange(0, i - start)),
            v as int == digits_value(d.subrange(0, i - start)),
        decreases n - i,
    {
        let c = s.get_char(i);
        let ghost k = i - start;
        assert(d[k] == c);
        if !('0' <= c && c <= '9') {
            assert(!all_digits(d));
            return None;
        }
        let ghost next = d.subrange(0, k + 1);
        assert(next.drop_last() =~= d.subrange(0, k));
        assert(next.last() == c);
        assert(all_digits(next));
        let digit = (c as u32 - '0' as u32) as u64;
        let shifted = match v.checked_mul(10) {
            Some(x) => x,
            None => {
                proof {
                    if all_digits(d) {
                        lemma_prefix_value(d, k + 1);
                    }
                }
                return None;
            },
        };
        v = match shifted.checked_add(digit) {
            Some(x) => x,
            None => {
                proof {
                    if all_digits(d) {
                        lemma_prefix_value(d, k + 1);
                    }
                }
                return None;
            },
        };
        i = i + 1;
    }
    assert(d.subrange(0, n - start) =~= d);
    Some(v)
}

/// Splits a token at its first `=`.
fn split_mapping(input: &str) -> (r: Option<(&str, &str)>)
    ensures
        match first_separator(input@) {
            None => r is None,
            Some(k) => r matches Some(p) && p.0@ == input@.subrange(0, k) && p.1@ == input@.subrange(
                k + 1,
                input@.len() as int,
            ),
        },
{
    let n = input.unicode_len();
    let mut i: usize = 0;
    assert(input@.subrange(0, n as int) =~= input@);
    while i < n
        invariant
            i <= n,
            n == input@.len(),
            forall|j: int| 0 <= j < i ==> input@[j] != '=',
            first_separator(input@) == match first_separator(input@.subrange(i as int, n as int)) {
                Some(k) => Some(k + i),
                None => None::<int>,
            },
        decreases n - i,
    {
        let ghost rest = input@.subrange(i as int, n as int);
        assert(rest.drop_first() =~= input@.subrange(i + 1, n as int));
        let c = input.get_char(i);
        assert(rest[0] == c);
        if c == '=' {
            return Some((input.substring_char(0, i), input.substring_char(i + 1, n)));
        }
        i = i + 1;
    }
    None
}

/// The function mapping that a `id=name` token gives.
pub open spec fn function_mapping_of(s: Seq<char>) -> Result<(u64, Seq<char>), MappingError> {
    match first_separator(s) {
        None => Err(MappingError::MissingSeparator),
        Some(k) => match u64_of(s.subrange(0, k)) {
            None => Err(MappingError::InvalidKey),
            Some(id) => Ok((id, s.subrange(k + 1, s.len() as int))),
        },
    }
}

/// Parses a `id=name` token that names a user function.
pub fn parse_custom_mapping(input: &str) -> (r: Result<(u64, String), MappingError>)
    ensures
        match (r, function_mapping_of(input@)) {
            (Ok(m), Ok(s)) => m.0 == s.0 && m.1@ == s.1,
            (Err(e), Err(f)) => e == f,
            _ => false,
        },
{
    let (key, value) = match split_mapping(input) {
        Some(p) => p,
        None => {
            return Err(MappingError::MissingSeparator);
        },
    };
    match parse_u64(key) {
        Some(id) => Ok((id, value.to_string())),
        None => Err(MappingError::InvalidKey),
    }
}

/// The digits of the `BigUint` that num-bigint parses from the text, if it
/// parses one.
pub uninterp spec fn user_type_key_of(s: Seq<char>) -> Option<Seq<u32>>;

/// Relies on num-bigint's `FromStr` for `BigUint` (decimal digits, with an
/// optional `+` and `_` between digits) and on `to_u32_digits`.
#[verifier::external_body]
fn parse_user_type_key(s: &str) -> (r: Option<Vec<u32>>)
    ensures
        match r {
            Some(d) => user_type_key_of(s@) == Some(d@),
            None => user_type_key_of(s@) is None,
        },
{
    s.parse::<BigUint>().ok().map(|v| v.to_u32_digits())
}

/// The type mapping that a `id=name` token gives.
pub open spec fn type_mapping_of(s: Seq<char>) -> Result<(Seq<u32>, Seq<char>), MappingError> {
    match first_separator(s) {
        None => Err(MappingError::MissingSeparator),
        Some(k) => match user_type_key_of(s.subrange(0, k)) {
            None => Err(MappingError::InvalidKey),
            Some(id) => Ok((id, s.subrange(k + 1, s.len() as int))),
        },
    }
}

/// Parses a `id=name` token that names a user type by its user-type id.
pub fn parse_type_mapping(input: &str) -> (r: Result<(Vec<u32>, String), MappingError>)
    ensures
        match (r, type_mapping_of(input@)) {
            (Ok(m), Ok(s)) => m.0@ == s.0 && m.1@ == s.1,
            (Err(e), Err(f)) => e == f,
            _ => false,
        },
{
    let (key, value) = match split_mapping(input) {
        Some(p) => p,
        None => {
            return Err(MappingError::MissingSeparator);
        },
    };
    match parse_user_type_key(key) {
        Some(id) => Ok((id, value.to_string())),
        None => Err(MappingError::InvalidKey),
    }
}

} // verus!
