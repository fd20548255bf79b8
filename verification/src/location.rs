//! Breakpoint locations as the operator writes them: a source line number, a
//! function name, or `*` followed by a hexadecimal address.
//!
//! Looking up lines and function names is the symbol resolver's work. This
//! module decides which lookup a location asks for and parses raw addresses.

use vstd::prelude::*;

verus! {

/// The mark that introduces a raw address.
pub const RAW_ADDRESS_MARK: char = '*';

/// What a location string asks for.
#[derive(Clone, Copy, Debug, PartialEq, Eq)]
pub enum Location {
    /// The address of a source line or, if the line is not known, of the
    /// function that the whole string names.
    Line(usize),
    /// The address of the function that the whole string names.
    Function,
    /// A raw address; `None` where the text after the mark is no
    /// hexadecimal number that fits an address.
    Address(Option<usize>),
}

/// The value of one digit in the given radix.
pub open spec fn digit_of(c: char, radix: nat) -> Option<nat> {
    let u = c as u32;
    let d: nat = if 48 <= u <= 57 {
        (u - 48) as nat
    } else if 97 <= u <= 102 {
        (u - 97 + 10) as nat
    } else if 65 <= u <= 70 {
        (u - 65 + 10) as nat
    } else {
        radix
    };
    if d < radix {
        Some(d)
    } else {
        None
    }
}

/// The value of a run of digits, most significant first; `None` if one of
/// them is no digit of the radix. The empty run has the value 0.
pub open spec fn digits_value(s: Seq<char>, radix: nat) -> Option<nat>
    decreases s.len(),
{
    if s.len() == 0 {
        Some(0)
    } else {
        match (digits_value(s.drop_last(), radix), digit_of(s.last(), radix)) {
            (Some(high), Some(d)) => Some(high * radix + d),
            _ => None,
        }
    }
}

/// The text of a number without its optional `+`.
pub open spec fn unsigned_part(s: Seq<char>) -> Seq<char> {
    if s.len() > 0 && s[0] == '+' {
        s.subrange(1, s.len() as int)
    } else {
        s
    }
}

/// The number that `s` denotes: an optional `+`, then at least one digit,
/// with a value that fits an address.
pub open spec fn number_value(s: Seq<char>, radix: nat) -> Option<usize> {
    let body = unsigned_part(s);
    if body.len() == 0 {
        None
    } else {
        match digits_value(body, radix) {
            Some(v) => if v <= usize::MAX {
                Some(v as usize)
            } else {
                None
            },
            None => None,
        }
    }
}

/// The text of a raw address after the mark, without an optional `0x` or
/// `0X` in front.
pub open spec fn hex_body(s: Seq<char>) -> Seq<char> {
    if s.len() >= 3 && s[1] == '0' && (s[2] == 'x' || s[2] == 'X') {
        s.subrange(3, s.len() as int)
    } else {
        s.subrange(1, s.len() as int)
    }
}

/// What the location `s` asks for. A decimal number is tried as a line
/// first; any other text is a function name unless it starts with the
/// raw-address mark.
pub open spec fn location_of(s: Seq<char>) -> Location {
    match number_value(s, 10) {
        Some(line) => Location::Line(line),
        None => if s.len() > 0 && s[0] == RAW_ADDRESS_MARK {
            Location::Address(number_value(hex_body(s), 16))
        } else {
            Location::Function
        },
    }
}

/// The address of the location `s`, given what the symbol resolver found
/// for it as a line and as a function name. A number is a line first, and a
/// function name only if no such line is known.
pub open spec fn resolved(s: Seq<char>, line_addr: Option<usize>, function_addr: Option<usize>)
    -> Option<usize> {
    match location_of(s) {
        Location::Line(_) => if line_addr is Some {
            line_addr
        } else {
            function_addr
        },
        Location::Function => function_addr,
        Location::Address(addr) => addr,
    }
}

/// A prefix of a run of digits is a run of digits, with a value that is no
/// larger.
proof fn lemma_prefix_value(s: Seq<char>, radix: nat, k: int)
    requires
        0 <= k <= s.len(),
        radix >= 1,
        digits_value(s, radix) is Some,
    ensures
        digits_value(s.subrange(0, k), radix) is Some,
        digits_value(s.subrange(0, k), radix)->0 <= digits_value(s, radix)->0,
    decreases s.len(),
{
    if k == s.len() {
        assert(s.subrange(0, k) =~= s);
    } else {
        let high = digits_value(s.drop_last(), radix)->0;
        let d = digit_of(s.last(), radix)->0;
        lemma_prefix_value(s.drop_last(), radix, k);
        assert(s.drop_last().subrange(0, k) =~= s.subrange(0, k));
        assert(high <= high * radix + d) by (nonlinear_arith)
            requires
                radix >= 1,
                high >= 0,
                d >= 0,
        ;
    }
}

/// A location that starts with the raw-address mark is a raw address: it
/// is no line number and no function name, so its address is the same
/// whatever the symbol resolver holds.
pub proof fn lemma_marked_location_is_raw(
    s: Seq<char>,
    line_addr: Option<usize>,
    function_addr: Option<usize>,
)
    requires
        s.len() > 0,
        s[0] == RAW_ADDRESS_MARK,
    ensures
        location_of(s) == Location::Address(number_value(hex_body(s), 16)),
        resolved(s, line_addr, function_addr) == number_value(hex_body(s), 16),
{
    assert(unsigned_part(s) == s);
    if digits_value(s, 10) is Some {
        lemma_prefix_value(s, 10, 1);
        let head = s.subrange(0, 1);
        assert(head.last() == s[0]);
        assert(head.drop_last().len() == 0);
        assert(digit_of(RAW_ADDRESS_MARK, 10) is None);
    }
}

/// A location that is a decimal number is a line before it is anything
/// else: where the symbol resolver knows the line, that is its address,
/// whatever the resolver holds for function names; only without such a line
/// does the function name count.
pub proof fn lemma_number_is_line_first(
    s: Seq<char>,
    line_addr: Option<usize>,
    function_addr: Option<usize>,
)
    requires
        number_value(s, 10) is Some,
    ensures
        location_of(s) == Location::Line(number_value(s, 10)->0),
        line_addr is Some ==> resolved(s, line_addr, function_addr) == line_addr,
        line_addr is None ==> resolved(s, line_addr, function_addr) == function_addr,
{
}

/// The value of the digit `c`, if it is one in the given radix.
fn digit(c: char, radix: usize) -> (d: Option<usize>)
    requires
        radix == 10 || radix == 16,
    ensures
        d is Some == digit_of(c, radix as nat) is Some,
        d is Some ==> d->0 as nat == digit_of(c, radix as nat)->0 && d->0 < radix,
{
    let u: u32 = c as u32;
    let d: usize = if 48 <= u && u <= 57 {
        (u - 48) as usize
    } else if 97 <= u && u <= 102 {
        (u - 97 + 10) as usize
    } else if 65 <= u && u <= 70 {
        (u - 65 + 10) as usize
    } else {
        radix
    };
    if d < radix {
        Some(d)
    } else {
        None
    }
}

/// Parses the characters of `s` from position `start` on as a number.
fn parse_number(s: &str, start: usize, radix: usize) -> (value: Option<usize>)
    requires
        radix == 10 || radix == 16,
        start <= s@.len(),
    ensures
        value == number_value(s@.subrange(start as int, s@.len() as int), radix as nat),
{
    let n: usize = s.unicode_len();
    let ghost tail = s@.subrange(start as int, n as int);
    let mut i: usize = start;
    if i < n && s.get_char(i) == '+' {
        i += 1;
    }
    if i >= n {
        return None;
    }
    let first: usize = i;
    let ghost body = s@.subrange(first as int, n as int);
    assert(body =~= unsigned_part(tail));
    let mut acc: usize = 0;
    assert(body.subrange(0, 0) =~= Seq::<char>::empty());
    while i < n
        invariant
            radix == 10 || radix == 16,
            first <= i <= n,
            n == s@.len(),
            start <= n,
            body == s@.subrange(first as int, n as int),
            body == unsigned_part(s@.subrange(start as int, n as int)),
            digits_value(body.subrange(0, i - first), radix as nat) == Some(acc as nat),
        decreases n - i,
    {
        let c: char = s.get_char(i);
        let ghost prefix = body.subrange(0, i - first);
        let ghost next = body.subrange(0, i - first + 1);
        assert(next.drop_last() =~= prefix);
        assert(next.last() == c);
        let d: usize = match digit(c, radix) {
            Some(d) => d,
            None => {
                proof {
                    if digits_value(body, radix as nat) is Some {
                        lemma_prefix_value(body, radix as nat, i - first + 1);
                    }
                }
                return None;
            },
        };
        let scaled: Option<usize> = acc.checked_mul(radix);
        let sum: Option<usize> = match scaled {
            Some(m) => m.checked_add(d),
            None => None,
        };
        match sum {
            Some(v) => {
                acc = v;
            },
            None => {
                proof {
                    if digits_value(body, radix as nat) is Some {
                        lemma_prefix_value(body, radix as nat, i - first + 1);
                    }
                }
                return None;
            },
        }
        i += 1;
    }
    assert(body.subrange(0, n - first) =~= body);
    Some(acc)
}

/// Decides what a location string asks for.
pub fn classify_location(addr: &str) -> (location: Location)
    ensures
        location == location_of(addr@),
{
    assert(addr@.subrange(0, addr@.len() as int) =~= addr@);
    match parse_number(addr, 0, 10) {
        Some(line) => Location::Line(line),
        None => {
            let n: usize = addr.unicode_len();
            if n > 0 && addr.get_char(0) == RAW_ADDRESS_MARK {
                let start: usize = if n >= 3 && addr.get_char(1) == '0' && (addr.get_char(2) == 'x'
                    || addr.get_char(2) == 'X') {
                    3
                } else {
                    1
                };
                Location::Address(parse_number(addr, start, 16))
            } else {
                Location::Function
            }
        },
    }
}

/// Resolves a location to an address. `line_addr` is what the symbol
/// resolver found for the location as a line number, `function_addr` what it
/// found for it as a function name; a lookup that the location does not ask
/// for is never consulted. A raw address yields its own value whatever the
/// two hold. A decimal number yields `line_addr` if there is one and
/// `function_addr` otherwise.
pub fn parse_address(addr: &str, line_addr: Option<usize>, function_addr: Option<usize>) -> (found:
    Option<usize>)
    ensures
        found == resolved(addr@, line_addr, function_addr),
{
    match classify_location(addr) {
        Location::Line(_) => match line_addr {
            Some(found) => Some(found),
            None => function_addr,
        },
        Location::Function => function_addr,
        Location::Address(raw) => raw,
    }
}

} // verus!
