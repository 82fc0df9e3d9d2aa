//! Text as sequences of characters: conversions between strings and
//! character vectors, and the lexicographic order on them.

use vstd::prelude::*;
use vstd::std_specs::iter::IteratorSpec;

verus! {

/// `String::push` of the standard library appends the given character to the
/// end of the string and leaves the rest of it unchanged.
pub assume_specification[ String::push ](s: &mut String, c: char)
    ensures
        final(s)@ == old(s)@.push(c),
;

/// Whether `code` is the code of a character: a code point that is no
/// surrogate.
pub open spec fn is_char_code(code: nat) -> bool {
    code <= 0xD7FF || 0xE000 <= code <= 0x10FFFF
}

/// `char::from_u32` of the standard library gives the character with the
/// given code, and `None` where the code is that of no character.
pub assume_specification[ char::from_u32 ](code: u32) -> (r: Option<char>)
    ensures
        r == if is_char_code(code as nat) {
            Some(code as char)
        } else {
            None::<char>
        },
;

/// How two values stand to each other in an order.
#[derive(Clone, Copy, Debug, PartialEq, Eq, Structural)]
pub enum Order {
    Less,
    Equal,
    Greater,
}

/// The lexicographic order of `a[i..]` against `b[i..]`, character by
/// character, by code point; a proper prefix comes first.
pub open spec fn lexical_order_from(a: Seq<char>, b: Seq<char>, i: int) -> Order
    decreases a.len() - i,
{
    if i < 0 || i >= a.len() {
        if 0 <= i < b.len() {
            Order::Less
        } else {
            Order::Equal
        }
    } else if i >= b.len() {
        Order::Greater
    } else if a[i] < b[i] {
        Order::Less
    } else if a[i] > b[i] {
        Order::Greater
    } else {
        lexical_order_from(a, b, i + 1)
    }
}

/// The lexicographic order of two texts.
pub open spec fn lexical_order(a: Seq<char>, b: Seq<char>) -> Order {
    lexical_order_from(a, b, 0)
}

/// The characters of a string, in order.
pub fn chars_of(s: &str) -> (r: Vec<char>)
    ensures
        r@ == s@,
{
    let mut out: Vec<char> = Vec::new();
    for c in it: s.chars()
        invariant
            it.seq() == s@,
            out@ == it.seq().take(it.index() as int),
    {
        out.push(c);
    }
    out
}

/// The string made of the characters `chars[from..to]`.
pub fn string_of(chars: &[char], from: usize, to: usize) -> (r: String)
    requires
        from <= to <= chars@.len(),
    ensures
        r@ == chars@.subrange(from as int, to as int),
{
    let mut out = String::new();
    let mut i: usize = from;
    while i < to
        invariant
            from <= i <= to <= chars@.len(),
            out@ == chars@.subrange(from as int, i as int),
        decreases to - i,
    {
        out.push(chars[i]);
        i += 1;
    }
    out
}

/// Compares two strings lexicographically.
pub fn compare_text(a: &str, b: &str) -> (r: Order)
    ensures
        r == lexical_order(a@, b@),
{
    let x = chars_of(a);
    let y = chars_of(b);
    let mut i: usize = 0;
    while i < x.len() && i < y.len()
        invariant
            x@ == a@,
            y@ == b@,
            i <= x.len(),
            i <= y.len(),
            lexical_order(a@, b@) == lexical_order_from(a@, b@, i as int),
        decreases x.len() - i,
    {
        if x[i] < y[i] {
            return Order::Less;
        }
        if x[i] > y[i] {
            return Order::Greater;
        }
        i += 1;
    }
    if i < y.len() {
        Order::Less
    } else if i < x.len() {
        Order::Greater
    } else {
        Order::Equal
    }
}

} // verus!
