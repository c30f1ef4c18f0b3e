//! Text helpers shared by the scanner, the parser and the evaluator: source
//! text as a sequence of characters, byte lengths in UTF-8, and the
//! rendering of numbers and strings into messages.

use vstd::prelude::*;
use vstd::std_specs::iter::IteratorSpec;

verus! {

/// Number of bytes that `c` takes when encoded in UTF-8.
pub open spec fn utf8_width(c: char) -> nat {
    let v = c as u32;
    if v < 0x80 {
        1
    } else if v < 0x800 {
        2
    } else if v < 0x1_0000 {
        3
    } else {
        4
    }
}

/// Number of bytes that the characters of `s` take when encoded in UTF-8.
pub open spec fn byte_len(s: Seq<char>) -> nat
    decreases s.len(),
{
    if s.len() == 0 {
        0
    } else {
        byte_len(s.drop_last()) + utf8_width(s.last())
    }
}

/// The byte length of a concatenation is the sum of the byte lengths.
pub proof fn lemma_byte_len_concat(a: Seq<char>, b: Seq<char>)
    ensures
        byte_len(a + b) == byte_len(a) + byte_len(b),
    decreases b.len(),
{
    if b.len() == 0 {
        assert(a + b =~= a);
    } else {
        lemma_byte_len_concat(a, b.drop_last());
        assert((a + b).drop_last() =~= a + b.drop_last());
        assert((a + b).last() == b.last());
    }
}

/// Extending a prefix by one character adds that character's width.
pub proof fn lemma_byte_len_step(s: Seq<char>, i: int)
    requires
        0 <= i < s.len(),
    ensures
        byte_len(s.take(i + 1)) == byte_len(s.take(i)) + utf8_width(s[i]),
{
    assert(s.take(i + 1).drop_last() =~= s.take(i));
}

/// Byte lengths grow with the prefix and are at least the number of characters.
pub proof fn lemma_byte_len_monotonic(s: Seq<char>, i: int, j: int)
    requires
        0 <= i <= j <= s.len(),
    ensures
        byte_len(s.take(i)) + (j - i) <= byte_len(s.take(j)),
    decreases j - i,
{
    if i < j {
        lemma_byte_len_monotonic(s, i, j - 1);
        lemma_byte_len_step(s, j - 1);
    }
}

/// `byte_len` agrees with the length of the UTF-8 encoding.
pub proof fn lemma_byte_len_is_encoded_len(s: Seq<char>)
    ensures
        byte_len(s) == vstd::utf8::encode_utf8(s).len(),
    decreases s.len(),
{
    if s.len() > 0 {
        let head = s.take(1);
        let tail = s.drop_first();
        assert(s =~= head + tail);
        lemma_byte_len_concat(head, tail);
        lemma_byte_len_is_encoded_len(tail);
        assert(head.drop_last() =~= Seq::<char>::empty());
        assert(byte_len(head.drop_last()) == 0);
        assert(head.last() == s[0]);
        assert(byte_len(head) == utf8_width(s[0]));
        vstd::utf8::char_is_scalar(s[0]);
    }
}

/// A prefix splits into a shorter prefix and the span between the two, and
/// no prefix is longer in bytes than the whole.
pub proof fn lemma_byte_len_span(s: Seq<char>, a: int, b: int)
    requires
        0 <= a <= b <= s.len(),
    ensures
        byte_len(s.take(a)) + byte_len(s.subrange(a, b)) == byte_len(s.take(b)),
        byte_len(s.take(b)) <= byte_len(s),
{
    assert(s.take(b) =~= s.take(a) + s.subrange(a, b));
    lemma_byte_len_concat(s.take(a), s.subrange(a, b));
    lemma_byte_len_monotonic(s, b, s.len() as int);
    assert(s.take(s.len() as int) =~= s);
}

/// Width in bytes of one character in UTF-8.
pub fn char_width(c: char) -> (w: usize)
    ensures
        w == utf8_width(c),
        1 <= w <= 4,
{
    let v: u32 = c as u32;
    if v < 0x80 {
        1
    } else if v < 0x800 {
        2
    } else if v < 0x1_0000 {
        3
    } else {
        4
    }
}

/// The characters of `s`, in order.
pub fn chars_of(s: &str) -> (v: Vec<char>)
    ensures
        v@ == s@,
{
    let mut v: Vec<char> = Vec::new();
    let mut it = s.chars();
    proof {
        vstd::string::axiom_spec_iter(s);
    }
    loop
        invariant
            v@ + it.remaining() == s@,
            it.obeys_prophetic_iter_laws(),
            it.decrease() is Some,
        ensures
            v@ == s@,
        decreases it.decrease()->0,
    {
        let ghost before = it;
        match it.next() {
            Some(c) => {
                proof {
                    vstd::string::next_postcondition(&before, &it, Some(c));
                    assert(v@.push(c) + before.remaining().drop_first() =~= v@
                        + before.remaining());
                }
                v.push(c);
            },
            None => {
                proof {
                    vstd::string::next_postcondition(&before, &it, None);
                    assert(v@ + before.remaining() =~= v@);
                }
                break ;
            },
        }
    }
    v
}

/// `String::push` appends the given character to the end of the string.
pub assume_specification[ String::push ](s: &mut String, ch: char)
    ensures
        final(s)@ == old(s)@.push(ch),
;

/// The characters `chars[from..to]` as a string.
pub fn text_of(chars: &Vec<char>, from: usize, to: usize) -> (s: String)
    requires
        from <= to <= chars.len(),
    ensures
        s@ == chars@.subrange(from as int, to as int),
{
    let mut s = String::new();
    let mut i: usize = from;
    while i < to
        invariant
            from <= i <= to <= chars.len(),
            s@ == chars@.subrange(from as int, i as int),
        decreases to - i,
    {
        s.push(chars[i]);
        proof {
            assert(chars@.subrange(from as int, i as int).push(chars@[i as int])
                =~= chars@.subrange(from as int, i + 1));
        }
        i += 1;
    }
    s
}

/// Number of bytes that the characters `chars[from..to]` take in UTF-8.
pub fn span_bytes(chars: &Vec<char>, from: usize, to: usize) -> (n: usize)
    requires
        from <= to <= chars.len(),
        byte_len(chars@) <= usize::MAX,
    ensures
        n == byte_len(chars@.subrange(from as int, to as int)),
{
    let mut n: usize = 0;
    let mut i: usize = from;
    proof {
        assert(chars@.subrange(from as int, from as int) =~= Seq::<char>::empty());
    }
    while i < to
        invariant
            from <= i <= to <= chars.len(),
            byte_len(chars@) <= usize::MAX,
            n == byte_len(chars@.subrange(from as int, i as int)),
        decreases to - i,
    {
        let w = char_width(chars[i]);
        proof {
            let next = chars@.subrange(from as int, i + 1);
            assert(next.drop_last() =~= chars@.subrange(from as int, i as int));
            assert(next.last() == chars@[i as int]);
            lemma_byte_len_span(chars@, from as int, i + 1);
        }
        n += w;
        i += 1;
    }
    n
}

/// The text that `{:?}` prints for a string: the string between double
/// quotes, with the characters escaped that Rust escapes in a string literal.
pub uninterp spec fn debug_quoted(s: Seq<char>) -> Seq<char>;

/// Formats `s` with std's `Debug` for `str`. The result is a function of
/// the characters of `s` alone; nothing more is claimed of it.
#[verifier::external_body]
pub(crate) fn quote(s: &str) -> (r: String)
    ensures
        r@ == debug_quoted(s@),
{
    format!("{:?}", s)
}

/// The character that writes the decimal digit `d`.
pub open spec fn digit_char(d: nat) -> char {
    if d == 0 {
        '0'
    } else if d == 1 {
        '1'
    } else if d == 2 {
        '2'
    } else if d == 3 {
        '3'
    } else if d == 4 {
        '4'
    } else if d == 5 {
        '5'
    } else if d == 6 {
        '6'
    } else if d == 7 {
        '7'
    } else if d == 8 {
        '8'
    } else {
        '9'
    }
}

/// The decimal numeral of `n`, without leading zeros.
pub open spec fn decimal(n: nat) -> Seq<char>
    decreases n,
{
    if n < 10 {
        seq![digit_char(n)]
    } else {
        decimal(n / 10).push(digit_char(n % 10))
    }
}

/// The digits that stand in front of the digits written so far, when `n`
/// is what is left of the number: the numeral of `n`, or nothing once `n`
/// is used up.
spec fn leading_digits(n: nat) -> Seq<char> {
    if n == 0 {
        Seq::empty()
    } else {
        decimal(n)
    }
}

fn digit_of(d: usize) -> (c: char)
    requires
        d < 10,
    ensures
        c == digit_char(d as nat),
{
    if d == 0 {
        '0'
    } else if d == 1 {
        '1'
    } else if d == 2 {
        '2'
    } else if d == 3 {
        '3'
    } else if d == 4 {
        '4'
    } else if d == 5 {
        '5'
    } else if d == 6 {
        '6'
    } else if d == 7 {
        '7'
    } else if d == 8 {
        '8'
    } else {
        '9'
    }
}

/// The decimal numeral of `n`.
pub fn decimal_text(n: usize) -> (s: String)
    ensures
        s@ == decimal(n as nat),
{
    // Digits from the least significant one up.
    let mut digits: Vec<char> = Vec::new();
    digits.push(digit_of(n % 10));
    let mut rest: usize = n / 10;
    proof {
        assert(digits@.reverse() =~= seq![digit_char((n % 10) as nat)]);
        assert(leading_digits(rest as nat) + digits@.reverse() =~= decimal(n as nat));
    }
    while rest > 0
        invariant
            digits.len() > 0,
            leading_digits(rest as nat) + digits@.reverse() == decimal(n as nat),
        decreases rest,
    {
        let ghost before = digits@;
        digits.push(digit_of(rest % 10));
        proof {
            let d = digit_char((rest % 10) as nat);
            assert(digits@.reverse() =~= seq![d] + before.reverse());
            assert(decimal(rest as nat) =~= leading_digits((rest / 10) as nat) + seq![d]);
            assert(leading_digits((rest / 10) as nat) + digits@.reverse() =~= decimal(
                rest as nat,
            ) + before.reverse());
        }
        rest = rest / 10;
    }
    let mut s = String::new();
    let mut i: usize = digits.len();
    while i > 0
        invariant
            i <= digits.len(),
            s@ == digits@.reverse().take(digits.len() - i),
        decreases i,
    {
        i -= 1;
        s.push(digits[i]);
        proof {
            let r = digits@.reverse();
            assert(r.take(digits.len() - i) =~= r.take(digits.len() - i - 1).push(
                digits@[i as int],
            ));
        }
    }
    proof {
        assert(digits@.reverse().take(digits.len() as int) =~= digits@.reverse());
        assert(leading_digits(0) + digits@.reverse() =~= digits@.reverse());
    }
    s
}

/// Whether two strings hold the same characters.
pub fn str_equal(a: &str, b: &str) -> (r: bool)
    ensures
        r == (a@ == b@),
{
    let x = chars_of(a);
    let y = chars_of(b);
    if x.len() != y.len() {
        return false;
    }
    let mut i: usize = 0;
    while i < x.len()
        invariant
            x@ == a@,
            y@ == b@,
            x.len() == y.len(),
            i <= x.len(),
            forall|j: int| 0 <= j < i ==> x@[j] == y@[j],
        decreases x.len() - i,
    {
        if x[i] != y[i] {
            return false;
        }
        i += 1;
    }
    proof {
        assert(x@ =~= y@);
    }
    true
}

} // verus!
