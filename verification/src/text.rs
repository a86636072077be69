//! Character- and byte-level helpers shared by the wire-format code:
//! UTF-8 byte lengths, Unicode whitespace, lowercase hex and string building.

use vstd::prelude::*;
use vstd::std_specs::iter::IteratorSpec;
use vstd::utf8::encode_utf8;
use vstd::string::StringExecFns;

verus! {

/// Number of bytes in the UTF-8 encoding of `s` (what `str::len` returns).
pub open spec fn utf8_len(s: Seq<char>) -> int {
    encode_utf8(s).len() as int
}

/// Number of bytes of `s` (`str::len`).
pub fn byte_len(s: &str) -> (n: usize)
    ensures
        n == utf8_len(s@),
{
    s.as_bytes().len()
}

/// A string has zero bytes exactly when it has no characters.
pub proof fn lemma_utf8_len_zero(s: Seq<char>)
    ensures
        (utf8_len(s) == 0) == (s.len() == 0),
{
    if s.len() > 0 {
        let c = s[0] as u32;
        assert(vstd::utf8::encode_scalar(c).len() >= 1);
    }
}

/// Appends one character to a `String`.
/// Trusted: `String::push`, documented as appending the given char to the end.
#[verifier::external_body]
pub(crate) fn push_char(s: &mut String, c: char)
    ensures
        final(s)@ == old(s)@.push(c),
{
    s.push(c);
}

/// The characters of `s`, in order.
pub fn chars_of(s: &str) -> (v: Vec<char>)
    ensures
        v@ == s@,
{
    broadcast use vstd::string::axiom_spec_iter, vstd::string::next_postcondition;

    let mut it = s.chars();
    let mut out: Vec<char> = Vec::new();
    assert(it.remaining() == s@);
    assert(s@.skip(0) =~= s@);
    loop
        invariant
            out@.len() <= s@.len(),
            it.remaining() == s@.skip(out@.len() as int),
            it.obeys_prophetic_iter_laws(),
            out@ == s@.take(out@.len() as int),
        decreases s@.len() - out@.len(),
    {
        let ghost before = out@;
        match it.next() {
            Some(c) => {
                out.push(c);
                assert(s@.skip(before.len() as int).drop_first() =~= s@.skip(out@.len() as int));
                assert(out@ =~= s@.take(out@.len() as int));
            },
            None => {
                assert(out@ =~= s@);
                return out;
            },
        }
    }
}

/// A `String` holding exactly the characters of `v`.
pub fn string_from_chars(v: &Vec<char>) -> (s: String)
    ensures
        s@ == v@,
{
    let mut s = String::new();
    let mut i: usize = 0;
    while i < v.len()
        invariant
            i <= v.len(),
            s@ == v@.take(i as int),
        decreases v.len() - i,
    {
        push_char(&mut s, v[i]);
        i = i + 1;
        assert(s@ =~= v@.take(i as int));
    }
    assert(v@.take(v.len() as int) =~= v@);
    s
}

/// Appends every character of `t` to `s`.
pub fn push_str_chars(s: &mut String, t: &str)
    ensures
        final(s)@ == old(s)@ + t@,
{
    let v = chars_of(t);
    let mut i: usize = 0;
    while i < v.len()
        invariant
            i <= v.len(),
            v@ == t@,
            s@ == old(s)@ + v@.take(i as int),
        decreases v.len() - i,
    {
        push_char(s, v[i]);
        i = i + 1;
        assert(s@ =~= old(s)@ + v@.take(i as int));
    }
    assert(v@.take(v.len() as int) =~= v@);
}

/// Whether `a` and `b` hold the same characters.
pub fn same_text(a: &str, b: &str) -> (r: bool)
    ensures
        r == (a@ == b@),
{
    let x = String::from_str(a);
    let y = String::from_str(b);
    x == y
}

/// Unicode `White_Space` (the set `char::is_whitespace` and `str::trim` use).
pub open spec fn is_unicode_whitespace(c: char) -> bool {
    let u = c as u32;
    ||| 0x09 <= u <= 0x0D
    ||| u == 0x20
    ||| u == 0x85
    ||| u == 0xA0
    ||| u == 0x1680
    ||| 0x2000 <= u <= 0x200A
    ||| u == 0x2028
    ||| u == 0x2029
    ||| u == 0x202F
    ||| u == 0x205F
    ||| u == 0x3000
}

/// Whether `c` is Unicode whitespace.
pub fn char_is_whitespace(c: char) -> (b: bool)
    ensures
        b == is_unicode_whitespace(c),
{
    let u = c as u32;
    (0x09 <= u && u <= 0x0D) || u == 0x20 || u == 0x85 || u == 0xA0 || u == 0x1680 || (0x2000
        <= u && u <= 0x200A) || u == 0x2028 || u == 0x2029 || u == 0x202F || u == 0x205F || u
        == 0x3000
}

/// `s` is empty after trimming Unicode whitespace from both ends.
pub open spec fn is_blank(s: Seq<char>) -> bool {
    forall|i: int| 0 <= i < s.len() ==> is_unicode_whitespace(#[trigger] s[i])
}

/// Whether `s.trim()` is empty.
pub fn trims_to_empty(s: &str) -> (b: bool)
    ensures
        b == is_blank(s@),
{
    let v = chars_of(s);
    let mut i: usize = 0;
    while i < v.len()
        invariant
            i <= v.len(),
            v@ == s@,
            forall|j: int| 0 <= j < i ==> is_unicode_whitespace(#[trigger] v@[j]),
        decreases v.len() - i,
    {
        if !char_is_whitespace(v[i]) {
            return false;
        }
        i = i + 1;
    }
    true
}

/// Lowercase hex digit for a nibble `n < 16`.
pub open spec fn hex_digit(n: u8) -> char {
    if n < 10 {
        (48 + n) as char
    } else {
        (87 + n) as char
    }
}

/// Uppercase hex digit for a nibble `n < 16`.
pub open spec fn hex_digit_upper(n: u8) -> char {
    if n < 10 {
        (48 + n) as char
    } else {
        (55 + n) as char
    }
}

/// The two lowercase hex digits of one byte.
pub open spec fn hex_byte(b: u8) -> Seq<char> {
    seq![hex_digit(b / 16), hex_digit(b % 16)]
}

/// Lowercase hex encoding, two digits per byte, most significant nibble first.
pub open spec fn hex_lower(bytes: Seq<u8>) -> Seq<char>
    decreases bytes.len(),
{
    if bytes.len() == 0 {
        Seq::empty()
    } else {
        hex_lower(bytes.drop_last()) + hex_byte(bytes.last())
    }
}

/// Lowercase hex has two characters per byte.
pub proof fn lemma_hex_lower_len(bytes: Seq<u8>)
    ensures
        hex_lower(bytes).len() == 2 * bytes.len(),
    decreases bytes.len(),
{
    if bytes.len() > 0 {
        lemma_hex_lower_len(bytes.drop_last());
    }
}

pub fn hex_digit_of(n: u8) -> (c: char)
    requires
        n < 16,
    ensures
        c == hex_digit(n),
{
    if n < 10 {
        (48 + n) as char
    } else {
        (87 + n) as char
    }
}

pub fn hex_digit_upper_of(n: u8) -> (c: char)
    requires
        n < 16,
    ensures
        c == hex_digit_upper(n),
{
    if n < 10 {
        (48 + n) as char
    } else {
        (55 + n) as char
    }
}

/// A lowercase hex digit character.
pub open spec fn is_hex_lower_char(c: char) -> bool {
    ('0' <= c <= '9') || ('a' <= c <= 'f')
}

/// Every character of a lowercase hex encoding is `0-9` or `a-f`.
pub proof fn lemma_hex_lower_chars(bytes: Seq<u8>)
    ensures
        forall|i: int|
            0 <= i < hex_lower(bytes).len() ==> is_hex_lower_char(#[trigger] hex_lower(bytes)[i]),
    decreases bytes.len(),
{
    if bytes.len() > 0 {
        lemma_hex_lower_chars(bytes.drop_last());
        let pre = hex_lower(bytes.drop_last());
        let b = bytes.last();
        let hb = hex_byte(b);
        assert(hex_lower(bytes) == pre + hb);
        assert(b / 16 < 16 && b % 16 < 16);
        assert forall|i: int| 0 <= i < hex_lower(bytes).len() implies is_hex_lower_char(
            #[trigger] hex_lower(bytes)[i],
        ) by {
            if i < pre.len() {
                assert(hex_lower(bytes)[i] == pre[i]);
            } else {
                assert(hex_lower(bytes)[i] == hb[i - pre.len()]);
            }
        }
    }
}

/// Appends the lowercase hex encoding of `bytes` to `s`.
pub fn push_hex_lower(s: &mut String, bytes: &[u8])
    ensures
        final(s)@ == old(s)@ + hex_lower(bytes@),
{
    let mut i: usize = 0;
    while i < bytes.len()
        invariant
            i <= bytes.len(),
            s@ == old(s)@ + hex_lower(bytes@.take(i as int)),
        decreases bytes.len() - i,
    {
        let b = bytes[i];
        push_char(s, hex_digit_of(b / 16));
        push_char(s, hex_digit_of(b % 16));
        proof {
            let t = bytes@.take(i + 1);
            assert(t.drop_last() =~= bytes@.take(i as int));
            assert(t.last() == b);
        }
        i = i + 1;
        assert(s@ =~= old(s)@ + hex_lower(bytes@.take(i as int)));
    }
    assert(bytes@.take(bytes@.len() as int) =~= bytes@);
}

/// Lowercase hex encoding of `bytes` as a new `String`.
pub fn to_hex_lower(bytes: &[u8]) -> (s: String)
    ensures
        s@ == hex_lower(bytes@),
{
    let mut s = String::new();
    push_hex_lower(&mut s, bytes);
    assert(s@ =~= hex_lower(bytes@));
    s
}


/// Decimal digit character.
pub open spec fn dec_digit(n: nat) -> char {
    (48 + n) as char
}

/// Decimal digits of `n`, most significant first, no leading zeros.
pub open spec fn dec_digits(n: nat) -> Seq<char>
    decreases n,
{
    if n < 10 {
        seq![dec_digit(n)]
    } else {
        dec_digits(n / 10).push(dec_digit(n % 10))
    }
}

/// `s` left-padded with `0` to at least `w` characters.
pub open spec fn zero_pad(s: Seq<char>, w: nat) -> Seq<char> {
    if s.len() >= w {
        s
    } else {
        Seq::new((w - s.len()) as nat, |i: int| '0') + s
    }
}

/// `{:0w}` formatting of a signed integer (sign counts toward the width).
pub open spec fn fmt_padded(n: int, w: nat) -> Seq<char> {
    if n < 0 {
        seq!['-'] + zero_pad(dec_digits((-n) as nat), if w >= 1 { (w - 1) as nat } else { 0 })
    } else {
        zero_pad(dec_digits(n as nat), w)
    }
}

/// Appends the decimal digits of `n`.
pub fn push_dec(s: &mut String, n: u64)
    ensures
        final(s)@ == old(s)@ + dec_digits(n as nat),
    decreases n,
{
    if n >= 10 {
        push_dec(s, n / 10);
    }
    push_char(s, ((n % 10) as u8 + 48) as char);
    assert(final(s)@ =~= old(s)@ + dec_digits(n as nat)) by {
        if n >= 10 {
            assert(dec_digits(n as nat) == dec_digits((n / 10) as nat).push(dec_digit((n % 10) as nat)));
        }
    }
}

/// Appends `n` left-padded with zeros to `w` characters.
pub fn push_zero_padded(s: &mut String, n: u64, w: usize)
    ensures
        final(s)@ == old(s)@ + zero_pad(dec_digits(n as nat), w as nat),
{
    let mut d = String::new();
    push_dec(&mut d, n);
    let v = chars_of(d.as_str());
    assert(v@ =~= dec_digits(n as nat));
    if v.len() < w {
        let mut k: usize = 0;
        let pad = w - v.len();
        while k < pad
            invariant
                k <= pad,
                s@ == old(s)@ + Seq::new(k as nat, |i: int| '0'),
            decreases pad - k,
        {
            push_char(s, '0');
            k = k + 1;
            assert(s@ =~= old(s)@ + Seq::new(k as nat, |i: int| '0'));
        }
    }
    push_str_chars(s, d.as_str());
    assert(final(s)@ =~= old(s)@ + zero_pad(dec_digits(n as nat), w as nat));
}

/// Appends `n` formatted as `{:0w}`.
pub fn push_signed_padded(s: &mut String, n: i64, w: usize)
    requires
        n > i64::MIN,
    ensures
        final(s)@ == old(s)@ + fmt_padded(n as int, w as nat),
{
    if n < 0 {
        push_char(s, '-');
        let pw = if w >= 1 { w - 1 } else { 0 };
        push_zero_padded(s, (-n) as u64, pw);
    } else {
        push_zero_padded(s, n as u64, w);
    }
    assert(final(s)@ =~= old(s)@ + fmt_padded(n as int, w as nat));
}

} // verus!
