//! Percent-encoding and UTF-8.
use vstd::prelude::*;
use vstd::utf8::{decode_utf8, encode_utf8, encode_utf8_decode_utf8, encode_utf8_valid_utf8};
use vstd::utf8::{is_ascii_chars, is_ascii_chars_encode_utf8, valid_utf8};

verus! {

/// The value of a hexadecimal digit.
pub open spec fn hex_value(b: u8) -> Option<u8> {
    if 0x30 <= b <= 0x39 {
        Some((b - 0x30) as u8)
    } else if 0x41 <= b <= 0x46 {
        Some((b - 0x37) as u8)
    } else if 0x61 <= b <= 0x66 {
        Some((b - 0x57) as u8)
    } else {
        None
    }
}

/// The byte that `s` starts with in percent-encoded form, if it starts so.
pub open spec fn escaped_byte(s: Seq<u8>) -> Option<u8> {
    if s.len() >= 3 && s[0] == 0x25 {
        match (hex_value(s[1]), hex_value(s[2])) {
            (Some(h), Some(l)) => Some((16 * h + l) as u8),
            _ => None,
        }
    } else {
        None
    }
}

/// `s` with every percent-encoded byte decoded; a `%` without two digits stays.
pub open spec fn percent_decoded(s: Seq<u8>) -> Seq<u8>
    decreases s.len(),
{
    if s.len() == 0 {
        Seq::empty()
    } else {
        match escaped_byte(s) {
            Some(b) => seq![b] + percent_decoded(s.skip(3)),
            None => seq![s[0]] + percent_decoded(s.skip(1)),
        }
    }
}

/// `s` with every `+` turned into a space.
pub open spec fn plus_spaced(s: Seq<u8>) -> Seq<u8> {
    Seq::new(s.len(), |i: int| if s[i] == 0x2b { 0x20u8 } else { s[i] })
}

/// What `String::from_utf8_lossy` makes of bytes that are not UTF-8.
pub uninterp spec fn utf8_replaced(bytes: Seq<u8>) -> Seq<char>;

/// The text that bytes stand for, with what is not UTF-8 replaced.
pub open spec fn utf8_lossy(bytes: Seq<u8>) -> Seq<char> {
    if valid_utf8(bytes) {
        decode_utf8(bytes)
    } else {
        utf8_replaced(bytes)
    }
}

/// A path segment as it reads once percent-decoded.
pub open spec fn path_decoded(s: Seq<char>) -> Seq<char> {
    utf8_lossy(percent_decoded(encode_utf8(s)))
}

/// A form-encoded name or value as it reads once decoded: `+` is a space there.
pub open spec fn form_decoded(s: Seq<char>) -> Seq<char> {
    utf8_lossy(percent_decoded(plus_spaced(encode_utf8(s))))
}

/// `s` percent-decoded, if the bytes that gives are UTF-8.
pub open spec fn strictly_decoded(s: Seq<char>) -> Option<Seq<char>> {
    let bytes = percent_decoded(encode_utf8(s));
    if valid_utf8(bytes) {
        Some(decode_utf8(bytes))
    } else {
        None
    }
}

/// The error of `std::str::from_utf8`.
#[verifier::external_type_specification]
#[verifier::external_body]
pub struct ExUtf8Error(core::str::Utf8Error);

/// `std::str::from_utf8`: succeeds exactly on valid UTF-8, with the text that the bytes encode.
pub assume_specification[ core::str::from_utf8 ](v: &[u8]) -> (r: Result<
    &str,
    core::str::Utf8Error,
>)
    ensures
        r is Ok <==> valid_utf8(v@),
        r is Ok ==> r->Ok_0@ == decode_utf8(v@),
;

/// `String::from_utf8_lossy`: valid UTF-8 gives the text that it encodes, anything else a text
/// that depends on the bytes alone. How invalid sequences are cut into replacement characters
/// is left unsaid.
#[verifier::external_body]
fn from_utf8_lossy(v: &[u8]) -> (r: String)
    ensures
        r@ == (if valid_utf8(v@) {
            decode_utf8(v@)
        } else {
            utf8_replaced(v@)
        }),
{
    String::from_utf8_lossy(v).into_owned()
}

/// `hex_value`, computed.
pub fn hex_digit(b: u8) -> (r: Option<u8>)
    ensures
        r == hex_value(b),
{
    if 0x30 <= b && b <= 0x39 {
        Some(b - 0x30)
    } else if 0x41 <= b && b <= 0x46 {
        Some(b - 0x37)
    } else if 0x61 <= b && b <= 0x66 {
        Some(b - 0x57)
    } else {
        None
    }
}

/// Decodes every percent-encoded byte.
pub fn percent_decode(s: &[u8]) -> (r: Vec<u8>)
    ensures
        r@ == percent_decoded(s@),
{
    let mut r: Vec<u8> = Vec::new();
    let mut i: usize = 0;
    assert(s@.skip(0) =~= s@);
    assert(r@ + percent_decoded(s@) =~= percent_decoded(s@));
    while i < s.len()
        invariant
            i <= s.len(),
            r@ + percent_decoded(s@.skip(i as int)) == percent_decoded(s@),
        decreases s.len() - i,
    {
        let ghost rest = s@.skip(i as int);
        let ghost done = r@;
        let mut byte: Option<u8> = None;
        if s.len() - i >= 3 && s[i] == 0x25 {
            if let (Some(h), Some(l)) = (hex_digit(s[i + 1]), hex_digit(s[i + 2])) {
                byte = Some(16 * h + l);
            }
        }
        assert(byte == escaped_byte(rest));
        match byte {
            Some(b) => {
                r.push(b);
                assert(rest.skip(3) =~= s@.skip(i + 3));
                i += 3;
            },
            None => {
                r.push(s[i]);
                assert(rest.skip(1) =~= s@.skip(i + 1));
                i += 1;
            },
        }
        assert(r@ + percent_decoded(s@.skip(i as int)) =~= done + percent_decoded(rest));
    }
    assert(s@.skip(i as int) =~= Seq::empty());
    assert(r@ + percent_decoded(s@.skip(i as int)) =~= r@);
    r
}

/// Percent-decodes a path segment.
pub fn decode_path(s: &str) -> (r: String)
    ensures
        r@ == path_decoded(s@),
{
    let bytes = percent_decode(s.as_bytes());
    from_utf8_lossy(bytes.as_slice())
}

/// Decodes a form-encoded name or value.
pub fn decode_form(s: &str) -> (r: String)
    ensures
        r@ == form_decoded(s@),
{
    let raw = s.as_bytes();
    let mut spaced: Vec<u8> = Vec::new();
    let mut i: usize = 0;
    while i < raw.len()
        invariant
            i <= raw.len(),
            spaced@ == plus_spaced(raw@).take(i as int),
        decreases raw.len() - i,
    {
        spaced.push(if raw[i] == 0x2b { 0x20 } else { raw[i] });
        i += 1;
    }
    assert(spaced@ =~= plus_spaced(raw@));
    let bytes = percent_decode(spaced.as_slice());
    from_utf8_lossy(bytes.as_slice())
}

/// Text without a percent sign decodes to itself.
pub proof fn law_plain_bytes_stay(s: Seq<u8>)
    requires
        !s.contains(0x25u8),
    ensures
        percent_decoded(s) == s,
    decreases s.len(),
{
    if s.len() > 0 {
        assert(s[0] != 0x25u8);
        assert forall|i: int| 0 <= i < s.skip(1).len() implies s.skip(1)[i] != 0x25u8 by {
            assert(s[i + 1] != 0x25u8);
        }
        law_plain_bytes_stay(s.skip(1));
        assert(seq![s[0]] + s.skip(1) =~= s);
    }
}

/// The hexadecimal digits are `0` to `9`, `A` to `F` and `a` to `f`, in the order of their values.
pub proof fn law_hex_value(b: u8)
    ensures
        hex_value(b) == Some(0u8) <==> b == 0x30,
        hex_value(b) == Some(9u8) <==> b == 0x39,
        hex_value(b) == Some(10u8) <==> b == 0x41 || b == 0x61,
        hex_value(b) == Some(15u8) <==> b == 0x46 || b == 0x66,
        hex_value(b) matches Some(v) ==> v <= 15,
        hex_value(b) is Some <==> 0x30 <= b <= 0x39 || 0x41 <= b <= 0x46 || 0x61 <= b <= 0x66,
        forall|c: u8|
            (#[trigger] hex_value(c) is Some) && hex_value(b) is Some && c == b + 1 ==> hex_value(c)->0
                == hex_value(b)->0 + 1,
{
}

/// A percent sign with two hexadecimal digits stands for the byte whose value they give. Any other
/// byte, also a percent sign without two digits, stands for itself.
pub proof fn law_percent_decoded(h: u8, l: u8, b: u8, rest: Seq<u8>)
    requires
        hex_value(h) is Some,
        hex_value(l) is Some,
        b != 0x25 || rest.len() < 2 || hex_value(rest[0]) is None || hex_value(rest[1]) is None,
    ensures
        percent_decoded(Seq::<u8>::empty()) == Seq::<u8>::empty(),
        percent_decoded(seq![0x25u8, h, l] + rest) == seq![
            (16 * hex_value(h)->0 + hex_value(l)->0) as u8,
        ] + percent_decoded(rest),
        percent_decoded(seq![b] + rest) == seq![b] + percent_decoded(rest),
{
    let s = seq![0x25u8, h, l] + rest;
    assert(s.skip(3) =~= rest);
    assert(s[0] == 0x25 && s[1] == h && s[2] == l);
    let t = seq![b] + rest;
    assert(t.skip(1) =~= rest);
    assert(t[0] == b);
    if rest.len() >= 2 {
        assert(t[1] == rest[0] && t[2] == rest[1]);
    }
}

/// ASCII text without a percent sign reads as it is written in a path, and if it has no plus sign
/// either, also in a form.
pub proof fn law_plain_text_stays(s: Seq<char>)
    requires
        is_ascii_chars(s),
        !s.contains('%'),
    ensures
        path_decoded(s) == s,
        strictly_decoded(s) == Some(s),
        !s.contains('+') ==> form_decoded(s) == s,
{
    broadcast use vstd::utf8::group_utf8_lib;

    let bytes = encode_utf8(s);
    lemma_ascii_bytes(s);
    assert forall|i: int| 0 <= i < bytes.len() implies bytes[i] != 0x25u8 by {
        assert(s[i] != '%');
    }
    law_plain_bytes_stay(bytes);
    encode_utf8_decode_utf8(s);
    encode_utf8_valid_utf8(s);
    if !s.contains('+') {
        assert forall|i: int| 0 <= i < bytes.len() implies bytes[i] != 0x2bu8 by {
            assert(s[i] != '+');
        }
        assert(plus_spaced(bytes) =~= bytes);
    }
}

/// A form reads every plus sign as a space.
pub proof fn law_plus_is_a_space(s: Seq<char>, t: Seq<char>)
    requires
        is_ascii_chars(s),
        !s.contains('%'),
        t.len() == s.len(),
        forall|i: int| 0 <= i < s.len() ==> #[trigger] t[i] == if s[i] == '+' {
            ' '
        } else {
            s[i]
        },
    ensures
        form_decoded(s) == t,
{
    let bytes = encode_utf8(s);
    lemma_ascii_bytes(s);
    assert(is_ascii_chars(t)) by {
        assert forall|i: int| 0 <= i < t.len() implies 0 <= (#[trigger] t[i]) as u32 <= 127 by {
            assert(s[i] as u32 <= 127);
        }
    }
    lemma_ascii_bytes(t);
    let spaced = plus_spaced(bytes);
    assert forall|i: int| 0 <= i < spaced.len() implies spaced[i] == encode_utf8(t)[i] by {
        assert(t[i] == if s[i] == '+' {
            ' '
        } else {
            s[i]
        });
    }
    assert(spaced =~= encode_utf8(t));
    assert forall|i: int| 0 <= i < spaced.len() implies spaced[i] != 0x25u8 by {
        assert(s[i] != '%');
        assert(t[i] != '%');
    }
    law_plain_bytes_stay(spaced);
    encode_utf8_decode_utf8(t);
    encode_utf8_valid_utf8(t);
}

/// The bytes of ASCII text are its code points.
proof fn lemma_ascii_bytes(s: Seq<char>)
    requires
        is_ascii_chars(s),
    ensures
        encode_utf8(s).len() == s.len(),
        forall|i: int| 0 <= i < s.len() ==> #[trigger] encode_utf8(s)[i] as int == s[i] as int,
{
    is_ascii_chars_encode_utf8(s);
}

/// Whether `s` writes every byte of `bytes` as a percent sign and two hexadecimal digits.
pub open spec fn is_escaped(s: Seq<char>, bytes: Seq<u8>) -> bool {
    &&& is_ascii_chars(s)
    &&& s.len() == 3 * bytes.len()
    &&& forall|i: int|
        0 <= i < bytes.len() ==> is_escape(s.subrange(3 * i, 3 * i + 3), #[trigger] bytes[i])
}

/// Whether `s` is a percent sign and the two hexadecimal digits of the byte.
pub open spec fn is_escape(s: Seq<char>, byte: u8) -> bool {
    match (hex_value(s[1] as u8), hex_value(s[2] as u8)) {
        (Some(h), Some(l)) => s.len() == 3 && s[0] == '%' && byte == 16 * h + l,
        _ => false,
    }
}

/// Any text reads as itself, in a path as in a form, where every byte of its UTF-8 is written with a
/// percent sign.
pub proof fn law_escaped_text_reads(text: Seq<char>, s: Seq<char>)
    requires
        is_escaped(s, encode_utf8(text)),
    ensures
        path_decoded(s) == text,
        strictly_decoded(s) == Some(text),
        form_decoded(s) == text,
{
    let bytes = encode_utf8(text);
    lemma_ascii_bytes(s);
    let raw = encode_utf8(s);
    lemma_escaped_bytes(raw, s, bytes);
    assert forall|i: int| 0 <= i < raw.len() implies raw[i] != 0x2bu8 by {
        let k = i / 3;
        let b = bytes[k];
        assert(0 <= k < bytes.len());
        assert(i == 3 * k || i == 3 * k + 1 || i == 3 * k + 2);
        assert(raw[i] as int == s[i] as int);
        let e = s.subrange(3 * k, 3 * k + 3);
        assert(is_escape(e, b));
        assert(e[0] == s[3 * k] && e[1] == s[3 * k + 1] && e[2] == s[3 * k + 2]);
    }
    assert(plus_spaced(raw) =~= raw);
    encode_utf8_decode_utf8(text);
    encode_utf8_valid_utf8(text);
}

/// Bytes that are all written with percent signs decode to themselves.
proof fn lemma_escaped_bytes(raw: Seq<u8>, s: Seq<char>, bytes: Seq<u8>)
    requires
        is_escaped(s, bytes),
        raw.len() == s.len(),
        forall|i: int| 0 <= i < raw.len() ==> #[trigger] raw[i] as int == s[i] as int,
    ensures
        percent_decoded(raw) == bytes,
    decreases bytes.len(),
{
    if bytes.len() > 0 {
        let rest = bytes.skip(1);
        let e = s.subrange(0, 3);
        assert(is_escape(e, bytes[0]));
        assert(e[0] == s[0] && e[1] == s[1] && e[2] == s[2]);
        assert(raw[0] as int == s[0] as int && raw[1] as int == s[1] as int && raw[2] as int
            == s[2] as int);
        assert(is_ascii_chars(s.skip(3))) by {
            assert forall|i: int| 0 <= i < s.skip(3).len() implies 0 <= (#[trigger] s.skip(
                3,
            )[i]) as u32 <= 127 by {
                assert(s[i + 3] as u32 <= 127);
            }
        }
        assert forall|i: int| 0 <= i < rest.len() implies is_escape(
            s.skip(3).subrange(3 * i, 3 * i + 3),
            #[trigger] rest[i],
        ) by {
            assert(bytes[i + 1] == rest[i]);
            assert(s.skip(3).subrange(3 * i, 3 * i + 3) =~= s.subrange(3 * (i + 1), 3 * (i + 1) + 3));
        }
        assert forall|i: int| 0 <= i < raw.skip(3).len() implies #[trigger] raw.skip(3)[i] as int
            == s.skip(3)[i] as int by {
            assert(raw[i + 3] as int == s[i + 3] as int);
        }
        lemma_escaped_bytes(raw.skip(3), s.skip(3), rest);
        assert(seq![bytes[0]] + rest =~= bytes);
    } else {
        assert(raw =~= Seq::empty());
        assert(bytes =~= Seq::empty());
    }
}

/// Bytes that are not UTF-8 are refused where text has to be exact, and replaced where it need not.
pub proof fn law_broken_text(s: Seq<char>)
    ensures
        strictly_decoded(s) is Some <==> valid_utf8(percent_decoded(encode_utf8(s))),
        strictly_decoded(s) is Some ==> path_decoded(s) == strictly_decoded(s)->0,
        strictly_decoded(s) is None ==> path_decoded(s) == utf8_replaced(
            percent_decoded(encode_utf8(s)),
        ),
{
}

} // verus!
