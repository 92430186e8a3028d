//! The `application/x-www-form-urlencoded` serialization of name/value pairs,
//! as HTML forms submit them.

use vstd::prelude::*;
use vstd::utf8::{encode_utf8, is_ascii_chars, is_ascii_chars_encode_utf8};

verus! {

/// Bytes that the serializer copies through unchanged:
/// `*`, `-`, `.`, `_`, ASCII digits and ASCII letters.
pub open spec fn is_unreserved_byte(b: u8) -> bool {
    b == 0x2a || b == 0x2d || b == 0x2e || b == 0x5f
        || (0x30 <= b && b <= 0x39)
        || (0x41 <= b && b <= 0x5a)
        || (0x61 <= b && b <= 0x7a)
}

/// Upper-case hexadecimal digit for a value below 16.
pub open spec fn hex_digit_upper(d: u8) -> char {
    if d < 10 {
        ((d + 0x30) as u8) as char
    } else {
        ((d + 0x37) as u8) as char
    }
}

/// The characters that one byte serializes to: itself when unreserved, `+`
/// for a space, otherwise `%` and two upper-case hexadecimal digits.
pub open spec fn encode_byte(b: u8) -> Seq<char> {
    if is_unreserved_byte(b) {
        seq![b as char]
    } else if b == 0x20 {
        seq!['+']
    } else {
        seq!['%', hex_digit_upper(b / 16), hex_digit_upper(b % 16)]
    }
}

/// Byte serialization of a whole byte string.
pub open spec fn byte_serialize(bytes: Seq<u8>) -> Seq<char>
    decreases bytes.len(),
{
    if bytes.len() == 0 {
        Seq::empty()
    } else {
        encode_byte(bytes[0]) + byte_serialize(bytes.drop_first())
    }
}

/// Serialization of a string: its UTF-8 bytes, byte-serialized.
pub open spec fn encode_component(s: Seq<char>) -> Seq<char> {
    byte_serialize(encode_utf8(s))
}

/// One `name=value` pair.
pub open spec fn encode_pair(pair: (Seq<char>, Seq<char>)) -> Seq<char> {
    encode_component(pair.0) + seq!['='] + encode_component(pair.1)
}

/// All pairs, in order, separated by `&`.
pub open spec fn form_urlencode(pairs: Seq<(Seq<char>, Seq<char>)>) -> Seq<char>
    decreases pairs.len(),
{
    if pairs.len() == 0 {
        Seq::empty()
    } else if pairs.len() == 1 {
        encode_pair(pairs[0])
    } else {
        form_urlencode(pairs.drop_last()) + seq!['&'] + encode_pair(pairs.last())
    }
}

/// Serializing one more byte appends that byte's encoding.
pub proof fn lemma_byte_serialize_push(bytes: Seq<u8>, b: u8)
    ensures
        byte_serialize(bytes.push(b)) == byte_serialize(bytes) + encode_byte(b),
    decreases bytes.len(),
{
    if bytes.len() == 0 {
        assert(bytes.push(b).drop_first() =~= Seq::<u8>::empty());
        assert(byte_serialize(Seq::<u8>::empty()) =~= Seq::<char>::empty());
        assert(byte_serialize(bytes.push(b)) =~= encode_byte(b));
    } else {
        lemma_byte_serialize_push(bytes.drop_first(), b);
        assert(bytes.push(b).drop_first() =~= bytes.drop_first().push(b));
        assert(byte_serialize(bytes.push(b)) =~= byte_serialize(bytes) + encode_byte(b));
    }
}

/// Value of a hexadecimal digit byte, either case.
pub open spec fn hex_value(b: u8) -> Option<u8> {
    if 0x30 <= b && b <= 0x39 {
        Some((b - 0x30) as u8)
    } else if 0x41 <= b && b <= 0x46 {
        Some((b - 0x37) as u8)
    } else if 0x61 <= b && b <= 0x66 {
        Some((b - 0x57) as u8)
    } else {
        None
    }
}

/// Form decoding of a byte string: `+` is a space, `%` with two hexadecimal
/// digits is the byte they spell, and every other byte stands for itself.
pub open spec fn form_decode(s: Seq<u8>) -> Seq<u8>
    decreases s.len(),
{
    if s.len() == 0 {
        Seq::empty()
    } else if s[0] == 0x2b {
        seq![0x20u8] + form_decode(s.drop_first())
    } else if s[0] == 0x25 && s.len() >= 3 && hex_value(s[1]) is Some && hex_value(s[2]) is Some {
        seq![((hex_value(s[1])->0) * 16 + hex_value(s[2])->0) as u8] + form_decode(s.skip(3))
    } else {
        seq![s[0]] + form_decode(s.drop_first())
    }
}

/// Every character that byte serialization produces is ASCII.
pub proof fn lemma_byte_serialize_ascii(bytes: Seq<u8>)
    ensures
        is_ascii_chars(byte_serialize(bytes)),
    decreases bytes.len(),
{
    if bytes.len() > 0 {
        lemma_byte_serialize_ascii(bytes.drop_first());
        let b = bytes[0];
        assert(b / 16 < 16 && b % 16 < 16);
        let e = encode_byte(b);
        let r = byte_serialize(bytes.drop_first());
        assert(byte_serialize(bytes) =~= e + r);
        assert forall|i: int| 0 <= i < e.len() + r.len() implies ((e + r)[i] as u32) < 128 by {
            if i >= e.len() {
                assert((e + r)[i] == r[i - e.len()]);
            }
        }
    }
}

/// Decoding what byte serialization produced gives back the same bytes:
/// the encoding loses nothing and needs no context to undo.
pub proof fn lemma_form_decode_byte_serialize(bytes: Seq<u8>)
    ensures
        form_decode(encode_utf8(byte_serialize(bytes))) == bytes,
    decreases bytes.len(),
{
    lemma_byte_serialize_ascii(bytes);
    is_ascii_chars_encode_utf8(byte_serialize(bytes));
    if bytes.len() == 0 {
        assert(encode_utf8(byte_serialize(bytes)) =~= Seq::<u8>::empty());
    } else {
        let b = bytes[0];
        let rest = bytes.drop_first();
        lemma_form_decode_byte_serialize(rest);
        lemma_byte_serialize_ascii(rest);
        is_ascii_chars_encode_utf8(byte_serialize(rest));
        let e = encode_byte(b);
        let full = encode_utf8(byte_serialize(bytes));
        let tail = encode_utf8(byte_serialize(rest));
        assert(byte_serialize(bytes) == e + byte_serialize(rest));
        assert(full.len() == e.len() + tail.len());
        assert forall|i: int| 0 <= i < tail.len() implies full[i + e.len()] == tail[i] by {
            assert(byte_serialize(bytes)[i + e.len()] == byte_serialize(rest)[i]);
        }
        if is_unreserved_byte(b) {
            assert(full[0] == b);
            assert(full.drop_first() =~= tail);
        } else if b == 0x20 {
            assert(full[0] == 0x2b);
            assert(full.drop_first() =~= tail);
        } else {
            let hi = b / 16;
            let lo = b % 16;
            assert(full[0] == 0x25);
            assert(full[1] == hex_digit_upper(hi) as u8);
            assert(full[2] == hex_digit_upper(lo) as u8);
            assert(hex_value(full[1]) == Some(hi));
            assert(hex_value(full[2]) == Some(lo));
            assert(full.skip(3) =~= tail);
        }
        assert(form_decode(full) =~= bytes);
    }
}

/// The position of the first byte `b` in `s`.
pub open spec fn first_byte_index(s: Seq<u8>, b: u8) -> Option<int>
    decreases s.len(),
{
    if s.len() == 0 {
        None
    } else if s[0] == b {
        Some(0)
    } else {
        match first_byte_index(s.drop_first(), b) {
            Some(i) => Some(i + 1),
            None => None,
        }
    }
}

/// The first occurrence, when there is one, lies inside the sequence.
pub proof fn lemma_first_byte_index_bounds(s: Seq<u8>, b: u8)
    ensures
        first_byte_index(s, b) matches Some(i) ==> 0 <= i < s.len(),
    decreases s.len(),
{
    if s.len() > 0 {
        lemma_first_byte_index_bounds(s.drop_first(), b);
    }
}

/// `s` split at its first byte `b`: what comes before it and what after, or
/// all of `s` and nothing when `b` does not occur.
pub open spec fn split_at_byte(s: Seq<u8>, b: u8) -> (Seq<u8>, Seq<u8>) {
    match first_byte_index(s, b) {
        Some(i) => (s.subrange(0, i), s.subrange(i + 1, s.len() as int)),
        None => (s, Seq::empty()),
    }
}

/// Form parsing of a body: `&`-separated segments, empty ones skipped, each
/// split at its first `=` into a name and a value, both form-decoded.
pub open spec fn form_parse(s: Seq<u8>) -> Seq<(Seq<u8>, Seq<u8>)>
    decreases s.len(),
{
    if s.len() == 0 {
        Seq::empty()
    } else {
        proof {
            lemma_first_byte_index_bounds(s, 0x26);
        }
        let (segment, rest) = split_at_byte(s, 0x26);
        if segment.len() == 0 {
            form_parse(rest)
        } else {
            let (name, value) = split_at_byte(segment, 0x3d);
            seq![(form_decode(name), form_decode(value))] + form_parse(rest)
        }
    }
}

/// Pairs as their UTF-8 bytes.
pub open spec fn utf8_pairs(pairs: Seq<(Seq<char>, Seq<char>)>) -> Seq<(Seq<u8>, Seq<u8>)> {
    pairs.map_values(|p: (Seq<char>, Seq<char>)| (encode_utf8(p.0), encode_utf8(p.1)))
}

/// The bytes of ASCII characters.
pub open spec fn ascii_bytes(s: Seq<char>) -> Seq<u8> {
    Seq::new(s.len(), |i: int| s[i] as u8)
}

/// A character that byte serialization may produce and that is neither
/// separator of the form syntax.
pub open spec fn component_char(c: char) -> bool {
    (c as u32) < 128 && c != '&' && c != '='
}

proof fn lemma_byte_serialize_component(bytes: Seq<u8>)
    ensures
        forall|i: int| 0 <= i < byte_serialize(bytes).len() ==> component_char(#[trigger] byte_serialize(bytes)[i]),
    decreases bytes.len(),
{
    if bytes.len() > 0 {
        lemma_byte_serialize_component(bytes.drop_first());
        let b = bytes[0];
        assert(b / 16 < 16 && b % 16 < 16);
        let e = encode_byte(b);
        let r = byte_serialize(bytes.drop_first());
        assert(byte_serialize(bytes) =~= e + r);
        assert forall|i: int| 0 <= i < e.len() + r.len() implies component_char(#[trigger] (e + r)[i]) by {
            if i >= e.len() {
                assert((e + r)[i] == r[i - e.len()]);
            }
        }
    }
}

proof fn lemma_form_urlencode_front(pairs: Seq<(Seq<char>, Seq<char>)>)
    requires
        pairs.len() >= 2,
    ensures
        form_urlencode(pairs) == encode_pair(pairs[0]) + seq!['&'] + form_urlencode(pairs.drop_first()),
    decreases pairs.len(),
{
    let dl = pairs.drop_last();
    let df = pairs.drop_first();
    assert(form_urlencode(pairs) == form_urlencode(dl) + seq!['&'] + encode_pair(pairs.last()));
    if pairs.len() == 2 {
        assert(dl.len() == 1 && dl[0] == pairs[0]);
        assert(form_urlencode(dl) == encode_pair(pairs[0]));
        assert(df.len() == 1 && df[0] == pairs.last());
        assert(form_urlencode(df) == encode_pair(pairs.last()));
    } else {
        lemma_form_urlencode_front(dl);
        assert(df.drop_last() =~= dl.drop_first());
        assert(df.last() == pairs.last());
        assert(dl[0] == pairs[0]);
        assert(form_urlencode(df) == form_urlencode(df.drop_last()) + seq!['&'] + encode_pair(df.last()));
    }
}

proof fn lemma_first_byte_index_at(a: Seq<u8>, b: u8, rest: Seq<u8>)
    requires
        forall|i: int| 0 <= i < a.len() ==> a[i] != b,
    ensures
        first_byte_index(a + seq![b] + rest, b) == Some(a.len() as int),
    decreases a.len(),
{
    if a.len() > 0 {
        lemma_first_byte_index_at(a.drop_first(), b, rest);
        assert((a + seq![b] + rest).drop_first() =~= a.drop_first() + seq![b] + rest);
    }
}

proof fn lemma_first_byte_index_absent(s: Seq<u8>, b: u8)
    requires
        forall|i: int| 0 <= i < s.len() ==> s[i] != b,
    ensures
        first_byte_index(s, b) is None,
    decreases s.len(),
{
    if s.len() > 0 {
        lemma_first_byte_index_absent(s.drop_first(), b);
    }
}

proof fn lemma_ascii_bytes_encode(s: Seq<char>)
    requires
        is_ascii_chars(s),
    ensures
        encode_utf8(s) == ascii_bytes(s),
{
    is_ascii_chars_encode_utf8(s);
    assert(encode_utf8(s) =~= ascii_bytes(s));
}

proof fn lemma_ascii_concat(a: Seq<char>, b: Seq<char>)
    requires
        is_ascii_chars(a),
        is_ascii_chars(b),
    ensures
        is_ascii_chars(a + b),
{
    assert forall|i: int| 0 <= i < (a + b).len() implies '\0' <= #[trigger] (a + b)[i] <= '\u{7f}' by {
        if i < a.len() {
            assert((a + b)[i] == a[i]);
        } else {
            assert((a + b)[i] == b[i - a.len()]);
        }
    }
}

/// The bytes of one encoded pair are the name's encoding, `=`, and the
/// value's encoding; neither encoding holds `&` or `=`.
proof fn lemma_encode_pair_bytes(pair: (Seq<char>, Seq<char>))
    ensures
        ({
            let n = byte_serialize(encode_utf8(pair.0));
            let v = byte_serialize(encode_utf8(pair.1));
            &&& encode_utf8(encode_pair(pair)) == ascii_bytes(n) + seq![0x3du8] + ascii_bytes(v)
            &&& is_ascii_chars(encode_pair(pair))
            &&& forall|i: int| 0 <= i < encode_pair(pair).len() ==> #[trigger] encode_pair(pair)[i] != '&'
            &&& forall|i: int| 0 <= i < n.len() ==> #[trigger] ascii_bytes(n)[i] != 0x3du8
            &&& forall|i: int| 0 <= i < encode_pair(pair).len() ==> #[trigger] encode_utf8(encode_pair(pair))[i] != 0x26u8
            &&& form_decode(ascii_bytes(n)) == encode_utf8(pair.0)
            &&& form_decode(ascii_bytes(v)) == encode_utf8(pair.1)
        }),
{
    let n = byte_serialize(encode_utf8(pair.0));
    let v = byte_serialize(encode_utf8(pair.1));
    let e = encode_pair(pair);
    lemma_byte_serialize_component(encode_utf8(pair.0));
    lemma_byte_serialize_component(encode_utf8(pair.1));
    lemma_byte_serialize_ascii(encode_utf8(pair.0));
    lemma_byte_serialize_ascii(encode_utf8(pair.1));
    assert(e == n + seq!['='] + v);
    assert forall|i: int| 0 <= i < e.len() implies #[trigger] e[i] != '&' && '\0' <= e[i] <= '\u{7f}' by {
        if i < n.len() {
            assert(e[i] == n[i]);
            assert(component_char(n[i]));
        } else if i > n.len() {
            assert(e[i] == v[i - n.len() - 1]);
            assert(component_char(v[i - n.len() - 1]));
        }
    }
    assert(is_ascii_chars(e));
    lemma_ascii_bytes_encode(e);
    assert(ascii_bytes(e) =~= ascii_bytes(n) + seq![0x3du8] + ascii_bytes(v));
    assert forall|i: int| 0 <= i < n.len() implies #[trigger] ascii_bytes(n)[i] != 0x3du8 by {
        assert(component_char(n[i]));
    }
    assert forall|i: int| 0 <= i < e.len() implies #[trigger] encode_utf8(e)[i] != 0x26u8 by {
        assert(ascii_bytes(e)[i] == e[i] as u8);
    }
    lemma_form_decode_byte_serialize(encode_utf8(pair.0));
    lemma_form_decode_byte_serialize(encode_utf8(pair.1));
    lemma_ascii_bytes_encode(n);
    lemma_ascii_bytes_encode(v);
}

proof fn lemma_form_urlencode_ascii(pairs: Seq<(Seq<char>, Seq<char>)>)
    ensures
        is_ascii_chars(form_urlencode(pairs)),
    decreases pairs.len(),
{
    if pairs.len() == 1 {
        lemma_encode_pair_bytes(pairs[0]);
    } else if pairs.len() >= 2 {
        lemma_form_urlencode_ascii(pairs.drop_last());
        lemma_encode_pair_bytes(pairs.last());
        let a = form_urlencode(pairs.drop_last());
        let b = encode_pair(pairs.last());
        assert(is_ascii_chars(seq!['&']));
        lemma_ascii_concat(a, seq!['&']);
        lemma_ascii_concat(a + seq!['&'], b);
    }
}

proof fn lemma_parse_single_segment(pair: (Seq<char>, Seq<char>), rest: Seq<u8>)
    ensures
        form_parse(encode_utf8(encode_pair(pair)) + seq![0x26u8] + rest) == seq![
            (encode_utf8(pair.0), encode_utf8(pair.1)),
        ] + form_parse(rest),
        form_parse(encode_utf8(encode_pair(pair))) == seq![(encode_utf8(pair.0), encode_utf8(pair.1))],
{
    lemma_encode_pair_bytes(pair);
    let n = ascii_bytes(byte_serialize(encode_utf8(pair.0)));
    let v = ascii_bytes(byte_serialize(encode_utf8(pair.1)));
    let seg = encode_utf8(encode_pair(pair));
    assert(seg == n + seq![0x3du8] + v);
    assert(seg.len() == encode_pair(pair).len());
    assert forall|i: int| 0 <= i < seg.len() implies seg[i] != 0x26u8 by {
        assert(encode_utf8(encode_pair(pair))[i] != 0x26u8);
    }
    lemma_first_byte_index_at(seg, 0x26u8, rest);
    let whole = seg + seq![0x26u8] + rest;
    assert(whole.subrange(0, seg.len() as int) =~= seg);
    assert(whole.subrange(seg.len() as int + 1, whole.len() as int) =~= rest);
    lemma_first_byte_index_at(n, 0x3du8, v);
    assert(seg.subrange(0, n.len() as int) =~= n);
    assert(seg.subrange(n.len() as int + 1, seg.len() as int) =~= v);
    lemma_first_byte_index_absent(seg, 0x26u8);
    assert(seg.len() > 0);
    assert(form_parse(Seq::<u8>::empty()) =~= Seq::<(Seq<u8>, Seq<u8>)>::empty());
    assert(seq![(encode_utf8(pair.0), encode_utf8(pair.1))] + form_parse(Seq::<u8>::empty()) =~= seq![
        (encode_utf8(pair.0), encode_utf8(pair.1)),
    ]);
}

/// Parsing a serialized body gives back exactly the pairs it was made
/// from, in order, as UTF-8 bytes: the receiver of a form body reads the
/// fields that were sent.
pub proof fn lemma_form_parse_urlencode(pairs: Seq<(Seq<char>, Seq<char>)>)
    ensures
        form_parse(encode_utf8(form_urlencode(pairs))) == utf8_pairs(pairs),
    decreases pairs.len(),
{
    if pairs.len() == 0 {
        assert(encode_utf8(form_urlencode(pairs)) =~= Seq::<u8>::empty());
        assert(utf8_pairs(pairs) =~= Seq::<(Seq<u8>, Seq<u8>)>::empty());
    } else if pairs.len() == 1 {
        lemma_parse_single_segment(pairs[0], Seq::empty());
        assert(utf8_pairs(pairs) =~= seq![(encode_utf8(pairs[0].0), encode_utf8(pairs[0].1))]);
    } else {
        lemma_form_urlencode_front(pairs);
        lemma_form_parse_urlencode(pairs.drop_first());
        let head = encode_pair(pairs[0]);
        let tail = form_urlencode(pairs.drop_first());
        lemma_encode_pair_bytes(pairs[0]);
        lemma_form_urlencode_ascii(pairs.drop_first());
        assert(is_ascii_chars(seq!['&']));
        lemma_ascii_concat(head, seq!['&']);
        lemma_ascii_concat(head + seq!['&'], tail);
        let whole = head + seq!['&'] + tail;
        lemma_ascii_bytes_encode(whole);
        lemma_ascii_bytes_encode(head);
        lemma_ascii_bytes_encode(tail);
        assert(ascii_bytes(whole) =~= ascii_bytes(head) + seq![0x26u8] + ascii_bytes(tail));
        lemma_parse_single_segment(pairs[0], encode_utf8(tail));
        assert(utf8_pairs(pairs) =~= seq![(encode_utf8(pairs[0].0), encode_utf8(pairs[0].1))] + utf8_pairs(
            pairs.drop_first(),
        ));
    }
}

fn hex_digit(d: u8) -> (c: char)
    requires
        d < 16,
    ensures
        c == hex_digit_upper(d),
{
    if d < 10 {
        (d + 0x30) as char
    } else {
        (d + 0x37) as char
    }
}

/// Appends the serialization of `bytes` to `out`.
pub fn append_byte_serialized(out: &mut String, bytes: &[u8])
    ensures
        final(out)@ == old(out)@ + byte_serialize(bytes@),
{
    let n = bytes.len();
    let mut i: usize = 0;
    let ghost start = out@;
    assert(bytes@.subrange(0, 0) =~= Seq::<u8>::empty());
    while i < n
        invariant
            n == bytes@.len(),
            i <= n,
            out@ == start + byte_serialize(bytes@.subrange(0, i as int)),
        decreases n - i,
    {
        let b = bytes[i];
        proof {
            lemma_byte_serialize_push(bytes@.subrange(0, i as int), b);
            assert(bytes@.subrange(0, i as int).push(b) =~= bytes@.subrange(0, i + 1));
        }
        if (b == 0x2a || b == 0x2d || b == 0x2e || b == 0x5f) || (0x30 <= b && b <= 0x39)
            || (0x41 <= b && b <= 0x5a) || (0x61 <= b && b <= 0x7a) {
            out.push(b as char);
        } else if b == 0x20 {
            out.push('+');
        } else {
            out.push('%');
            out.push(hex_digit(b / 16));
            out.push(hex_digit(b % 16));
        }
        i = i + 1;
        assert(out@ =~= start + byte_serialize(bytes@.subrange(0, i as int)));
    }
    assert(bytes@.subrange(0, n as int) =~= bytes@);
}

/// Serializes `pairs` as an `application/x-www-form-urlencoded` body:
/// each pair as `name=value` with both sides byte-serialized from UTF-8,
/// pairs joined by `&`.
pub fn serialize_pairs(pairs: &Vec<(String, String)>) -> (r: String)
    ensures
        r@ == form_urlencode(pairs@.map_values(|p: (String, String)| (p.0@, p.1@))),
{
    let ghost views = pairs@.map_values(|p: (String, String)| (p.0@, p.1@));
    let mut out = String::new();
    let n = pairs.len();
    let mut i: usize = 0;
    while i < n
        invariant
            n == pairs@.len(),
            views == pairs@.map_values(|p: (String, String)| (p.0@, p.1@)),
            i <= n,
            out@ == form_urlencode(views.subrange(0, i as int)),
        decreases n - i,
    {
        if i > 0 {
            out.push('&');
        }
        let name = pairs[i].0.as_str();
        let value = pairs[i].1.as_str();
        append_byte_serialized(&mut out, name.as_bytes());
        out.push('=');
        append_byte_serialized(&mut out, value.as_bytes());
        i = i + 1;
        proof {
            let prefix = views.subrange(0, i as int);
            assert(prefix.drop_last() =~= views.subrange(0, i - 1));
            assert(prefix.last() == views[i - 1]);
            if i == 1 {
                assert(views.subrange(0, 0).len() == 0);
            }
        }
        assert(out@ =~= form_urlencode(views.subrange(0, i as int)));
    }
    assert(views.subrange(0, n as int) =~= views);
    out
}

} // verus!
