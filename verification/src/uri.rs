//! `file://` URI construction: RFC 3986 percent-encoding applied to the bytes
//! of an absolute path, with `/` separators preserved.
use vstd::prelude::*;
use vstd::string::StrSliceExecFns;
use vstd::string::StringExecFns;

verus! {

/// Unreserved bytes pass through a percent-encoder unchanged.
pub open spec fn is_unreserved_byte(b: u8) -> bool {
    (('A' as u8) <= b && b <= ('Z' as u8)) || (('a' as u8) <= b && b <= ('z' as u8)) || (('0' as u8) <= b && b <= ('9' as u8)) || b == ('-' as u8)
        || b == ('_' as u8) || b == ('.' as u8) || b == ('~' as u8)
}

/// In a path, `/` separators are kept as well.
pub open spec fn passes_unencoded(b: u8) -> bool {
    is_unreserved_byte(b) || b == ('/' as u8)
}

/// The ASCII byte of the uppercase hexadecimal digit for `n < 16`.
pub open spec fn hex_digit(n: u8) -> u8
    recommends
        n < 16,
{
    if n < 10 {
        (('0' as u8) + n) as u8
    } else {
        (('A' as u8) + (n - 10)) as u8
    }
}

/// How one byte is encoded: itself, or `%XX` with uppercase digits.
pub open spec fn encode_byte(b: u8) -> Seq<u8> {
    if passes_unencoded(b) {
        seq![b]
    } else {
        seq![('%' as u8), hex_digit(b / 16), hex_digit(b % 16)]
    }
}

/// Percent-encoding of a whole byte string.
pub open spec fn encode_bytes(s: Seq<u8>) -> Seq<u8>
    decreases s.len(),
{
    if s.len() == 0 {
        Seq::empty()
    } else {
        encode_byte(s.first()) + encode_bytes(s.drop_first())
    }
}

/// The value of a hexadecimal digit byte, either case.
pub open spec fn hex_value(b: u8) -> Option<u8> {
    if ('0' as u8) <= b && b <= ('9' as u8) {
        Some((b - ('0' as u8)) as u8)
    } else if ('A' as u8) <= b && b <= ('F' as u8) {
        Some((b - ('A' as u8) + 10) as u8)
    } else if ('a' as u8) <= b && b <= ('f' as u8) {
        Some((b - ('a' as u8) + 10) as u8)
    } else {
        None
    }
}

/// Percent-decoding: the inverse reading. `%` must begin a valid escape;
/// every other byte stands for itself.
pub open spec fn decode_bytes(s: Seq<u8>) -> Option<Seq<u8>>
    decreases s.len(),
{
    if s.len() == 0 {
        Some(Seq::empty())
    } else if s.first() == ('%' as u8) {
        if s.len() >= 3 && hex_value(s[1]) is Some && hex_value(s[2]) is Some {
            match decode_bytes(s.skip(3)) {
                Some(rest) => Some(
                    seq![(hex_value(s[1]).unwrap() * 16 + hex_value(s[2]).unwrap()) as u8] + rest,
                ),
                None => None,
            }
        } else {
            None
        }
    } else {
        match decode_bytes(s.drop_first()) {
            Some(rest) => Some(seq![s.first()] + rest),
            None => None,
        }
    }
}

/// ASCII bytes read as the characters of the same value.
pub open spec fn chars_of_ascii(s: Seq<u8>) -> Seq<char> {
    Seq::new(s.len(), |i: int| s[i] as char)
}

proof fn lemma_hex_digit_value(n: u8)
    requires
        n < 16,
    ensures
        hex_value(hex_digit(n)) == Some(n),
        hex_digit(n) != ('%' as u8),
        hex_digit(n) < 0x80,
{
}

proof fn lemma_encode_byte_ascii(b: u8)
    ensures
        forall|i: int| 0 <= i < encode_byte(b).len() ==> encode_byte(b)[i] < 0x80,
{
}

/// Decoding undoes encoding: percent-encoding loses no byte of a path.
pub proof fn lemma_percent_roundtrip(s: Seq<u8>)
    ensures
        decode_bytes(encode_bytes(s)) == Some(s),
    decreases s.len(),
{
    if s.len() == 0 {
    } else {
        let b = s.first();
        let rest = s.drop_first();
        lemma_percent_roundtrip(rest);
        let enc = encode_bytes(s);
        assert(enc == encode_byte(b) + encode_bytes(rest));
        if passes_unencoded(b) {
            assert(b != ('%' as u8));
            assert(enc.first() == b);
            assert(enc.drop_first() =~= encode_bytes(rest));
            assert(decode_bytes(enc) == Some(seq![b] + rest));
            assert(seq![b] + rest =~= s);
        } else {
            let hi = b / 16;
            let lo = b % 16;
            assert(b / 16 < 16 && b % 16 < 16 && (b / 16) * 16 + (b % 16) == b) by (bit_vector);
            lemma_hex_digit_value(hi);
            lemma_hex_digit_value(lo);
            assert(enc[0] == ('%' as u8) && enc[1] == hex_digit(hi) && enc[2] == hex_digit(lo));
            assert(enc.len() >= 3);
            assert(enc.skip(3) =~= encode_bytes(rest));
            assert(decode_bytes(enc) == Some(seq![b] + rest));
            assert(seq![b] + rest =~= s);
        }
    }
}

/// Relies on `String::from_utf8`: bytes in the ASCII range decode to the
/// string of the characters with those values.
#[verifier::external_body]
fn ascii_to_string(v: Vec<u8>) -> (r: String)
    requires
        forall|i: int| 0 <= i < v@.len() ==> v@[i] < 0x80,
    ensures
        r@ == chars_of_ascii(v@),
{
    String::from_utf8(v).unwrap_or_default()
}

/// Appending one more byte extends the encoding by that byte's escape.
proof fn lemma_encode_snoc(s: Seq<u8>, i: int)
    requires
        0 <= i < s.len(),
    ensures
        encode_bytes(s.take(i + 1)) == encode_bytes(s.take(i)) + encode_byte(s[i]),
    decreases i,
{
    if i == 0 {
        let t = s.take(1);
        assert(t.first() == s[0]);
        assert(t.drop_first() =~= Seq::<u8>::empty());
        assert(encode_byte(s[0]) + Seq::<u8>::empty() =~= encode_byte(s[0]));
        assert(s.take(0) =~= Seq::<u8>::empty());
        assert(Seq::<u8>::empty() + encode_byte(s[0]) =~= encode_byte(s[0]));
    } else {
        lemma_encode_snoc(s.drop_first(), i - 1);
        assert(s.drop_first()[i - 1] == s[i]);
        let a = s.take(i + 1);
        let t = s.take(i);
        assert(a.first() == s.first());
        assert(a.drop_first() =~= s.drop_first().take(i));
        assert(t.first() == s.first());
        assert(t.drop_first() =~= s.drop_first().take(i - 1));
        assert(encode_bytes(a) == encode_byte(s.first()) + encode_bytes(s.drop_first().take(i)));
        assert(encode_bytes(t) == encode_byte(s.first()) + encode_bytes(
            s.drop_first().take(i - 1),
        ));
        assert(encode_byte(s.first()) + (encode_bytes(s.drop_first().take(i - 1)) + encode_byte(
            s[i],
        )) =~= (encode_byte(s.first()) + encode_bytes(s.drop_first().take(i - 1))) + encode_byte(
            s[i],
        ));
    }
}

fn hex_digit_exec(n: u8) -> (r: u8)
    requires
        n < 16,
    ensures
        r == hex_digit(n),
{
    if n < 10 {
        ('0' as u8) + n
    } else {
        ('A' as u8) + (n - 10)
    }
}

/// The `file://` URI of a path: the scheme, then the percent-encoded UTF-8
/// bytes of the path.
pub open spec fn file_uri_of(p: Seq<char>) -> Seq<char> {
    "file://"@ + chars_of_ascii(encode_bytes(vstd::utf8::encode_utf8(p)))
}

/// Percent-encode the UTF-8 bytes of a path and prefix the `file` scheme.
pub fn encode_file_uri(path: &str) -> (r: String)
    ensures
        r@ == file_uri_of(path@),
{
    let bytes: Vec<u8> = path.as_bytes_vec();
    let mut out: Vec<u8> = Vec::new();
    let n = bytes.len();
    let mut i: usize = 0;
    while i < n
        invariant
            n == bytes@.len(),
            i <= n,
            out@ == encode_bytes(bytes@.take(i as int)),
            forall|j: int| 0 <= j < out@.len() ==> out@[j] < 0x80,
        decreases n - i,
    {
        let b = bytes[i];
        let ghost old_out = out@;
        if (('A' as u8) <= b && b <= ('Z' as u8)) || (('a' as u8) <= b && b <= ('z' as u8)) || (('0' as u8) <= b && b <= ('9' as u8))
            || b == ('-' as u8) || b == ('_' as u8) || b == ('.' as u8) || b == ('~' as u8) || b == ('/' as u8) {
            out.push(b);
            proof {
                assert(out@ =~= old_out + encode_byte(b));
            }
        } else {
            assert(!passes_unencoded(b));
            out.push(('%' as u8));
            out.push(hex_digit_exec(b / 16));
            out.push(hex_digit_exec(b % 16));
            proof {
                assert(out@ =~= old_out + encode_byte(b));
            }
        }
        proof {
            lemma_encode_byte_ascii(b);
            lemma_encode_snoc(bytes@, i as int);
        }
        i = i + 1;
    }
    proof {
        assert(bytes@.take(n as int) =~= bytes@);
    }
    let mut r = String::from_str("file://");
    let encoded = ascii_to_string(out);
    r.append(encoded.as_str());
    r
}

fn hex_value_exec(b: u8) -> (r: Option<u8>)
    ensures
        r == hex_value(b),
        r is Some ==> r.unwrap() < 16,
{
    if ('0' as u8) <= b && b <= ('9' as u8) {
        Some(b - ('0' as u8))
    } else if ('A' as u8) <= b && b <= ('F' as u8) {
        Some(b - ('A' as u8) + 10)
    } else if ('a' as u8) <= b && b <= ('f' as u8) {
        Some(b - ('a' as u8) + 10)
    } else {
        None
    }
}

/// Percent-decode a byte string; `None` when an escape is malformed.
pub fn percent_decode(bytes: &Vec<u8>) -> (r: Option<Vec<u8>>)
    ensures
        match r {
            Some(v) => decode_bytes(bytes@) == Some(v@),
            None => decode_bytes(bytes@) is None,
        },
{
    let mut out: Vec<u8> = Vec::new();
    let n = bytes.len();
    let mut i: usize = 0;
    proof {
        assert(bytes@.skip(0) =~= bytes@);
        if decode_bytes(bytes@) is Some {
            let rest = decode_bytes(bytes@).unwrap();
            assert(Seq::<u8>::empty() + rest =~= rest);
        }
    }
    while i < n
        invariant
            n == bytes@.len(),
            i <= n,
            decode_bytes(bytes@) == match decode_bytes(bytes@.skip(i as int)) {
                Some(rest) => Some(out@ + rest),
                None => None::<Seq<u8>>,
            },
        decreases n - i,
    {
        let ghost tail = bytes@.skip(i as int);
        let ghost old_out = out@;
        let b = bytes[i];
        proof {
            assert(tail.first() == bytes@[i as int]);
        }
        if b == ('%' as u8) {
            if n - i < 3 {
                proof {
                    assert(tail.len() < 3);
                }
                return None;
            }
            let h1 = hex_value_exec(bytes[i + 1]);
            let h2 = hex_value_exec(bytes[i + 2]);
            proof {
                assert(tail[1] == bytes@[i + 1]);
                assert(tail[2] == bytes@[i + 2]);
            }
            match (h1, h2) {
                (Some(hi), Some(lo)) => {
                    assert(hi < 16 && lo < 16);
                    out.push(hi * 16 + lo);
                    proof {
                        assert(tail.skip(3) =~= bytes@.skip(i + 3));
                        if decode_bytes(bytes@.skip(i + 3)) is Some {
                            let rest = decode_bytes(bytes@.skip(i + 3)).unwrap();
                            assert(old_out + (seq![(hi * 16 + lo) as u8] + rest) =~= out@ + rest);
                        }
                    }
                    i = i + 3;
                },
                _ => {
                    return None;
                },
            }
        } else {
            out.push(b);
            proof {
                assert(tail.drop_first() =~= bytes@.skip(i + 1));
                if decode_bytes(bytes@.skip(i + 1)) is Some {
                    let rest = decode_bytes(bytes@.skip(i + 1)).unwrap();
                    assert(old_out + (seq![b] + rest) =~= out@ + rest);
                }
            }
            i = i + 1;
        }
    }
    proof {
        assert(bytes@.skip(n as int) =~= Seq::<u8>::empty());
        assert(out@ + Seq::<u8>::empty() =~= out@);
    }
    Some(out)
}

} // verus!
