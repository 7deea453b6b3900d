use vstd::prelude::*;

verus! {

/// The value of a hexadecimal digit, either case.
pub open spec fn hex_digit_value(c: char) -> Option<nat> {
    if '0' <= c && c <= '9' {
        Some((c as nat - '0' as nat) as nat)
    } else if 'a' <= c && c <= 'f' {
        Some((c as nat - 'a' as nat + 10) as nat)
    } else if 'A' <= c && c <= 'F' {
        Some((c as nat - 'A' as nat + 10) as nat)
    } else {
        None
    }
}

/// The lower-case hexadecimal digit of `n < 16`.
pub open spec fn lower_hex_digit(n: nat) -> char {
    if n < 10 {
        (48 + n) as char
    } else {
        (87 + n) as char
    }
}

/// Whether `s` is an even number of hexadecimal digits.
pub open spec fn is_hex_text(s: Seq<char>) -> bool {
    &&& s.len() % 2 == 0
    &&& forall|i: int| 0 <= i < s.len() ==> (#[trigger] hex_digit_value(s[i])) is Some
}

/// The bytes that a hexadecimal text denotes, two digits per byte, high digit first.
pub open spec fn hex_text_bytes(s: Seq<char>) -> Seq<u8> {
    Seq::new(
        s.len() / 2,
        |i: int|
            (hex_digit_value(s[2 * i])->0 * 16 + hex_digit_value(s[2 * i + 1])->0) as u8,
    )
}

/// The lower-case hexadecimal text of a byte sequence.
pub open spec fn hex_text(b: Seq<u8>) -> Seq<char> {
    Seq::new(
        2 * b.len(),
        |i: int|
            if i % 2 == 0 {
                lower_hex_digit((b[i / 2] / 16) as nat)
            } else {
                lower_hex_digit((b[i / 2] % 16) as nat)
            },
    )
}

/// Hexadecimal text parses back to the bytes it was made of.
pub proof fn lemma_hex_roundtrip(b: Seq<u8>)
    ensures
        is_hex_text(hex_text(b)),
        hex_text_bytes(hex_text(b)) == b,
{
    let t = hex_text(b);
    assert forall|i: int| 0 <= i < t.len() implies (#[trigger] hex_digit_value(t[i])) is Some
        && hex_digit_value(t[i])->0 == (if i % 2 == 0 { b[i / 2] / 16 } else { b[i / 2] % 16 }) by {
        let d: int = if i % 2 == 0 { (b[i / 2] / 16) as int } else { (b[i / 2] % 16) as int };
        assert(0 <= d < 16);
    }
    assert forall|k: int| 0 <= k < b.len() implies #[trigger] hex_text_bytes(t)[k] == b[k] by {
        assert((2 * k) % 2 == 0);
        assert((2 * k + 1) % 2 == 1);
        assert((2 * k) / 2 == k);
        assert((2 * k + 1) / 2 == k);
        assert(hex_digit_value(t[2 * k])->0 == b[k] / 16);
        assert(hex_digit_value(t[2 * k + 1])->0 == b[k] % 16);
    }
    assert(hex_text_bytes(t) =~= b);
}

/// Encodes bytes as lower-case hexadecimal text (`hex::encode`).
#[verifier::external_body]
pub(crate) fn hex_encode(bytes: &[u8]) -> (r: String)
    ensures
        r@ == hex_text(bytes@),
{
    hex::encode(bytes)
}

/// Decodes hexadecimal text of either case (`hex::decode`); the error is the
/// crate's message for an odd length or an invalid digit.
#[verifier::external_body]
pub(crate) fn hex_decode(text: &str) -> (r: Result<Vec<u8>, String>)
    ensures
        r is Ok <==> is_hex_text(text@),
        r matches Ok(v) ==> v@ == hex_text_bytes(text@),
{
    match hex::decode(text) {
        Ok(v) => Ok(v),
        Err(e) => Err(e.to_string()),
    }
}

} // verus!
