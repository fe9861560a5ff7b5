//! File names out of the addresses that an editor uses.

use crate::text;
use crate::text::{Text, owned, skip_chars, starts_with};
use vstd::prelude::*;
use vstd::utf8::encode_utf8;

verus! {

/// The value of a hexadecimal digit.
pub open spec fn hex_digit(b: u8) -> Option<u8> {
    if 48 <= b <= 57 {
        Some((b - 48) as u8)
    } else if 97 <= b <= 102 {
        Some((b - 87) as u8)
    } else if 65 <= b <= 70 {
        Some((b - 55) as u8)
    } else {
        None
    }
}

/// The value of a hexadecimal digit.
pub fn hex_val(b: u8) -> (r: Option<u8>)
    ensures
        r == hex_digit(b),
        r matches Some(d) ==> d < 16,
{
    if 48 <= b && b <= 57 {
        Some(b - 48)
    } else if 97 <= b && b <= 102 {
        Some(b - 87)
    } else if 65 <= b && b <= 70 {
        Some(b - 55)
    } else {
        None
    }
}

/// The value of two hexadecimal digits at an index.
pub open spec fn hex_pair(bytes: Seq<u8>, i: int) -> Option<u8> {
    if i + 1 < bytes.len() {
        match (hex_digit(bytes[i]), hex_digit(bytes[i + 1])) {
            (Some(h), Some(l)) => Some((16 * h + l) as u8),
            _ => None,
        }
    } else {
        None
    }
}

/// The bytes from index `i` on, one character each. `%` and the two bytes behind it stand for
/// the byte that they write in hexadecimal, or for nothing where they write none.
pub open spec fn decoded_from(bytes: Seq<u8>, i: nat) -> Text
    decreases bytes.len() - i,
{
    if i >= bytes.len() {
        Seq::empty()
    } else if bytes[i as int] == 37 {
        let next = if i + 3 <= bytes.len() {
            i + 3
        } else {
            bytes.len()
        };
        match hex_pair(bytes, i as int + 1) {
            Some(b) => seq![b as char] + decoded_from(bytes, next),
            None => decoded_from(bytes, next),
        }
    } else {
        seq![bytes[i as int] as char] + decoded_from(bytes, i + 1)
    }
}

/// A text with its percent escapes decoded.
pub open spec fn decoded(s: Text) -> Text {
    decoded_from(encode_utf8(s), 0)
}

/// Decodes percent escapes.
pub fn percent_decode(s: &str) -> (r: String)
    ensures
        r@ == decoded(s@),
{
    let bytes = s.as_bytes();
    let ghost all = decoded(s@);
    let mut result = String::new();
    let mut i: usize = 0;
    let n = bytes.len();
    assert(result@ + decoded_from(bytes@, 0) =~= all);
    while i < n
        invariant
            i <= n == bytes.len(),
            result@ + decoded_from(bytes@, i as nat) == all,
        decreases n - i,
    {
        let b = bytes[i];
        let ghost before = result@;
        if b == 37 {
            let hi = if n - i > 1 {
                hex_val(bytes[i + 1])
            } else {
                None
            };
            let lo = if n - i > 2 {
                hex_val(bytes[i + 2])
            } else {
                None
            };
            if let (Some(h), Some(l)) = (hi, lo) {
                assert((h << 4 | l) == 16 * h + l) by (bit_vector)
                    requires
                        h < 16,
                        l < 16,
                ;
                let c = (h << 4 | l) as char;
                result.push(c);
                assert(result@ + decoded_from(bytes@, (i + 3) as nat) =~= before + (seq![c]
                    + decoded_from(bytes@, (i + 3) as nat)));
            }
            i = if n - i > 3 {
                i + 3
            } else {
                n
            };
        } else {
            let c = b as char;
            result.push(c);
            assert(result@ + decoded_from(bytes@, (i + 1) as nat) =~= before + (seq![c]
                + decoded_from(bytes@, (i + 1) as nat)));
            i = i + 1;
        }
    }
    assert(result@ + Seq::<char>::empty() =~= result@);
    result
}

/// The file that an address names: a `file://` address without its scheme and decoded, any
/// other as it is.
pub open spec fn filename_of(uri: Text) -> Text {
    if text::begins_with(uri, "file://"@) {
        decoded(uri.skip("file://"@.len() as int))
    } else {
        uri
    }
}

/// The file that an address names.
pub fn uri_to_filename(uri: &str) -> (r: String)
    ensures
        r@ == filename_of(uri@),
{
    if starts_with(uri, "file://") {
        proof {
            reveal_strlit("file://");
        }
        let path = skip_chars(uri, 7);
        percent_decode(path.as_str())
    } else {
        owned(uri)
    }
}

/// A text of plain bytes without `%` decodes to itself.
pub proof fn law_plain_text_decodes_to_itself(bytes: Seq<u8>, i: nat)
    requires
        i <= bytes.len(),
        forall|j: int| 0 <= j < bytes.len() ==> #[trigger] bytes[j] != 37,
    ensures
        decoded_from(bytes, i) == bytes.skip(i as int).map_values(|b: u8| b as char),
    decreases bytes.len() - i,
{
    if i < bytes.len() {
        law_plain_text_decodes_to_itself(bytes, i + 1);
        assert(bytes[i as int] != 37);
        assert(decoded_from(bytes, i) =~= bytes.skip(i as int).map_values(|b: u8| b as char));
    }
}

/// The digit for a half of a byte.
pub open spec fn half_digit(n: int) -> u8 {
    if n < 10 {
        (48 + n) as u8
    } else {
        (55 + n) as u8
    }
}

/// A byte as it is written in an address: itself where it is kept, and else by its two digits
/// behind a percent sign.
pub open spec fn written_byte(b: u8, kept: Set<u8>) -> Seq<u8> {
    if kept.contains(b) && b != 37 {
        seq![b]
    } else {
        seq![37u8, half_digit(b as int / 16), half_digit(b as int % 16)]
    }
}

/// The bytes from index `i` on as they are written in an address.
pub open spec fn written_bytes(bs: Seq<u8>, kept: Set<u8>, i: nat) -> Seq<u8>
    decreases bs.len() - i,
{
    if i >= bs.len() {
        Seq::empty()
    } else {
        written_byte(bs[i as int], kept) + written_bytes(bs, kept, i + 1)
    }
}

proof fn lemma_half_digit(n: int)
    requires
        0 <= n < 16,
    ensures
        hex_digit(half_digit(n)) == Some(n as u8),
{
}

proof fn lemma_decodes_behind(before: Seq<u8>, bs: Seq<u8>, kept: Set<u8>, i: nat)
    requires
        i <= bs.len(),
    ensures
        decoded_from(before + written_bytes(bs, kept, i), before.len()) == bs.skip(
            i as int,
        ).map_values(|b: u8| b as char),
    decreases bs.len() - i,
{
    let all = before + written_bytes(bs, kept, i);
    let out = bs.skip(i as int).map_values(|b: u8| b as char);
    if i < bs.len() {
        let b = bs[i as int];
        let first = written_byte(b, kept);
        let rest = written_bytes(bs, kept, i + 1);
        lemma_decodes_behind(before + first, bs, kept, i + 1);
        assert(before + first + rest =~= all);
        let n = before.len() as int;
        assert(all[n] == first[0]);
        if first.len() == 3 {
            assert(all[n + 1] == first[1]);
            assert(all[n + 2] == first[2]);
            lemma_half_digit(b as int / 16);
            lemma_half_digit(b as int % 16);
            assert(16 * (b as int / 16) + b as int % 16 == b as int);
            assert(hex_pair(all, n + 1) == Some(b));
        }
        assert(decoded_from(all, before.len()) == seq![b as char] + decoded_from(
            all,
            (before + first).len(),
        ));
        assert(out =~= seq![b as char] + bs.skip(i as int + 1).map_values(|b: u8| b as char));
    } else {
        assert(all =~= before);
        assert(out =~= Seq::empty());
    }
}

/// Bytes that are written in an address, whichever of them are kept as they are, decode to
/// themselves.
pub proof fn law_written_bytes_decode_to_themselves(bs: Seq<u8>, kept: Set<u8>)
    ensures
        decoded_from(written_bytes(bs, kept, 0), 0) == bs.map_values(|b: u8| b as char),
{
    let none = Seq::<u8>::empty();
    lemma_decodes_behind(none, bs, kept, 0);
    assert(none + written_bytes(bs, kept, 0) =~= written_bytes(bs, kept, 0));
    assert(bs.skip(0) =~= bs);
}

} // verus!
