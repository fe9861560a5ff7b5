//! Where the characters of a text stand among its bytes.

use crate::runtime::bytes::byte_len;
use crate::text::Text;
use vstd::prelude::*;
use vstd::utf8::{encode_scalar, encode_utf8};

verus! {

/// The number of bytes of a character.
pub open spec fn char_width(c: char) -> nat {
    encode_scalar(c as u32).len()
}

/// Where the character of an index begins among the bytes of a text, or where the text ends if
/// it has no such character.
pub open spec fn byte_at(cs: Text, k: nat) -> nat {
    if k >= cs.len() {
        encode_utf8(cs).len()
    } else {
        encode_utf8(cs.take(k as int)).len()
    }
}

/// The bytes of two texts in a row are those of the first, followed by those of the second.
pub proof fn lemma_bytes_of_both(a: Text, b: Text)
    ensures
        encode_utf8(a + b) == encode_utf8(a) + encode_utf8(b),
    decreases a.len(),
{
    if a.len() == 0 {
        assert(a + b =~= b);
        assert(encode_utf8(a) + encode_utf8(b) =~= encode_utf8(b));
    } else {
        lemma_bytes_of_both(a.drop_first(), b);
        assert((a + b).drop_first() =~= a.drop_first() + b);
        assert(encode_utf8(a + b) =~= encode_utf8(a) + encode_utf8(b));
    }
}

/// A part of a text stands among its bytes where its characters begin and end.
pub proof fn lemma_bytes_of_part(cs: Text, a: nat, b: nat)
    requires
        a <= b <= cs.len(),
    ensures
        byte_at(cs, a) <= byte_at(cs, b) <= encode_utf8(cs).len(),
        encode_utf8(cs).subrange(byte_at(cs, a) as int, byte_at(cs, b) as int) == encode_utf8(
            cs.subrange(a as int, b as int),
        ),
{
    let front = cs.take(a as int);
    let part = cs.subrange(a as int, b as int);
    let rest = cs.skip(b as int);
    lemma_bytes_of_both(front, part);
    lemma_bytes_of_both(front + part, rest);
    assert(front + part =~= cs.take(b as int));
    assert(front + part + rest =~= cs);
    assert(b == cs.len() ==> cs.take(b as int) =~= cs);
    assert(a == cs.len() ==> cs.take(a as int) =~= cs);
    assert(encode_utf8(cs).subrange(byte_at(cs, a) as int, byte_at(cs, b) as int) =~= encode_utf8(
        part,
    ));
}

/// A text has no more characters than bytes.
pub proof fn lemma_chars_have_bytes(cs: Text)
    ensures
        cs.len() <= encode_utf8(cs).len(),
    decreases cs.len(),
{
    if cs.len() > 0 {
        lemma_chars_have_bytes(cs.drop_first());
    }
}

proof fn lemma_next_byte(cs: Text, k: nat)
    requires
        k < cs.len(),
    ensures
        byte_at(cs, k + 1) == byte_at(cs, k) + char_width(cs[k as int]),
        byte_at(cs, k + 1) <= encode_utf8(cs).len(),
{
    lemma_bytes_of_part(cs, k, k + 1);
    let one = cs.subrange(k as int, (k + 1) as int);
    assert(one.drop_first() =~= Seq::<char>::empty());
    assert(encode_utf8(Seq::<char>::empty()) =~= Seq::<u8>::empty());
    assert(encode_utf8(one) =~= encode_scalar(cs[k as int] as u32));
}

fn width_of(c: char) -> (r: usize)
    ensures
        r == char_width(c),
{
    let u: u32 = c as u32;
    if u <= 0x7F {
        1
    } else if u <= 0x7FF {
        2
    } else if u <= 0xFFFF {
        3
    } else {
        4
    }
}

/// Where each character of a text begins among its bytes, and where the last one ends.
pub fn byte_offsets(source: &str, cs: &Vec<char>) -> (r: Vec<usize>)
    requires
        cs@ == source@,
    ensures
        r.len() == cs.len() + 1,
        forall|k: int| 0 <= k < r.len() ==> (#[trigger] r[k]) == byte_at(cs@, k as nat),
{
    let total = byte_len(source);
    let mut out: Vec<usize> = Vec::new();
    let mut at: usize = 0;
    let mut i: usize = 0;
    proof {
        assert(cs@.take(0) =~= Seq::<char>::empty());
        assert(cs.len() == 0 ==> cs@ =~= Seq::<char>::empty());
        assert(encode_utf8(Seq::<char>::empty()).len() == 0);
    }
    while i < cs.len()
        invariant
            i <= cs.len(),
            total == encode_utf8(cs@).len(),
            out.len() == i,
            at == byte_at(cs@, i as nat),
            forall|k: int| 0 <= k < i ==> (#[trigger] out[k]) == byte_at(cs@, k as nat),
        decreases cs.len() - i,
    {
        proof {
            lemma_next_byte(cs@, i as nat);
        }
        out.push(at);
        at = at + width_of(cs[i]);
        i = i + 1;
    }
    out.push(at);
    out
}

} // verus!
