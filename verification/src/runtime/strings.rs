//! Operations on texts.

use crate::lexer;
use crate::lexer::char_is_space;
use crate::runtime::bytes::byte_len;
use crate::runtime::math;
use crate::runtime::math::parse_i64;
use crate::text;
use crate::text::{Text, cat2, chars_of, i64_to_text, owned, starts_with, string_of};
use vstd::prelude::*;
use vstd::utf8::encode_utf8;

verus! {

// ---------------------------------------------------------------------------
// White space
// ---------------------------------------------------------------------------

/// The first index at or after `i` that does not hold white space, or the length.
pub open spec fn content_start(s: Text, i: nat) -> nat
    decreases s.len() - i,
{
    if i >= s.len() {
        s.len()
    } else if lexer::is_space(s[i as int]) {
        content_start(s, i + 1)
    } else {
        i
    }
}

/// The length of the first `n` characters without white space at their end.
pub open spec fn content_end(s: Text, n: nat) -> nat
    decreases n,
{
    if n == 0 || n > s.len() {
        n
    } else if lexer::is_space(s[n - 1]) {
        content_end(s, (n - 1) as nat)
    } else {
        n
    }
}

/// A text without white space at its ends.
pub open spec fn trimmed(s: Text) -> Text {
    let a = content_start(s, 0);
    if a == s.len() {
        Seq::empty()
    } else {
        s.subrange(a as int, content_end(s, s.len()) as int)
    }
}

proof fn lemma_content_start(s: Text, i: nat)
    requires
        i <= s.len(),
    ensures
        i <= content_start(s, i) <= s.len(),
        content_start(s, i) < s.len() ==> !lexer::is_space(s[content_start(s, i) as int]),
        forall|j: int| i <= j < content_start(s, i) ==> lexer::is_space(#[trigger] s[j]),
    decreases s.len() - i,
{
    if i < s.len() && lexer::is_space(s[i as int]) {
        lemma_content_start(s, i + 1);
    }
}

proof fn lemma_content_end(s: Text, n: nat)
    requires
        n <= s.len(),
    ensures
        content_end(s, n) <= n,
        content_end(s, n) > 0 ==> !lexer::is_space(s[content_end(s, n) - 1]),
        forall|j: int| content_end(s, n) <= j < n ==> lexer::is_space(#[trigger] s[j]),
    decreases n,
{
    if n > 0 && lexer::is_space(s[n - 1]) {
        lemma_content_end(s, (n - 1) as nat);
    }
}

/// Takes white space off the ends of a text.
pub fn trim(s: &str) -> (r: String)
    ensures
        r@ == trimmed(s@),
{
    let cs = chars_of(s);
    let mut a: usize = 0;
    while a < cs.len() && char_is_space(cs[a])
        invariant
            a <= cs.len(),
            cs@ == s@,
            content_start(s@, 0) == content_start(s@, a as nat),
        decreases cs.len() - a,
    {
        a = a + 1;
    }
    let mut b: usize = cs.len();
    while b > a && char_is_space(cs[b - 1])
        invariant
            a <= b <= cs.len(),
            cs@ == s@,
            content_end(s@, s@.len()) == content_end(s@, b as nat),
        decreases b - a,
    {
        b = b - 1;
    }
    proof {
        lemma_content_start(s@, a as nat);
        lemma_content_end(s@, b as nat);
        if a < cs.len() {
            lemma_content_end(s@, s@.len());
            assert(!lexer::is_space(s@[a as int]));
        }
    }
    string_of(&cs, a, b)
}

/// A trimmed text has no white space at its ends.
pub proof fn law_trimmed_ends_are_not_space(s: Text)
    ensures
        trimmed(s).len() > 0 ==> !lexer::is_space(trimmed(s)[0]) && !lexer::is_space(trimmed(s).last()),
{
    lemma_content_start(s, 0);
    lemma_content_end(s, s.len());
}

/// Trimming a trimmed text changes nothing.
pub proof fn law_trimming_twice_is_trimming_once(s: Text)
    ensures
        trimmed(trimmed(s)) == trimmed(s),
{
    let t = trimmed(s);
    law_trimmed_ends_are_not_space(s);
    lemma_content_start(t, 0);
    lemma_content_end(t, t.len());
    if t.len() > 0 {
        assert(t[0] == t[0] && !lexer::is_space(t[0]));
        assert(content_start(t, 0) == 0);
        assert(content_end(t, t.len()) == t.len());
        assert(t.subrange(0, t.len() as int) =~= t);
    } else {
        assert(t =~= Seq::<char>::empty());
    }
}

// ---------------------------------------------------------------------------
// Searching
// ---------------------------------------------------------------------------

/// The number of bytes of a text.
pub fn string_length(s: &str) -> (r: i64)
    ensures
        r == encode_utf8(s@).len() as i64,
{
    byte_len(s) as i64
}

/// Whether `sub` stands at an index of `s`.
pub open spec fn stands_at(s: Text, sub: Text, i: int) -> bool {
    0 <= i && i + sub.len() <= s.len() && s.subrange(i, i + sub.len()) == sub
}

fn text_stands_at(cs: &Vec<char>, sub: &Vec<char>, i: usize) -> (r: bool)
    requires
        i <= cs.len(),
    ensures
        r == stands_at(cs@, sub@, i as int),
{
    if sub.len() > cs.len() - i {
        return false;
    }
    let mut j: usize = 0;
    while j < sub.len()
        invariant
            j <= sub.len(),
            i + sub.len() <= cs.len(),
            forall|k: int| 0 <= k < j ==> cs@[i + k] == sub@[k],
        decreases sub.len() - j,
    {
        if cs[i + j] != sub[j] {
            assert(cs@.subrange(i as int, i + sub.len())[j as int] != sub@[j as int]);
            return false;
        }
        j = j + 1;
    }
    assert(cs@.subrange(i as int, i + sub.len()) =~= sub@);
    true
}

/// The first index at or after `i` at which `sub` stands.
pub open spec fn first_index(s: Text, sub: Text, i: nat) -> Option<nat>
    decreases s.len() + 1 - i,
{
    if i > s.len() {
        None
    } else if stands_at(s, sub, i as int) {
        Some(i)
    } else {
        first_index(s, sub, i + 1)
    }
}

fn find_text_in(cs: &Vec<char>, sub: &Vec<char>) -> (r: Option<usize>)
    ensures
        match r {
            Some(i) => first_index(cs@, sub@, 0) == Some(i as nat) && i <= cs.len(),
            None => first_index(cs@, sub@, 0) is None,
        },
{
    let n = cs.len();
    let mut i: usize = 0;
    loop
        invariant
            i <= n == cs.len(),
            first_index(cs@, sub@, 0) == first_index(cs@, sub@, i as nat),
        decreases n - i,
    {
        if text_stands_at(cs, sub, i) {
            return Some(i);
        }
        if i == n {
            assert(first_index(cs@, sub@, (n + 1) as nat) is None);
            return None;
        }
        i = i + 1;
    }
}

/// Whether a text occurs in another.
pub open spec fn occurs_in(s: Text, sub: Text) -> bool {
    exists|i: int| #[trigger] stands_at(s, sub, i)
}

proof fn lemma_first_index(s: Text, sub: Text, i: nat)
    ensures
        match first_index(s, sub, i) {
            Some(k) => i <= k && stands_at(s, sub, k as int) && forall|j: int|
                i <= j < k ==> !#[trigger] stands_at(s, sub, j),
            None => forall|j: int| i <= j ==> !#[trigger] stands_at(s, sub, j),
        },
    decreases s.len() + 1 - i,
{
    if i <= s.len() && !stands_at(s, sub, i as int) {
        lemma_first_index(s, sub, i + 1);
    }
}

/// Whether a text occurs in another.
pub fn string_contains(s: &str, sub: &str) -> (r: bool)
    ensures
        r == occurs_in(s@, sub@),
{
    let a = chars_of(s);
    let b = chars_of(sub);
    proof {
        lemma_first_index(s@, sub@, 0);
    }
    find_text_in(&a, &b).is_some()
}

/// The byte offset at which a text first occurs in another, or -1.
pub fn string_index_of(s: &str, sub: &str) -> (r: i64)
    ensures
        match first_index(s@, sub@, 0) {
            Some(k) => r == encode_utf8(s@.take(k as int)).len() as i64,
            None => r == -1,
        },
{
    let a = chars_of(s);
    let b = chars_of(sub);
    match find_text_in(&a, &b) {
        Some(i) => {
            let before = string_of(&a, 0, i);
            assert(before@ =~= s@.take(i as int));
            byte_len(before.as_str()) as i64
        },
        None => -1,
    }
}

/// Whether a text ends with another.
pub open spec fn finishes_with(s: Text, suffix: Text) -> bool {
    stands_at(s, suffix, s.len() - suffix.len())
}

/// Whether a text begins with another.
pub fn string_starts_with(s: &str, prefix: &str) -> (r: bool)
    ensures
        r == text::begins_with(s@, prefix@),
{
    starts_with(s, prefix)
}

/// Whether a text ends with another.
pub fn string_ends_with(s: &str, suffix: &str) -> (r: bool)
    ensures
        r == finishes_with(s@, suffix@),
{
    let a = chars_of(s);
    let b = chars_of(suffix);
    if b.len() > a.len() {
        return false;
    }
    text_stands_at(&a, &b, a.len() - b.len())
}

/// A text occurs in another exactly where an index of it is found, and what begins or ends a
/// text occurs in it.
pub proof fn law_occurrences_agree(s: Text, sub: Text)
    ensures
        occurs_in(s, sub) <==> first_index(s, sub, 0) is Some,
        text::begins_with(s, sub) <==> first_index(s, sub, 0) == Some(0nat),
        finishes_with(s, sub) ==> occurs_in(s, sub),
{
    lemma_first_index(s, sub, 0);
    if sub.len() <= s.len() {
        assert(s.subrange(0, sub.len() as int) =~= s.take(sub.len() as int));
    }
}

// ---------------------------------------------------------------------------
// Parts
// ---------------------------------------------------------------------------

/// A count out of a signed number: nothing below zero.
pub open spec fn count_of(n: i64) -> usize {
    if n < 0 {
        0
    } else {
        n as usize
    }
}

fn to_count(n: i64) -> (r: usize)
    ensures
        r == count_of(n),
{
    if n < 0 {
        0
    } else {
        n as usize
    }
}

/// The smaller of two numbers.
pub open spec fn least(a: int, b: int) -> int {
    if a < b {
        a
    } else {
        b
    }
}

/// The characters of a text from an index on, so many or as many as there are.
pub open spec fn part_of(s: Text, start: int, len: int) -> Text {
    let a = least(start, s.len() as int);
    s.subrange(a, least(a + len, s.len() as int))
}

/// The part of a text from an index on, counted in characters.
pub fn string_substring(s: &str, start: i64, len: i64) -> (r: String)
    ensures
        r@ == part_of(s@, count_of(start) as int, count_of(len) as int),
{
    let cs = chars_of(s);
    let n = cs.len();
    let start = to_count(start);
    let len = to_count(len);
    let a: usize = if start < n {
        start
    } else {
        n
    };
    let b: usize = if len < n - a {
        a + len
    } else {
        n
    };
    string_of(&cs, a, b)
}

/// The character at an index, as a text; nothing where there is none.
pub fn string_char_at(s: &str, idx: i64) -> (r: Option<String>)
    ensures
        match r {
            Some(c) => idx >= 0 && (idx as usize) < s@.len() && c@ == seq![s@[idx as usize as int]],
            None => idx < 0 || idx as usize >= s@.len(),
        },
{
    if idx < 0 {
        return None;
    }
    let cs = chars_of(s);
    let i = idx as usize;
    if i < cs.len() {
        let mut r = String::new();
        r.push(cs[i]);
        assert(r@ =~= seq![s@[i as int]]);
        Some(r)
    } else {
        None
    }
}

// ---------------------------------------------------------------------------
// Other case
// ---------------------------------------------------------------------------

/// What `str::to_uppercase` makes of a text.
pub uninterp spec fn upper_text(s: Seq<char>) -> Seq<char>;

/// What `str::to_lowercase` makes of a text.
pub uninterp spec fn lower_text(s: Seq<char>) -> Seq<char>;

/// `str::to_uppercase`, which follows tables of Unicode that are not restated.
#[verifier::external_body]
fn uppercase(s: &str) -> (r: String)
    ensures
        r@ == upper_text(s@),
{
    s.to_uppercase()
}

/// `str::to_lowercase`, which follows tables of Unicode that are not restated.
#[verifier::external_body]
fn lowercase(s: &str) -> (r: String)
    ensures
        r@ == lower_text(s@),
{
    s.to_lowercase()
}

/// A text in upper case.
pub fn string_to_upper(s: &str) -> (r: String)
    ensures
        r@ == upper_text(s@),
{
    uppercase(s)
}

/// A text in lower case.
pub fn string_to_lower(s: &str) -> (r: String)
    ensures
        r@ == lower_text(s@),
{
    lowercase(s)
}

// ---------------------------------------------------------------------------
// Replacing
// ---------------------------------------------------------------------------

/// The text from index `i` on with `to` in place of each `from`, found from left to right.
pub open spec fn replaced_from(s: Text, from: Text, to: Text, i: nat) -> Text
    decreases s.len() - i,
{
    if i >= s.len() {
        Seq::empty()
    } else if from.len() > 0 && stands_at(s, from, i as int) {
        to + replaced_from(s, from, to, i + from.len())
    } else {
        seq![s[i as int]] + replaced_from(s, from, to, i + 1)
    }
}

/// The text from index `i` on with `to` before each character and at the end.
pub open spec fn interleaved_from(s: Text, to: Text, i: nat) -> Text
    decreases s.len() - i,
{
    if i >= s.len() {
        to
    } else {
        to + seq![s[i as int]] + interleaved_from(s, to, i + 1)
    }
}

/// A text with `to` in place of each `from`. The empty text stands before each character and at
/// the end.
pub open spec fn replaced(s: Text, from: Text, to: Text) -> Text {
    if from.len() == 0 {
        interleaved_from(s, to, 0)
    } else {
        replaced_from(s, from, to, 0)
    }
}

/// Replaces each occurrence of a text.
pub fn string_replace(s: &str, from: &str, to: &str) -> (r: String)
    ensures
        r@ == replaced(s@, from@, to@),
{
    let cs = chars_of(s);
    let fs = chars_of(from);
    let n = cs.len();
    let mut out = String::new();
    let mut i: usize = 0;
    if fs.len() == 0 {
        assert(out@ + interleaved_from(s@, to@, 0) =~= replaced(s@, from@, to@));
        while i < n
            invariant
                i <= n == cs.len(),
                cs@ == s@,
                out@ + interleaved_from(s@, to@, i as nat) == replaced(s@, from@, to@),
            decreases n - i,
        {
            let ghost before = out@;
            out.append(to);
            out.push(cs[i]);
            i = i + 1;
            assert(out@ + interleaved_from(s@, to@, i as nat) =~= before + (to@ + seq![s@[i - 1]]
                + interleaved_from(s@, to@, i as nat)));
        }
        out.append(to);
        return out;
    }
    assert(out@ + replaced_from(s@, from@, to@, 0) =~= replaced(s@, from@, to@));
    while i < n
        invariant
            i <= n == cs.len(),
            cs@ == s@,
            fs@ == from@,
            fs.len() > 0,
            out@ + replaced_from(s@, from@, to@, i as nat) == replaced(s@, from@, to@),
        decreases n - i,
    {
        let ghost before = out@;
        if text_stands_at(&cs, &fs, i) {
            out.append(to);
            assert(out@ + replaced_from(s@, from@, to@, (i + fs.len()) as nat) =~= before + (to@
                + replaced_from(s@, from@, to@, (i + fs.len()) as nat)));
            i = i + fs.len();
        } else {
            out.push(cs[i]);
            i = i + 1;
            assert(out@ + replaced_from(s@, from@, to@, i as nat) =~= before + (seq![s@[i - 1]]
                + replaced_from(s@, from@, to@, i as nat)));
        }
    }
    assert(out@ + Seq::<char>::empty() =~= out@);
    out
}

/// Replacing a text that does not occur changes nothing.
pub proof fn law_nothing_to_replace(s: Text, from: Text, to: Text)
    requires
        !occurs_in(s, from),
    ensures
        replaced(s, from, to) == s,
{
    if from.len() == 0 {
        assert(s.subrange(0, 0) =~= from);
        assert(stands_at(s, from, 0));
    }
    lemma_nothing_replaced(s, from, to, 0);
    assert(s.skip(0) =~= s);
}

proof fn lemma_nothing_replaced(s: Text, from: Text, to: Text, i: nat)
    requires
        i <= s.len(),
        !occurs_in(s, from),
    ensures
        replaced_from(s, from, to, i) == s.skip(i as int),
    decreases s.len() - i,
{
    if i < s.len() {
        lemma_nothing_replaced(s, from, to, i + 1);
        assert(!stands_at(s, from, i as int));
        assert(seq![s[i as int]] + s.skip(i as int + 1) =~= s.skip(i as int));
    }
}

/// Replacing a text by itself changes nothing.
pub proof fn law_replacing_by_itself(s: Text, from: Text)
    ensures
        replaced(s, from, from) == s,
{
    if from.len() == 0 {
        lemma_interleaved_with_nothing(s, from, 0);
    } else {
        lemma_replaced_by_itself(s, from, 0);
    }
    assert(s.skip(0) =~= s);
}

proof fn lemma_interleaved_with_nothing(s: Text, to: Text, i: nat)
    requires
        i <= s.len(),
        to.len() == 0,
    ensures
        interleaved_from(s, to, i) == s.skip(i as int),
    decreases s.len() - i,
{
    if i < s.len() {
        lemma_interleaved_with_nothing(s, to, i + 1);
        assert(to + seq![s[i as int]] + s.skip(i as int + 1) =~= s.skip(i as int));
    } else {
        assert(to =~= s.skip(i as int));
    }
}

proof fn lemma_replaced_by_itself(s: Text, from: Text, i: nat)
    requires
        i <= s.len(),
        from.len() > 0,
    ensures
        replaced_from(s, from, from, i) == s.skip(i as int),
    decreases s.len() - i,
{
    if i < s.len() {
        if stands_at(s, from, i as int) {
            lemma_replaced_by_itself(s, from, i + from.len());
            assert(from + s.skip(i as int + from.len()) =~= s.skip(i as int)) by {
                assert forall|k: int| 0 <= k < from.len() implies from[k] == s[i + k] by {
                    assert(s.subrange(i as int, i as int + from.len())[k] == s[i + k]);
                }
            }
        } else {
            lemma_replaced_by_itself(s, from, i + 1);
            assert(seq![s[i as int]] + s.skip(i as int + 1) =~= s.skip(i as int));
        }
    }
}

// ---------------------------------------------------------------------------
// Repeating and padding
// ---------------------------------------------------------------------------

/// A text so many times.
pub open spec fn repeated(s: Text, n: nat) -> Text
    decreases n,
{
    if n == 0 {
        Seq::empty()
    } else {
        repeated(s, (n - 1) as nat) + s
    }
}

proof fn lemma_repeated_nothing(s: Text, n: nat)
    requires
        s.len() == 0,
    ensures
        repeated(s, n) == Seq::<char>::empty(),
    decreases n,
{
    if n > 0 {
        lemma_repeated_nothing(s, (n - 1) as nat);
        assert(repeated(s, n) =~= Seq::<char>::empty());
    }
}

/// Repeats a text. The result has to fit into memory.
pub fn string_repeat(s: &str, n: i64) -> (r: String)
    requires
        encode_utf8(s@).len() * count_of(n) <= isize::MAX,
    ensures
        r@ == repeated(s@, count_of(n) as nat),
{
    let count = to_count(n);
    let mut out = String::new();
    if s.unicode_len() == 0 {
        proof {
            lemma_repeated_nothing(s@, count as nat);
        }
        assert(out@ =~= Seq::<char>::empty());
        return out;
    }
    let mut i: usize = 0;
    assert(out@ =~= Seq::<char>::empty());
    while i < count
        invariant
            i <= count,
            out@ == repeated(s@, i as nat),
        decreases count - i,
    {
        out.append(s);
        i = i + 1;
    }
    out
}

/// A text repeated has so many times its length.
pub proof fn law_repeated_length(s: Text, n: nat)
    ensures
        repeated(s, n).len() == n * s.len(),
    decreases n,
{
    if n > 0 {
        law_repeated_length(s, (n - 1) as nat);
        assert(n * s.len() == (n - 1) * s.len() + s.len()) by (nonlinear_arith)
            requires
                n > 0,
        ;
    } else {
        assert(0 * s.len() == 0) by (nonlinear_arith);
    }
}

/// So many characters of a text, over and over.
pub open spec fn cycled(fill: Text, n: nat) -> Text {
    Seq::new(n, |i: int| fill[i % (fill.len() as int)])
}

fn cycle_text(fill: &Vec<char>, n: usize) -> (r: String)
    requires
        fill.len() > 0,
    ensures
        r@ == cycled(fill@, n as nat),
{
    let mut out = String::new();
    let mut i: usize = 0;
    while i < n
        invariant
            i <= n,
            fill.len() > 0,
            out@ == cycled(fill@, i as nat),
        decreases n - i,
    {
        out.push(fill[i % fill.len()]);
        i = i + 1;
        assert(out@ =~= cycled(fill@, i as nat));
    }
    out
}

/// The padding that brings a text to a width.
pub open spec fn padding(s: Text, width: int, fill: Text) -> Text {
    if s.len() >= width || fill.len() == 0 {
        Seq::empty()
    } else {
        cycled(fill, (width - s.len()) as nat)
    }
}

fn to_padding(s: &str, width: i64, fill: &str) -> (r: String)
    ensures
        r@ == padding(s@, count_of(width) as int, fill@),
{
    let w = to_count(width);
    let n = s.unicode_len();
    let fs = chars_of(fill);
    if n >= w || fs.len() == 0 {
        let r = String::new();
        assert(r@ =~= Seq::<char>::empty());
        r
    } else {
        cycle_text(&fs, w - n)
    }
}

/// Pads a text on its left to a width in characters.
pub fn string_pad_left(s: &str, width: i64, fill: &str) -> (r: String)
    ensures
        r@ == padding(s@, count_of(width) as int, fill@) + s@,
{
    let p = to_padding(s, width, fill);
    cat2(p.as_str(), s)
}

/// Pads a text on its right to a width in characters.
pub fn string_pad_right(s: &str, width: i64, fill: &str) -> (r: String)
    ensures
        r@ == s@ + padding(s@, count_of(width) as int, fill@),
{
    let p = to_padding(s, width, fill);
    cat2(s, p.as_str())
}

/// A padded text is as wide as asked, or as it was where that is wider.
pub proof fn law_padded_width(s: Text, width: int, fill: Text)
    requires
        fill.len() > 0,
    ensures
        (padding(s, width, fill) + s).len() == if s.len() >= width {
            s.len() as int
        } else {
            width
        },
        (s + padding(s, width, fill)).len() == (padding(s, width, fill) + s).len(),
{
}

// ---------------------------------------------------------------------------
// Other values
// ---------------------------------------------------------------------------

/// An integer as text.
pub fn i64_to_string(val: i64) -> (r: String)
    ensures
        r@ == text::decimal_int(val as int),
{
    i64_to_text(val)
}

/// A truth value as text; any number but zero is true.
pub fn bool_to_string(val: i32) -> (r: String)
    ensures
        r@ == (if val != 0 {
            "true"@
        } else {
            "false"@
        }),
{
    if val != 0 {
        owned("true")
    } else {
        owned("false")
    }
}

/// The length of an array, which comes with its address.
pub fn array_length(_ptr: i32, len: i32) -> (r: i64)
    ensures
        r == len,
{
    len as i64
}

/// The integer that a text writes, with white space around it.
pub fn string_to_integer(s: &str) -> (r: i64)
    requires
        math::written_i64(trimmed(s@)) is Some,
    ensures
        math::written_i64(trimmed(s@)) == Some(r),
{
    let t = trim(s);
    match parse_i64(t.as_str()) {
        Some(n) => n,
        None => 0,
    }
}

/// The integer that a text writes, with white space around it; nothing where it writes none.
pub fn string_to_integer_checked(s: &str) -> (r: Option<i64>)
    ensures
        r == math::written_i64(trimmed(s@)),
{
    if string_is_valid_i64(s) {
        Some(string_to_integer(s))
    } else {
        None
    }
}

/// Whether a text writes an integer, with white space around it.
pub fn string_is_valid_i64(s: &str) -> (r: bool)
    ensures
        r == (math::written_i64(trimmed(s@)) is Some),
{
    let t = trim(s);
    parse_i64(t.as_str()).is_some()
}

} // verus!
