//! Text building blocks: concatenation, searching, decimal rendering, ordering, and
//! lists of texts used as insertion-ordered sets.

use vstd::prelude::*;

verus! {

/// The model of a string: its sequence of characters.
pub type Text = Seq<char>;

/// The models of the strings of a list.
pub open spec fn texts(v: Seq<String>) -> Seq<Text> {
    v.map_values(|s: String| s@)
}

/// `String::push` appends one character.
pub assume_specification[ std::string::String::push ](s: &mut std::string::String, c: char)
    ensures
        final(s)@ == old(s)@.push(c),
;

/// What `{:?}` prints for a string: the text in double quotes, with the characters
/// escaped that `str::escape_debug` escapes.
pub uninterp spec fn quoted_text(s: Seq<char>) -> Seq<char>;

/// `format!("{:?}", s)` on a string. Its result depends on the text alone; the escaping
/// rules of the standard library are not restated.
#[verifier::external_body]
pub(crate) fn quoted(s: &str) -> (r: String)
    ensures
        r@ == quoted_text(s@),
{
    format!("{:?}", s)
}

// ---------------------------------------------------------------------------
// Concatenation
// ---------------------------------------------------------------------------

/// An owned copy of a text.
pub fn owned(a: &str) -> (r: String)
    ensures
        r@ == a@,
{
    a.to_owned()
}

/// Concatenates two texts.
pub fn cat2(a: &str, b: &str) -> (r: String)
    ensures
        r@ == a@ + b@,
{
    let mut s = a.to_owned();
    s.append(b);
    s
}

/// Concatenates three texts.
pub fn cat3(a: &str, b: &str, c: &str) -> (r: String)
    ensures
        r@ == a@ + b@ + c@,
{
    let mut s = cat2(a, b);
    s.append(c);
    s
}

/// Concatenates four texts.
pub fn cat4(a: &str, b: &str, c: &str, d: &str) -> (r: String)
    ensures
        r@ == a@ + b@ + c@ + d@,
{
    let mut s = cat3(a, b, c);
    s.append(d);
    s
}

/// Concatenates five texts.
pub fn cat5(a: &str, b: &str, c: &str, d: &str, e: &str) -> (r: String)
    ensures
        r@ == a@ + b@ + c@ + d@ + e@,
{
    let mut s = cat4(a, b, c, d);
    s.append(e);
    s
}

/// The texts of `parts` from index `i` on, separated by `sep`.
pub open spec fn joined_from(parts: Seq<Text>, sep: Text, i: nat) -> Text
    decreases parts.len() - i,
{
    if i >= parts.len() {
        Seq::empty()
    } else if i == 0 {
        parts[0] + joined_from(parts, sep, 1)
    } else {
        sep + parts[i as int] + joined_from(parts, sep, i + 1)
    }
}

/// The texts of `parts`, separated by `sep`.
pub open spec fn joined(parts: Seq<Text>, sep: Text) -> Text {
    joined_from(parts, sep, 0)
}

/// Joins texts with a separator.
pub fn join(parts: &Vec<String>, sep: &str) -> (r: String)
    ensures
        r@ == joined(texts(parts@), sep@),
{
    let mut out = String::new();
    let mut i: usize = 0;
    while i < parts.len()
        invariant
            i <= parts.len(),
            out@ + joined_from(texts(parts@), sep@, i as nat) == joined(texts(parts@), sep@),
        decreases parts.len() - i,
    {
        let ghost before = out@;
        if i > 0 {
            out.append(sep);
        }
        out.append(parts[i].as_str());
        proof {
            let rest = joined_from(texts(parts@), sep@, (i + 1) as nat);
            if i == 0 {
                assert(out@ + rest == before + (texts(parts@)[0] + rest));
            } else {
                assert(out@ + rest == before + (sep@ + texts(parts@)[i as int] + rest));
            }
        }
        i = i + 1;
    }
    assert(out@ + Seq::<char>::empty() == out@);
    out
}

// ---------------------------------------------------------------------------
// Comparison and searching
// ---------------------------------------------------------------------------

/// Whether two texts are equal character for character.
pub fn str_eq(a: &str, b: &str) -> (r: bool)
    ensures
        r == (a@ == b@),
{
    let x = a.to_owned();
    let y = b.to_owned();
    x == y
}

/// The characters of a text, in order.
pub fn chars_of(s: &str) -> (r: Vec<char>)
    ensures
        r@ == s@,
{
    let mut v: Vec<char> = Vec::new();
    for c in it: s.chars()
        invariant
            v@ == it.seq().take(it.index() as int),
            it.seq() == s@,
    {
        v.push(c);
    }
    v
}

/// The text made of the characters `cs[from..to]`.
pub fn string_of(cs: &Vec<char>, from: usize, to: usize) -> (r: String)
    requires
        from <= to <= cs.len(),
    ensures
        r@ == cs@.subrange(from as int, to as int),
{
    let mut s = String::new();
    let mut i: usize = from;
    while i < to
        invariant
            from <= i <= to <= cs.len(),
            s@ == cs@.subrange(from as int, i as int),
        decreases to - i,
    {
        s.push(cs[i]);
        i = i + 1;
        assert(cs@.subrange(from as int, i as int) == cs@.subrange(from as int, i - 1).push(
            cs@[i - 1],
        ));
    }
    s
}

/// The first index at or after `i` that holds `c`, or the length of the text.
pub open spec fn index_of_char(s: Text, c: char, i: nat) -> nat
    decreases s.len() - i,
{
    if i >= s.len() {
        s.len()
    } else if s[i as int] == c {
        i
    } else {
        index_of_char(s, c, i + 1)
    }
}

/// The text split at the first `c`: what precedes it and what follows it.
pub open spec fn split_at_char(s: Text, c: char) -> Option<(Text, Text)> {
    let n = index_of_char(s, c, 0);
    if n < s.len() {
        Some((s.take(n as int), s.skip(n as int + 1)))
    } else {
        None
    }
}

/// Splits a text at its first occurrence of `c`.
pub fn split_once(s: &str, c: char) -> (r: Option<(String, String)>)
    ensures
        match r {
            Some((a, b)) => split_at_char(s@, c) == Some((a@, b@)),
            None => split_at_char(s@, c) is None,
        },
{
    let cs = chars_of(s);
    let mut i: usize = 0;
    while i < cs.len()
        invariant
            i <= cs.len(),
            cs@ == s@,
            index_of_char(s@, c, 0) == index_of_char(s@, c, i as nat),
        decreases cs.len() - i,
    {
        if cs[i] == c {
            let a = string_of(&cs, 0, i);
            let b = string_of(&cs, i + 1, cs.len());
            assert(a@ == s@.take(i as int));
            assert(b@ == s@.skip(i as int + 1));
            return Some((a, b));
        }
        i = i + 1;
    }
    None
}

/// Whether `c` occurs in a text.
pub fn contains_char(s: &str, c: char) -> (r: bool)
    ensures
        r == s@.contains(c),
{
    let cs = chars_of(s);
    let mut i: usize = 0;
    while i < cs.len()
        invariant
            i <= cs.len(),
            cs@ == s@,
            forall|j: int| 0 <= j < i ==> s@[j] != c,
        decreases cs.len() - i,
    {
        if cs[i] == c {
            assert(s@[i as int] == c);
            return true;
        }
        i = i + 1;
    }
    false
}

/// What follows the last `c` of a text; the whole text where `c` does not occur.
pub open spec fn after_last_char(s: Text, c: char) -> Text
    decreases s.len(),
{
    if s.len() == 0 {
        s
    } else if s.last() == c {
        Seq::empty()
    } else {
        after_last_char(s.drop_last(), c).push(s.last())
    }
}

/// The part of a text after its last `c`.
pub fn suffix_after_last(s: &str, c: char) -> (r: String)
    ensures
        r@ == after_last_char(s@, c),
{
    let cs = chars_of(s);
    let n = cs.len();
    let mut i: usize = n;
    proof {
        assert(s@.take(n as int) == s@);
        assert(s@ + s@.skip(n as int) == s@);
        assert(after_last_char(s@, c) + s@.skip(n as int) == after_last_char(s@, c));
    }
    while i > 0 && cs[i - 1] != c
        invariant
            i <= n == cs.len(),
            cs@ == s@,
            after_last_char(s@, c) == after_last_char(s@.take(i as int), c) + s@.skip(i as int),
        decreases i,
    {
        proof {
            let pre = s@.take(i as int);
            assert(pre.drop_last() == s@.take(i - 1));
            assert(after_last_char(pre, c) == after_last_char(s@.take(i - 1), c).push(s@[i - 1]));
            assert(after_last_char(s@.take(i - 1), c).push(s@[i - 1]) + s@.skip(i as int)
                == after_last_char(s@.take(i - 1), c) + s@.skip(i - 1));
        }
        i = i - 1;
    }
    proof {
        assert(after_last_char(s@.take(i as int), c) == Seq::<char>::empty());
        assert(Seq::<char>::empty() + s@.skip(i as int) == s@.skip(i as int));
    }
    let r = string_of(&cs, i, n);
    assert(r@ == s@.skip(i as int));
    r
}

/// Whether a text begins with a prefix.
pub open spec fn begins_with(s: Text, prefix: Text) -> bool {
    prefix.len() <= s.len() && s.take(prefix.len() as int) == prefix
}

/// Whether a text begins with a prefix.
pub fn starts_with(s: &str, prefix: &str) -> (r: bool)
    ensures
        r == begins_with(s@, prefix@),
{
    let a = chars_of(s);
    let b = chars_of(prefix);
    if b.len() > a.len() {
        return false;
    }
    let mut i: usize = 0;
    while i < b.len()
        invariant
            i <= b.len() <= a.len(),
            a@ == s@,
            b@ == prefix@,
            forall|j: int| 0 <= j < i ==> s@[j] == prefix@[j],
        decreases b.len() - i,
    {
        if a[i] != b[i] {
            assert(s@.take(prefix@.len() as int)[i as int] != prefix@[i as int]);
            return false;
        }
        i = i + 1;
    }
    assert(s@.take(prefix@.len() as int) == prefix@);
    true
}

/// Whether a text begins with the character `c`.
pub open spec fn begins_with_char(s: Text, c: char) -> bool {
    s.len() > 0 && s[0] == c
}

/// Whether a text begins with the character `c`.
pub fn starts_with_char(s: &str, c: char) -> (r: bool)
    ensures
        r == begins_with_char(s@, c),
{
    s.unicode_len() > 0 && s.get_char(0) == c
}

/// The text without its first `n` characters.
pub fn skip_chars(s: &str, n: usize) -> (r: String)
    requires
        n <= s@.len(),
    ensures
        r@ == s@.skip(n as int),
{
    let cs = chars_of(s);
    let r = string_of(&cs, n, cs.len());
    assert(r@ == s@.skip(n as int));
    r
}

/// A text with one character before it.
pub open spec fn prefixed(c: char, s: Text) -> Text {
    seq![c] + s
}

/// Puts one character before a text.
pub fn prefix_char(c: char, s: &str) -> (r: String)
    ensures
        r@ == prefixed(c, s@),
{
    let mut r = String::new();
    r.push(c);
    r.append(s);
    assert(r@ == prefixed(c, s@));
    r
}

// ---------------------------------------------------------------------------
// Decimal numbers
// ---------------------------------------------------------------------------

/// The character of a decimal digit.
pub open spec fn digit_char(d: nat) -> char {
    if d == 0 {
        '0'
    } else if d == 1 {
        '1'
    } else if d == 2 {
        '2'
    } else if d == 3 {
        '3'
    } else if d == 4 {
        '4'
    } else if d == 5 {
        '5'
    } else if d == 6 {
        '6'
    } else if d == 7 {
        '7'
    } else if d == 8 {
        '8'
    } else {
        '9'
    }
}

/// The decimal digits of a natural number, without leading zeros.
pub open spec fn decimal(n: nat) -> Text
    decreases n,
{
    if n < 10 {
        seq![digit_char(n)]
    } else {
        decimal(n / 10).push(digit_char(n % 10))
    }
}

/// The decimal form of an integer.
pub open spec fn decimal_int(n: int) -> Text {
    if n < 0 {
        prefixed('-', decimal((-n) as nat))
    } else {
        decimal(n as nat)
    }
}

pub(crate) fn digit_to_char(d: u64) -> (c: char)
    requires
        d < 10,
    ensures
        c == digit_char(d as nat),
{
    if d == 0 {
        '0'
    } else if d == 1 {
        '1'
    } else if d == 2 {
        '2'
    } else if d == 3 {
        '3'
    } else if d == 4 {
        '4'
    } else if d == 5 {
        '5'
    } else if d == 6 {
        '6'
    } else if d == 7 {
        '7'
    } else if d == 8 {
        '8'
    } else {
        '9'
    }
}

/// Renders a natural number in decimal.
pub fn u64_to_text(n: u64) -> (r: String)
    ensures
        r@ == decimal(n as nat),
    decreases n,
{
    if n < 10 {
        let mut s = String::new();
        s.push(digit_to_char(n));
        assert(s@ == seq![digit_char(n as nat)]);
        s
    } else {
        let mut s = u64_to_text(n / 10);
        s.push(digit_to_char(n % 10));
        s
    }
}

/// Renders a natural number in decimal.
pub fn usize_to_text(n: usize) -> (r: String)
    ensures
        r@ == decimal(n as nat),
{
    u64_to_text(n as u64)
}

/// Renders an integer in decimal.
pub fn i64_to_text(n: i64) -> (r: String)
    ensures
        r@ == decimal_int(n as int),
{
    if n >= 0 {
        u64_to_text(n as u64)
    } else {
        let m: u64 = (-(n as i128)) as u64;
        let t = u64_to_text(m);
        prefix_char('-', t.as_str())
    }
}

// ---------------------------------------------------------------------------
// Ordering
// ---------------------------------------------------------------------------

/// The order of texts from index `i` on: by code points, a proper prefix first.
pub open spec fn precedes_from(a: Text, b: Text, i: nat) -> bool
    decreases a.len() - i,
{
    if i >= b.len() {
        false
    } else if i >= a.len() {
        true
    } else if a[i as int] != b[i as int] {
        (a[i as int] as int) < (b[i as int] as int)
    } else {
        precedes_from(a, b, i + 1)
    }
}

/// Whether `a` comes strictly before `b` in the order of texts.
pub open spec fn precedes(a: Text, b: Text) -> bool {
    precedes_from(a, b, 0)
}

/// Whether `a` comes strictly before `b` in the order of texts.
pub fn text_lt(a: &str, b: &str) -> (r: bool)
    ensures
        r == precedes(a@, b@),
{
    let x = chars_of(a);
    let y = chars_of(b);
    let mut i: usize = 0;
    while i < x.len() && i < y.len()
        invariant
            i <= x.len(),
            i <= y.len(),
            x@ == a@,
            y@ == b@,
            precedes(a@, b@) == precedes_from(a@, b@, i as nat),
        decreases x.len() - i,
    {
        if x[i] != y[i] {
            let p: char = x[i];
            let q: char = y[i];
            return p < q;
        }
        i = i + 1;
    }
    i < y.len()
}

/// The position at which `x` is inserted into the sorted list `s`, looking back from `n`:
/// behind every item that does not come after it.
pub open spec fn insertion_point(s: Seq<Text>, x: Text, n: nat) -> nat
    decreases n,
{
    if n == 0 {
        0
    } else if n <= s.len() && precedes(x, s[n - 1]) {
        insertion_point(s, x, (n - 1) as nat)
    } else {
        n
    }
}

/// The first `n` items of `s` in the order of texts, equal items in their given order.
pub open spec fn sorted_prefix(s: Seq<Text>, n: nat) -> Seq<Text>
    decreases n,
{
    if n == 0 || n > s.len() {
        Seq::empty()
    } else {
        let before = sorted_prefix(s, (n - 1) as nat);
        let x = s[n - 1];
        before.insert(insertion_point(before, x, before.len()) as int, x)
    }
}

/// The items of `s` in the order of texts.
pub open spec fn sorted_texts(s: Seq<Text>) -> Seq<Text> {
    sorted_prefix(s, s.len())
}

proof fn lemma_insertion_point_bound(s: Seq<Text>, x: Text, n: nat)
    ensures
        insertion_point(s, x, n) <= n,
    decreases n,
{
    if n > 0 {
        lemma_insertion_point_bound(s, x, (n - 1) as nat);
    }
}

/// Sorts texts.
pub fn sort_texts(v: &Vec<String>) -> (r: Vec<String>)
    ensures
        texts(r@) == sorted_texts(texts(v@)),
{
    let mut out: Vec<String> = Vec::new();
    let mut i: usize = 0;
    while i < v.len()
        invariant
            i <= v.len(),
            texts(out@) == sorted_prefix(texts(v@), i as nat),
            out.len() == i,
        decreases v.len() - i,
    {
        let ghost before = texts(out@);
        let ghost x = texts(v@)[i as int];
        let mut j: usize = out.len();
        while j > 0 && text_lt(v[i].as_str(), out[j - 1].as_str())
            invariant
                j <= out.len(),
                i < v.len(),
                before == texts(out@),
                x == texts(v@)[i as int],
                insertion_point(before, x, before.len()) == insertion_point(before, x, j as nat),
            decreases j,
        {
            j = j - 1;
        }
        out.insert(j, v[i].clone());
        i = i + 1;
        assert(texts(out@) == before.insert(j as int, x));
    }
    out
}

/// Whether `a` comes before `b` in the order of texts or is the same.
pub open spec fn not_behind(a: Text, b: Text) -> bool {
    !precedes(b, a)
}

proof fn lemma_precedes_one_way(a: Text, b: Text, i: nat)
    requires
        precedes_from(a, b, i),
    ensures
        !precedes_from(b, a, i),
    decreases a.len() - i,
{
    if i < a.len() && i < b.len() && a[i as int] == b[i as int] {
        lemma_precedes_one_way(a, b, i + 1);
    }
}

proof fn lemma_order_chains(a: Text, b: Text, c: Text, i: nat)
    requires
        !precedes_from(b, a, i),
        !precedes_from(c, b, i),
    ensures
        !precedes_from(c, a, i),
    decreases a.len() - i,
{
    if i < a.len() && i < b.len() && i < c.len() && a[i as int] == b[i as int] && b[i as int]
        == c[i as int] {
        lemma_order_chains(a, b, c, i + 1);
    }
}

/// The order of texts is total, and chains.
pub proof fn law_order_of_texts(a: Text, b: Text, c: Text)
    ensures
        not_behind(a, b) || not_behind(b, a),
        not_behind(a, b) && not_behind(b, c) ==> not_behind(a, c),
{
    if precedes(a, b) {
        lemma_precedes_one_way(a, b, 0);
    }
    if not_behind(a, b) && not_behind(b, c) {
        lemma_order_chains(a, b, c, 0);
    }
}

proof fn lemma_order_separates(a: Text, b: Text, i: nat)
    requires
        i <= a.len(),
        i <= b.len(),
        a.take(i as int) == b.take(i as int),
        !precedes_from(a, b, i),
        !precedes_from(b, a, i),
    ensures
        a == b,
    decreases a.len() - i,
{
    if i < a.len() && i < b.len() {
        assert(a.take((i + 1) as int) =~= a.take(i as int).push(a[i as int]));
        assert(b.take((i + 1) as int) =~= b.take(i as int).push(b[i as int]));
        lemma_order_separates(a, b, i + 1);
    } else {
        assert(a.take(i as int) =~= a);
        assert(b.take(i as int) =~= b);
    }
}

/// Of two texts that differ, one comes before the other.
pub proof fn law_order_separates_texts(a: Text, b: Text)
    ensures
        a != b ==> precedes(a, b) || precedes(b, a),
{
    assert(a.take(0) =~= b.take(0));
    if !precedes(a, b) && !precedes(b, a) {
        lemma_order_separates(a, b, 0);
    }
}

/// Whether texts stand in order.
pub open spec fn in_order(s: Seq<Text>) -> bool {
    forall|i: int, j: int| 0 <= i < j < s.len() ==> not_behind(#[trigger] s[i], #[trigger] s[j])
}

proof fn lemma_insertion_point(s: Seq<Text>, x: Text, n: nat)
    requires
        n <= s.len(),
    ensures
        insertion_point(s, x, n) <= n,
        forall|j: int| insertion_point(s, x, n) <= j < n ==> precedes(x, #[trigger] s[j]),
        insertion_point(s, x, n) > 0 ==> not_behind(s[insertion_point(s, x, n) - 1], x),
    decreases n,
{
    if n > 0 && precedes(x, s[n - 1]) {
        lemma_insertion_point(s, x, (n - 1) as nat);
    }
}

proof fn lemma_sorted_prefix(s: Seq<Text>, n: nat)
    requires
        n <= s.len(),
    ensures
        in_order(sorted_prefix(s, n)),
        sorted_prefix(s, n).to_multiset() == s.take(n as int).to_multiset(),
    decreases n,
{
    if n > 0 {
        let m = (n - 1) as nat;
        lemma_sorted_prefix(s, m);
        let before = sorted_prefix(s, m);
        let x = s[m as int];
        let k = insertion_point(before, x, before.len()) as int;
        lemma_insertion_point(before, x, before.len());
        let out = before.insert(k, x);
        assert forall|i: int, j: int| 0 <= i < j < out.len() implies not_behind(
            #[trigger] out[i],
            #[trigger] out[j],
        ) by {
            if j < k {
                assert(out[i] == before[i] && out[j] == before[j]);
            } else if j == k {
                assert(out[i] == before[i] && out[j] == x);
                if i < k - 1 {
                    assert(not_behind(before[i], before[k - 1]));
                    law_order_of_texts(before[i], before[k - 1], x);
                }
            } else {
                assert(out[j] == before[j - 1]);
                if i == k {
                    assert(out[i] == x);
                    lemma_precedes_one_way(x, before[j - 1], 0);
                } else if i < k {
                    assert(out[i] == before[i]);
                } else {
                    assert(out[i] == before[i - 1]);
                }
            }
        }
        vstd::seq_lib::to_multiset_insert(before, k, x);
        vstd::seq_lib::to_multiset_build(s.take(m as int), x);
        assert(s.take(n as int) =~= s.take(m as int).push(x));
    } else {
        assert(s.take(0) =~= sorted_prefix(s, 0));
    }
}

/// Sorted texts stand in order, and are the texts that were given, each as often.
pub proof fn law_sorted_texts(s: Seq<Text>)
    ensures
        in_order(sorted_texts(s)),
        sorted_texts(s).to_multiset() == s.to_multiset(),
{
    lemma_sorted_prefix(s, s.len());
    assert(s.take(s.len() as int) =~= s);
}

// ---------------------------------------------------------------------------
// Insertion-ordered sets
// ---------------------------------------------------------------------------

/// The first index at or after `i` at which `x` stands, or the length of the list.
pub open spec fn index_of_text(s: Seq<Text>, x: Text, i: nat) -> nat
    decreases s.len() - i,
{
    if i >= s.len() {
        s.len()
    } else if s[i as int] == x {
        i
    } else {
        index_of_text(s, x, i + 1)
    }
}

/// Whether `x` is in the list.
pub open spec fn has_text(s: Seq<Text>, x: Text) -> bool {
    index_of_text(s, x, 0) < s.len()
}

/// The list with `x` put at its end, unless it is there already.
pub open spec fn with_text(s: Seq<Text>, x: Text) -> Seq<Text> {
    if has_text(s, x) {
        s
    } else {
        s.push(x)
    }
}

/// The list without its first `x`.
pub open spec fn without_text(s: Seq<Text>, x: Text) -> Seq<Text> {
    if has_text(s, x) {
        s.remove(index_of_text(s, x, 0) as int)
    } else {
        s
    }
}

/// `a` extended by the items of `b` from index `i` on.
pub open spec fn union_from(a: Seq<Text>, b: Seq<Text>, i: nat) -> Seq<Text>
    decreases b.len() - i,
{
    if i >= b.len() {
        a
    } else {
        union_from(with_text(a, b[i as int]), b, i + 1)
    }
}

/// `a` extended by the items of `b`.
pub open spec fn union_texts(a: Seq<Text>, b: Seq<Text>) -> Seq<Text> {
    union_from(a, b, 0)
}

/// The items of `a` from index `i` on that are not in `b`.
pub open spec fn difference_from(a: Seq<Text>, b: Seq<Text>, i: nat) -> Seq<Text>
    decreases a.len() - i,
{
    if i >= a.len() {
        Seq::empty()
    } else if has_text(b, a[i as int]) {
        difference_from(a, b, i + 1)
    } else {
        seq![a[i as int]] + difference_from(a, b, i + 1)
    }
}

/// The items of `a` that are not in `b`.
pub open spec fn difference_texts(a: Seq<Text>, b: Seq<Text>) -> Seq<Text> {
    difference_from(a, b, 0)
}

/// Whether two lists have the same items.
#[verifier::opaque]
pub open spec fn same_texts(a: Seq<Text>, b: Seq<Text>) -> bool {
    &&& difference_texts(a, b).len() == 0
    &&& difference_texts(b, a).len() == 0
}

/// The set of the items of a list, first occurrences in their order.
pub open spec fn distinct_texts(s: Seq<Text>) -> Seq<Text> {
    union_texts(Seq::empty(), s)
}

/// Finds the first index of a text in a list.
pub fn find_text(v: &Vec<String>, x: &str) -> (r: Option<usize>)
    ensures
        match r {
            Some(i) => i < v.len() && index_of_text(texts(v@), x@, 0) == i,
            None => index_of_text(texts(v@), x@, 0) == v.len(),
        },
{
    let mut i: usize = 0;
    while i < v.len()
        invariant
            i <= v.len(),
            index_of_text(texts(v@), x@, 0) == index_of_text(texts(v@), x@, i as nat),
        decreases v.len() - i,
    {
        if str_eq(v[i].as_str(), x) {
            return Some(i);
        }
        i = i + 1;
    }
    None
}

/// Whether a text is in a list.
pub fn list_has(v: &Vec<String>, x: &str) -> (r: bool)
    ensures
        r == has_text(texts(v@), x@),
{
    find_text(v, x).is_some()
}

/// Adds a text to a set.
pub fn list_add(v: &mut Vec<String>, x: String)
    ensures
        texts(final(v)@) == with_text(texts(old(v)@), x@),
{
    if !list_has(v, x.as_str()) {
        v.push(x);
        assert(texts(v@) == texts(old(v)@).push(x@));
    }
}

/// Removes a text from a set, and says whether it was there.
pub fn list_remove(v: &mut Vec<String>, x: &str) -> (r: bool)
    ensures
        r == has_text(texts(old(v)@), x@),
        texts(final(v)@) == without_text(texts(old(v)@), x@),
{
    match find_text(v, x) {
        Some(i) => {
            v.remove(i);
            assert(texts(v@) == texts(old(v)@).remove(i as int));
            true
        },
        None => false,
    }
}

/// A copy of a list of texts.
pub fn copy_texts(v: &Vec<String>) -> (r: Vec<String>)
    ensures
        texts(r@) == texts(v@),
        r.len() == v.len(),
{
    let mut out: Vec<String> = Vec::new();
    let mut i: usize = 0;
    while i < v.len()
        invariant
            i <= v.len(),
            texts(out@) == texts(v@).take(i as int),
        decreases v.len() - i,
    {
        let ghost before = texts(out@);
        out.push(v[i].clone());
        assert(texts(out@) == before.push(texts(v@)[i as int]));
        i = i + 1;
        assert(texts(v@).take(i as int) == texts(v@).take(i - 1).push(texts(v@)[i - 1]));
    }
    assert(texts(v@).take(i as int) == texts(v@));
    assert(texts(out@).len() == out.len());
    out
}

/// Adds every item of `b` to the set `a`.
pub fn list_extend(a: &mut Vec<String>, b: &Vec<String>)
    ensures
        texts(final(a)@) == union_texts(texts(old(a)@), texts(b@)),
{
    let mut i: usize = 0;
    while i < b.len()
        invariant
            i <= b.len(),
            union_from(texts(a@), texts(b@), i as nat) == union_texts(texts(old(a)@), texts(b@)),
        decreases b.len() - i,
    {
        list_add(a, b[i].clone());
        i = i + 1;
    }
}

/// The set of the items of a list.
pub fn to_set(v: &Vec<String>) -> (r: Vec<String>)
    ensures
        texts(r@) == distinct_texts(texts(v@)),
{
    let mut out: Vec<String> = Vec::new();
    assert(texts(out@) == Seq::<Text>::empty());
    list_extend(&mut out, v);
    out
}

/// The items of `a` that are not in `b`.
pub fn list_difference(a: &Vec<String>, b: &Vec<String>) -> (r: Vec<String>)
    ensures
        texts(r@) == difference_texts(texts(a@), texts(b@)),
{
    let mut out: Vec<String> = Vec::new();
    let mut i: usize = 0;
    assert(texts(out@) + difference_from(texts(a@), texts(b@), 0) == difference_texts(
        texts(a@),
        texts(b@),
    ));
    while i < a.len()
        invariant
            i <= a.len(),
            texts(out@) + difference_from(texts(a@), texts(b@), i as nat) == difference_texts(
                texts(a@),
                texts(b@),
            ),
        decreases a.len() - i,
    {
        let ghost before = texts(out@);
        if !list_has(b, a[i].as_str()) {
            out.push(a[i].clone());
            proof {
                let rest = difference_from(texts(a@), texts(b@), (i + 1) as nat);
                assert(texts(out@) == before.push(texts(a@)[i as int]));
                assert(texts(out@) + rest == before + (seq![texts(a@)[i as int]] + rest));
            }
        }
        i = i + 1;
    }
    assert(texts(out@) + Seq::<Text>::empty() == texts(out@));
    out
}

/// Whether two lists have the same items.
pub fn list_same(a: &Vec<String>, b: &Vec<String>) -> (r: bool)
    ensures
        r == same_texts(texts(a@), texts(b@)),
{
    proof {
        reveal(same_texts);
    }
    let ab = list_difference(a, b);
    let ba = list_difference(b, a);
    assert(texts(ab@).len() == ab.len());
    assert(texts(ba@).len() == ba.len());
    ab.len() == 0 && ba.len() == 0
}

} // verus!
