//! When a cached build of the compiler driver can be used.

use crate::lexer;
use crate::runtime::strings;
use crate::runtime::strings::trim;
use crate::stdlib;
use crate::stdlib::is_nx_name;
use crate::text;
use crate::text::{Text, cat2, digit_to_char, owned, split_once, str_eq, suffix_after_last, text_lt};
use crate::types;
use vstd::arithmetic::power::{lemma_pow0, pow};
use vstd::prelude::*;

verus! {

/// The character of a hexadecimal digit.
pub open spec fn hex_char(d: nat) -> char {
    if d < 10 {
        text::digit_char(d)
    } else if d == 10 {
        'a'
    } else if d == 11 {
        'b'
    } else if d == 12 {
        'c'
    } else if d == 13 {
        'd'
    } else if d == 14 {
        'e'
    } else {
        'f'
    }
}

/// The `n` lowest hexadecimal digits of a number.
pub open spec fn hex_digits(v: nat, n: nat) -> Text
    decreases n,
{
    if n == 0 {
        Seq::empty()
    } else {
        hex_digits(v / 16, (n - 1) as nat).push(hex_char(v % 16))
    }
}

fn to_hex_char(d: u64) -> (r: char)
    requires
        d < 16,
    ensures
        r == hex_char(d as nat),
{
    if d < 10 {
        digit_to_char(d)
    } else if d == 10 {
        'a'
    } else if d == 11 {
        'b'
    } else if d == 12 {
        'c'
    } else if d == 13 {
        'd'
    } else if d == 14 {
        'e'
    } else {
        'f'
    }
}

fn to_hex_digits(v: u64, n: usize) -> (r: String)
    ensures
        r@ == hex_digits(v as nat, n as nat),
    decreases n,
{
    if n == 0 {
        let r = String::new();
        assert(r@ =~= Seq::<char>::empty());
        r
    } else {
        let mut r = to_hex_digits(v / 16, n - 1);
        r.push(to_hex_char(v % 16));
        r
    }
}

/// A hash of the sources as text: sixteen hexadecimal digits.
pub fn hash_text(hash: u64) -> (r: String)
    ensures
        r@ == hex_digits(hash as nat, 16),
{
    to_hex_digits(hash, 16)
}

/// What is written next to a build: the hash of its sources on a line.
pub fn hash_line(hash: &str) -> (r: String)
    ensures
        r@ == hash@ + "\n"@,
{
    cat2(hash, "\n")
}

/// Whether a cached build can be used: it is there, and the hash next to it is that of the
/// sources.
pub open spec fn cache_valid(has_build: bool, stored: Option<Text>, expected: Text) -> bool {
    has_build && (stored matches Some(s) && strings::trimmed(s) == expected)
}

/// Whether a cached build can be used.
pub fn is_cache_valid(has_build: bool, stored: &Option<String>, expected_hex: &str) -> (r: bool)
    ensures
        r == cache_valid(has_build, types::opt_text(*stored), expected_hex@),
{
    if !has_build {
        return false;
    }
    match stored {
        Some(s) => {
            let t = trim(s.as_str());
            str_eq(t.as_str(), expected_hex)
        },
        None => false,
    }
}

// ---------------------------------------------------------------------------
// The order of paths
// ---------------------------------------------------------------------------

/// The parts of a path between its slashes.
pub open spec fn path_parts(path: Text) -> Seq<Text>
    decreases path.len(),
{
    match text::split_at_char(path, '/') {
        Some((first, rest)) => seq![first] + path_parts(rest),
        None => seq![path],
    }
}

/// The order of lists of parts from index `i` on: part by part, a list that ends first.
pub open spec fn parts_precede(a: Seq<Text>, b: Seq<Text>, i: nat) -> bool
    decreases a.len() - i,
{
    if i >= b.len() {
        false
    } else if i >= a.len() {
        true
    } else if a[i as int] != b[i as int] {
        text::precedes(a[i as int], b[i as int])
    } else {
        parts_precede(a, b, i + 1)
    }
}

/// Whether `a` comes strictly before `b` in the order of paths.
pub open spec fn path_precedes(a: Text, b: Text) -> bool {
    parts_precede(path_parts(a), path_parts(b), 0)
}

fn split_path(path: &str) -> (r: Vec<String>)
    ensures
        text::texts(r@) == path_parts(path@),
{
    let mut out: Vec<String> = Vec::new();
    let mut rest = owned(path);
    assert(text::texts(out@) + path_parts(rest@) =~= path_parts(path@));
    loop
        invariant
            text::texts(out@) + path_parts(rest@) == path_parts(path@),
        decreases rest@.len(),
    {
        let ghost before = text::texts(out@);
        match split_once(rest.as_str(), '/') {
            Some((first, tail)) => {
                let ghost f = first@;
                out.push(first);
                proof {
                    assert(text::texts(out@) =~= before.push(f));
                    assert(text::texts(out@) + path_parts(tail@) =~= before + (seq![f] + path_parts(
                        tail@,
                    )));
                }
                rest = tail;
            },
            None => {
                let ghost r = rest@;
                out.push(rest);
                assert(text::texts(out@) =~= before + seq![r]);
                return out;
            },
        }
    }
}

fn path_lt(a: &str, b: &str) -> (r: bool)
    ensures
        r == path_precedes(a@, b@),
{
    let x = split_path(a);
    let y = split_path(b);
    let ghost xv = text::texts(x@);
    let ghost yv = text::texts(y@);
    let mut i: usize = 0;
    while i < x.len() && i < y.len()
        invariant
            i <= x.len(),
            i <= y.len(),
            xv == text::texts(x@),
            yv == text::texts(y@),
            xv == path_parts(a@),
            yv == path_parts(b@),
            parts_precede(xv, yv, 0) == parts_precede(xv, yv, i as nat),
        decreases x.len() - i,
    {
        assert(xv[i as int] == x@[i as int]@ && yv[i as int] == y@[i as int]@);
        if !str_eq(x[i].as_str(), y[i].as_str()) {
            return text_lt(x[i].as_str(), y[i].as_str());
        }
        i = i + 1;
    }
    i < y.len()
}

/// The position at which `x` is inserted into the sorted paths `s`, looking back from `n`:
/// behind every path that does not come after it.
pub open spec fn path_slot(s: Seq<Text>, x: Text, n: nat) -> nat
    decreases n,
{
    if n == 0 {
        0
    } else if n <= s.len() && path_precedes(x, s[n - 1]) {
        path_slot(s, x, (n - 1) as nat)
    } else {
        n
    }
}

/// The first `n` paths of `s` in the order of paths.
pub open spec fn paths_in_order(s: Seq<Text>, n: nat) -> Seq<Text>
    decreases n,
{
    if n == 0 || n > s.len() {
        Seq::empty()
    } else {
        let before = paths_in_order(s, (n - 1) as nat);
        let x = s[n - 1];
        before.insert(path_slot(before, x, before.len()) as int, x)
    }
}

fn sort_paths(v: &Vec<String>) -> (r: Vec<String>)
    ensures
        text::texts(r@) == paths_in_order(text::texts(v@), v.len() as nat),
{
    let mut out: Vec<String> = Vec::new();
    let mut i: usize = 0;
    assert(text::texts(out@) =~= Seq::<Text>::empty());
    while i < v.len()
        invariant
            i <= v.len(),
            text::texts(out@) == paths_in_order(text::texts(v@), i as nat),
            out.len() == i,
        decreases v.len() - i,
    {
        let ghost before = text::texts(out@);
        let ghost x = text::texts(v@)[i as int];
        let mut j: usize = out.len();
        while j > 0 && path_lt(v[i].as_str(), out[j - 1].as_str())
            invariant
                j <= out.len(),
                i < v.len(),
                before == text::texts(out@),
                x == text::texts(v@)[i as int],
                path_slot(before, x, before.len()) == path_slot(before, x, j as nat),
            decreases j,
        {
            j = j - 1;
        }
        out.insert(j, v[i].clone());
        i = i + 1;
        assert(text::texts(out@) == before.insert(j as int, x));
    }
    out
}

proof fn lemma_parts_one_way(a: Seq<Text>, b: Seq<Text>, i: nat)
    requires
        parts_precede(a, b, i),
    ensures
        !parts_precede(b, a, i),
    decreases a.len() - i,
{
    if i < a.len() && i < b.len() {
        if a[i as int] == b[i as int] {
            lemma_parts_one_way(a, b, i + 1);
        } else {
            text::law_order_of_texts(a[i as int], b[i as int], a[i as int]);
        }
    }
}

proof fn lemma_parts_chain(a: Seq<Text>, b: Seq<Text>, c: Seq<Text>, i: nat)
    requires
        !parts_precede(b, a, i),
        !parts_precede(c, b, i),
    ensures
        !parts_precede(c, a, i),
    decreases a.len() - i,
{
    if i < a.len() && i < b.len() && i < c.len() {
        let x = a[i as int];
        let y = b[i as int];
        let z = c[i as int];
        if x == y && y == z {
            lemma_parts_chain(a, b, c, i + 1);
        } else {
            text::law_order_of_texts(x, y, z);
            text::law_order_separates_texts(x, y);
            text::law_order_separates_texts(y, z);
        }
    }
}

/// Whether paths stand in order.
pub open spec fn stand_in_order(s: Seq<Text>) -> bool {
    forall|i: int, j: int|
        0 <= i < j < s.len() ==> !path_precedes(#[trigger] s[j], #[trigger] s[i])
}

proof fn lemma_path_slot(s: Seq<Text>, x: Text, n: nat)
    requires
        n <= s.len(),
    ensures
        path_slot(s, x, n) <= n,
        forall|j: int| path_slot(s, x, n) <= j < n ==> path_precedes(x, #[trigger] s[j]),
        path_slot(s, x, n) > 0 ==> !path_precedes(x, s[path_slot(s, x, n) - 1]),
    decreases n,
{
    if n > 0 && path_precedes(x, s[n - 1]) {
        lemma_path_slot(s, x, (n - 1) as nat);
    }
}

proof fn lemma_paths_in_order(s: Seq<Text>, n: nat)
    requires
        n <= s.len(),
    ensures
        stand_in_order(paths_in_order(s, n)),
        paths_in_order(s, n).to_multiset() == s.take(n as int).to_multiset(),
    decreases n,
{
    if n > 0 {
        let m = (n - 1) as nat;
        lemma_paths_in_order(s, m);
        let before = paths_in_order(s, m);
        let x = s[m as int];
        let k = path_slot(before, x, before.len()) as int;
        lemma_path_slot(before, x, before.len());
        let out = before.insert(k, x);
        assert forall|i: int, j: int| 0 <= i < j < out.len() implies !path_precedes(
            #[trigger] out[j],
            #[trigger] out[i],
        ) by {
            if j < k {
                assert(out[i] == before[i] && out[j] == before[j]);
            } else if j == k {
                assert(out[i] == before[i] && out[j] == x);
                if i < k - 1 {
                    assert(!path_precedes(before[k - 1], before[i]));
                    lemma_parts_chain(
                        path_parts(before[i]),
                        path_parts(before[k - 1]),
                        path_parts(x),
                        0,
                    );
                }
            } else {
                assert(out[j] == before[j - 1]);
                if i == k {
                    assert(out[i] == x);
                    lemma_parts_one_way(path_parts(x), path_parts(before[j - 1]), 0);
                } else if i < k {
                    assert(out[i] == before[i]);
                } else {
                    assert(out[i] == before[i - 1]);
                }
            }
        }
        vstd::seq_lib::to_multiset_insert(before, k, x);
        vstd::seq_lib::to_multiset_build(s.take(m as int), x);
        assert(s.take(n as int) =~= s.take(m as int).push(x));
    } else {
        assert(s.take(0) =~= paths_in_order(s, 0));
    }
}

// ---------------------------------------------------------------------------
// The sources
// ---------------------------------------------------------------------------

/// The files among paths that are sources, in the order of paths.
pub open spec fn sources_in_order(paths: Seq<Text>) -> Seq<Text> {
    let sources = sources_among(paths, paths.len());
    paths_in_order(sources, sources.len())
}

/// The files among paths that are sources, in the order of paths.
pub fn source_files(paths: &Vec<String>) -> (r: Vec<String>)
    ensures
        text::texts(r@) == sources_in_order(text::texts(paths@)),
{
    let ghost pv = text::texts(paths@);
    let mut out: Vec<String> = Vec::new();
    let mut i: usize = 0;
    assert(text::texts(out@) =~= Seq::<Text>::empty());
    while i < paths.len()
        invariant
            i <= paths.len(),
            pv == text::texts(paths@),
            text::texts(out@) == sources_among(pv, i as nat),
        decreases paths.len() - i,
    {
        let ghost before = text::texts(out@);
        assert(pv[i as int] == paths@[i as int]@);
        let name = suffix_after_last(paths[i].as_str(), '/');
        if is_nx_name(name.as_str()) {
            out.push(paths[i].clone());
            assert(text::texts(out@) =~= before.push(pv[i as int]));
        }
        i = i + 1;
    }
    sort_paths(&out)
}

/// The sources among the first `n` paths: those whose file name has the extension `nx`.
pub open spec fn sources_among(paths: Seq<Text>, n: nat) -> Seq<Text>
    decreases n,
{
    if n == 0 || n > paths.len() {
        Seq::empty()
    } else {
        let before = sources_among(paths, (n - 1) as nat);
        if stdlib::has_nx_extension(text::after_last_char(paths[n - 1], '/')) {
            before.push(paths[n - 1])
        } else {
            before
        }
    }
}

/// The sources stand in the order of paths, and are those that were given, each as often.
pub proof fn law_sources_stand_in_order(paths: Seq<Text>)
    ensures
        stand_in_order(sources_in_order(paths)),
        sources_in_order(paths).to_multiset() == sources_among(
            paths,
            paths.len(),
        ).to_multiset(),
{
    let sources = sources_among(paths, paths.len());
    lemma_paths_in_order(sources, sources.len());
    assert(sources.take(sources.len() as int) =~= sources);
}

// ---------------------------------------------------------------------------
// Freshness
// ---------------------------------------------------------------------------

proof fn lemma_hex_digits(v: nat, n: nat)
    ensures
        hex_digits(v, n).len() == n,
        forall|i: int| 0 <= i < n ==> !lexer::is_space(#[trigger] hex_digits(v, n)[i]),
    decreases n,
{
    if n > 0 {
        lemma_hex_digits(v / 16, (n - 1) as nat);
    }
}

proof fn lemma_hex_digits_tell(v: nat, w: nat, n: nat)
    requires
        v < pow(16, n),
        w < pow(16, n),
        hex_digits(v, n) == hex_digits(w, n),
    ensures
        v == w,
    decreases n,
{
    if n == 0 {
        lemma_pow0(16);
    } else {
        let m = (n - 1) as nat;
        let a = hex_digits(v / 16, m);
        let b = hex_digits(w / 16, m);
        lemma_hex_digits(v / 16, m);
        lemma_hex_digits(w / 16, m);
        assert(a.push(hex_char(v % 16)).drop_last() =~= a);
        assert(b.push(hex_char(w % 16)).drop_last() =~= b);
        assert(a.push(hex_char(v % 16)).last() == hex_char(v % 16));
        assert(b.push(hex_char(w % 16)).last() == hex_char(w % 16));
        assert(v % 16 == w % 16);
        assert(pow(16, n) == 16 * pow(16, m)) by {
            reveal(pow);
        }
        lemma_hex_digits_tell(v / 16, w / 16, m);
    }
}

proof fn lemma_trimmed_line(s: Text)
    requires
        s.len() > 0,
        !lexer::is_space(s[0]),
        !lexer::is_space(s.last()),
    ensures
        strings::trimmed(s + "\n"@) == s,
{
    reveal_strlit("\n");
    let line = s + "\n"@;
    assert(line.last() == '\n');
    assert(strings::content_start(line, 0) == 0);
    assert(strings::content_end(line, s.len()) == s.len());
    assert(strings::content_end(line, line.len()) == strings::content_end(line, s.len()));
    assert(line.subrange(0, s.len() as int) =~= s);
}

/// A build can be used exactly while the hash of the sources is the one whose line was written
/// next to it.
pub proof fn law_cache_follows_the_hash(written: u64, hash: u64)
    ensures
        cache_valid(
            true,
            Some(hex_digits(written as nat, 16) + "\n"@),
            hex_digits(hash as nat, 16),
        ) <==> written == hash,
        !cache_valid(
            false,
            Some(hex_digits(written as nat, 16) + "\n"@),
            hex_digits(hash as nat, 16),
        ),
        !cache_valid(true, None, hex_digits(hash as nat, 16)),
{
    lemma_hex_digits(written as nat, 16);
    lemma_trimmed_line(hex_digits(written as nat, 16));
    assert(pow(16, 16) == 0x1_0000_0000_0000_0000) by {
        reveal_with_fuel(pow, 17);
    }
    if hex_digits(written as nat, 16) == hex_digits(hash as nat, 16) {
        lemma_hex_digits_tell(written as nat, hash as nat, 16);
    }
}

} // verus!
