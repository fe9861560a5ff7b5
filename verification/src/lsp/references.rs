//! The places at which a name occurs.

use crate::lexer;
use crate::lexer::{CharClass, KindV, LexErrorV, Token, TokenKind, TokenV, tokenize};
use crate::lexer_laws;
use crate::text::{Text, str_eq};
use crate::types::Span;
use vstd::prelude::*;
use vstd::utf8::encode_utf8;

verus! {

/// The name of a token, where it is one.
pub open spec fn token_name(t: TokenV) -> Option<Text> {
    match t.kind {
        KindV::Ident(s) => Some(s),
        _ => None,
    }
}

/// The name of a token, where it is one.
pub fn name_in_token(t: &Token) -> (r: Option<&String>)
    ensures
        match r {
            Some(s) => token_name(t@) == Some(s@),
            None => token_name(t@) is None,
        },
{
    proof {
        reveal(TokenKind::view);
    }
    match &t.kind {
        TokenKind::Ident(s) => Some(s),
        _ => None,
    }
}

/// Whether a cursor at an offset is on a name: inside it, or right behind it.
pub open spec fn touches_name(t: TokenV, offset: usize) -> bool {
    token_name(t) is Some && (t.span.covers(offset) || t.span.end == offset)
}

/// The first token from index `i` on that is a name with the cursor on it.
pub open spec fn name_touched(toks: Seq<TokenV>, offset: usize, i: nat) -> Option<TokenV>
    decreases toks.len() - i,
{
    if i >= toks.len() {
        None
    } else if touches_name(toks[i as int], offset) {
        Some(toks[i as int])
    } else {
        name_touched(toks, offset, i + 1)
    }
}

/// The places of a name among the first `n` tokens.
pub open spec fn places_to(toks: Seq<TokenV>, name: Text, n: nat) -> Seq<Span>
    decreases n,
{
    if n == 0 || n > toks.len() {
        Seq::empty()
    } else {
        let before = places_to(toks, name, (n - 1) as nat);
        if token_name(toks[n - 1]) == Some(name) {
            before.push(toks[n - 1].span)
        } else {
            before
        }
    }
}

/// The name under the cursor, its place, and every place at which it occurs.
pub struct ReferencesV {
    pub name: Text,
    pub origin: Span,
    pub places: Seq<Span>,
}

/// The occurrences of the name under the cursor.
pub open spec fn references_of(toks: Seq<TokenV>, offset: usize) -> Option<ReferencesV> {
    match name_touched(toks, offset, 0) {
        None => None,
        Some(t) => {
            let name = token_name(t)->0;
            Some(
                ReferencesV { name, origin: t.span, places: places_to(toks, name, toks.len()) },
            )
        },
    }
}

/// The model of the occurrences that were found.
pub open spec fn references_view(r: Option<(String, Span, Vec<Span>)>) -> Option<ReferencesV> {
    match r {
        None => None,
        Some((name, origin, places)) => Some(
            ReferencesV { name: name@, origin, places: places@ },
        ),
    }
}

/// The occurrences of the name under the cursor in a text that the lexer accepts.
pub open spec fn references_in(
    lexed: Result<Seq<TokenV>, Seq<LexErrorV>>,
    offset: usize,
) -> Option<ReferencesV> {
    match lexed {
        Ok(toks) => references_of(toks, offset),
        Err(_) => None,
    }
}

/// Finds the occurrences of the name under the cursor among tokens.
pub fn references_among(toks: &Vec<Token>, offset: usize) -> (r: Option<
    (String, Span, Vec<Span>),
>)
    ensures
        references_view(r) == references_of(lexer::tokens_view(toks@), offset),
{
    let ghost tv = lexer::tokens_view(toks@);
    let mut i: usize = 0;
    while i < toks.len()
        invariant
            i <= toks.len(),
            tv == lexer::tokens_view(toks@),
            name_touched(tv, offset, 0) == name_touched(tv, offset, i as nat),
        decreases toks.len() - i,
    {
        assert(tv[i as int] == toks@[i as int]@);
        if let Some(name) = name_in_token(&toks[i]) {
            let span = toks[i].span;
            if span.contains(offset) || span.end == offset {
                let places = places_among(toks, name);
                return Some((name.clone(), span, places));
            }
        }
        i = i + 1;
    }
    None
}

fn places_among(toks: &Vec<Token>, name: &String) -> (r: Vec<Span>)
    ensures
        r@ == places_to(lexer::tokens_view(toks@), name@, toks.len() as nat),
{
    let ghost tv = lexer::tokens_view(toks@);
    let mut places: Vec<Span> = Vec::new();
    let mut i: usize = 0;
    while i < toks.len()
        invariant
            i <= toks.len(),
            tv == lexer::tokens_view(toks@),
            places@ == places_to(tv, name@, i as nat),
        decreases toks.len() - i,
    {
        assert(tv[i as int] == toks@[i as int]@);
        if let Some(other) = name_in_token(&toks[i]) {
            if str_eq(other.as_str(), name.as_str()) {
                places.push(toks[i].span);
            }
        }
        i = i + 1;
    }
    places
}

/// Finds the name at a byte offset and all its occurrences in the source.
pub fn find_all_references(source: &str, offset: usize) -> (r: Option<(String, Span, Vec<Span>)>)
    requires
        lexer::literals_fit(source@),
    ensures
        references_view(r) == references_in(lexer::source_tokens(source@, lexer::classes(source@)), offset),
{
    match tokenize(source) {
        Ok(toks) => references_among(&toks, offset),
        Err(_) => None,
    }
}

proof fn lemma_name_touched(toks: Seq<TokenV>, offset: usize, i: nat) -> (k: int)
    requires
        name_touched(toks, offset, i) is Some,
    ensures
        i <= k < toks.len(),
        name_touched(toks, offset, i) == Some(toks[k]),
        touches_name(toks[k], offset),
    decreases toks.len() - i,
{
    if touches_name(toks[i as int], offset) {
        i as int
    } else {
        lemma_name_touched(toks, offset, i + 1)
    }
}

proof fn lemma_places(toks: Seq<TokenV>, name: Text, n: nat)
    requires
        n <= toks.len(),
    ensures
        forall|k: int|
            0 <= k < n && token_name(#[trigger] toks[k]) == Some(name) ==> places_to(
                toks,
                name,
                n,
            ).contains(toks[k].span),
        forall|j: int|
            0 <= j < places_to(toks, name, n).len() ==> place_of_name(
                toks,
                name,
                #[trigger] places_to(toks, name, n)[j],
            ),
    decreases n,
{
    if n > 0 {
        lemma_places(toks, name, (n - 1) as nat);
        let before = places_to(toks, name, (n - 1) as nat);
        let all = places_to(toks, name, n);
        assert forall|k: int|
            0 <= k < n && token_name(#[trigger] toks[k]) == Some(name) implies all.contains(
            toks[k].span,
        ) by {
            if k == n - 1 {
                assert(all[before.len() as int] == toks[k].span);
            } else {
                let j = choose|j: int| 0 <= j < before.len() && before[j] == toks[k].span;
                assert(all[j] == toks[k].span);
            }
        }
        assert forall|j: int| 0 <= j < all.len() implies place_of_name(
            toks,
            name,
            #[trigger] all[j],
        ) by {
            if j < before.len() {
                assert(all[j] == before[j]);
            } else {
                assert(token_name(toks[n - 1]) == Some(name) && toks[n - 1].span == all[j]);
            }
        }
    }
}

/// Whether a name stands at a place.
pub open spec fn place_of_name(toks: Seq<TokenV>, name: Text, place: Span) -> bool {
    exists|k: int|
        0 <= k < toks.len() && token_name(#[trigger] toks[k]) == Some(name) && toks[k].span
            == place
}

/// The places of a name are those at which it occurs, all of them and no others, the place
/// under the cursor among them.
pub proof fn law_references_are_the_occurrences(toks: Seq<TokenV>, offset: usize, place: Span)
    requires
        references_of(toks, offset) is Some,
    ensures
        ({
            let r = references_of(toks, offset)->0;
            &&& r.places.contains(place) <==> place_of_name(toks, r.name, place)
            &&& r.places.contains(r.origin)
            &&& r.origin.covers(offset) || r.origin.end == offset
        }),
{
    let k = lemma_name_touched(toks, offset, 0);
    let r = references_of(toks, offset)->0;
    lemma_places(toks, r.name, toks.len());
    if r.places.contains(place) {
        let j = choose|j: int| 0 <= j < r.places.len() && r.places[j] == place;
        assert(place_of_name(toks, r.name, r.places[j]));
    }
}

proof fn lemma_places_in_text(bytes: Seq<u8>, toks: Seq<TokenV>, name: Text, n: nat)
    requires
        n <= toks.len(),
        lexer_laws::tokens_stand_in(bytes, toks),
    ensures
        forall|j: int|
            0 <= j < places_to(toks, name, n).len() ==> {
                let place = #[trigger] places_to(toks, name, n)[j];
                bytes.subrange(place.start as int, place.end as int) == encode_utf8(name) && (n < toks.len()
                    ==> place.end <= toks[n as int].span.start)
            },
        forall|i: int, j: int|
            0 <= i < j < places_to(toks, name, n).len() ==> (#[trigger] places_to(
                toks,
                name,
                n,
            )[i]).end <= (#[trigger] places_to(toks, name, n)[j]).start,
    decreases n,
{
    if n > 0 {
        let m = (n - 1) as nat;
        lemma_places_in_text(bytes, toks, name, m);
        let before = places_to(toks, name, m);
        let all = places_to(toks, name, n);
        let t = toks[m as int];
        assert(lexer_laws::token_stands_in(bytes, t));
        assert forall|j: int| 0 <= j < all.len() implies {
            let place = #[trigger] all[j];
            bytes.subrange(place.start as int, place.end as int) == encode_utf8(name) && (n < toks.len()
                ==> place.end <= toks[n as int].span.start)
        } by {
            if n < toks.len() {
                assert(toks[m as int].span.end <= toks[n as int].span.start);
            }
            if j < before.len() {
                assert(all[j] == before[j]);
            }
        }
        assert forall|i: int, j: int| 0 <= i < j < all.len() implies (#[trigger] all[i]).end
            <= (#[trigger] all[j]).start by {
            assert(all[i] == before[i]);
            if j < before.len() {
                assert(all[j] == before[j]);
            }
        }
    }
}

/// At each place that is listed for a name the bytes are those of the name, and the places come
/// one behind the other: replacing the text at all of them renames each occurrence.
pub proof fn law_references_stand_in_the_text(cs: Text, ks: Seq<CharClass>, offset: usize)
    requires
        encode_utf8(cs).len() <= usize::MAX,
        ks.len() == cs.len(),
    ensures
        references_in(lexer::source_tokens(cs, ks), offset) matches Some(r) ==> {
            &&& forall|j: int|
                0 <= j < r.places.len() ==> encode_utf8(cs).subrange(
                    (#[trigger] r.places[j]).start as int,
                    r.places[j].end as int,
                ) == encode_utf8(r.name)
            &&& forall|i: int, j: int|
                0 <= i < j < r.places.len() ==> (#[trigger] r.places[i]).end <= (
                #[trigger] r.places[j]).start
        },
{
    lexer_laws::law_tokens_follow_the_bytes(cs, ks);
    if let Ok(toks) = lexer::source_tokens(cs, ks) {
        if let Some(r) = references_of(toks, offset) {
            lemma_places_in_text(encode_utf8(cs), toks, r.name, toks.len());
        }
    }
}

} // verus!
