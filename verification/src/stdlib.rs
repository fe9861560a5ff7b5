//! The modules of the standard library: where they stand, and how they are loaded.

use crate::ast::{Program, ProgramV};
use crate::lexer;
use crate::lexer::span_to_text;
use crate::parser;
use crate::parser::parser;
use crate::parser::cursor::{ParseError, ParseErrorV};
use crate::text;
use crate::text::{
    Text, cat2, cat3, cat4, cat5, join, owned, quoted, skip_chars, sort_texts, starts_with, str_eq,
};
use vstd::prelude::*;

verus! {

/// The place of the module that an import path names: paths under `stdlib/` stand under
/// `nxlib/`.
pub open spec fn resolved_path(path: Text) -> Text {
    if text::begins_with(path, "stdlib/"@) {
        "nxlib/"@ + path
    } else {
        path
    }
}

/// Resolves an import path to the place of its module.
pub fn resolve_import_path(path: &str) -> (r: String)
    ensures
        r@ == resolved_path(path@),
{
    if starts_with(path, "stdlib/") {
        cat2("nxlib/", path)
    } else {
        owned(path)
    }
}

// ---------------------------------------------------------------------------
// Listing
// ---------------------------------------------------------------------------

/// The directory of the standard library.
pub const STDLIB_DIR: &'static str = "nxlib/stdlib";

/// The directory of the standard library, as a text.
pub open spec fn stdlib_dir() -> Text {
    STDLIB_DIR@
}

/// Whether a file name has the extension `nx`: something before `.nx`.
pub open spec fn has_nx_extension(name: Text) -> bool {
    name.len() > 3 && name.skip(name.len() - 3) == ".nx"@
}

/// Whether a file name has the extension `nx`.
pub fn is_nx_name(name: &str) -> (r: bool)
    ensures
        r == has_nx_extension(name@),
{
    let n = name.unicode_len();
    if n <= 3 {
        return false;
    }
    let tail = skip_chars(name, n - 3);
    str_eq(tail.as_str(), ".nx")
}

/// The model of an entry of a directory: its file name, or why it cannot be read.
pub open spec fn entry_view(e: Result<String, String>) -> Result<Text, Text> {
    match e {
        Ok(name) => Ok(name@),
        Err(why) => Err(why@),
    }
}

/// The models of the entries of a directory.
pub open spec fn entries_view(v: Seq<Result<String, String>>) -> Seq<Result<Text, Text>> {
    v.map_values(|e: Result<String, String>| entry_view(e))
}

/// The places of the sources among the entries from index `i` on, behind those of `acc`; the
/// first entry that cannot be read is reported instead.
pub open spec fn nx_places(acc: Seq<Text>, entries: Seq<Result<Text, Text>>, i: nat) -> Result<
    Seq<Text>,
    Text,
>
    decreases entries.len() - i,
{
    if i >= entries.len() {
        Ok(acc)
    } else {
        match entries[i as int] {
            Err(why) => Err("Failed to read "@ + stdlib_dir() + " entry: "@ + why),
            Ok(name) => {
                if has_nx_extension(name) {
                    nx_places(acc.push(stdlib_dir() + "/"@ + name), entries, i + 1)
                } else {
                    nx_places(acc, entries, i + 1)
                }
            },
        }
    }
}

/// The places of the sources of the standard library in order, given the entries of its
/// directory or why that cannot be read.
pub open spec fn stdlib_places(listing: Result<Seq<Result<Text, Text>>, Text>) -> Result<
    Seq<Text>,
    Text,
> {
    match listing {
        Err(why) => Err("Failed to read "@ + stdlib_dir() + ": "@ + why),
        Ok(entries) => match nx_places(Seq::empty(), entries, 0) {
            Ok(places) => Ok(text::sorted_texts(places)),
            Err(e) => Err(e),
        },
    }
}

/// Lists the sources of the standard library in lexical order, given the entries of its
/// directory.
pub fn list_stdlib_nx_paths(listing: Result<Vec<Result<String, String>>, String>) -> (r: Result<
    Vec<String>,
    String,
>)
    ensures
        ({
            let m = match listing {
                Ok(v) => stdlib_places(Ok(entries_view(v@))),
                Err(why) => stdlib_places(Err(why@)),
            };
            match r {
                Ok(paths) => m == Ok::<Seq<Text>, Text>(text::texts(paths@)),
                Err(e) => m == Err::<Seq<Text>, Text>(e@),
            }
        }),
{
    let entries = match listing {
        Err(why) => {
            return Err(cat4("Failed to read ", STDLIB_DIR, ": ", why.as_str()));
        },
        Ok(v) => v,
    };
    let ghost ev = entries_view(entries@);
    let mut paths: Vec<String> = Vec::new();
    assert(text::texts(paths@) =~= Seq::<Text>::empty());
    let mut i: usize = 0;
    while i < entries.len()
        invariant
            i <= entries.len(),
            ev == entries_view(entries@),
            listing matches Ok(v) && v@ == entries@,
            nx_places(text::texts(paths@), ev, i as nat) == nx_places(Seq::empty(), ev, 0),
        decreases entries.len() - i,
    {
        assert(ev[i as int] == entry_view(entries@[i as int]));
        match &entries[i] {
            Err(why) => {
                return Err(cat4("Failed to read ", STDLIB_DIR, " entry: ", why.as_str()));
            },
            Ok(name) => {
                if is_nx_name(name.as_str()) {
                    let ghost before = text::texts(paths@);
                    let path = cat3(STDLIB_DIR, "/", name.as_str());
                    let ghost pv = path@;
                    paths.push(path);
                    assert(text::texts(paths@) =~= before.push(pv));
                }
            },
        }
        i = i + 1;
    }
    Ok(sort_texts(&paths))
}

// ---------------------------------------------------------------------------
// Loading
// ---------------------------------------------------------------------------

/// A report of the parser as it prints.
pub open spec fn parse_error_debug(e: ParseErrorV) -> Text {
    "ParseError { message: "@ + text::quoted_text(e.message) + ", span: "@ + lexer::span_text(e.span) + " }"@
}

/// Reports of the parser as they print.
pub open spec fn parse_errors_debug(errs: Seq<ParseErrorV>) -> Text {
    "["@ + text::joined(errs.map_values(|e: ParseErrorV| parse_error_debug(e)), ", "@) + "]"@
}

fn parse_errors_to_debug(errs: &Vec<ParseError>) -> (r: String)
    ensures
        r@ == parse_errors_debug(parser::parse_errors_view(errs@)),
{
    let mut parts: Vec<String> = Vec::new();
    let mut i: usize = 0;
    while i < errs.len()
        invariant
            i <= errs.len(),
            parts.len() == i,
            forall|j: int| 0 <= j < i ==> (#[trigger] parts@[j])@ == parse_error_debug(errs@[j]@),
        decreases errs.len() - i,
    {
        let m = quoted(errs[i].message.as_str());
        let s = span_to_text(&errs[i].span);
        parts.push(cat5("ParseError { message: ", m.as_str(), ", span: ", s.as_str(), " }"));
        i = i + 1;
    }
    assert(text::texts(parts@) =~= parser::parse_errors_view(errs@).map_values(
        |e: ParseErrorV| parse_error_debug(e),
    ));
    let list = join(&parts, ", ");
    cat3("[", list.as_str(), "]")
}

/// The models of files: the place of each, and its text or why it cannot be read.
pub open spec fn files_view(v: Seq<(String, Result<String, String>)>) -> Seq<
    (Text, Result<Text, Text>),
> {
    v.map_values(|f: (String, Result<String, String>)| (f.0@, entry_view(f.1)))
}

/// The models of loaded programs.
pub open spec fn loaded_view(v: Seq<(String, Program)>) -> Seq<(Text, ProgramV)> {
    v.map_values(|e: (String, Program)| (e.0@, e.1@))
}

/// What loading a file gives, given what the parser makes of texts.
pub open spec fn file_loaded(f: (Text, Result<Text, Text>)) -> Result<ProgramV, Text> {
    match f.1 {
        Err(why) => Err("Failed to read "@ + f.0 + ": "@ + why),
        Ok(src) => match parser::program_of(src, lexer::classes(src)) {
            Ok(p) => Ok(p),
            Err(errs) => Err("Failed to parse "@ + f.0 + ": "@ + parse_errors_debug(errs)),
        },
    }
}

/// The programs of the files from index `i` on behind those of `acc`; the first failure instead.
pub open spec fn files_loaded(
    acc: Seq<(Text, ProgramV)>,
    files: Seq<(Text, Result<Text, Text>)>,
    i: nat,
) -> Result<Seq<(Text, ProgramV)>, Text>
    decreases files.len() - i,
{
    if i >= files.len() {
        Ok(acc)
    } else {
        match file_loaded(files[i as int]) {
            Ok(p) => files_loaded(acc.push((files[i as int].0, p)), files, i + 1),
            Err(e) => Err(e),
        }
    }
}

/// Whether each integer literal of the files from index `i` on fits a machine integer, up to the
/// first file that cannot be loaded.
pub open spec fn files_fit(files: Seq<(Text, Result<Text, Text>)>, i: nat) -> bool
    decreases files.len() - i,
{
    if i >= files.len() {
        true
    } else {
        &&& files[i as int].1 matches Ok(src) ==> lexer::literals_fit(src)
        &&& file_loaded(files[i as int]) is Ok ==> files_fit(files, i + 1)
    }
}

/// Whether an outcome is the one that its model says.
pub open spec fn load_matches(
    r: Result<Vec<(String, Program)>, String>,
    m: Result<Seq<(Text, ProgramV)>, Text>,
) -> bool {
    match r {
        Ok(v) => m == Ok::<Seq<(Text, ProgramV)>, Text>(loaded_view(v@)),
        Err(e) => m == Err::<Seq<(Text, ProgramV)>, Text>(e@),
    }
}

/// Says what loading a file gives, given what the parser made of its text.
pub fn report_parsed(place: &str, parsed: Result<Program, Vec<ParseError>>) -> (r: Result<
    Program,
    String,
>)
    ensures
        match (parsed, r) {
            (Ok(p), Ok(q)) => p == q,
            (Err(errs), Err(e)) => e@ == "Failed to parse "@ + place@ + ": "@
                + parse_errors_debug(parser::parse_errors_view(errs@)),
            _ => false,
        },
{
    match parsed {
        Ok(p) => Ok(p),
        Err(errs) => {
            let d = parse_errors_to_debug(&errs);
            Err(cat4("Failed to parse ", place, ": ", d.as_str()))
        },
    }
}

/// Parses every file of the standard library; nothing where an integer literal does not fit a
/// machine integer in one of them, before a file that cannot be loaded.
pub fn load_stdlib_nx_programs_checked(
    files: &Vec<(String, Result<String, String>)>,
) -> (r: Option<Result<Vec<(String, Program)>, String>>)
    ensures
        match r {
            Some(out) => {
                &&& files_fit(files_view(files@), 0)
                &&& load_matches(out, files_loaded(Seq::empty(), files_view(files@), 0))
            },
            None => !files_fit(files_view(files@), 0),
        },
{
    let ghost fv = files_view(files@);
    let mut out: Vec<(String, Program)> = Vec::new();
    assert(loaded_view(out@) =~= Seq::<(Text, ProgramV)>::empty());
    let mut i: usize = 0;
    while i < files.len()
        invariant
            i <= files.len(),
            fv == files_view(files@),
            files_fit(fv, i as nat) == files_fit(fv, 0),
            files_loaded(loaded_view(out@), fv, i as nat) == files_loaded(Seq::empty(), fv, 0),
        decreases files.len() - i,
    {
        let f = &files[i];
        assert(fv[i as int] == (f.0@, entry_view(f.1)));
        match &f.1 {
            Err(why) => {
                return Some(Err(cat4("Failed to read ", f.0.as_str(), ": ", why.as_str())));
            },
            Ok(src) => match parser().parse_checked(src.as_str()) {
                None => {
                    return None;
                },
                Some(parsed) => match report_parsed(f.0.as_str(), parsed) {
                    Err(e) => {
                        return Some(Err(e));
                    },
                    Ok(program) => {
                        let ghost before = loaded_view(out@);
                        let ghost pv = program@;
                        out.push((f.0.clone(), program));
                        assert(loaded_view(out@) =~= before.push((f.0@, pv)));
                    },
                },
            },
        }
        i = i + 1;
    }
    Some(Ok(out))
}

/// Parses every file of the standard library.
pub fn load_stdlib_nx_programs(files: &Vec<(String, Result<String, String>)>) -> (r: Result<
    Vec<(String, Program)>,
    String,
>)
    requires
        files_fit(files_view(files@), 0),
    ensures
        load_matches(r, files_loaded(Seq::empty(), files_view(files@), 0)),
{
    load_stdlib_nx_programs_checked(files).unwrap()
}

// ---------------------------------------------------------------------------
// Listing, reading and keeping
// ---------------------------------------------------------------------------

/// The model of the entries of a directory, or of why it cannot be read.
pub open spec fn listing_view(listing: Result<Vec<Result<String, String>>, String>) -> Result<
    Seq<Result<Text, Text>>,
    Text,
> {
    match listing {
        Ok(entries) => Ok(entries_view(entries@)),
        Err(why) => Err(why@),
    }
}

/// Files at the given places, with what reading each of them gave.
pub open spec fn files_at(places: Seq<Text>, contents: Seq<Result<Text, Text>>) -> Seq<
    (Text, Result<Text, Text>),
> {
    Seq::new(places.len(), |i: int| (places[i], contents[i]))
}

/// The files of the standard library, given the entries of its directory and what reading each
/// of the listed places gave.
pub open spec fn library_files(
    listing: Result<Seq<Result<Text, Text>>, Text>,
    contents: Seq<Result<Text, Text>>,
) -> Result<Seq<(Text, Result<Text, Text>)>, Text> {
    match stdlib_places(listing) {
        Ok(places) => Ok(files_at(places, contents)),
        Err(why) => Err(why),
    }
}

/// Whether there is what reading gave for each of the places that are listed.
pub open spec fn all_are_read(
    listing: Result<Seq<Result<Text, Text>>, Text>,
    contents: Seq<Result<Text, Text>>,
) -> bool {
    stdlib_places(listing) matches Ok(places) ==> contents.len() == places.len()
}

fn join_files(places: &Vec<String>, contents: &Vec<Result<String, String>>) -> (r: Vec<
    (String, Result<String, String>),
>)
    requires
        places.len() == contents.len(),
    ensures
        files_view(r@) == files_at(text::texts(places@), entries_view(contents@)),
{
    let mut out: Vec<(String, Result<String, String>)> = Vec::new();
    let mut i: usize = 0;
    while i < places.len()
        invariant
            i <= places.len() == contents.len(),
            out.len() == i,
            forall|j: int|
                0 <= j < i ==> (#[trigger] out@[j]).0@ == places@[j]@ && entry_view(out@[j].1)
                    == entry_view(contents@[j]),
        decreases places.len() - i,
    {
        let content = match &contents[i] {
            Ok(text) => Ok(text.clone()),
            Err(why) => Err(why.clone()),
        };
        out.push((places[i].clone(), content));
        i = i + 1;
    }
    assert(files_view(out@) =~= files_at(text::texts(places@), entries_view(contents@)));
    out
}

/// The models of the files that are kept between loads.
pub open spec fn kept_view(kept: Option<Vec<(String, Result<String, String>)>>) -> Option<
    Seq<(Text, Result<Text, Text>)>,
> {
    match kept {
        Some(files) => Some(files_view(files@)),
        None => None,
    }
}

/// The files that a load uses: those that are kept, or else those that were read.
pub open spec fn files_in_use(
    kept: Option<Seq<(Text, Result<Text, Text>)>>,
    read: Result<Seq<(Text, Result<Text, Text>)>, Text>,
) -> Result<Seq<(Text, Result<Text, Text>)>, Text> {
    match kept {
        Some(files) => Ok(files),
        None => read,
    }
}

/// What a load gives.
pub open spec fn library_loaded(
    kept: Option<Seq<(Text, Result<Text, Text>)>>,
    read: Result<Seq<(Text, Result<Text, Text>)>, Text>,
) -> Result<Seq<(Text, ProgramV)>, Text> {
    match files_in_use(kept, read) {
        Ok(files) => files_loaded(Seq::empty(), files, 0),
        Err(why) => Err(why),
    }
}

/// What is kept after a load: the files of the first load that succeeded.
pub open spec fn library_kept(
    kept: Option<Seq<(Text, Result<Text, Text>)>>,
    read: Result<Seq<(Text, Result<Text, Text>)>, Text>,
) -> Option<Seq<(Text, Result<Text, Text>)>> {
    if kept is None && library_loaded(kept, read) is Ok {
        Some(read->Ok_0)
    } else {
        kept
    }
}

/// Loads the standard library, given the entries of its directory and what reading each of the
/// listed places gave. Files that are kept are used whatever the directory has by now; otherwise
/// the files that were read are, and they are kept where that succeeds. Nothing where an integer
/// literal of a file does not fit a machine integer.
pub fn load_stdlib_once(
    kept: &mut Option<Vec<(String, Result<String, String>)>>,
    listing: Result<Vec<Result<String, String>>, String>,
    contents: &Vec<Result<String, String>>,
) -> (r: Option<Result<Vec<(String, Program)>, String>>)
    requires
        *old(kept) is None ==> all_are_read(listing_view(listing), entries_view(contents@)),
    ensures
        ({
            let read = library_files(listing_view(listing), entries_view(contents@));
            &&& match files_in_use(kept_view(*old(kept)), read) {
                Ok(files) => r is Some <==> files_fit(files, 0),
                Err(_) => r is Some,
            }
            &&& match r {
                Some(out) => {
                    &&& load_matches(out, library_loaded(kept_view(*old(kept)), read))
                    &&& kept_view(*final(kept)) == library_kept(kept_view(*old(kept)), read)
                },
                None => kept_view(*final(kept)) == kept_view(*old(kept)),
            }
        }),
{
    if let Some(files) = kept.as_ref() {
        return load_stdlib_nx_programs_checked(files);
    }
    match list_stdlib_nx_paths(listing) {
        Err(why) => Some(Err(why)),
        Ok(places) => {
            assert(text::texts(places@).len() == places.len());
            assert(entries_view(contents@).len() == contents.len());
            let files = join_files(&places, contents);
            let loaded = load_stdlib_nx_programs_checked(&files);
            if let Some(Ok(_)) = &loaded {
                *kept = Some(files);
            }
            loaded
        },
    }
}

// ---------------------------------------------------------------------------
// What a load promises
// ---------------------------------------------------------------------------

/// Once a load has succeeded, each later one gives the same, whatever is read then. A load that
/// fails leaves nothing behind.
pub proof fn law_library_is_loaded_once(
    kept: Option<Seq<(Text, Result<Text, Text>)>>,
    read: Result<Seq<(Text, Result<Text, Text>)>, Text>,
    later: Result<Seq<(Text, Result<Text, Text>)>, Text>,
)
    ensures
        library_loaded(kept, read) is Ok ==> {
            &&& library_loaded(library_kept(kept, read), later) == library_loaded(kept, read)
            &&& library_kept(library_kept(kept, read), later) == library_kept(kept, read)
        },
        library_loaded(kept, read) is Err ==> library_kept(kept, read) == kept,
{
}

/// Whether an entry of the directory is the source at a place.
pub open spec fn is_source_at(entry: Result<Text, Text>, place: Text) -> bool {
    entry matches Ok(name) && has_nx_extension(name) && place == stdlib_dir() + "/"@ + name
}

/// Whether no two entries have the same name.
pub open spec fn names_are_apart(entries: Seq<Result<Text, Text>>) -> bool {
    forall|i: int, j: int| 0 <= i < j < entries.len() ==> entries[i] != entries[j]
}

proof fn lemma_places_are_apart(a: Text, b: Text)
    requires
        stdlib_dir() + "/"@ + a == stdlib_dir() + "/"@ + b,
    ensures
        a == b,
{
    let front = stdlib_dir() + "/"@;
    assert((front + a).skip(front.len() as int) =~= a);
    assert((front + b).skip(front.len() as int) =~= b);
}

proof fn lemma_nx_places(acc: Seq<Text>, entries: Seq<Result<Text, Text>>, i: nat)
    requires
        i <= entries.len(),
    ensures
        nx_places(acc, entries, i) is Ok <==> forall|j: int|
            i <= j < entries.len() ==> (#[trigger] entries[j]) is Ok,
        nx_places(acc, entries, i) matches Ok(places) ==> {
            &&& forall|p: Text| #[trigger]
                places.contains(p) <==> acc.contains(p) || exists|j: int|
                    i <= j < entries.len() && is_source_at(#[trigger] entries[j], p)
            &&& names_are_apart(entries) && acc.no_duplicates() && (forall|j: int, p: Text|
                i <= j < entries.len() && #[trigger] is_source_at(entries[j], p)
                    ==> !acc.contains(p)) ==> places.no_duplicates()
        },
    decreases entries.len() - i,
{
    if i < entries.len() {
        if let Ok(name) = entries[i as int] {
            let place = stdlib_dir() + "/"@ + name;
            let next = if has_nx_extension(name) {
                acc.push(place)
            } else {
                acc
            };
            lemma_nx_places(next, entries, i + 1);
            assert forall|p: Text| #[trigger] next.contains(p) <==> acc.contains(p)
                || is_source_at(entries[i as int], p) by {
                if acc.contains(p) {
                    let k = choose|k: int| 0 <= k < acc.len() && acc[k] == p;
                    assert(next[k] == p);
                }
                if is_source_at(entries[i as int], p) {
                    assert(next[acc.len() as int] == p);
                }
            }
            if let Ok(places) = nx_places(next, entries, i + 1) {
                assert forall|p: Text| #[trigger] places.contains(p) <==> acc.contains(p)
                    || exists|j: int|
                    i <= j < entries.len() && is_source_at(#[trigger] entries[j], p) by {
                    assert(next.contains(p) <==> acc.contains(p) || is_source_at(
                        entries[i as int],
                        p,
                    ));
                }
                if names_are_apart(entries) && acc.no_duplicates() && (forall|j: int, p: Text|
                    i <= j < entries.len() && #[trigger] is_source_at(entries[j], p)
                        ==> !acc.contains(p)) {
                    assert(has_nx_extension(name) ==> is_source_at(entries[i as int], place));
                    assert(next.no_duplicates());
                    assert forall|j: int, p: Text|
                        i + 1 <= j < entries.len() && #[trigger] is_source_at(
                            entries[j],
                            p,
                        ) implies !next.contains(p) by {
                        if is_source_at(entries[i as int], p) {
                            lemma_places_are_apart(name, entries[j]->Ok_0);
                        }
                    }
                }
            }
        }
    }
}

proof fn lemma_files_loaded(
    acc: Seq<(Text, ProgramV)>,
    files: Seq<(Text, Result<Text, Text>)>,
    i: nat,
)
    requires
        acc.len() == i <= files.len(),
        forall|j: int|
            0 <= j < i ==> (#[trigger] acc[j]).0 == files[j].0 && file_loaded(files[j])
                == Ok::<ProgramV, Text>(acc[j].1),
    ensures
        files_loaded(acc, files, i) is Ok <==> forall|j: int|
            i <= j < files.len() ==> file_loaded(#[trigger] files[j]) is Ok,
        files_loaded(acc, files, i) matches Ok(v) ==> {
            &&& v.len() == files.len()
            &&& forall|j: int|
                0 <= j < v.len() ==> (#[trigger] v[j]).0 == files[j].0 && file_loaded(files[j])
                    == Ok::<ProgramV, Text>(v[j].1)
        },
    decreases files.len() - i,
{
    if i < files.len() {
        if let Ok(p) = file_loaded(files[i as int]) {
            lemma_files_loaded(acc.push((files[i as int].0, p)), files, i + 1);
        }
    }
}

/// The first load that succeeds gives one program for each source of the directory, in the
/// increasing order of their places, and each later load gives the same, whatever the directory
/// has by then. It succeeds exactly where the directory, its entries and its sources can be read
/// and each source is a program; where it fails nothing is kept, and the next load depends on
/// what is read then.
pub proof fn law_library_follows_the_listing(
    listing: Result<Seq<Result<Text, Text>>, Text>,
    contents: Seq<Result<Text, Text>>,
    later: Result<Seq<(Text, Result<Text, Text>)>, Text>,
)
    requires
        all_are_read(listing, contents),
    ensures
        ({
            let read = library_files(listing, contents);
            let first = library_loaded(None, read);
            let places = stdlib_places(listing)->Ok_0;
            &&& stdlib_places(listing) is Ok <==> listing is Ok && forall|i: int|
                0 <= i < listing->Ok_0.len() ==> (#[trigger] listing->Ok_0[i]) is Ok
            &&& first is Ok <==> stdlib_places(listing) is Ok && forall|i: int|
                0 <= i < places.len() ==> file_loaded((places[i], #[trigger] contents[i])) is Ok
            &&& first matches Ok(v) ==> {
                &&& v.len() == places.len()
                &&& forall|i: int|
                    0 <= i < v.len() ==> (#[trigger] v[i]).0 == places[i] && contents[i] is Ok
                        && parser::program_of(contents[i]->Ok_0, lexer::classes(contents[i]->Ok_0)) == Ok::<
                        ProgramV,
                        Seq<ParseErrorV>,
                    >(v[i].1)
                &&& forall|p: Text| #[trigger]
                    places.contains(p) <==> exists|i: int|
                        0 <= i < listing->Ok_0.len() && is_source_at(
                            #[trigger] listing->Ok_0[i],
                            p,
                        )
                &&& text::in_order(places)
                &&& names_are_apart(listing->Ok_0) ==> forall|i: int, j: int|
                    0 <= i < j < v.len() ==> text::precedes((#[trigger] v[i]).0, (#[trigger] v[j]).0)
                &&& library_loaded(library_kept(None, read), later) == first
            }
            &&& first is Err ==> {
                &&& library_kept(None, read) is None
                &&& library_loaded(library_kept(None, read), later) == library_loaded(None, later)
            }
        }),
{
    if let Ok(entries) = listing {
        lemma_nx_places(Seq::empty(), entries, 0);
        if let Ok(found) = nx_places(Seq::empty(), entries, 0) {
            let places = text::sorted_texts(found);
            let files = files_at(places, contents);
            text::law_sorted_texts(found);
            assert(places == stdlib_places(listing)->Ok_0);
            lemma_files_loaded(Seq::empty(), files, 0);
            assert forall|i: int| 0 <= i < places.len() implies files[i] == (
                places[i],
                #[trigger] contents[i],
            ) by {}
            if forall|i: int|
                0 <= i < places.len() ==> file_loaded((places[i], #[trigger] contents[i])) is Ok {
                assert forall|j: int| 0 <= j < files.len() implies file_loaded(
                    #[trigger] files[j],
                ) is Ok by {
                    assert(file_loaded((places[j], contents[j])) is Ok);
                }
            }
            assert forall|p: Text| #[trigger] places.contains(p) <==> found.contains(p) by {
                vstd::seq_lib::to_multiset_contains(places, p);
                vstd::seq_lib::to_multiset_contains(found, p);
            }
            if names_are_apart(entries) {
                assert(found.no_duplicates());
                found.lemma_multiset_has_no_duplicates();
                places.lemma_multiset_has_no_duplicates_conv();
                assert forall|i: int, j: int| 0 <= i < j < places.len() implies text::precedes(
                    #[trigger] places[i],
                    #[trigger] places[j],
                ) by {
                    assert(text::not_behind(places[i], places[j]));
                    text::law_order_separates_texts(places[i], places[j]);
                }
            }
        }
    }
}

} // verus!
