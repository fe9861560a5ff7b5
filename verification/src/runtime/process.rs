//! Commands that programs run, and what is kept of their results.

use crate::runtime::collections;
use crate::runtime::memory;
use crate::runtime::memory::checked_ptr_len;
use crate::runtime::registry::Registry;
use crate::text;
use crate::text::{Text, chars_of, join, owned, string_of};
use crate::types;
use vstd::prelude::*;

verus! {

/// The pieces of a text from index `i` on between occurrences of a character.
pub open spec fn pieces_from(s: Text, c: char, i: nat) -> Seq<Text>
    decreases s.len() - i,
{
    let n = text::index_of_char(s, c, i);
    if i <= n < s.len() {
        seq![s.subrange(i as int, n as int)] + pieces_from(s, c, n + 1)
    } else {
        seq![s.subrange(i as int, s.len() as int)]
    }
}

/// The pieces of a text between occurrences of a character.
pub open spec fn pieces(s: Text, c: char) -> Seq<Text> {
    pieces_from(s, c, 0)
}

/// What `index_of_char` finds: the first place at or after `i` that holds `c`.
pub proof fn lemma_index_of_char(s: Text, c: char, i: nat)
    requires
        i <= s.len(),
    ensures
        i <= text::index_of_char(s, c, i) <= s.len(),
        text::index_of_char(s, c, i) < s.len() ==> s[text::index_of_char(s, c, i) as int] == c,
        forall|j: int| i <= j < text::index_of_char(s, c, i) ==> s[j] != c,
    decreases s.len() - i,
{
    if i < s.len() && s[i as int] != c {
        lemma_index_of_char(s, c, i + 1);
    }
}

/// Splits a text at each occurrence of a character.
pub fn split_text(s: &str, c: char) -> (r: Vec<String>)
    ensures
        text::texts(r@) == pieces(s@, c),
{
    let cs = chars_of(s);
    let mut out: Vec<String> = Vec::new();
    let mut begin: usize = 0;
    let mut i: usize = 0;
    assert(text::texts(out@) + pieces_from(s@, c, 0) =~= pieces(s@, c));
    while i < cs.len()
        invariant
            begin <= i <= cs.len(),
            cs@ == s@,
            text::index_of_char(s@, c, begin as nat) == text::index_of_char(s@, c, i as nat),
            text::texts(out@) + pieces_from(s@, c, begin as nat) == pieces(s@, c),
        decreases cs.len() - i,
    {
        if cs[i] == c {
            let ghost before = text::texts(out@);
            let piece = string_of(&cs, begin, i);
            let ghost pv = piece@;
            out.push(piece);
            assert(text::texts(out@) =~= before.push(pv));
            assert(text::texts(out@) + pieces_from(s@, c, (i + 1) as nat) =~= before + (seq![pv]
                + pieces_from(s@, c, (i + 1) as nat)));
            begin = i + 1;
        }
        i = i + 1;
    }
    let ghost before = text::texts(out@);
    let piece = string_of(&cs, begin, cs.len());
    let ghost pv = piece@;
    out.push(piece);
    assert(text::texts(out@) =~= before + seq![pv]);
    out
}

proof fn lemma_joined_tail(parts: Seq<Text>, sep: Text, i: nat, head: Text)
    requires
        1 <= i,
    ensures
        text::joined_from(seq![head] + parts, sep, i + 1) == text::joined_from(parts, sep, i),
    decreases parts.len() - i,
{
    let all = seq![head] + parts;
    if i < parts.len() {
        lemma_joined_tail(parts, sep, i + 1, head);
        assert(all[i as int + 1] == parts[i as int]);
    }
}

proof fn lemma_joined_pieces(s: Text, c: char, i: nat)
    requires
        i <= s.len(),
    ensures
        pieces_from(s, c, i).len() > 0,
        text::joined(pieces_from(s, c, i), seq![c]) == s.subrange(i as int, s.len() as int),
    decreases s.len() - i,
{
    lemma_index_of_char(s, c, i);
    let n = text::index_of_char(s, c, i);
    let sep = seq![c];
    let all = pieces_from(s, c, i);
    if n < s.len() {
        lemma_joined_pieces(s, c, n + 1);
        let head = s.subrange(i as int, n as int);
        let rest = pieces_from(s, c, n + 1);
        let tail = s.subrange(n as int + 1, s.len() as int);
        lemma_joined_tail(rest, sep, 1, head);
        assert(text::joined(rest, sep) == rest[0] + text::joined_from(rest, sep, 1));
        assert(all[0] == head);
        assert(all[1] == rest[0]);
        assert(text::joined_from(all, sep, 1) == sep + rest[0] + text::joined_from(all, sep, 2));
        assert(text::joined(all, sep) == head + text::joined_from(all, sep, 1));
        assert(head + (sep + rest[0] + text::joined_from(rest, sep, 1)) =~= head + sep + tail) by {
            assert(rest[0] + text::joined_from(rest, sep, 1) == tail);
            assert(sep + rest[0] + text::joined_from(rest, sep, 1) =~= sep + (rest[0] + text::joined_from(
                rest,
                sep,
                1,
            )));
        }
        assert(head + sep + tail =~= s.subrange(i as int, s.len() as int));
    } else {
        assert(all.len() == 1);
        assert(text::joined_from(all, sep, 1) =~= Seq::<char>::empty());
        assert(text::joined(all, sep) =~= all[0]);
    }
}

/// The pieces of a text, put together again, are the text.
pub proof fn law_pieces_join_again(s: Text, c: char)
    ensures
        text::joined(pieces(s, c), seq![c]) == s,
{
    lemma_joined_pieces(s, c, 0);
    assert(s.subrange(0, s.len() as int) =~= s);
}

/// The arguments that a program was started with, one on each line.
pub fn argv_text(args: &Vec<String>) -> (r: String)
    ensures
        r@ == text::joined(text::texts(args@), "\n"@),
{
    join(args, "\n")
}

// ---------------------------------------------------------------------------
// Running commands
// ---------------------------------------------------------------------------

/// Where the command and the arguments of a request stand in memory; no arguments where their
/// length is not positive.
#[derive(Debug, Clone, Copy, PartialEq, Eq)]
pub enum ExecPlan {
    Run { command: (usize, usize), args: Option<(usize, usize)> },
    BadCommand,
    BadArgs,
}

/// What a request to run a command asks for.
pub open spec fn exec_planned(
    cmd_ptr: i32,
    cmd_len: i32,
    args_ptr: i32,
    args_len: i32,
    pages: Option<usize>,
) -> ExecPlan {
    match memory::region(cmd_ptr, cmd_len as int, pages) {
        None => ExecPlan::BadCommand,
        Some(command) => {
            if args_len > 0 {
                match memory::region(args_ptr, args_len as int, pages) {
                    None => ExecPlan::BadArgs,
                    Some(a) => ExecPlan::Run { command, args: Some(a) },
                }
            } else {
                ExecPlan::Run { command, args: None }
            }
        },
    }
}

/// Says what a request to run a command asks for.
pub fn plan_exec(
    cmd_ptr: i32,
    cmd_len: i32,
    args_ptr: i32,
    args_len: i32,
    pages: Option<usize>,
) -> (r: ExecPlan)
    ensures
        r == exec_planned(cmd_ptr, cmd_len, args_ptr, args_len, pages),
{
    let command = match checked_ptr_len(cmd_ptr, cmd_len, pages) {
        Some(c) => c,
        None => {
            return ExecPlan::BadCommand;
        },
    };
    if args_len > 0 {
        match checked_ptr_len(args_ptr, args_len, pages) {
            Some(a) => ExecPlan::Run { command, args: Some(a) },
            None => ExecPlan::BadArgs,
        }
    } else {
        ExecPlan::Run { command, args: None }
    }
}

/// The arguments of a command, which are given one on each line.
pub fn exec_args(text: &str) -> (r: Vec<String>)
    ensures
        text::texts(r@) == pieces(text@, '\n'),
{
    split_text(text, '\n')
}

/// What is kept of a command that ran.
#[derive(Debug)]
pub struct ExecResult {
    pub exit_code: i64,
    pub stdout: String,
    pub stderr: String,
}

/// The model of what is kept of a command.
pub struct ExecResultV {
    pub exit_code: i64,
    pub stdout: Text,
    pub stderr: Text,
}

impl ExecResult {
    /// The model of this result.
    pub open spec fn view(&self) -> ExecResultV {
        ExecResultV {
            exit_code: self.exit_code,
            stdout: self.stdout@,
            stderr: self.stderr@,
        }
    }
}

/// The results that are kept, by handle.
pub open spec fn exec_results(r: Registry<ExecResult>) -> Map<i64, ExecResultV> {
    collections::modelled(r.entries@, |t: ExecResult| t@)
}

/// Keeps the result of a command, and gives its handle.
pub fn store_exec_result(
    reg: &mut Registry<ExecResult>,
    exit_code: i64,
    stdout: String,
    stderr: String,
) -> (r: i64)
    requires
        old(reg).valid(),
        old(reg).next < i64::MAX,
    ensures
        collections::gives_handle(*old(reg), *final(reg), r),
        exec_results(*final(reg)) == exec_results(*old(reg)).insert(
            r,
            (ExecResultV { exit_code, stdout: stdout@, stderr: stderr@ }),
        ),
{
    let result = ExecResult { exit_code, stdout, stderr };
    proof {
        collections::lemma_modelled(reg.entries@, |t: ExecResult| t@, reg.next, result);
    }
    reg.register(result)
}

/// The result that is kept for a request that names no valid command or arguments.
pub open spec fn failed_exec(why: Text) -> ExecResultV {
    ExecResultV { exit_code: (-1) as i64, stdout: Seq::empty(), stderr: why }
}

/// Keeps the failure of a command that could not be run, and gives its handle.
pub fn store_exec_failure(reg: &mut Registry<ExecResult>, why: &str) -> (r: i64)
    requires
        old(reg).valid(),
        old(reg).next < i64::MAX,
    ensures
        collections::gives_handle(*old(reg), *final(reg), r),
        exec_results(*final(reg)) == exec_results(*old(reg)).insert(r, failed_exec(why@)),
{
    let none = String::new();
    assert(none@ =~= Seq::<char>::empty());
    store_exec_result(reg, -1, none, owned(why))
}

/// The exit code of a command, or -1.
pub fn exec_exit_code(reg: &Registry<ExecResult>, id: i64) -> (r: i64)
    ensures
        r == (match exec_results(*reg).get(id) {
            Some(t) => t.exit_code as int,
            None => -1,
        }),
{
    proof {
        collections::lemma_modelled(reg.entries@, |t: ExecResult| t@, id, arbitrary());
    }
    match reg.find(id) {
        Some(t) => t.exit_code,
        None => -1,
    }
}

/// What a command wrote to its output.
pub fn exec_stdout(reg: &Registry<ExecResult>, id: i64) -> (r: Option<String>)
    ensures
        match exec_results(*reg).get(id) {
            Some(t) => types::opt_text(r) == Some(t.stdout),
            None => r is None,
        },
{
    proof {
        collections::lemma_modelled(reg.entries@, |t: ExecResult| t@, id, arbitrary());
    }
    match reg.find(id) {
        Some(t) => Some(t.stdout.clone()),
        None => None,
    }
}

/// What a command wrote to its error output.
pub fn exec_stderr(reg: &Registry<ExecResult>, id: i64) -> (r: Option<String>)
    ensures
        match exec_results(*reg).get(id) {
            Some(t) => types::opt_text(r) == Some(t.stderr),
            None => r is None,
        },
{
    proof {
        collections::lemma_modelled(reg.entries@, |t: ExecResult| t@, id, arbitrary());
    }
    match reg.find(id) {
        Some(t) => Some(t.stderr.clone()),
        None => None,
    }
}

/// Forgets a result, and says whether it was kept.
pub fn exec_free(reg: &mut Registry<ExecResult>, id: i64) -> (r: bool)
    requires
        old(reg).valid(),
    ensures
        r == exec_results(*old(reg)).contains_key(id),
        exec_results(*final(reg)) == exec_results(*old(reg)).remove(id),
        collections::keeps_handles(*old(reg), *final(reg)),
{
    proof {
        collections::lemma_modelled(reg.entries@, |t: ExecResult| t@, id, arbitrary());
    }
    reg.free(id)
}

} // verus!
