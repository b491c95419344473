//! The work on one file: run the engine over its text, and decide what to
//! print and what to write back. Reading and writing the file happen outside.

use crate::argparse::{engine_replaced, Action, Engine, Options};
use crate::hunk_ref::{put_bytes, range_text, separator};
use crate::input::{same_bytes, RowIn};
use crate::udiff::{
    apply_patches, applied, diff_fits, hunks, lines_view, patches, patches_of, pure_diffs,
    ranges_of, strs_view, udiff, udiff_text, DiffRange,
};
use vstd::prelude::*;
use vstd::utf8::encode_utf8;

verus! {

/// The text that the lines make up.
pub open spec fn flat(lines: Seq<Seq<char>>) -> Seq<char>
    decreases lines.len(),
{
    if lines.len() == 0 {
        Seq::empty()
    } else {
        flat(lines.drop_last()) + lines.last()
    }
}

/// Lines as `split_inclusive('\n')` cuts them: none empty, each ending at
/// its first newline, only the last one possibly without one.
pub open spec fn line_split(lines: Seq<Seq<char>>) -> bool {
    &&& forall|i: int| 0 <= i < lines.len() ==> (#[trigger] lines[i]).len() > 0
    &&& forall|i: int, j: int|
        0 <= i < lines.len() && 0 <= j < lines[i].len() - 1 ==> #[trigger] lines[i][j] != '\n'
    &&& forall|i: int| 0 <= i < lines.len() - 1 ==> (#[trigger] lines[i]).last() == '\n'
}

/// Relies on `str::split_inclusive` with `'\n'`: the lines of `s`, each with
/// its newline.
#[verifier::external_body]
fn split_lines(s: &str) -> (r: Vec<String>)
    ensures
        flat(lines_view(r@)) == s@,
        line_split(lines_view(r@)),
{
    s.split_inclusive('\n').map(String::from).collect()
}

/// The lines joined into one text.
fn concat_lines(lines: &[String]) -> (r: String)
    ensures
        r@ == flat(lines_view(lines@)),
{
    let ghost v = lines_view(lines@);
    let mut out = String::new();
    let mut i: usize = 0;
    while i < lines.len()
        invariant
            0 <= i <= lines@.len(),
            v == lines_view(lines@),
            out@ == flat(v.subrange(0, i as int)),
        decreases lines@.len() - i,
    {
        out.append(lines[i].as_str());
        assert(v.subrange(0, i + 1).drop_last() =~= v.subrange(0, i as int));
        i = i + 1;
    }
    assert(v.subrange(0, i as int) =~= v);
    out
}

/// Whether two line lists are the same.
fn same_lines(a: &[String], b: &[String]) -> (r: bool)
    ensures
        r == (lines_view(a@) == lines_view(b@)),
{
    if a.len() != b.len() {
        return false;
    }
    let mut i: usize = 0;
    while i < a.len()
        invariant
            0 <= i <= a@.len(),
            a@.len() == b@.len(),
            forall|j: int| 0 <= j < i ==> lines_view(a@)[j] == lines_view(b@)[j],
        decreases a@.len() - i,
    {
        if !(a[i] == b[i]) {
            assert(lines_view(a@)[i as int] != lines_view(b@)[i as int]);
            return false;
        }
        i = i + 1;
    }
    assert(lines_view(a@) =~= lines_view(b@));
    true
}

/// The bytes of the lines, one after the other.
pub open spec fn line_bytes(lines: Seq<Seq<char>>) -> Seq<u8>
    decreases lines.len(),
{
    if lines.len() == 0 {
        Seq::empty()
    } else {
        line_bytes(lines.drop_last()) + encode_utf8(lines.last())
    }
}

fn strs_bytes(lines: &Vec<&str>) -> (r: Vec<u8>)
    ensures
        r@ == line_bytes(strs_view(lines@)),
{
    let ghost v = strs_view(lines@);
    let mut out: Vec<u8> = Vec::new();
    let mut i: usize = 0;
    while i < lines.len()
        invariant
            0 <= i <= lines@.len(),
            v == strs_view(lines@),
            out@ == line_bytes(v.subrange(0, i as int)),
        decreases lines@.len() - i,
    {
        put_bytes(&mut out, lines[i].as_bytes());
        assert(v.subrange(0, i + 1).drop_last() =~= v.subrange(0, i as int));
        i = i + 1;
    }
    assert(v.subrange(0, i as int) =~= v);
    out
}

fn strings_bytes(lines: &Vec<String>) -> (r: Vec<u8>)
    ensures
        r@ == line_bytes(lines_view(lines@)),
{
    let ghost v = lines_view(lines@);
    let mut out: Vec<u8> = Vec::new();
    let mut i: usize = 0;
    while i < lines.len()
        invariant
            0 <= i <= lines@.len(),
            v == lines_view(lines@),
            out@ == line_bytes(v.subrange(0, i as int)),
        decreases lines@.len() - i,
    {
        put_bytes(&mut out, lines[i].as_str().as_bytes());
        assert(v.subrange(0, i + 1).drop_last() =~= v.subrange(0, i as int));
        i = i + 1;
    }
    assert(v.subrange(0, i as int) =~= v);
    out
}

pub open spec fn red_start() -> Seq<u8> {
    seq![27u8, 91u8, 51u8, 49u8, 109u8]
}

pub open spec fn style_reset() -> Seq<u8> {
    seq![27u8, 91u8, 48u8, 109u8]
}

/// Relies on ansi_term's `Colour::Red.paint` on bytes: the bytes between the
/// escape codes `ESC[31m` and `ESC[0m`. Writing into a `Vec` does not fail.
#[verifier::external_body]
fn paint_red(text: &[u8]) -> (r: Vec<u8>)
    ensures
        r@ == red_start() + text@ + style_reset(),
{
    let mut out = Vec::new();
    let _ = ansi_term::Colour::Red.paint(text).write_to(&mut out);
    out
}

/// The lines that fzf lists: one per range, the name, four newlines, the
/// range in red, and a NUL.
pub open spec fn fzf_lines(name: Seq<u8>, ranges: Seq<DiffRange>) -> Seq<u8>
    decreases ranges.len(),
{
    if ranges.len() == 0 {
        Seq::empty()
    } else {
        fzf_lines(name, ranges.drop_last()) + name + separator() + red_start() + range_text(
            ranges.last(),
        ) + style_reset() + seq![0u8]
    }
}

/// The fzf lines of a list of ranges.
pub fn fzf_listing(name: &[u8], ranges: &Vec<DiffRange>) -> (r: Vec<u8>)
    ensures
        r@ == fzf_lines(name@, ranges@),
{
    let mut out: Vec<u8> = Vec::new();
    let mut k: usize = 0;
    while k < ranges.len()
        invariant
            0 <= k <= ranges@.len(),
            out@ == fzf_lines(name@, ranges@.subrange(0, k as int)),
        decreases ranges@.len() - k,
    {
        let ghost prev = out@;
        put_bytes(&mut out, name);
        out.push(10u8);
        out.push(10u8);
        out.push(10u8);
        out.push(10u8);
        let text = ranges[k].render();
        let red = paint_red(text.as_slice());
        put_bytes(&mut out, red.as_slice());
        out.push(0u8);
        assert(ranges@.subrange(0, k + 1).drop_last() =~= ranges@.subrange(0, k as int));
        assert(ranges@.subrange(0, k + 1).last() == ranges@[k as int]);
        k = k + 1;
        assert(out@ =~= fzf_lines(name@, ranges@.subrange(0, k as int)));
    }
    assert(ranges@.subrange(0, k as int) =~= ranges@);
    out
}

/// What a worker hands on for one file: bytes to print, or new content to
/// write to the file, and then bytes to print.
pub enum Outcome {
    Print(Vec<u8>),
    Write(Vec<u8>, Vec<u8>),
}

/// The name followed by a newline: what a commit reports.
pub open spec fn report(name: Seq<u8>) -> Seq<u8> {
    name + seq![10u8]
}

/// A commit writes the new content and reports the name, unless the content
/// is the old one byte for byte: then nothing happens.
pub open spec fn commit_of(content: Seq<u8>, original: Seq<u8>, name: Seq<u8>) -> (bool, Seq<u8>, Seq<u8>) {
    if content == original {
        (false, Seq::empty(), Seq::empty())
    } else {
        (true, content, report(name))
    }
}

/// Hands out a commit of `content` over `original`.
fn commit(content: Vec<u8>, original: &Vec<u8>, name: &[u8]) -> (r: Outcome)
    ensures
        outcome_view(r) == commit_of(content@, original@, name@),
{
    if same_bytes(content.as_slice(), original.as_slice()) {
        return Outcome::Print(Vec::new());
    }
    let mut done: Vec<u8> = Vec::new();
    put_bytes(&mut done, name);
    done.push(10u8);
    Outcome::Write(content, done)
}

/// What a file comes to, for its old lines and the lines that the engine
/// made of them. Nothing when they are the same. Otherwise, by action and
/// item: a preview prints the unified diff (of the listed hunks only, for a
/// piecewise item); a commit writes the new lines (or the old lines with the
/// listed hunks applied) and reports the name, where that changes a byte;
/// fzf gets one line per hunk.
pub open spec fn outcome_of(action: &Action, input: &RowIn, unified: usize, name: Seq<u8>, before: Seq<String>, after: Seq<String>) -> (
    bool,
    Seq<u8>,
    Seq<u8>,
) {
    let b = lines_view(before);
    let a = lines_view(after);
    if b == a {
        (false, Seq::empty(), Seq::empty())
    } else {
        match (action, input) {
            (Action::Preview, RowIn::Entire(_)) => (
                false,
                Seq::empty(),
                udiff_text(None, unified, name, before, after),
            ),
            (Action::Preview, RowIn::Piecewise(_, rs)) => (
                false,
                Seq::empty(),
                udiff_text(Some(rs@), unified, name, before, after),
            ),
            (Action::Commit, RowIn::Entire(_)) => commit_of(line_bytes(a), line_bytes(b), name),
            (Action::Commit, RowIn::Piecewise(_, rs)) => commit_of(
                line_bytes(applied(patches_of(hunks(before, after, unified), b, a), rs@, b)),
                line_bytes(b),
                name,
            ),
            (Action::FzfPreview(_, _), _) => (
                false,
                Seq::empty(),
                fzf_lines(name, ranges_of(hunks(before, after, unified))),
            ),
        }
    }
}

pub open spec fn outcome_view(o: Outcome) -> (bool, Seq<u8>, Seq<u8>) {
    match o {
        Outcome::Print(p) => (false, Seq::empty(), p@),
        Outcome::Write(c, p) => (true, c@, p@),
    }
}

/// What to do with a file, given its old lines and the engine's new lines.
pub fn plan(action: &Action, input: &RowIn, unified: usize, name: &[u8], before: &Vec<String>, after: &Vec<String>) -> (r: Outcome)
    requires
        diff_fits(before@, after@, unified),
    ensures
        outcome_view(r) == outcome_of(action, input, unified, name@, before@, after@),
        action is FzfPreview && lines_view(before@) != lines_view(after@) ==> ranges_of(
            hunks(before@, after@, unified),
        ).len() > 0,
{
    if same_lines(before.as_slice(), after.as_slice()) {
        return Outcome::Print(Vec::new());
    }
    match (action, input) {
        (Action::Preview, RowIn::Entire(_)) => Outcome::Print(
            udiff(None, unified, name, before.as_slice(), after.as_slice()),
        ),
        (Action::Preview, RowIn::Piecewise(_, ranges)) => Outcome::Print(
            udiff(Some(ranges.as_slice()), unified, name, before.as_slice(), after.as_slice()),
        ),
        (Action::Commit, RowIn::Entire(_)) => commit(strings_bytes(after), &strings_bytes(before), name),
        (Action::Commit, RowIn::Piecewise(_, ranges)) => {
            let ps = patches(unified, before.as_slice(), after.as_slice());
            let merged = apply_patches(ps, ranges.as_slice(), before.as_slice());
            commit(strs_bytes(&merged), &strings_bytes(before), name)
        },
        (Action::FzfPreview(_, _), _) => {
            let ranges = pure_diffs(unified, before.as_slice(), after.as_slice());
            Outcome::Print(fzf_listing(name, &ranges))
        },
    }
}

/// The lines that the engine makes of the old lines: the engine's text of
/// them, cut as `split_inclusive('\n')` cuts it.
pub open spec fn engine_lines(after: Seq<String>, e: Engine, before: Seq<String>) -> bool {
    line_split(lines_view(after)) && flat(lines_view(after)) == engine_replaced(
        e,
        flat(lines_view(before)),
    )
}

/// The work on one file, given its display name and its old lines: the
/// engine's new text, cut into lines, goes to `plan`. `None` exactly where
/// the lines and the context radius are too many for the diff's index
/// arithmetic.
pub fn displace(opts: &Options, input: &RowIn, name: &[u8], before: &Vec<String>) -> (r: Option<Outcome>)
    ensures
        exists|after: Seq<String>|
            #[trigger] engine_lines(after, opts.engine, before@) && (r is Some <==> diff_fits(
                before@,
                after,
                opts.unified,
            )) && (r matches Some(o) ==> outcome_view(o) == outcome_of(
                &opts.action,
                input,
                opts.unified,
                name@,
                before@,
                after,
            )),
{
    let text = concat_lines(before.as_slice());
    let replaced = opts.engine.replace(text.as_str());
    let after = split_lines(replaced.as_str());
    assert(engine_lines(after@, opts.engine, before@));
    let u = opts.unified;
    if u > usize::MAX / 2 {
        return None;
    }
    let room = usize::MAX - 2 * u;
    if before.len() > room || after.len() > room {
        return None;
    }
    let o = plan(&opts.action, input, u, name, before, &after);
    Some(o)
}

} // verus!
