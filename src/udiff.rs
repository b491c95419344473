//! Line diffs, hunk patches and unified-diff rendering.
//!
//! Lines keep their terminators, so a file is the concatenation of its lines.
//! The alignment of two line sequences comes from difflib's grouped opcodes;
//! everything built on top of it is verified here.

use crate::hunk_ref::{put_bytes, put_range, range_text};
use difflib::sequencematcher::SequenceMatcher;
use vstd::prelude::*;
use vstd::utf8::encode_utf8;

verus! {

/// Two half-open line intervals in zero-based coordinates: `(start, len)` in
/// the old text and `(start, len)` in the new text.
#[derive(Clone, Copy, Debug, Eq, Hash)]
pub struct DiffRange {
    pub before: (usize, usize),
    pub after: (usize, usize),
}

impl PartialEq for DiffRange {
    fn eq(&self, o: &DiffRange) -> (r: bool)
        ensures
            r == (*self == *o),
    {
        self.before.0 == o.before.0 && self.before.1 == o.before.1 && self.after.0 == o.after.0
            && self.after.1 == o.after.1
    }
}

impl vstd::std_specs::cmp::PartialEqSpecImpl for DiffRange {
    open spec fn obeys_eq_spec() -> bool {
        true
    }

    open spec fn eq_spec(&self, o: &DiffRange) -> bool {
        *self == *o
    }
}

/// One difflib opcode: `tag` is `equal`, `replace`, `delete` or `insert`, and
/// the two intervals are `first_start..first_end` of the old lines and
/// `second_start..second_end` of the new lines.
#[derive(Clone, Debug)]
pub struct Opcode {
    pub tag: String,
    pub first_start: usize,
    pub first_end: usize,
    pub second_start: usize,
    pub second_end: usize,
}

/// What an [`Opcode`] holds, as mathematical values.
pub struct OpView {
    pub tag: Seq<char>,
    pub first_start: int,
    pub first_end: int,
    pub second_start: int,
    pub second_end: int,
}

impl DeepView for Opcode {
    type V = OpView;

    open spec fn deep_view(&self) -> OpView {
        OpView {
            tag: self.tag@,
            first_start: self.first_start as int,
            first_end: self.first_end as int,
            second_start: self.second_start as int,
            second_end: self.second_end as int,
        }
    }
}

/// The lines of a text, each as its characters.
pub open spec fn lines_view(v: Seq<String>) -> Seq<Seq<char>> {
    v.map_values(|s: String| s@)
}

pub open spec fn is_equal_tag(t: Seq<char>) -> bool {
    t == "equal"@
}

pub open spec fn is_replace_tag(t: Seq<char>) -> bool {
    t == "replace"@
}

pub open spec fn is_delete_tag(t: Seq<char>) -> bool {
    t == "delete"@
}

pub open spec fn is_insert_tag(t: Seq<char>) -> bool {
    t == "insert"@
}

/// An opcode lies inside both texts, and its tag agrees with its intervals:
/// equal runs hold the same lines on both sides.
pub open spec fn op_fits(o: OpView, b: Seq<Seq<char>>, a: Seq<Seq<char>>) -> bool {
    &&& 0 <= o.first_start <= o.first_end <= b.len()
    &&& 0 <= o.second_start <= o.second_end <= a.len()
    &&& {
        ||| is_equal_tag(o.tag) && b.subrange(o.first_start, o.first_end) == a.subrange(
            o.second_start,
            o.second_end,
        )
        ||| is_replace_tag(o.tag) && o.first_start < o.first_end && o.second_start < o.second_end
        ||| is_delete_tag(o.tag) && o.first_start < o.first_end && o.second_start == o.second_end
        ||| is_insert_tag(o.tag) && o.first_start == o.first_end && o.second_start < o.second_end
    }
}

/// A group is a non-empty run of fitting opcodes, each starting where the
/// previous one ended on both sides.
pub open spec fn group_fits(g: Seq<OpView>, b: Seq<Seq<char>>, a: Seq<Seq<char>>) -> bool {
    &&& g.len() > 0
    &&& forall|i: int| 0 <= i < g.len() ==> op_fits(#[trigger] g[i], b, a)
    &&& forall|i: int| 0 < i < g.len() ==> #[trigger] chained(g, i)
}

/// Opcode `i` starts where opcode `i - 1` ends, on both sides.
pub open spec fn chained(g: Seq<OpView>, i: int) -> bool {
    g[i].first_start == g[i - 1].first_end && g[i].second_start == g[i - 1].second_end
}

/// The old text between the end of one group and the start of the next
/// (at the two ends: before the first group, after the last) equals the new
/// text between the same group boundaries.
#[verifier::opaque]
pub open spec fn groups_align(gs: Seq<Seq<OpView>>, b: Seq<Seq<char>>, a: Seq<Seq<char>>) -> bool {
    &&& forall|k: int| 0 <= k < gs.len() ==> group_fits(#[trigger] gs[k], b, a)
    &&& gs.len() == 0 ==> b == a
    &&& gs.len() > 0 ==> b.subrange(0, gs[0][0].first_start) == a.subrange(
        0,
        gs[0][0].second_start,
    )
    &&& gs.len() > 0 ==> b.subrange(gs.last().last().first_end, b.len() as int) == a.subrange(
        gs.last().last().second_end,
        a.len() as int,
    )
    &&& forall|k: int|
        0 < k < gs.len() ==> {
            let prev = #[trigger] gs[k - 1].last();
            let next = gs[k][0];
            &&& prev.first_end <= next.first_start
            &&& prev.second_end <= next.second_start
            &&& b.subrange(prev.first_end, next.first_start) == a.subrange(
                prev.second_end,
                next.second_start,
            )
        }
}

/// Between two hunks lies at least one old line: a hunk is split off only at
/// an equal run longer than twice the context.
pub open spec fn hunks_apart(gs: Seq<Seq<OpView>>) -> bool {
    forall|k: int| 0 < k < gs.len() ==> (#[trigger] gs[k - 1].last()).first_end < gs[k][0].first_start
}

/// The hunks that difflib's `get_grouped_opcodes(n)` yields for two line
/// sequences.
pub uninterp spec fn grouped_opcodes_of(b: Seq<Seq<char>>, a: Seq<Seq<char>>, n: nat) -> Seq<
    Seq<OpView>,
>;

/// Relies on difflib's `SequenceMatcher::get_grouped_opcodes`: the matching
/// blocks that it is built on hold equal lines and come in order, the opcodes
/// cover both sequences without gaps (equal sequences give one equal opcode,
/// or none, and then no hunk), and grouping trims equal runs to `n` lines of
/// context and splits at runs longer than `2 n`, leaving old lines between
/// hunks. Its additions
/// `start + n` and `n + n` must not overflow.
#[verifier::external_body]
fn grouped_opcodes(before: &[String], after: &[String], unified: usize) -> (r: Vec<Vec<Opcode>>)
    requires
        before@.len() + 2 * unified <= usize::MAX,
        after@.len() + 2 * unified <= usize::MAX,
    ensures
        r.deep_view() == grouped_opcodes_of(lines_view(before@), lines_view(after@), unified as nat),
        groups_align(r.deep_view(), lines_view(before@), lines_view(after@)),
        hunks_apart(r.deep_view()),
        lines_view(before@) == lines_view(after@) ==> r.deep_view().len() == 0,
{
    let mut matcher = SequenceMatcher::new(before, after);
    matcher.get_grouped_opcodes(unified).into_iter().map(
        |group| group.into_iter().map(
            |o| Opcode {
                tag: o.tag,
                first_start: o.first_start,
                first_end: o.first_end,
                second_start: o.second_start,
                second_end: o.second_end,
            },
        ).collect(),
    ).collect()
}

/// The range that a non-empty group of opcodes spans on each side.
pub open spec fn range_of(g: Seq<OpView>) -> DiffRange {
    DiffRange {
        before: (g[0].first_start as usize, (g.last().first_end - g[0].first_start) as usize),
        after: (g[0].second_start as usize, (g.last().second_end - g[0].second_start) as usize),
    }
}

pub open spec fn ranges_of(gs: Seq<Seq<OpView>>) -> Seq<DiffRange> {
    gs.map_values(|g: Seq<OpView>| range_of(g))
}

/// The hunks of `before` against `after` with `unified` lines of context.
pub open spec fn hunks(before: Seq<String>, after: Seq<String>, unified: usize) -> Seq<Seq<OpView>> {
    grouped_opcodes_of(lines_view(before), lines_view(after), unified as nat)
}

/// The machine limit under which the diff of two texts can be computed.
pub open spec fn diff_fits(before: Seq<String>, after: Seq<String>, unified: usize) -> bool {
    before.len() + 2 * unified <= usize::MAX && after.len() + 2 * unified <= usize::MAX
}

impl DiffRange {
    /// The range spanned by `ops`, or `None` when there are no opcodes.
    pub fn new(ops: &[Opcode]) -> (r: Option<Self>)
        requires
            ops@.len() > 0 ==> ops@[0].first_start <= ops@.last().first_end
                && ops@[0].second_start <= ops@.last().second_end,
        ensures
            ops@.len() == 0 <==> r.is_none(),
            ops@.len() > 0 ==> r == Some(range_of(ops.deep_view())),
    {
        if ops.len() == 0 {
            None
        } else {
            let first = &ops[0];
            let last = &ops[ops.len() - 1];
            Some(
                DiffRange {
                    before: (first.first_start, last.first_end - first.first_start),
                    after: (first.second_start, last.second_end - first.second_start),
                },
            )
        }
    }
}

/// The range of one group of an alignment.
fn group_range(group: &Vec<Opcode>, Ghost(b): Ghost<Seq<Seq<char>>>, Ghost(a): Ghost<Seq<Seq<char>>>) -> (r: DiffRange)
    requires
        group_fits(group.deep_view(), b, a),
    ensures
        r == range_of(group.deep_view()),
{
    let g = Ghost(group.deep_view());
    proof {
        group_monotone(g@, b, a, 0, g@.len() - 1);
    }
    DiffRange::new(group.as_slice()).unwrap()
}

/// Opcode boundaries of a group only move forward.
proof fn group_monotone(g: Seq<OpView>, b: Seq<Seq<char>>, a: Seq<Seq<char>>, i: int, j: int)
    requires
        group_fits(g, b, a),
        0 <= i <= j < g.len(),
    ensures
        g[i].first_start <= g[j].first_end,
        g[i].second_start <= g[j].second_end,
        g[i].first_start <= g[j].first_start,
        g[i].second_start <= g[j].second_start,
    decreases j - i,
{
    assert(op_fits(g[j], b, a));
    if i < j {
        assert(chained(g, j));
        group_monotone(g, b, a, i, j - 1);
        assert(op_fits(g[j - 1], b, a));
    }
}

/// The range of every hunk of `before` against `after`, in order.
pub fn pure_diffs(unified: usize, before: &[String], after: &[String]) -> (r: Vec<DiffRange>)
    requires
        diff_fits(before@, after@, unified),
    ensures
        r@ == ranges_of(hunks(before@, after@, unified)),
        groups_align(hunks(before@, after@, unified), lines_view(before@), lines_view(after@)),
        hunks_apart(hunks(before@, after@, unified)),
        ranges_ordered(r@, before@.len() as int, after@.len() as int),
        r@.len() == 0 <==> lines_view(before@) == lines_view(after@),
{
    let groups = grouped_opcodes(before, after, unified);
    let ghost gs = groups.deep_view();
    let ghost b = lines_view(before@);
    let ghost a = lines_view(after@);
    let mut ret: Vec<DiffRange> = Vec::new();
    let mut k: usize = 0;
    while k < groups.len()
        invariant
            0 <= k <= groups@.len(),
            gs == groups.deep_view(),
            groups_align(gs, b, a),
            ret@ == ranges_of(gs).subrange(0, k as int),
        decreases groups@.len() - k,
    {
        assert(gs[k as int] == groups@[k as int].deep_view());
        assert(group_fits(gs[k as int], b, a)) by {
            reveal(groups_align);
        }
        let range = group_range(&groups[k], Ghost(b), Ghost(a));
        ret.push(range);
        k = k + 1;
        assert(ret@ =~= ranges_of(gs).subrange(0, k as int));
    }
    assert(ret@ =~= ranges_of(gs));
    proof {
        lemma_ranges_ordered(gs, b, a);
        if gs.len() == 0 {
            reveal(groups_align);
        }
    }
    ret
}

/// A hunk as a patch: its range and the lines that replace the old lines of
/// that range when the hunk is accepted (context copied from the old text,
/// inserted and replacing lines from the new one).
pub struct Patch<'a> {
    pub range: DiffRange,
    pub new_lines: Vec<&'a str>,
}

pub struct PatchView {
    pub range: DiffRange,
    pub new_lines: Seq<Seq<char>>,
}

impl<'a> View for Patch<'a> {
    type V = PatchView;

    open spec fn view(&self) -> PatchView {
        PatchView { range: self.range, new_lines: strs_view(self.new_lines@) }
    }
}

pub open spec fn strs_view(v: Seq<&str>) -> Seq<Seq<char>> {
    v.map_values(|s: &str| s@)
}

pub open spec fn patch_views(ps: Seq<Patch>) -> Seq<PatchView> {
    ps.map_values(|p: Patch| p@)
}

/// The lines that one opcode contributes to its hunk's patch.
pub open spec fn op_new_lines(o: OpView, b: Seq<Seq<char>>, a: Seq<Seq<char>>) -> Seq<Seq<char>> {
    if is_equal_tag(o.tag) {
        b.subrange(o.first_start, o.first_end)
    } else if is_replace_tag(o.tag) || is_insert_tag(o.tag) {
        a.subrange(o.second_start, o.second_end)
    } else {
        Seq::empty()
    }
}

pub open spec fn group_new_lines(g: Seq<OpView>, b: Seq<Seq<char>>, a: Seq<Seq<char>>) -> Seq<Seq<char>>
    decreases g.len(),
{
    if g.len() == 0 {
        Seq::empty()
    } else {
        group_new_lines(g.drop_last(), b, a) + op_new_lines(g.last(), b, a)
    }
}

pub open spec fn patches_of(gs: Seq<Seq<OpView>>, b: Seq<Seq<char>>, a: Seq<Seq<char>>) -> Seq<PatchView> {
    gs.map_values(|g: Seq<OpView>| PatchView { range: range_of(g), new_lines: group_new_lines(g, b, a) })
}

pub open spec fn patch_end(p: PatchView) -> int {
    p.range.before.0 + p.range.before.1
}

/// Where the old text resumes after the first `k` patches.
pub open spec fn resume_at(ps: Seq<PatchView>, k: int) -> int {
    if k <= 0 {
        0
    } else {
        patch_end(ps[k - 1])
    }
}

/// Patches in order, none overlapping the one before, all inside `n` lines.
pub open spec fn patches_fit(ps: Seq<PatchView>, n: int) -> bool {
    forall|i: int|
        0 <= i < ps.len() ==> resume_at(ps, i) <= (#[trigger] ps[i]).range.before.0 && patch_end(
            ps[i],
        ) <= n
}

/// The lines produced by the first `k` patches: each one preceded by the old
/// lines since the previous patch, and replaced by its new lines where its
/// range is selected.
pub open spec fn applied_prefix(ps: Seq<PatchView>, sel: Seq<DiffRange>, b: Seq<Seq<char>>, k: int) -> Seq<Seq<char>>
    decreases k,
{
    if k <= 0 {
        Seq::empty()
    } else {
        let p = ps[k - 1];
        applied_prefix(ps, sel, b, k - 1) + b.subrange(resume_at(ps, k - 1), p.range.before.0 as int) + if sel.contains(p.range) {
            p.new_lines
        } else {
            b.subrange(p.range.before.0 as int, patch_end(p))
        }
    }
}

/// The old lines with the selected patches applied.
pub open spec fn applied(ps: Seq<PatchView>, sel: Seq<DiffRange>, b: Seq<Seq<char>>) -> Seq<Seq<char>> {
    applied_prefix(ps, sel, b, ps.len() as int) + b.subrange(resume_at(ps, ps.len() as int), b.len() as int)
}

proof fn group_fits_drop_last(g: Seq<OpView>, b: Seq<Seq<char>>, a: Seq<Seq<char>>)
    requires
        group_fits(g, b, a),
        g.len() > 1,
    ensures
        group_fits(g.drop_last(), b, a),
{
    let h = g.drop_last();
    assert forall|i: int| 0 <= i < h.len() implies op_fits(#[trigger] h[i], b, a) by {
        assert(h[i] == g[i]);
    }
    assert forall|i: int| 0 < i < h.len() implies #[trigger] chained(h, i) by {
        assert(chained(g, i));
        assert(h[i] == g[i]);
        assert(h[i - 1] == g[i - 1]);
    }
}

/// The four opcode tags are different words.
pub proof fn lemma_tags_distinct()
    ensures
        "equal"@ != "replace"@,
        "equal"@ != "delete"@,
        "equal"@ != "insert"@,
        "replace"@ != "delete"@,
        "replace"@ != "insert"@,
        "delete"@ != "insert"@,
        "equal"@.len() > 0,
        "replace"@.len() > 0,
        "delete"@.len() > 0,
        "insert"@.len() > 0,
{
    reveal_strlit("equal");
    reveal_strlit("replace");
    reveal_strlit("delete");
    reveal_strlit("insert");
    assert("equal"@[0] != "replace"@[0]);
    assert("equal"@[0] != "delete"@[0]);
    assert("equal"@[0] != "insert"@[0]);
    assert("replace"@[0] != "delete"@[0]);
    assert("replace"@[0] != "insert"@[0]);
    assert("delete"@[0] != "insert"@[0]);
}

/// The new lines of a fitting group are the new text over the group's span.
proof fn lemma_group_new_lines(g: Seq<OpView>, b: Seq<Seq<char>>, a: Seq<Seq<char>>)
    requires
        group_fits(g, b, a),
    ensures
        group_new_lines(g, b, a) == a.subrange(g[0].second_start, g.last().second_end),
    decreases g.len(),
{
    let o = g.last();
    assert(op_fits(g[g.len() - 1], b, a));
    lemma_tags_distinct();
    assert(op_new_lines(o, b, a) =~= a.subrange(o.second_start, o.second_end));
    if g.len() == 1 {
        assert(group_new_lines(g.drop_last(), b, a) == Seq::<Seq<char>>::empty());
        assert(g[0] == o);
        assert(group_new_lines(g, b, a) =~= a.subrange(g[0].second_start, g.last().second_end));
    } else {
        group_fits_drop_last(g, b, a);
        lemma_group_new_lines(g.drop_last(), b, a);
        let h = g.drop_last();
        assert(h[0] == g[0]);
        assert(h.last() == g[g.len() - 2]);
        assert(chained(g, g.len() - 1));
        group_monotone(g, b, a, 0, g.len() - 2);
        assert(group_new_lines(g, b, a) =~= a.subrange(g[0].second_start, g.last().second_end));
    }
}

/// The spans of a fitting group, as its range records them.
proof fn lemma_range_of_group(g: Seq<OpView>, b: Seq<Seq<char>>, a: Seq<Seq<char>>)
    requires
        group_fits(g, b, a),
        b.len() <= usize::MAX,
        a.len() <= usize::MAX,
    ensures
        range_of(g).before.0 == g[0].first_start,
        range_of(g).before.0 + range_of(g).before.1 == g.last().first_end,
        range_of(g).after.0 == g[0].second_start,
        range_of(g).after.0 + range_of(g).after.1 == g.last().second_end,
{
    group_monotone(g, b, a, 0, g.len() - 1);
    assert(op_fits(g[0], b, a));
    assert(op_fits(g[g.len() - 1], b, a));
}

/// The patches of an alignment are in order and inside the old text.
pub proof fn lemma_patches_fit(gs: Seq<Seq<OpView>>, b: Seq<Seq<char>>, a: Seq<Seq<char>>)
    requires
        groups_align(gs, b, a),
        b.len() <= usize::MAX,
        a.len() <= usize::MAX,
    ensures
        patches_fit(patches_of(gs, b, a), b.len() as int),
{
    reveal(groups_align);
    let ps = patches_of(gs, b, a);
    assert forall|i: int| 0 <= i < ps.len() implies resume_at(ps, i) <= (#[trigger] ps[i]).range.before.0
        && patch_end(ps[i]) <= b.len() by {
        assert(group_fits(gs[i], b, a));
        lemma_range_of_group(gs[i], b, a);
        assert(op_fits(gs[i][gs[i].len() - 1], b, a));
        if i > 0 {
            assert(group_fits(gs[i - 1], b, a));
            lemma_range_of_group(gs[i - 1], b, a);
        }
    }
}

/// Applying every hunk of an alignment of `before` with `after` to `before`
/// gives `after`: the round trip of `patches`, `pure_diffs` and
/// `apply_patches` on the hunks that difflib yields.
pub proof fn lemma_apply_all_patches(gs: Seq<Seq<OpView>>, b: Seq<Seq<char>>, a: Seq<Seq<char>>)
    requires
        groups_align(gs, b, a),
        b.len() <= usize::MAX,
        a.len() <= usize::MAX,
    ensures
        applied(patches_of(gs, b, a), ranges_of(gs), b) == a,
{
    let ps = patches_of(gs, b, a);
    let sel = ranges_of(gs);
    let n = gs.len() as int;
    lemma_apply_all_prefix(gs, b, a, n);
    reveal(groups_align);
    if n == 0 {
        assert(b.subrange(0, b.len() as int) =~= b);
        assert(a.subrange(0, 0) =~= Seq::<Seq<char>>::empty());
        assert(applied(ps, sel, b) =~= a);
    } else {
        let g = gs[n - 1];
        assert(group_fits(g, b, a));
        lemma_range_of_group(g, b, a);
        assert(op_fits(g[g.len() - 1], b, a));
        assert(applied(ps, sel, b) =~= a.subrange(0, g.last().second_end) + a.subrange(
            g.last().second_end,
            a.len() as int,
        ));
        assert(applied(ps, sel, b) =~= a);
    }
}

/// What an alignment says of hunk `k - 1` and of the old and new text just
/// before it.
proof fn lemma_align_step(gs: Seq<Seq<OpView>>, b: Seq<Seq<char>>, a: Seq<Seq<char>>, k: int)
    requires
        groups_align(gs, b, a),
        0 < k <= gs.len(),
    ensures
        group_fits(gs[k - 1], b, a),
        k == 1 ==> b.subrange(0, gs[0][0].first_start) == a.subrange(0, gs[0][0].second_start),
        k > 1 ==> group_fits(gs[k - 2], b, a),
        k > 1 ==> gs[k - 2].last().first_end <= gs[k - 1][0].first_start,
        k > 1 ==> gs[k - 2].last().second_end <= gs[k - 1][0].second_start,
        k > 1 ==> b.subrange(gs[k - 2].last().first_end, gs[k - 1][0].first_start) == a.subrange(
            gs[k - 2].last().second_end,
            gs[k - 1][0].second_start,
        ),
{
    reveal(groups_align);
    if k > 1 {
        assert(gs[k - 1 - 1].last() == gs[k - 2].last());
    }
}

/// The first `k` hunks, all selected, rebuild the new text up to the end of
/// hunk `k - 1`.
#[verifier::rlimit(40)]
proof fn lemma_apply_all_prefix(gs: Seq<Seq<OpView>>, b: Seq<Seq<char>>, a: Seq<Seq<char>>, k: int)
    requires
        groups_align(gs, b, a),
        b.len() <= usize::MAX,
        a.len() <= usize::MAX,
        0 <= k <= gs.len(),
    ensures
        k == 0 ==> applied_prefix(patches_of(gs, b, a), ranges_of(gs), b, k) == Seq::<Seq<char>>::empty(),
        k > 0 ==> applied_prefix(patches_of(gs, b, a), ranges_of(gs), b, k) == a.subrange(
            0,
            gs[k - 1].last().second_end,
        ),
        k > 0 ==> resume_at(patches_of(gs, b, a), k) == gs[k - 1].last().first_end,
    decreases k,
{
    let ps = patches_of(gs, b, a);
    let sel = ranges_of(gs);
    if k > 0 {
        lemma_apply_all_prefix(gs, b, a, k - 1);
        lemma_align_step(gs, b, a, k);
        let g = gs[k - 1];
        lemma_range_of_group(g, b, a);
        lemma_group_new_lines(g, b, a);
        group_monotone(g, b, a, 0, g.len() - 1);
        assert(op_fits(g[0], b, a));
        assert(op_fits(g[g.len() - 1], b, a));
        let p = ps[k - 1];
        assert(p.range == range_of(g));
        assert(p.new_lines == group_new_lines(g, b, a));
        assert(sel[k - 1] == p.range);
        assert(sel.contains(p.range));
        let s = g[0].first_start;
        let t = g[0].second_start;
        let e = g.last().second_end;
        let resume = if k == 1 { 0int } else { gs[k - 2].last().first_end };
        let resume_a = if k == 1 { 0int } else { gs[k - 2].last().second_end };
        if k > 1 {
            let h = gs[k - 2];
            assert(op_fits(h[h.len() - 1], b, a));
        }
        assert(resume_at(ps, k - 1) == resume);
        assert(b.subrange(resume, s) == a.subrange(resume_a, t));
        let pre = applied_prefix(ps, sel, b, k - 1);
        assert(pre == a.subrange(0, resume_a));
        assert(applied_prefix(ps, sel, b, k) == pre + b.subrange(resume, s) + p.new_lines);
        assert(a.subrange(0, resume_a) + a.subrange(resume_a, t) + a.subrange(t, e) =~= a.subrange(0, e));
    }
}

/// With no hunk selected, applying patches that fit gives back the old text.
pub proof fn lemma_apply_no_patches(ps: Seq<PatchView>, b: Seq<Seq<char>>)
    requires
        patches_fit(ps, b.len() as int),
    ensures
        applied(ps, Seq::empty(), b) == b,
{
    lemma_apply_none_prefix(ps, b, ps.len() as int);
    assert(applied(ps, Seq::empty(), b) =~= b);
}

proof fn lemma_apply_none_prefix(ps: Seq<PatchView>, b: Seq<Seq<char>>, k: int)
    requires
        patches_fit(ps, b.len() as int),
        0 <= k <= ps.len(),
    ensures
        applied_prefix(ps, Seq::empty(), b, k) == b.subrange(0, resume_at(ps, k)),
        0 <= resume_at(ps, k) <= b.len(),
    decreases k,
{
    if k > 0 {
        lemma_apply_none_prefix(ps, b, k - 1);
        assert(resume_at(ps, k - 1) <= ps[k - 1].range.before.0);
        assert(applied_prefix(ps, Seq::empty(), b, k) =~= b.subrange(0, resume_at(ps, k)));
    }
}

#[derive(PartialEq, Eq, Structural)]
enum OpKind {
    Equal,
    Replace,
    Delete,
    Insert,
}

/// Tells the four tags apart by their first letter.
fn op_kind(tag: &String) -> (r: OpKind)
    requires
        is_equal_tag(tag@) || is_replace_tag(tag@) || is_delete_tag(tag@) || is_insert_tag(tag@),
    ensures
        (r == OpKind::Equal) == is_equal_tag(tag@),
        (r == OpKind::Replace) == is_replace_tag(tag@),
        (r == OpKind::Delete) == is_delete_tag(tag@),
        (r == OpKind::Insert) == is_insert_tag(tag@),
{
    proof {
        lemma_tags_distinct();
        reveal_strlit("equal");
        reveal_strlit("replace");
        reveal_strlit("delete");
        reveal_strlit("insert");
    }
    let c = tag.as_str().get_char(0);
    if c == 'e' {
        OpKind::Equal
    } else if c == 'r' {
        OpKind::Replace
    } else if c == 'd' {
        OpKind::Delete
    } else {
        OpKind::Insert
    }
}

/// Appends `lines[lo..hi]` to `out`, as borrowed lines.
fn push_lines<'a>(out: &mut Vec<&'a str>, lines: &'a [String], lo: usize, hi: usize)
    requires
        lo <= hi <= lines@.len(),
    ensures
        strs_view(final(out)@) == strs_view(old(out)@) + lines_view(lines@).subrange(lo as int, hi as int),
{
    let ghost init = strs_view(out@);
    let mut i = lo;
    while i < hi
        invariant
            lo <= i <= hi <= lines@.len(),
            init == strs_view(old(out)@),
            strs_view(out@) == init + lines_view(lines@).subrange(lo as int, i as int),
        decreases hi - i,
    {
        let line = lines[i].as_str();
        assert(line@ == lines_view(lines@)[i as int]);
        let ghost before_push = out@;
        out.push(line);
        assert(out@ == before_push.push(line));
        assert(strs_view(out@).len() == before_push.len() + 1);
        assert(strs_view(out@)[before_push.len() as int] == line@);
        assert(strs_view(out@) =~= strs_view(before_push).push(line@));
        i = i + 1;
        assert(strs_view(out@) =~= init + lines_view(lines@).subrange(lo as int, i as int));
    }
}

/// The patch of each hunk of `before` against `after`, in order.
pub fn patches<'a>(unified: usize, before: &'a [String], after: &'a [String]) -> (r: Vec<Patch<'a>>)
    requires
        diff_fits(before@, after@, unified),
    ensures
        patch_views(r@) == patches_of(hunks(before@, after@, unified), lines_view(before@), lines_view(after@)),
        patches_fit(patch_views(r@), before@.len() as int),
        patches_match(patch_views(r@), lines_view(after@)),
        forall|k: int| 0 <= k < r@.len() ==> #[trigger] range_unique(patch_views(r@), k),
        ranges_ordered(ranges_of(hunks(before@, after@, unified)), before@.len() as int, after@.len() as int),
        groups_align(hunks(before@, after@, unified), lines_view(before@), lines_view(after@)),
        hunks_apart(hunks(before@, after@, unified)),
        applied(patch_views(r@), ranges_of(hunks(before@, after@, unified)), lines_view(before@))
            == lines_view(after@),
{
    let groups = grouped_opcodes(before, after, unified);
    let ghost gs = groups.deep_view();
    let ghost b = lines_view(before@);
    let ghost a = lines_view(after@);
    let mut ret: Vec<Patch<'a>> = Vec::new();
    let mut k: usize = 0;
    while k < groups.len()
        invariant
            0 <= k <= groups@.len(),
            gs == groups.deep_view(),
            groups_align(gs, b, a),
            b == lines_view(before@),
            a == lines_view(after@),
            patch_views(ret@) == patches_of(gs, b, a).subrange(0, k as int),
        decreases groups@.len() - k,
    {
        let group = &groups[k];
        let ghost g = gs[k as int];
        assert(g == group.deep_view());
        assert(group_fits(g, b, a)) by {
            reveal(groups_align);
        }
        let mut new_lines: Vec<&'a str> = Vec::new();
        let mut j: usize = 0;
        while j < group.len()
            invariant
                0 <= j <= group@.len(),
                g == group.deep_view(),
                group_fits(g, b, a),
                b == lines_view(before@),
                a == lines_view(after@),
                strs_view(new_lines@) == group_new_lines(g.subrange(0, j as int), b, a),
            decreases group@.len() - j,
        {
            let code = &group[j];
            assert(g[j as int] == code.deep_view());
            assert(op_fits(g[j as int], b, a));
            let kind = op_kind(&code.tag);
            if kind == OpKind::Equal {
                push_lines(&mut new_lines, before, code.first_start, code.first_end);
            } else if kind == OpKind::Replace || kind == OpKind::Insert {
                push_lines(&mut new_lines, after, code.second_start, code.second_end);
            }
            assert(g.subrange(0, j + 1).drop_last() =~= g.subrange(0, j as int));
            j = j + 1;
            assert(strs_view(new_lines@) =~= group_new_lines(g.subrange(0, j as int), b, a));
        }
        assert(g.len() == group@.len());
        assert(g.subrange(0, j as int) =~= g);
        let range = group_range(group, Ghost(b), Ghost(a));
        let patch = Patch { range, new_lines };
        assert(patch@ == patches_of(gs, b, a)[k as int]);
        let ghost before_push = ret@;
        ret.push(patch);
        assert(ret@ == before_push.push(patch));
        assert(patch_views(ret@) =~= patch_views(before_push).push(patch@));
        k = k + 1;
        assert(patch_views(ret@) =~= patches_of(gs, b, a).subrange(0, k as int));
    }
    assert(patch_views(ret@) =~= patches_of(gs, b, a));
    proof {
        lemma_patches_fit(gs, b, a);
        lemma_patches_match(gs, b, a);
        lemma_ranges_ordered(gs, b, a);
        lemma_apply_all_patches(gs, b, a);
        let ps = patch_views(ret@);
        let rs = ranges_of(gs);
        assert forall|k: int| 0 <= k < ret@.len() implies #[trigger] range_unique(ps, k) by {
            assert forall|j: int| 0 <= j < ps.len() && j != k implies (#[trigger] ps[j]).range != ps[k].range by {
                assert(ps[j].range == rs[j] && ps[k].range == rs[k]);
                if j < k {
                    lemma_ranges_distinct(rs, b.len() as int, a.len() as int, j, k);
                } else {
                    lemma_ranges_distinct(rs, b.len() as int, a.len() as int, k, j);
                }
            }
        }
    }
    ret
}

/// Whether `r` is among `ranges`.
fn contains_range(ranges: &[DiffRange], r: &DiffRange) -> (found: bool)
    ensures
        found == ranges@.contains(*r),
{
    let mut i: usize = 0;
    while i < ranges.len()
        invariant
            0 <= i <= ranges@.len(),
            forall|j: int| 0 <= j < i ==> ranges@[j] != *r,
        decreases ranges@.len() - i,
    {
        if ranges[i] == *r {
            assert(ranges@[i as int] == *r);
            return true;
        }
        i = i + 1;
    }
    false
}

/// The old lines with the patches whose range is in `ranges` applied, the
/// others left as they were.
pub fn apply_patches<'a>(patches: Vec<Patch<'a>>, ranges: &[DiffRange], before: &'a [String]) -> (r: Vec<&'a str>)
    requires
        patches_fit(patch_views(patches@), before@.len() as int),
    ensures
        strs_view(r@) == applied(patch_views(patches@), ranges@, lines_view(before@)),
{
    let ghost ps = patch_views(patches@);
    let ghost b = lines_view(before@);
    let n = before.len();
    let mut ret: Vec<&'a str> = Vec::new();
    let mut prev: usize = 0;
    let mut k: usize = 0;
    while k < patches.len()
        invariant
            0 <= k <= patches@.len(),
            ps == patch_views(patches@),
            b == lines_view(before@),
            patches_fit(ps, before@.len() as int),
            prev == resume_at(ps, k as int),
            prev <= before@.len(),
            n == before@.len(),
            strs_view(ret@) == applied_prefix(ps, ranges@, b, k as int),
        decreases patches@.len() - k,
    {
        let patch = &patches[k];
        assert(ps[k as int] == patch@);
        assert(ps[k as int].range == patch.range);
        assert(resume_at(ps, k as int) <= ps[k as int].range.before.0 && patch_end(ps[k as int]) <= before@.len());
        let start = patch.range.before.0;
        let end = patch.range.before.0 + patch.range.before.1;
        push_lines(&mut ret, before, prev, start);
        if contains_range(ranges, &patch.range) {
            let mut i: usize = 0;
            while i < patch.new_lines.len()
                invariant
                    0 <= i <= patch.new_lines@.len(),
                    prev <= start <= before@.len(),
                    strs_view(ret@) == applied_prefix(ps, ranges@, b, k as int) + b.subrange(prev as int, start as int)
                        + strs_view(patch.new_lines@).subrange(0, i as int),
                decreases patch.new_lines@.len() - i,
            {
                let line = patch.new_lines[i];
                let ghost before_push = ret@;
                ret.push(line);
                assert(ret@ == before_push.push(line));
                assert(strs_view(ret@) =~= strs_view(before_push).push(line@));
                assert(line@ == strs_view(patch.new_lines@)[i as int]);
                i = i + 1;
                assert(strs_view(ret@) =~= applied_prefix(ps, ranges@, b, k as int) + b.subrange(prev as int, start as int)
                    + strs_view(patch.new_lines@).subrange(0, i as int));
            }
            assert(strs_view(patch.new_lines@).subrange(0, i as int) =~= patch@.new_lines);
        } else {
            push_lines(&mut ret, before, start, end);
        }
        prev = end;
        k = k + 1;
        assert(strs_view(ret@) =~= applied_prefix(ps, ranges@, b, k as int));
    }
    push_lines(&mut ret, before, prev, n);
    ret
}

/// Each line preceded by `mark`, as bytes.
pub open spec fn marked(lines: Seq<Seq<char>>, mark: u8) -> Seq<u8>
    decreases lines.len(),
{
    if lines.len() == 0 {
        Seq::empty()
    } else {
        marked(lines.drop_last(), mark) + seq![mark] + encode_utf8(lines.last())
    }
}

/// How one opcode reads in a unified diff: context lines after a space,
/// removed lines after `-`, added lines after `+`.
pub open spec fn op_text(o: OpView, b: Seq<Seq<char>>, a: Seq<Seq<char>>) -> Seq<u8> {
    let old = b.subrange(o.first_start, o.first_end);
    let new = a.subrange(o.second_start, o.second_end);
    if is_equal_tag(o.tag) {
        marked(old, 32u8)
    } else {
        (if is_replace_tag(o.tag) || is_delete_tag(o.tag) {
            marked(old, 45u8)
        } else {
            Seq::empty()
        }) + (if is_replace_tag(o.tag) || is_insert_tag(o.tag) {
            marked(new, 43u8)
        } else {
            Seq::empty()
        })
    }
}

pub open spec fn group_text(g: Seq<OpView>, b: Seq<Seq<char>>, a: Seq<Seq<char>>) -> Seq<u8>
    decreases g.len(),
{
    if g.len() == 0 {
        Seq::empty()
    } else {
        group_text(g.drop_last(), b, a) + op_text(g.last(), b, a)
    }
}

/// A hunk: its range line, then its lines.
pub open spec fn hunk_text(g: Seq<OpView>, b: Seq<Seq<char>>, a: Seq<Seq<char>>) -> Seq<u8> {
    range_text(range_of(g)) + seq![10u8] + group_text(g, b, a)
}

/// The hunks whose range is selected (all of them without a selection).
pub open spec fn hunks_text(gs: Seq<Seq<OpView>>, sel: Option<Seq<DiffRange>>, b: Seq<Seq<char>>, a: Seq<Seq<char>>) -> Seq<u8>
    decreases gs.len(),
{
    if gs.len() == 0 {
        Seq::empty()
    } else {
        hunks_text(gs.drop_last(), sel, b, a) + if sel.is_none() || sel.unwrap().contains(
            range_of(gs.last()),
        ) {
            hunk_text(gs.last(), b, a)
        } else {
            Seq::empty()
        }
    }
}

/// `diff --git {name} {name}`, `--- {name}`, `+++ {name}`, one line each.
pub open spec fn diff_header(name: Seq<u8>) -> Seq<u8> {
    encode_utf8("diff --git "@) + name + encode_utf8(" "@) + name + encode_utf8("\n"@) + encode_utf8(
        "--- "@,
    ) + name + encode_utf8("\n"@) + encode_utf8("+++ "@) + name + encode_utf8("\n"@)
}

pub open spec fn selection(ranges: Option<&[DiffRange]>) -> Option<Seq<DiffRange>> {
    match ranges {
        None => None,
        Some(rs) => Some(rs@),
    }
}

/// The unified diff of `before` against `after` under the name `name`.
pub open spec fn udiff_text(sel: Option<Seq<DiffRange>>, unified: usize, name: Seq<u8>, before: Seq<String>, after: Seq<String>) -> Seq<u8> {
    diff_header(name) + hunks_text(hunks(before, after, unified), sel, lines_view(before), lines_view(after))
}

fn put_str(out: &mut Vec<u8>, s: &str)
    ensures
        final(out)@ == old(out)@ + encode_utf8(s@),
{
    put_bytes(out, s.as_bytes());
}

/// Appends `lines[lo..hi]`, each after `mark`.
fn put_marked(out: &mut Vec<u8>, lines: &[String], lo: usize, hi: usize, mark: u8)
    requires
        lo <= hi <= lines@.len(),
    ensures
        final(out)@ == old(out)@ + marked(lines_view(lines@).subrange(lo as int, hi as int), mark),
{
    let ghost init = out@;
    let ghost v = lines_view(lines@);
    let mut i = lo;
    assert(v.subrange(lo as int, lo as int) =~= Seq::<Seq<char>>::empty());
    while i < hi
        invariant
            lo <= i <= hi <= lines@.len(),
            init == old(out)@,
            v == lines_view(lines@),
            out@ == init + marked(v.subrange(lo as int, i as int), mark),
        decreases hi - i,
    {
        out.push(mark);
        put_str(out, lines[i].as_str());
        assert(v.subrange(lo as int, i + 1).drop_last() =~= v.subrange(lo as int, i as int));
        i = i + 1;
        assert(out@ =~= init + marked(v.subrange(lo as int, i as int), mark));
    }
}

/// Appends the text of one fitting group.
fn put_group(out: &mut Vec<u8>, group: &Vec<Opcode>, before: &[String], after: &[String])
    requires
        group_fits(group.deep_view(), lines_view(before@), lines_view(after@)),
    ensures
        final(out)@ == old(out)@ + group_text(group.deep_view(), lines_view(before@), lines_view(after@)),
{
    let ghost g = group.deep_view();
    let ghost b = lines_view(before@);
    let ghost a = lines_view(after@);
    let ghost init = out@;
    let mut j: usize = 0;
    assert(g.subrange(0, 0) =~= Seq::<OpView>::empty());
    while j < group.len()
        invariant
            0 <= j <= group@.len(),
            g == group.deep_view(),
            group_fits(g, b, a),
            b == lines_view(before@),
            a == lines_view(after@),
            init == old(out)@,
            out@ == init + group_text(g.subrange(0, j as int), b, a),
        decreases group@.len() - j,
    {
        let code = &group[j];
        assert(g[j as int] == code.deep_view());
        assert(op_fits(g[j as int], b, a));
        let ghost mid = out@;
        let kind = op_kind(&code.tag);
        if kind == OpKind::Equal {
            put_marked(out, before, code.first_start, code.first_end, 32u8);
        } else {
            if kind == OpKind::Replace || kind == OpKind::Delete {
                put_marked(out, before, code.first_start, code.first_end, 45u8);
            }
            if kind == OpKind::Replace || kind == OpKind::Insert {
                put_marked(out, after, code.second_start, code.second_end, 43u8);
            }
        }
        assert(out@ =~= mid + op_text(g[j as int], b, a));
        assert(g.subrange(0, j + 1).drop_last() =~= g.subrange(0, j as int));
        j = j + 1;
        assert(out@ =~= init + group_text(g.subrange(0, j as int), b, a));
    }
    assert(g.subrange(0, j as int) =~= g);
}

/// The unified diff of `before` against `after`: a header naming `name`,
/// then every hunk, or only those whose range is in `ranges` when given.
pub fn udiff(ranges: Option<&[DiffRange]>, unified: usize, name: &[u8], before: &[String], after: &[String]) -> (r: Vec<u8>)
    requires
        diff_fits(before@, after@, unified),
    ensures
        r@ == udiff_text(selection(ranges), unified, name@, before@, after@),
        groups_align(hunks(before@, after@, unified), lines_view(before@), lines_view(after@)),
        hunks_apart(hunks(before@, after@, unified)),
{
    let mut ret: Vec<u8> = Vec::new();
    put_str(&mut ret, "diff --git ");
    put_bytes(&mut ret, name);
    put_str(&mut ret, " ");
    put_bytes(&mut ret, name);
    put_str(&mut ret, "\n");
    put_str(&mut ret, "--- ");
    put_bytes(&mut ret, name);
    put_str(&mut ret, "\n");
    put_str(&mut ret, "+++ ");
    put_bytes(&mut ret, name);
    put_str(&mut ret, "\n");
    assert(ret@ =~= diff_header(name@));
    let ghost head = ret@;
    let groups = grouped_opcodes(before, after, unified);
    let ghost gs = groups.deep_view();
    let ghost b = lines_view(before@);
    let ghost a = lines_view(after@);
    let ghost sel = selection(ranges);
    let mut k: usize = 0;
    assert(gs.subrange(0, 0) =~= Seq::<Seq<OpView>>::empty());
    while k < groups.len()
        invariant
            0 <= k <= groups@.len(),
            gs == groups.deep_view(),
            groups_align(gs, b, a),
            b == lines_view(before@),
            a == lines_view(after@),
            sel == selection(ranges),
            ret@ == head + hunks_text(gs.subrange(0, k as int), sel, b, a),
        decreases groups@.len() - k,
    {
        let group = &groups[k];
        assert(gs[k as int] == group.deep_view());
        assert(group_fits(gs[k as int], b, a)) by {
            reveal(groups_align);
        }
        let range = group_range(group, Ghost(b), Ghost(a));
        let keep = match ranges {
            None => true,
            Some(rs) => contains_range(rs, &range),
        };
        let ghost mid = ret@;
        if keep {
            put_range(&mut ret, &range);
            ret.push(10u8);
            put_group(&mut ret, group, before, after);
            assert(ret@ =~= mid + hunk_text(gs[k as int], b, a));
        }
        assert(gs.subrange(0, k + 1).drop_last() =~= gs.subrange(0, k as int));
        k = k + 1;
        assert(ret@ =~= head + hunks_text(gs.subrange(0, k as int), sel, b, a));
    }
    assert(gs.subrange(0, k as int) =~= gs);
    ret
}

pub open spec fn end_before(r: DiffRange) -> int {
    r.before.0 + r.before.1
}

pub open spec fn end_after(r: DiffRange) -> int {
    r.after.0 + r.after.1
}

/// Ranges inside texts of `nb` and `na` lines, in order, each next one
/// starting after at least one old line past the previous one, with gaps of
/// the same length on both sides.
pub open spec fn ranges_ordered(rs: Seq<DiffRange>, nb: int, na: int) -> bool {
    &&& forall|i: int| 0 <= i < rs.len() ==> end_before(#[trigger] rs[i]) <= nb && end_after(rs[i]) <= na
    &&& forall|i: int|
        0 <= i < rs.len() - 1 ==> end_before(#[trigger] rs[i]) < rs[i + 1].before.0 && rs[i + 1].before.0
            - end_before(rs[i]) == rs[i + 1].after.0 - end_after(rs[i])
}

/// The ranges of an alignment whose hunks lie apart are in order and inside
/// both texts.
pub proof fn lemma_ranges_ordered(gs: Seq<Seq<OpView>>, b: Seq<Seq<char>>, a: Seq<Seq<char>>)
    requires
        groups_align(gs, b, a),
        hunks_apart(gs),
        b.len() <= usize::MAX,
        a.len() <= usize::MAX,
    ensures
        ranges_ordered(ranges_of(gs), b.len() as int, a.len() as int),
{
    let rs = ranges_of(gs);
    assert forall|i: int| 0 <= i < rs.len() implies end_before(#[trigger] rs[i]) <= b.len() && end_after(
        rs[i],
    ) <= a.len() by {
        lemma_align_step(gs, b, a, i + 1);
        lemma_range_of_group(gs[i], b, a);
        assert(op_fits(gs[i][gs[i].len() - 1], b, a));
    }
    assert forall|i: int| 0 <= i < rs.len() - 1 implies end_before(#[trigger] rs[i]) < rs[i + 1].before.0
        && rs[i + 1].before.0 - end_before(rs[i]) == rs[i + 1].after.0 - end_after(rs[i]) by {
        lemma_align_step(gs, b, a, i + 2);
        lemma_range_of_group(gs[i], b, a);
        lemma_range_of_group(gs[i + 1], b, a);
        assert(gs[i + 2 - 2] == gs[i]);
        assert(gs[i + 1 - 1].last() == gs[i].last());
        let p = gs[i].last();
        let n = gs[i + 1][0];
        assert(b.subrange(p.first_end, n.first_start).len() == a.subrange(p.second_end, n.second_start).len());
    }
}

/// A patch's new lines are the new text over its after-range.
pub open spec fn patches_match(ps: Seq<PatchView>, a: Seq<Seq<char>>) -> bool {
    forall|i: int|
        0 <= i < ps.len() ==> 0 <= (#[trigger] ps[i]).range.after.0 && end_after(ps[i].range) <= a.len()
            && ps[i].new_lines == a.subrange(ps[i].range.after.0 as int, end_after(ps[i].range))
}

/// The patches of an alignment carry the new text over their ranges.
pub proof fn lemma_patches_match(gs: Seq<Seq<OpView>>, b: Seq<Seq<char>>, a: Seq<Seq<char>>)
    requires
        groups_align(gs, b, a),
        b.len() <= usize::MAX,
        a.len() <= usize::MAX,
    ensures
        patches_match(patches_of(gs, b, a), a),
{
    let ps = patches_of(gs, b, a);
    assert forall|i: int| 0 <= i < ps.len() implies 0 <= (#[trigger] ps[i]).range.after.0 && end_after(
        ps[i].range,
    ) <= a.len() && ps[i].new_lines == a.subrange(ps[i].range.after.0 as int, end_after(ps[i].range)) by {
        lemma_align_step(gs, b, a, i + 1);
        lemma_range_of_group(gs[i], b, a);
        lemma_group_new_lines(gs[i], b, a);
        group_monotone(gs[i], b, a, 0, gs[i].len() - 1);
        assert(op_fits(gs[i][gs[i].len() - 1], b, a));
        assert(op_fits(gs[i][0], b, a));
    }
}

/// Ordered ranges start strictly later one after another, so no two are equal.
pub proof fn lemma_ranges_distinct(rs: Seq<DiffRange>, nb: int, na: int, i: int, j: int)
    requires
        ranges_ordered(rs, nb, na),
        0 <= i < j < rs.len(),
    ensures
        rs[i].before.0 < rs[j].before.0,
        rs[i] != rs[j],
    decreases j - i,
{
    assert(end_before(rs[j - 1]) < rs[j].before.0);
    if i < j - 1 {
        lemma_ranges_distinct(rs, nb, na, i, j - 1);
    }
}

/// Whether the range of patch `k` differs from that of every other patch.
pub open spec fn range_unique(ps: Seq<PatchView>, k: int) -> bool {
    forall|j: int| 0 <= j < ps.len() && j != k ==> (#[trigger] ps[j]).range != ps[k].range
}

/// Accepting one hunk alone, whose range no other patch has, replaces the old
/// lines of its range by its new lines and keeps everything else.
pub proof fn lemma_apply_one_patch(ps: Seq<PatchView>, b: Seq<Seq<char>>, k: int)
    requires
        patches_fit(ps, b.len() as int),
        0 <= k < ps.len(),
        range_unique(ps, k),
    ensures
        applied(ps, seq![ps[k].range], b) == b.subrange(0, ps[k].range.before.0 as int) + ps[k].new_lines
            + b.subrange(patch_end(ps[k]), b.len() as int),
{
    let n = ps.len() as int;
    lemma_apply_one_prefix(ps, b, k, n);
    lemma_resume_bounds(ps, b, n);
    let s = ps[k].range.before.0 as int;
    let e = patch_end(ps[k]);
    assert(b.subrange(e, resume_at(ps, n)) + b.subrange(resume_at(ps, n), b.len() as int) =~= b.subrange(
        e,
        b.len() as int,
    ));
}

proof fn lemma_resume_bounds(ps: Seq<PatchView>, b: Seq<Seq<char>>, m: int)
    requires
        patches_fit(ps, b.len() as int),
        0 <= m <= ps.len(),
    ensures
        0 <= resume_at(ps, m) <= b.len(),
        forall|i: int| 0 <= i < m ==> patch_end(#[trigger] ps[i]) <= resume_at(ps, m),
    decreases m,
{
    if m > 0 {
        lemma_resume_bounds(ps, b, m - 1);
        assert(resume_at(ps, m - 1) <= ps[m - 1].range.before.0);
    }
}

#[verifier::spinoff_prover]
#[verifier::rlimit(60)]
proof fn lemma_apply_one_prefix(ps: Seq<PatchView>, b: Seq<Seq<char>>, k: int, m: int)
    requires
        patches_fit(ps, b.len() as int),
        0 <= k < ps.len(),
        range_unique(ps, k),
        0 <= m <= ps.len(),
    ensures
        m <= k ==> applied_prefix(ps, seq![ps[k].range], b, m) == b.subrange(0, resume_at(ps, m)),
        m > k ==> applied_prefix(ps, seq![ps[k].range], b, m) == b.subrange(0, ps[k].range.before.0 as int)
            + ps[k].new_lines + b.subrange(patch_end(ps[k]), resume_at(ps, m)),
        m > k ==> patch_end(ps[k]) <= resume_at(ps, m),
    decreases m,
{
    let sel = seq![ps[k].range];
    if m > 0 {
        lemma_apply_one_prefix(ps, b, k, m - 1);
        lemma_resume_bounds(ps, b, m - 1);
        let p = ps[m - 1];
        assert(resume_at(ps, m - 1) <= p.range.before.0 && patch_end(p) <= b.len());
        if m - 1 == k {
            assert(sel.contains(p.range)) by {
                assert(sel[0] == p.range);
            }
            assert(applied_prefix(ps, sel, b, m) =~= b.subrange(0, p.range.before.0 as int) + p.new_lines
                + b.subrange(patch_end(ps[k]), resume_at(ps, m)));
        } else {
            assert(!sel.contains(p.range)) by {
                assert(ps[m - 1].range != ps[k].range);
                if sel.contains(p.range) {
                    let i = choose|i: int| 0 <= i < sel.len() && sel[i] == p.range;
                    assert(i == 0);
                }
            }
            if m <= k {
                assert(applied_prefix(ps, sel, b, m) =~= b.subrange(0, resume_at(ps, m)));
            } else {
                assert(applied_prefix(ps, sel, b, m) =~= b.subrange(0, ps[k].range.before.0 as int)
                    + ps[k].new_lines + b.subrange(patch_end(ps[k]), resume_at(ps, m)));
            }
        }
    }
}

/// The old lines that one opcode shows in a unified diff: context and removed
/// lines, the ones written after a space or `-`.
pub open spec fn op_old_lines(o: OpView, b: Seq<Seq<char>>) -> Seq<Seq<char>> {
    if is_equal_tag(o.tag) || is_replace_tag(o.tag) || is_delete_tag(o.tag) {
        b.subrange(o.first_start, o.first_end)
    } else {
        Seq::empty()
    }
}

pub open spec fn group_old_lines(g: Seq<OpView>, b: Seq<Seq<char>>) -> Seq<Seq<char>>
    decreases g.len(),
{
    if g.len() == 0 {
        Seq::empty()
    } else {
        group_old_lines(g.drop_last(), b) + op_old_lines(g.last(), b)
    }
}

/// The body of a hunk shows the old text over its before-range (its context
/// and removed lines, in order) and the new text over its after-range (its
/// context and added lines, in order: `group_new_lines`, since context lines
/// are equal on both sides).
pub proof fn lemma_hunk_sides(g: Seq<OpView>, b: Seq<Seq<char>>, a: Seq<Seq<char>>)
    requires
        group_fits(g, b, a),
    ensures
        group_old_lines(g, b) == b.subrange(g[0].first_start, g.last().first_end),
        group_new_lines(g, b, a) == a.subrange(g[0].second_start, g.last().second_end),
    decreases g.len(),
{
    lemma_group_new_lines(g, b, a);
    let o = g.last();
    assert(op_fits(g[g.len() - 1], b, a));
    lemma_tags_distinct();
    assert(op_old_lines(o, b) =~= b.subrange(o.first_start, o.first_end));
    if g.len() == 1 {
        assert(g[0] == o);
        assert(g.drop_last().len() == 0);
        assert(group_old_lines(g.drop_last(), b) == Seq::<Seq<char>>::empty());
        assert(group_old_lines(g, b) =~= b.subrange(g[0].first_start, g.last().first_end));
    } else {
        group_fits_drop_last(g, b, a);
        lemma_hunk_sides(g.drop_last(), b, a);
        let h = g.drop_last();
        assert(h[0] == g[0]);
        assert(h.last() == g[g.len() - 2]);
        assert(chained(g, g.len() - 1));
        group_monotone(g, b, a, 0, g.len() - 2);
        assert(group_old_lines(g, b) =~= b.subrange(g[0].first_start, g.last().first_end));
    }
}

} // verus!
