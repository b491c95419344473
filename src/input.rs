//! The decisions of the input stage: which canonical paths go on (each one
//! once), and how hunk references are gathered into one item per file.
//! Reading stdin or the reference file, and canonicalizing, happen outside.

use crate::hunk_ref::{put_bytes, HunkRef};
use crate::udiff::DiffRange;
use vstd::prelude::*;

verus! {

/// A unit of work: a whole file, or only the listed hunks of it. The path is
/// canonical, as raw bytes.
pub enum RowIn {
    Entire(Vec<u8>),
    Piecewise(Vec<u8>, Vec<DiffRange>),
}

impl RowIn {
    pub open spec fn path_view(&self) -> Seq<u8> {
        match self {
            RowIn::Entire(p) => p@,
            RowIn::Piecewise(p, _) => p@,
        }
    }

    /// The file that the item is about.
    pub fn path(&self) -> (r: &Vec<u8>)
        ensures
            r@ == self.path_view(),
    {
        match self {
            RowIn::Entire(path) => path,
            RowIn::Piecewise(path, _) => path,
        }
    }
}

/// Whether two byte strings are equal.
pub(crate) fn same_bytes(a: &[u8], b: &[u8]) -> (r: bool)
    ensures
        r == (a@ == b@),
{
    if a.len() != b.len() {
        return false;
    }
    let mut i: usize = 0;
    while i < a.len()
        invariant
            0 <= i <= a@.len(),
            a@.len() == b@.len(),
            forall|j: int| 0 <= j < i ==> a@[j] == b@[j],
        decreases a@.len() - i,
    {
        if a[i] != b[i] {
            return false;
        }
        i = i + 1;
    }
    assert(a@ =~= b@);
    true
}

/// The paths that the input stage has let through so far.
pub struct SeenPaths {
    seen: Vec<Vec<u8>>,
}

/// What canonicalizing one input path came to.
pub enum Canonical {
    /// The canonical form of the path.
    Found(Vec<u8>),
    /// The path does not exist (any more).
    Missing,
    /// Any other failure.
    Failed,
}

/// What the input stage does with one path.
pub enum InputStep {
    /// Hand the file on.
    Emit(RowIn),
    /// Drop it and go on.
    Skip,
    /// Fail and end the stream.
    Stop,
}

/// The paths that a stream of canonical paths lets through, in order, when the
/// paths in `seen` went through already: each path the first time it comes.
pub open spec fn emitted(seen: Set<Seq<u8>>, s: Seq<Seq<u8>>) -> Seq<Seq<u8>>
    decreases s.len(),
{
    if s.len() == 0 {
        Seq::empty()
    } else if seen.contains(s[0]) {
        emitted(seen, s.drop_first())
    } else {
        seq![s[0]] + emitted(seen.insert(s[0]), s.drop_first())
    }
}

impl View for SeenPaths {
    type V = Set<Seq<u8>>;

    closed spec fn view(&self) -> Set<Seq<u8>> {
        self.seen@.map_values(|p: Vec<u8>| p@).to_set()
    }
}

impl SeenPaths {
    pub fn new() -> (r: Self)
        ensures
            r@ == Set::<Seq<u8>>::empty(),
    {
        let r = SeenPaths { seen: Vec::new() };
        assert(r.seen@.map_values(|p: Vec<u8>| p@) =~= Seq::<Seq<u8>>::empty());
        assert(r@ =~= Set::<Seq<u8>>::empty());
        r
    }

    /// Whether `path` went through already.
    pub fn contains(&self, path: &[u8]) -> (r: bool)
        ensures
            r == self@.contains(path@),
    {
        let ghost v = self.seen@.map_values(|p: Vec<u8>| p@);
        let mut i: usize = 0;
        while i < self.seen.len()
            invariant
                0 <= i <= self.seen@.len(),
                v == self.seen@.map_values(|p: Vec<u8>| p@),
                forall|j: int| 0 <= j < i ==> v[j] != path@,
            decreases self.seen@.len() - i,
        {
            if same_bytes(self.seen[i].as_slice(), path) {
                assert(v[i as int] == path@);
                assert(v.contains(path@));
                return true;
            }
            i = i + 1;
        }
        assert(!v.contains(path@));
        false
    }

    /// Lets `canonical` through unless it went through before; either way it
    /// counts as seen afterwards.
    pub fn insert_new(&mut self, canonical: Vec<u8>) -> (r: Option<RowIn>)
        ensures
            old(self)@.contains(canonical@) ==> r.is_none(),
            !old(self)@.contains(canonical@) ==> r.is_some() && r.unwrap() == RowIn::Entire(canonical),
            final(self)@ == old(self)@.insert(canonical@),
    {
        if self.contains(canonical.as_slice()) {
            assert(self@.insert(canonical@) =~= self@);
            return None;
        }
        let ghost before = self.seen@.map_values(|p: Vec<u8>| p@);
        let mut copy: Vec<u8> = Vec::new();
        put_bytes(&mut copy, canonical.as_slice());
        assert(copy@ =~= canonical@);
        self.seen.push(copy);
        let ghost after = self.seen@.map_values(|p: Vec<u8>| p@);
        assert(after =~= before.push(canonical@));
        assert forall|x: Seq<u8>| after.to_set().contains(x) <==> before.to_set().insert(canonical@).contains(x) by {
            if after.contains(x) && x != canonical@ {
                let i = choose|i: int| 0 <= i < after.len() && after[i] == x;
                assert(before[i] == x);
            }
            if before.contains(x) {
                let i = choose|i: int| 0 <= i < before.len() && before[i] == x;
                assert(after[i] == x);
            }
            if x == canonical@ {
                assert(after[before.len() as int] == x);
            }
        }
        assert(self@ =~= old(self)@.insert(canonical@));
        Some(RowIn::Entire(canonical))
    }

    /// The input stage on one path: a vanished file is dropped, any other
    /// failure stops the stream, a canonical path goes on the first time.
    pub fn step(&mut self, outcome: Canonical) -> (r: InputStep)
        ensures
            match outcome {
                Canonical::Found(p) => {
                    &&& emitted(old(self)@, seq![p@]) == match r {
                        InputStep::Emit(RowIn::Entire(q)) => seq![q@],
                        _ => Seq::empty(),
                    }
                    &&& final(self)@ == old(self)@.insert(p@)
                    &&& old(self)@.contains(p@) ==> r == InputStep::Skip
                    &&& !old(self)@.contains(p@) ==> r == InputStep::Emit(RowIn::Entire(p))
                },
                Canonical::Missing => r == InputStep::Skip && final(self)@ == old(self)@,
                Canonical::Failed => r == InputStep::Stop && final(self)@ == old(self)@,
            },
    {
        proof {
            if let Canonical::Found(ref p) = outcome {
                let s = seq![p@];
                assert(s.drop_first() =~= Seq::<Seq<u8>>::empty());
                assert(emitted(old(self)@, s.drop_first()) == Seq::<Seq<u8>>::empty());
                assert(emitted(old(self)@.insert(p@), s.drop_first()) == Seq::<Seq<u8>>::empty());
                assert(seq![p@] + Seq::<Seq<u8>>::empty() =~= seq![p@]);
            }
        }
        match outcome {
            Canonical::Found(p) => match self.insert_new(p) {
                Some(item) => InputStep::Emit(item),
                None => InputStep::Skip,
            },
            Canonical::Missing => InputStep::Skip,
            Canonical::Failed => InputStep::Stop,
        }
    }
}

/// One path at the head of a stream goes through exactly when `step` emits
/// it, and the rest of the stream is then read against the paths seen after
/// that step: the stream's output is built from the steps' outputs.
pub proof fn lemma_emitted_step(seen: Set<Seq<u8>>, p: Seq<u8>, rest: Seq<Seq<u8>>)
    ensures
        emitted(seen, seq![p] + rest) == (if seen.contains(p) {
            Seq::<Seq<u8>>::empty()
        } else {
            seq![p]
        }) + emitted(seen.insert(p), rest),
{
    let s = seq![p] + rest;
    assert(s[0] == p);
    assert(s.drop_first() =~= rest);
    if seen.contains(p) {
        assert(seen.insert(p) =~= seen);
        assert(Seq::<Seq<u8>>::empty() + emitted(seen, rest) =~= emitted(seen, rest));
    }
}

/// A stream of canonical paths lets each of its paths through exactly once:
/// what comes out has no repeats, and holds every path of the stream that was
/// not seen before it, and nothing else.
pub proof fn lemma_each_path_once(seen: Set<Seq<u8>>, s: Seq<Seq<u8>>)
    ensures
        emitted(seen, s).no_duplicates(),
        forall|p: Seq<u8>| #[trigger] emitted(seen, s).contains(p) <==> s.contains(p) && !seen.contains(p),
    decreases s.len(),
{
    if s.len() > 0 {
        let rest = s.drop_first();
        if seen.contains(s[0]) {
            lemma_each_path_once(seen, rest);
            assert forall|p: Seq<u8>| #[trigger] emitted(seen, s).contains(p) <==> s.contains(p)
                && !seen.contains(p) by {
                if s.contains(p) && p != s[0] {
                    let i = choose|i: int| 0 <= i < s.len() && s[i] == p;
                    assert(rest[i - 1] == p);
                }
                if rest.contains(p) {
                    let i = choose|i: int| 0 <= i < rest.len() && rest[i] == p;
                    assert(s[i + 1] == p);
                }
            }
        } else {
            let seen2 = seen.insert(s[0]);
            lemma_each_path_once(seen2, rest);
            let out = emitted(seen, s);
            let tail = emitted(seen2, rest);
            assert(out == seq![s[0]] + tail);
            assert forall|p: Seq<u8>| #[trigger] out.contains(p) <==> s.contains(p) && !seen.contains(p) by {
                if out.contains(p) && p != s[0] {
                    let i = choose|i: int| 0 <= i < out.len() && out[i] == p;
                    assert(tail[i - 1] == p);
                    assert(tail.contains(p));
                }
                if tail.contains(p) {
                    let i = choose|i: int| 0 <= i < tail.len() && tail[i] == p;
                    assert(out[i + 1] == p);
                }
                if s.contains(p) && p != s[0] {
                    let i = choose|i: int| 0 <= i < s.len() && s[i] == p;
                    assert(rest[i - 1] == p);
                }
                if rest.contains(p) {
                    let i = choose|i: int| 0 <= i < rest.len() && rest[i] == p;
                    assert(s[i + 1] == p);
                }
                if p == s[0] {
                    assert(out[0] == p);
                    assert(s[0] == p);
                }
            }
            assert(!tail.contains(s[0]));
            assert forall|i: int, j: int| 0 <= i < out.len() && 0 <= j < out.len() && i != j implies out[i]
                != out[j] by {
                if i > 0 && j > 0 {
                    assert(out[i] == tail[i - 1]);
                    assert(out[j] == tail[j - 1]);
                } else if i == 0 {
                    assert(out[j] == tail[j - 1]);
                } else {
                    assert(out[i] == tail[i - 1]);
                }
            }
        }
    }
}

/// Gathers consecutive hunk references to one file into one item.
pub struct PatchGroups {
    pub path: Vec<u8>,
    pub ranges: Vec<DiffRange>,
}

impl PatchGroups {
    pub fn new() -> (r: Self)
        ensures
            r.path@.len() == 0,
            r.ranges@.len() == 0,
    {
        PatchGroups { path: Vec::new(), ranges: Vec::new() }
    }

    /// Takes the next reference. A reference to the file being gathered adds
    /// its range; one to another file starts a new gathering and hands out the
    /// finished one, if it holds any range.
    pub fn push(self, h: HunkRef) -> (r: (PatchGroups, Option<RowIn>))
        ensures
            h.path@ == self.path@ ==> r.1.is_none() && r.0.path@ == self.path@ && r.0.ranges@
                == self.ranges@.push(h.range),
            h.path@ != self.path@ ==> {
                &&& r.0.path@ == h.path@
                &&& r.0.ranges@ == seq![h.range]
                &&& self.ranges@.len() == 0 ==> r.1.is_none()
                &&& self.ranges@.len() > 0 ==> r.1 == Some(RowIn::Piecewise(self.path, self.ranges))
            },
    {
        if same_bytes(h.path.as_slice(), self.path.as_slice()) {
            let mut ranges = self.ranges;
            ranges.push(h.range);
            (PatchGroups { path: self.path, ranges }, None)
        } else {
            let mut fresh: Vec<DiffRange> = Vec::new();
            fresh.push(h.range);
            let next = PatchGroups { path: h.path, ranges: fresh };
            if self.ranges.len() == 0 {
                (next, None)
            } else {
                (next, Some(RowIn::Piecewise(self.path, self.ranges)))
            }
        }
    }

    /// The last item, at the end of the references, if it holds any range.
    pub fn finish(self) -> (r: Option<RowIn>)
        ensures
            self.ranges@.len() == 0 ==> r.is_none(),
            self.ranges@.len() > 0 ==> r == Some(RowIn::Piecewise(self.path, self.ranges)),
    {
        if self.ranges.len() == 0 {
            None
        } else {
            Some(RowIn::Piecewise(self.path, self.ranges))
        }
    }
}

} // verus!
