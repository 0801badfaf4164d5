use std::marker::PhantomData;
use std::ops::Range;

use vstd::prelude::*;
use vstd::std_specs::cmp::PartialEqSpec;

use crate::memory_new::{
    designates, eq_by_index, first_match, has_match, round_trips, indices_of, insert_by_index,
    sorted_by_index, CapacityPlan, FlushPlan, GpuPoolBuffer, GpuVec, SlotId,
};

verus! {

/// The `u32` range `start..end`, each bound truncated to `u32` as `as` does.
pub open spec fn u32_range(start: int, end: int) -> Range<u32> {
    Range { start: start as u32, end: end as u32 }
}

/// The `u32` ranges of a sequence of `(start, end)` pairs.
pub open spec fn u32_ranges(runs: Seq<(int, int)>) -> Seq<Range<u32>> {
    runs.map_values(|r: (int, int)| u32_range(r.0, r.1))
}

/// The integers of the half-open intervals `runs`, in order.
pub open spec fn expand(runs: Seq<(int, int)>) -> Seq<int>
    decreases runs.len(),
{
    if runs.len() == 0 {
        Seq::empty()
    } else {
        Seq::new((runs[0].1 - runs[0].0) as nat, |i: int| runs[0].0 + i) + expand(runs.drop_first())
    }
}

/// An iterator that yields at most one range.
pub struct BumpRangesIter {
    range: Option<Range<u32>>,
}

impl BumpRangesIter {
    /// The range still to be yielded, if any.
    pub closed spec fn pending(&self) -> Option<Range<u32>> {
        self.range
    }

    pub fn new(range: Option<Range<u32>>) -> (it: Self)
        ensures
            it.pending() == range,
    {
        BumpRangesIter { range }
    }

    /// Yields the range once, then nothing.
    pub fn next(&mut self) -> (r: Option<Range<u32>>)
        ensures
            r == old(self).pending(),
            final(self).pending() == None::<Range<u32>>,
    {
        self.range.take()
    }

    /// Every range still to be yielded, in order.
    pub fn collect_ranges(&mut self) -> (out: Vec<Range<u32>>)
        ensures
            out@ == match old(self).pending() {
                Some(r) => seq![r],
                None => Seq::<Range<u32>>::empty(),
            },
            final(self).pending() == None::<Range<u32>>,
    {
        let mut out: Vec<Range<u32>> = Vec::new();
        match self.next() {
            Some(r) => {
                out.push(r);
            },
            None => {},
        }
        proof {
            assert(out@ =~= match old(self).pending() {
                Some(r) => seq![r],
                None => Seq::<Range<u32>>::empty(),
            });
        }
        out
    }
}

/// The length of the run of consecutive integers of `s` that starts at
/// position `c`.
pub open spec fn run_len(s: Seq<int>, c: int) -> nat
    decreases s.len() - c,
{
    if 0 <= c && c + 1 < s.len() && s[c + 1] == s[c] + 1 {
        1 + run_len(s, c + 1)
    } else {
        1
    }
}

pub proof fn lemma_run_len(s: Seq<int>, c: int)
    requires
        0 <= c < s.len(),
    ensures
        1 <= run_len(s, c) <= s.len() - c,
        forall|i: int| 0 <= i < run_len(s, c) ==> #[trigger] s[c + i] == s[c] + i,
        c + run_len(s, c) < s.len() ==> s[c + run_len(s, c)] != s[c + run_len(s, c) - 1] + 1,
    decreases s.len() - c,
{
    if c + 1 < s.len() && s[c + 1] == s[c] + 1 {
        lemma_run_len(s, c + 1);
        assert forall|i: int| 0 <= i < run_len(s, c) implies #[trigger] s[c + i] == s[c] + i by {
            if i > 0 {
                assert(s[(c + 1) + (i - 1)] == s[c + 1] + (i - 1));
            }
        }
    }
}

/// The runs of consecutive integers of `s` from position `c` on, as
/// half-open intervals, in order.
pub open spec fn drain_runs(s: Seq<int>, c: int) -> Seq<(int, int)>
    decreases s.len() - c,
{
    if 0 <= c < s.len() {
        proof {
            lemma_run_len(s, c);
        }
        seq![(s[c], s[c] + run_len(s, c))] + drain_runs(s, c + run_len(s, c))
    } else {
        Seq::empty()
    }
}

/// An iterator over the runs of consecutive slot indices of a list of
/// identifiers, as `u32` ranges.
pub struct PoolDrainIter<ID> {
    ids: Vec<ID>,
    cursor: usize,
}

impl<ID: SlotId> PoolDrainIter<ID> {
    /// The identifiers.
    pub closed spec fn ids(&self) -> Seq<ID> {
        self.ids@
    }

    /// The slot indices of the identifiers.
    pub closed spec fn indices(&self) -> Seq<int> {
        indices_of(self.ids@)
    }

    /// The position of the next identifier to look at.
    pub closed spec fn cursor(&self) -> int {
        self.cursor as int
    }

    pub open spec fn wf(&self) -> bool {
        0 <= self.cursor() <= self.indices().len()
    }

    /// The next run ends at most at `usize::MAX`.
    pub open spec fn next_fits(&self) -> bool {
        let s = self.indices();
        let c = self.cursor();
        c < s.len() ==> s[c] + run_len(s, c) <= usize::MAX
    }

    /// The runs still to be yielded.
    pub open spec fn remaining(&self) -> Seq<(int, int)> {
        drain_runs(self.indices(), self.cursor())
    }

    pub fn new(ids: Vec<ID>) -> (it: Self)
        ensures
            it.wf(),
            it.ids() == ids@,
            it.indices() == indices_of(ids@),
            it.cursor() == 0,
    {
        PoolDrainIter { ids, cursor: 0 }
    }

    /// Yields the next run of consecutive slot indices.
    pub fn next(&mut self) -> (r: Option<Range<u32>>)
        requires
            old(self).wf(),
            old(self).next_fits(),
        ensures
            final(self).wf(),
            final(self).indices() == old(self).indices(),
            old(self).cursor() >= old(self).indices().len() ==> {
                &&& r == None::<Range<u32>>
                &&& final(self).cursor() == old(self).cursor()
            },
            old(self).cursor() < old(self).indices().len() ==> {
                let s = old(self).indices();
                let c = old(self).cursor();
                &&& r == Some(u32_range(s[c], s[c] + run_len(s, c)))
                &&& final(self).cursor() == c + run_len(s, c)
            },
    {
        if self.cursor >= self.ids.len() {
            return None;
        }
        let ghost s = self.indices();
        let ghost c0 = self.cursor as int;
        let start = self.ids[self.cursor].index();
        proof {
            assert(s[c0] == self.ids@[c0].spec_index());
        }
        let mut end = start + 1;
        self.cursor = self.cursor + 1;
        proof {
            lemma_run_len(s, c0);
        }
        while self.cursor < self.ids.len() && self.ids[self.cursor].index() == end
            invariant
                s == indices_of(self.ids@),
                0 <= c0 < self.cursor <= self.ids@.len(),
                s[c0] + run_len(s, c0) <= usize::MAX,
                start == s[c0],
                end == start + (self.cursor - c0),
                end == s[self.cursor - 1] + 1,
                run_len(s, c0) == (self.cursor - 1 - c0) + run_len(s, self.cursor - 1),
            decreases self.ids@.len() - self.cursor,
        {
            proof {
                assert(s[self.cursor as int] == self.ids@[self.cursor as int].spec_index());
                lemma_run_len(s, self.cursor - 1);
            }
            end = end + 1;
            self.cursor = self.cursor + 1;
        }
        proof {
            let k = self.cursor - 1;
            if self.cursor < self.ids@.len() {
                assert(s[self.cursor as int] == self.ids@[self.cursor as int].spec_index());
            }
            assert(run_len(s, k) == 1);
        }
        Some(#[verifier::truncate] (start as u32)..#[verifier::truncate] (end as u32))
    }

    /// Every range still to be yielded, in order.
    pub fn collect_ranges(&mut self) -> (out: Vec<Range<u32>>)
        requires
            old(self).wf(),
            forall|i: int|
                0 <= i < old(self).remaining().len() ==> (#[trigger] old(self).remaining()[i]).1
                    <= usize::MAX,
        ensures
            final(self).wf(),
            out@ == u32_ranges(old(self).remaining()),
            final(self).remaining() == Seq::<(int, int)>::empty(),
    {
        let mut out: Vec<Range<u32>> = Vec::new();
        let ghost all = self.remaining();
        loop
            invariant
                self.wf(),
                self.indices() == old(self).indices(),
                forall|i: int|
                    0 <= i < self.remaining().len() ==> (#[trigger] self.remaining()[i]).1
                        <= usize::MAX,
                all == old(self).remaining(),
                out@ + u32_ranges(self.remaining()) == u32_ranges(all),
            decreases self.indices().len() - self.cursor(),
        {
            let ghost before = self.remaining();
            let ghost s = self.indices();
            let ghost c = self.cursor();
            proof {
                if c < s.len() {
                    lemma_run_len(s, c);
                    assert(before[0] == (s[c], s[c] + run_len(s, c)));
                }
            }
            match self.next() {
                Some(r) => {
                    proof {
                        lemma_run_len(s, c);
                        assert(before == seq![(s[c], s[c] + run_len(s, c))] + self.remaining());
                        assert(u32_ranges(before) =~= seq![r] + u32_ranges(self.remaining()));
                        assert forall|i: int| 0 <= i < self.remaining().len() implies (#[trigger] self.remaining()[i]).1 <= usize::MAX by {
                            assert(self.remaining()[i] == before[i + 1]);
                        }
                    }
                    out.push(r);
                    proof {
                        assert(out@ + u32_ranges(self.remaining()) =~= u32_ranges(all));
                    }
                },
                None => {
                    proof {
                        assert(self.remaining() =~= Seq::<(int, int)>::empty());
                        assert(u32_ranges(self.remaining()) =~= Seq::<Range<u32>>::empty());
                        assert(out@ =~= u32_ranges(all));
                    }
                    return out;
                },
            }
        }
    }
}

/// The integers `a, a + 1, ..., a + n - 1`.
pub open spec fn interval(a: int, n: nat) -> Seq<int> {
    Seq::new(n, |i: int| a + i)
}

/// Every element is below the next ones.
pub open spec fn increasing(s: Seq<int>) -> bool {
    forall|i: int, j: int| 0 <= i < j < s.len() ==> s[i] < s[j]
}

proof fn lemma_expand_cons(r: (int, int), rest: Seq<(int, int)>)
    ensures
        expand(seq![r] + rest) == interval(r.0, (r.1 - r.0) as nat) + expand(rest),
{
    let x = seq![r] + rest;
    assert(x.drop_first() =~= rest);
    assert(x[0] == r);
    assert(Seq::new((r.1 - r.0) as nat, |i: int| r.0 + i) =~= interval(r.0, (r.1 - r.0) as nat));
}

proof fn lemma_drain_runs_expand(s: Seq<int>, c: int)
    requires
        0 <= c <= s.len(),
    ensures
        expand(drain_runs(s, c)) == s.subrange(c, s.len() as int),
        forall|j: int|
            0 <= j && j + 1 < drain_runs(s, c).len() ==> (#[trigger] drain_runs(s, c)[j]).1
                != drain_runs(s, c)[j + 1].0,
        drain_runs(s, c).len() > 0 ==> drain_runs(s, c)[0].0 == s[c],
    decreases s.len() - c,
{
    if c < s.len() {
        lemma_run_len(s, c);
        let k = run_len(s, c);
        lemma_drain_runs_expand(s, c + k);
        let head = (s[c], s[c] + k);
        let rest = drain_runs(s, c + k);
        let runs = drain_runs(s, c);
        assert(runs == seq![head] + rest);
        lemma_expand_cons(head, rest);
        assert forall|i: int| 0 <= i < k implies #[trigger] s.subrange(c, c + k)[i] == interval(
            s[c],
            k,
        )[i] by {
            assert(s[c + i] == s[c] + i);
        }
        assert(interval(s[c], k) =~= s.subrange(c, c + k));
        assert(s.subrange(c, s.len() as int) =~= s.subrange(c, c + k) + s.subrange(
            c + k,
            s.len() as int,
        ));
        assert forall|j: int| 0 <= j && j + 1 < runs.len() implies (#[trigger] runs[j]).1
            != runs[j + 1].0 by {
            if j == 0 {
                assert(runs[1] == rest[0]);
                assert(rest.len() > 0);
                assert(c + k < s.len());
                assert(s[c + (k - 1)] == s[c] + (k - 1));
                assert(s[c + k] != s[c + k - 1] + 1);
            } else {
                assert(runs[j] == rest[j - 1]);
                assert(runs[j + 1] == rest[j]);
            }
        }
    } else {
        assert(s.subrange(c, s.len() as int) =~= Seq::<int>::empty());
    }
}

/// Each run is non-empty and ends before the next one starts.
pub open spec fn separated_runs(runs: Seq<(int, int)>) -> bool {
    &&& forall|i: int| 0 <= i < runs.len() ==> (#[trigger] runs[i]).0 < runs[i].1
    &&& forall|i: int| 0 <= i && i + 1 < runs.len() ==> (#[trigger] runs[i]).1 < runs[i + 1].0
}

proof fn lemma_drain_runs_shape(s: Seq<int>, c: int)
    requires
        0 <= c <= s.len(),
    ensures
        forall|i: int|
            0 <= i < drain_runs(s, c).len() ==> (#[trigger] drain_runs(s, c)[i]).0 < drain_runs(
                s,
                c,
            )[i].1,
        increasing(s) ==> separated_runs(drain_runs(s, c)),
    decreases s.len() - c,
{
    if c < s.len() {
        lemma_run_len(s, c);
        let k = run_len(s, c);
        lemma_drain_runs_shape(s, c + k);
        lemma_drain_runs_expand(s, c + k);
        let head = (s[c], s[c] + k);
        let rest = drain_runs(s, c + k);
        let runs = drain_runs(s, c);
        assert(runs == seq![head] + rest);
        assert forall|i: int| 0 <= i < runs.len() implies (#[trigger] runs[i]).0 < runs[i].1 by {
            if i > 0 {
                assert(runs[i] == rest[i - 1]);
            }
        }
        if increasing(s) {
            assert forall|i: int| 0 <= i && i + 1 < runs.len() implies (#[trigger] runs[i]).1
                < runs[i + 1].0 by {
                if i == 0 {
                    assert(runs[1] == rest[0]);
                    assert(s[c + (k - 1)] == s[c] + (k - 1));
                    assert(s[c + k - 1] < s[c + k]);
                } else {
                    assert(runs[i] == rest[i - 1]);
                    assert(runs[i + 1] == rest[i]);
                }
            }
        }
    }
}

/// Law: the runs that a drain yields list, in order, exactly the slot
/// indices it was given, each once; every run is non-empty and no run ends
/// where the next begins, so none could have been longer. When the indices
/// are increasing, as a drain sorts them, each run ends before the next
/// starts.
pub proof fn law_drain_runs_cover_indices(s: Seq<int>)
    ensures
        expand(drain_runs(s, 0)) == s,
        forall|j: int|
            0 <= j && j + 1 < drain_runs(s, 0).len() ==> (#[trigger] drain_runs(s, 0)[j]).1
                != drain_runs(s, 0)[j + 1].0,
        forall|j: int|
            0 <= j < drain_runs(s, 0).len() ==> (#[trigger] drain_runs(s, 0)[j]).0 < drain_runs(
                s,
                0,
            )[j].1,
        increasing(s) ==> separated_runs(drain_runs(s, 0)),
        s.len() == 0 ==> drain_runs(s, 0).len() == 0,
{
    lemma_drain_runs_expand(s, 0);
    lemma_drain_runs_shape(s, 0);
    assert(s.subrange(0, s.len() as int) =~= s);
}

/// The number of consecutive entries `f[fc], f[fc + 1], ...` equal to
/// `c, c + 1, ...`.
pub open spec fn skip_len(f: Seq<int>, fc: int, c: int) -> nat
    decreases f.len() - fc,
{
    if 0 <= fc < f.len() && f[fc] == c {
        1 + skip_len(f, fc + 1, c + 1)
    } else {
        0
    }
}

/// Where a run of slots in use that starts at `start` ends: at the free
/// slot `f[fc]` when it lies between `start` and `m`, else at `m`.
pub open spec fn run_end(f: Seq<int>, fc: int, start: int, m: int) -> int {
    if 0 <= fc < f.len() && start < f[fc] < m {
        f[fc]
    } else {
        m
    }
}

pub proof fn lemma_skip_len(f: Seq<int>, fc: int, c: int)
    requires
        0 <= fc,
    ensures
        fc + skip_len(f, fc, c) <= f.len() || skip_len(f, fc, c) == 0,
        forall|i: int| 0 <= i < skip_len(f, fc, c) ==> #[trigger] f[fc + i] == c + i,
        fc + skip_len(f, fc, c) < f.len() ==> f[fc + skip_len(f, fc, c)] != c + skip_len(f, fc, c),
    decreases f.len() - fc,
{
    if 0 <= fc < f.len() && f[fc] == c {
        lemma_skip_len(f, fc + 1, c + 1);
        assert forall|i: int| 0 <= i < skip_len(f, fc, c) implies #[trigger] f[fc + i] == c + i by {
            if i > 0 {
                assert(f[(fc + 1) + (i - 1)] == (c + 1) + (i - 1));
            }
        }
    }
}

/// The runs of slots in use from slot `c` up to `m`, given the free slots
/// `f` from position `fc` on, as half-open intervals, in order.
pub open spec fn active_runs(f: Seq<int>, fc: int, c: int, m: int) -> Seq<(int, int)>
    decreases m - c,
{
    if c >= m {
        Seq::empty()
    } else if c + skip_len(f, fc, c) >= m {
        Seq::empty()
    } else {
        let start = c + skip_len(f, fc, c);
        let e = run_end(f, fc + skip_len(f, fc, c), start, m);
        seq![(start, e)] + active_runs(f, fc + skip_len(f, fc, c), e, m)
    }
}

/// Whether `x` is one of `f[fc], f[fc + 1], ...`.
pub open spec fn listed_from(f: Seq<int>, fc: int, x: int) -> bool {
    exists|j: int| fc <= j < f.len() && f[j] == x
}

proof fn lemma_active_runs_expand(f: Seq<int>, fc: int, c: int, m: int)
    requires
        0 <= fc <= f.len(),
        c <= m,
        increasing(f),
        forall|j: int| fc <= j < f.len() ==> c <= #[trigger] f[j] < m,
    ensures
        forall|x: int|
            #[trigger] expand(active_runs(f, fc, c, m)).contains(x) <==> (c <= x < m
                && !listed_from(f, fc, x)),
        increasing(expand(active_runs(f, fc, c, m))),
        forall|i: int|
            0 <= i < expand(active_runs(f, fc, c, m)).len() ==> c <= #[trigger] expand(
                active_runs(f, fc, c, m),
            )[i] < m,
    decreases m - c,
{
    let k = skip_len(f, fc, c);
    lemma_skip_len(f, fc, c);
    let ins = expand(active_runs(f, fc, c, m));
    if c >= m {
        assert(ins =~= Seq::<int>::empty());
    } else if c + k >= m {
        assert(ins =~= Seq::<int>::empty());
        assert forall|x: int| c <= x < m implies listed_from(f, fc, x) by {
            assert(f[fc + (x - c)] == c + (x - c));
        }
    } else {
        let start = c + k;
        let fc2 = fc + k;
        let e = run_end(f, fc2, start, m);
        if fc2 < f.len() {
            if k > 0 {
                assert(f[fc + (k - 1)] == c + (k - 1));
                assert(f[fc2 - 1] < f[fc2]);
            }
            assert(f[fc2] > start);
            assert(e == f[fc2]);
        } else {
            assert(e == m);
        }
        assert(start < e <= m);
        assert forall|j: int| fc2 <= j < f.len() implies e <= #[trigger] f[j] < m by {
            if j > fc2 {
                assert(f[fc2] < f[j]);
            }
        }
        lemma_active_runs_expand(f, fc2, e, m);
        let rest = active_runs(f, fc2, e, m);
        let rx = expand(rest);
        assert(active_runs(f, fc, c, m) == seq![(start, e)] + rest);
        lemma_expand_cons((start, e), rest);
        let head = interval(start, (e - start) as nat);
        assert(ins == head + rx);
        let n = head.len();
        assert forall|i: int| 0 <= i < ins.len() implies c <= #[trigger] ins[i] < m by {
            if i >= n {
                assert(ins[i] == rx[i - n]);
            }
        }
        assert forall|i: int, j: int| 0 <= i < j < ins.len() implies ins[i] < ins[j] by {
            if j >= n {
                assert(ins[j] == rx[j - n]);
                if i >= n {
                    assert(ins[i] == rx[i - n]);
                }
            }
        }
        assert forall|x: int| #[trigger] ins.contains(x) <==> (c <= x < m && !listed_from(f, fc, x)) by {
            if ins.contains(x) {
                let idx = choose|idx: int| 0 <= idx < ins.len() && ins[idx] == x;
                if idx < n {
                    assert(x == start + idx);
                    if listed_from(f, fc, x) {
                        let j = choose|j: int| fc <= j < f.len() && f[j] == x;
                        if j < fc2 {
                            assert(f[fc + (j - fc)] == c + (j - fc));
                        } else if j > fc2 {
                            assert(f[fc2] < f[j]);
                        }
                    }
                } else {
                    assert(ins[idx] == rx[idx - n]);
                    assert(rx.contains(x));
                    if listed_from(f, fc, x) {
                        let j = choose|j: int| fc <= j < f.len() && f[j] == x;
                        if j < fc2 {
                            assert(f[fc + (j - fc)] == c + (j - fc));
                        } else {
                            assert(listed_from(f, fc2, x));
                        }
                    }
                }
            }
            if c <= x < m && !listed_from(f, fc, x) {
                if x < start {
                    assert(f[fc + (x - c)] == c + (x - c));
                    assert(listed_from(f, fc, x));
                } else if x < e {
                    assert(ins[x - start] == x);
                } else {
                    if listed_from(f, fc2, x) {
                        let j = choose|j: int| fc2 <= j < f.len() && f[j] == x;
                        assert(listed_from(f, fc, x));
                    }
                    assert(rx.contains(x));
                    let i2 = choose|i2: int| 0 <= i2 < rx.len() && rx[i2] == x;
                    assert(ins[n + i2] == x);
                }
            }
        }
    }
}

proof fn lemma_active_runs_shape(f: Seq<int>, fc: int, c: int, m: int)
    requires
        0 <= fc <= f.len(),
        c <= m,
        increasing(f),
        forall|j: int| fc <= j < f.len() ==> c <= #[trigger] f[j] < m,
    ensures
        separated_runs(active_runs(f, fc, c, m)),
        forall|i: int|
            0 <= i < active_runs(f, fc, c, m).len() ==> c <= (#[trigger] active_runs(
                f,
                fc,
                c,
                m,
            )[i]).0,
    decreases m - c,
{
    let k = skip_len(f, fc, c);
    lemma_skip_len(f, fc, c);
    let runs = active_runs(f, fc, c, m);
    if c >= m || c + k >= m {
        assert(runs =~= Seq::<(int, int)>::empty());
    } else {
        let start = c + k;
        let fc2 = fc + k;
        let e = run_end(f, fc2, start, m);
        if fc2 < f.len() {
            if k > 0 {
                assert(f[fc + (k - 1)] == c + (k - 1));
                assert(f[fc2 - 1] < f[fc2]);
            }
            assert(e == f[fc2]);
        }
        assert(start < e <= m);
        assert forall|j: int| fc2 <= j < f.len() implies e <= #[trigger] f[j] < m by {
            if j > fc2 {
                assert(f[fc2] < f[j]);
            }
        }
        lemma_active_runs_shape(f, fc2, e, m);
        let rest = active_runs(f, fc2, e, m);
        assert(runs == seq![(start, e)] + rest);
        if rest.len() > 0 {
            lemma_skip_len(f, fc2, e);
            assert(e < m);
            assert(fc2 < f.len());
            assert(skip_len(f, fc2, e) >= 1);
            assert(rest[0].0 == e + skip_len(f, fc2, e));
        }
        assert forall|i: int| 0 <= i < runs.len() implies (#[trigger] runs[i]).0 < runs[i].1
            && c <= runs[i].0 by {
            if i > 0 {
                assert(runs[i] == rest[i - 1]);
            }
        }
        assert forall|i: int| 0 <= i && i + 1 < runs.len() implies (#[trigger] runs[i]).1
            < runs[i + 1].0 by {
            if i == 0 {
                assert(runs[1] == rest[0]);
            } else {
                assert(runs[i] == rest[i - 1]);
                assert(runs[i + 1] == rest[i]);
            }
        }
    }
}

/// Law: given the free slots in increasing order, all below the high-water
/// mark `m`, the runs of slots in use list, in increasing order, exactly the
/// slots below `m` that are not free; every run is non-empty and ends before
/// the next one starts, so each is a maximal run of slots in use.
pub proof fn law_active_runs_cover_slots_in_use(f: Seq<int>, m: int)
    requires
        increasing(f),
        forall|j: int| 0 <= j < f.len() ==> 0 <= #[trigger] f[j] < m,
    ensures
        forall|x: int|
            #[trigger] expand(active_runs(f, 0, 0, m)).contains(x) <==> (0 <= x < m
                && !f.contains(x)),
        increasing(expand(active_runs(f, 0, 0, m))),
        separated_runs(active_runs(f, 0, 0, m)),
{
    if m >= 0 {
        lemma_active_runs_shape(f, 0, 0, m);
    }
    if m < 0 {
        assert(f.len() == 0 || f[0] < m);
        assert(active_runs(f, 0, 0, m) =~= Seq::<(int, int)>::empty());
        assert(expand(active_runs(f, 0, 0, m)) =~= Seq::<int>::empty());
    } else {
        lemma_active_runs_expand(f, 0, 0, m);
        assert forall|x: int| listed_from(f, 0, x) <==> f.contains(x) by {
            if f.contains(x) {
                let j = choose|j: int| 0 <= j < f.len() && f[j] == x;
                assert(listed_from(f, 0, x));
            }
        }
    }
}

/// Law: once `next` of a ranges iterator returns `None`, its cursor is at
/// the high-water mark, where nothing remains and every later `next` returns
/// `None` again.
pub proof fn law_exhausted_ranges_stay_exhausted<ID: SlotId>(it: PoolRangesIter<ID>)
    requires
        it.wf(),
        it.cursor() >= it.max_index(),
    ensures
        it.remaining() == Seq::<(int, int)>::empty(),
{
}

/// Law: the runs of a pool's slots in use, computed from its free slots and
/// its high-water mark as `ranges_iter` does, cover exactly the slots of its
/// identifiers in use, each run non-empty and separated from the next by a
/// free slot.
pub proof fn law_pool_runs_cover_active_slots<ID: SlotId + Copy + PartialEq, T: Default + Clone>(
    pool: GpuPoolBuffer<ID, T>,
)
    requires
        pool.wf(),
        pool.slots_partitioned(),
    ensures
        forall|x: int|
            #[trigger] expand(
                active_runs(indices_of(pool.free()), 0, 0, pool.high_water() as int),
            ).contains(x) <==> designates(pool.active(), x),
        increasing(expand(active_runs(indices_of(pool.free()), 0, 0, pool.high_water() as int))),
        separated_runs(active_runs(indices_of(pool.free()), 0, 0, pool.high_water() as int)),
{
    let act = pool.active();
    let fr = pool.free();
    let all = act + fr;
    let hw = pool.high_water() as int;
    let f = indices_of(fr);
    let a = act.len() as int;
    assert forall|j: int| 0 <= j < fr.len() implies #[trigger] all[a + j] == fr[j] by {}
    assert forall|i: int, j: int| 0 <= i < j < f.len() implies f[i] < f[j] by {
        assert(all[a + i] == fr[i]);
        assert(all[a + j] == fr[j]);
        assert(fr[i].spec_index() <= fr[j].spec_index());
    }
    assert forall|j: int| 0 <= j < f.len() implies 0 <= #[trigger] f[j] < hw by {
        assert(all[a + j] == fr[j]);
    }
    law_active_runs_cover_slots_in_use(f, hw);
    assert forall|x: int| #[trigger] designates(act, x) <==> (0 <= x < hw && !f.contains(x)) by {
        if 0 <= x < hw && !f.contains(x) {
            assert(designates(all, x));
            let i = choose|i: int| 0 <= i < all.len() && #[trigger] all[i].spec_index() == x;
            if i >= a {
                assert(all[i] == fr[i - a]);
                assert(f[i - a] == x);
            } else {
                assert(all[i] == act[i]);
            }
        }
        if designates(act, x) {
            let i = choose|i: int| 0 <= i < act.len() && #[trigger] act[i].spec_index() == x;
            assert(all[i] == act[i]);
            if f.contains(x) {
                let j = choose|j: int| 0 <= j < f.len() && f[j] == x;
                assert(all[a + j] == fr[j]);
            }
        }
    }
    assert forall|x: int|
        #[trigger] expand(active_runs(f, 0, 0, hw)).contains(x) <==> designates(act, x) by {
        assert(expand(active_runs(f, 0, 0, hw)).contains(x) <==> (0 <= x < hw && !f.contains(x)));
        assert(designates(act, x) <==> (0 <= x < hw && !f.contains(x)));
    }
}

/// An iterator over the runs of slots in use below a high-water mark, given
/// the free slots, as `u32` ranges.
pub struct PoolRangesIter<ID> {
    free_ids: Vec<ID>,
    free_cursor: usize,
    cursor: usize,
    max_index: usize,
}

impl<ID: SlotId> PoolRangesIter<ID> {
    /// The slot indices of the free identifiers.
    pub closed spec fn free_indices(&self) -> Seq<int> {
        indices_of(self.free_ids@)
    }

    /// The position of the next free identifier to look at.
    pub closed spec fn free_cursor(&self) -> int {
        self.free_cursor as int
    }

    /// The next slot to look at.
    pub closed spec fn cursor(&self) -> int {
        self.cursor as int
    }

    /// The high-water mark.
    pub closed spec fn max_index(&self) -> int {
        self.max_index as int
    }

    pub open spec fn wf(&self) -> bool {
        &&& 0 <= self.free_cursor() <= self.free_indices().len()
        &&& 0 <= self.cursor() <= self.max_index() <= usize::MAX
    }

    /// The runs still to be yielded.
    pub open spec fn remaining(&self) -> Seq<(int, int)> {
        active_runs(self.free_indices(), self.free_cursor(), self.cursor(), self.max_index())
    }

    pub fn new(free_ids: Vec<ID>, max_index: usize) -> (it: Self)
        ensures
            it.wf(),
            it.free_indices() == indices_of(free_ids@),
            it.free_cursor() == 0,
            it.cursor() == 0,
            it.max_index() == max_index,
    {
        PoolRangesIter { free_ids, free_cursor: 0, cursor: 0, max_index }
    }

    /// Skips the free slots at the cursor and yields the following run of
    /// slots in use.
    pub fn next(&mut self) -> (r: Option<Range<u32>>)
        requires
            old(self).wf(),
        ensures
            final(self).wf(),
            final(self).free_indices() == old(self).free_indices(),
            final(self).max_index() == old(self).max_index(),
            r is None ==> final(self).cursor() >= final(self).max_index(),
            ({
                let f = old(self).free_indices();
                let fc = old(self).free_cursor();
                let c = old(self).cursor();
                let m = old(self).max_index();
                let j = skip_len(f, fc, c);
                if c >= m {
                    &&& r == None::<Range<u32>>
                    &&& final(self).free_cursor() == fc
                    &&& final(self).cursor() == c
                } else if c + j >= m {
                    &&& r == None::<Range<u32>>
                    &&& final(self).free_cursor() == fc + (m - c)
                    &&& final(self).cursor() == m
                } else {
                    &&& r == Some(u32_range(c + j, run_end(f, fc + j, c + j, m)))
                    &&& final(self).free_cursor() == fc + j
                    &&& final(self).cursor() == run_end(f, fc + j, c + j, m)
                }
            }),
    {
        if self.cursor >= self.max_index {
            return None;
        }
        let ghost f = self.free_indices();
        let ghost fc0 = self.free_cursor as int;
        let ghost c0 = self.cursor as int;
        let ghost m = self.max_index as int;
        proof {
            lemma_skip_len(f, fc0, c0);
        }
        while self.free_cursor < self.free_ids.len()
            && self.free_ids[self.free_cursor].index() == self.cursor
            invariant
                f == indices_of(self.free_ids@),
                self.free_ids@ == old(self).free_ids@,
                fc0 == old(self).free_cursor(),
                c0 == old(self).cursor(),
                m == self.max_index,
                m == old(self).max_index(),
                0 <= fc0 <= self.free_cursor <= self.free_ids@.len(),
                c0 <= self.cursor < m,
                self.free_cursor - fc0 == self.cursor - c0,
                skip_len(f, fc0, c0) == (self.cursor - c0) + skip_len(f, self.free_cursor as int, self.cursor as int),
                m <= usize::MAX,
            decreases m - self.cursor,
        {
            proof {
                assert(f[self.free_cursor as int] == self.free_ids@[self.free_cursor as int].spec_index());
            }
            self.free_cursor = self.free_cursor + 1;
            self.cursor = self.cursor + 1;
            if self.cursor >= self.max_index {
                return None;
            }
        }
        proof {
            if self.free_cursor < self.free_ids@.len() {
                assert(f[self.free_cursor as int] == self.free_ids@[self.free_cursor as int].spec_index());
            }
            assert(skip_len(f, self.free_cursor as int, self.cursor as int) == 0);
        }
        let start = self.cursor;
        let ghost fcj = self.free_cursor as int;
        let ghost e = run_end(f, fcj, start as int, m);
        loop
            invariant
                f == indices_of(self.free_ids@),
                self.free_ids@ == old(self).free_ids@,
                fc0 == old(self).free_cursor(),
                c0 == old(self).cursor(),
                m == old(self).max_index(),
                skip_len(f, fc0, c0) == start - c0,
                fcj == fc0 + (start - c0),
                c0 + skip_len(f, fc0, c0) < m,
                m == self.max_index,
                self.free_cursor == fcj,
                0 <= fcj <= self.free_ids@.len(),
                start <= self.cursor < e,
                e == run_end(f, fcj, start as int, m),
                m <= usize::MAX,
            decreases m - self.cursor,
        {
            self.cursor = self.cursor + 1;
            if self.cursor >= self.max_index {
                return Some(#[verifier::truncate] (start as u32)..#[verifier::truncate] (self.cursor as u32));
            }
            if self.free_cursor < self.free_ids.len()
                && self.free_ids[self.free_cursor].index() == self.cursor {
                proof {
                    assert(f[fcj] == self.free_ids@[fcj].spec_index());
                }
                return Some(#[verifier::truncate] (start as u32)..#[verifier::truncate] (self.cursor as u32));
            }
            proof {
                if fcj < f.len() {
                    assert(f[fcj] == self.free_ids@[fcj].spec_index());
                }
            }
        }
    }

    /// Every range still to be yielded, in order.
    pub fn collect_ranges(&mut self) -> (out: Vec<Range<u32>>)
        requires
            old(self).wf(),
        ensures
            final(self).wf(),
            out@ == u32_ranges(old(self).remaining()),
            final(self).remaining() == Seq::<(int, int)>::empty(),
    {
        let mut out: Vec<Range<u32>> = Vec::new();
        let ghost all = self.remaining();
        loop
            invariant
                self.wf(),
                self.free_indices() == old(self).free_indices(),
                self.max_index() == old(self).max_index(),
                all == old(self).remaining(),
                out@ + u32_ranges(self.remaining()) == u32_ranges(all),
            decreases self.max_index() - self.cursor(),
        {
            let ghost before = self.remaining();
            match self.next() {
                Some(r) => {
                    proof {
                        assert(u32_ranges(before) =~= seq![r] + u32_ranges(self.remaining()));
                    }
                    out.push(r);
                    proof {
                        assert(out@ + u32_ranges(self.remaining()) =~= u32_ranges(all));
                    }
                },
                None => {
                    proof {
                        assert(before =~= Seq::<(int, int)>::empty());
                        assert(self.remaining() =~= Seq::<(int, int)>::empty());
                        assert(u32_ranges(self.remaining()) =~= Seq::<Range<u32>>::empty());
                        assert(out@ =~= u32_ranges(all));
                    }
                    return out;
                },
            }
        }
    }
}

/// `v` sorted by slot index (the order of identifiers with equal indices is
/// left open).
fn sort_by_index<ID: SlotId + Copy>(v: Vec<ID>) -> (out: Vec<ID>)
    ensures
        out@.to_multiset() == v@.to_multiset(),
        sorted_by_index(out@),
{
    broadcast use vstd::seq_lib::group_to_multiset_ensures, vstd::multiset::group_multiset_axioms;

    let mut out: Vec<ID> = Vec::new();
    let mut i: usize = 0;
    while i < v.len()
        invariant
            i <= v@.len(),
            out@.to_multiset() == v@.subrange(0, i as int).to_multiset(),
            sorted_by_index(out@),
        decreases v@.len() - i,
    {
        let x = v[i];
        let key = x.index();
        let mut pos = out.len();
        while pos > 0 && out[pos - 1].index() > key
            invariant
                pos <= out@.len(),
                key == x.spec_index(),
                forall|j: int| pos <= j < out@.len() ==> (#[trigger] out@[j]).spec_index() > key,
            decreases pos,
        {
            pos = pos - 1;
        }
        let ghost old_out = out@;
        out.insert(pos, x);
        proof {
            let p = pos as int;
            let a = old_out.subrange(0, p);
            let b = old_out.subrange(p, old_out.len() as int);
            assert(old_out =~= a + b);
            assert(out@ =~= a.push(x) + b);
            vstd::seq_lib::lemma_multiset_commutative(a, b);
            vstd::seq_lib::lemma_multiset_commutative(a.push(x), b);
            a.to_multiset_ensures();
            v@.subrange(0, i as int).to_multiset_ensures();
            assert(a.push(x).to_multiset() =~= a.to_multiset().insert(x));
            assert(out@.to_multiset() =~= a.to_multiset().insert(x).add(b.to_multiset()));
            assert(old_out.to_multiset() =~= a.to_multiset().add(b.to_multiset()));
            assert(out@.to_multiset() =~= old_out.to_multiset().insert(x));
            assert(v@.subrange(0, i as int).push(x).to_multiset() =~= v@.subrange(0, i as int).to_multiset().insert(x));
            assert(v@.subrange(0, i + 1) =~= v@.subrange(0, i as int).push(x));
            let nf = out@;
            assert forall|i1: int, j1: int| 0 <= i1 <= j1 < nf.len() implies #[trigger] nf[i1].spec_index() <= #[trigger] nf[j1].spec_index() by {
                if j1 < p {
                    assert(nf[i1] == old_out[i1] && nf[j1] == old_out[j1]);
                } else if j1 == p {
                    if i1 < p {
                        assert(nf[i1] == old_out[i1]);
                        assert(old_out[i1].spec_index() <= old_out[p - 1].spec_index());
                    }
                } else {
                    assert(nf[j1] == old_out[j1 - 1]);
                    if i1 < p {
                        assert(nf[i1] == old_out[i1]);
                    } else if i1 > p {
                        assert(nf[i1] == old_out[i1 - 1]);
                    }
                }
            }
        }
        i = i + 1;
    }
    proof {
        assert(v@.subrange(0, v@.len() as int) =~= v@);
    }
    out
}

/// Instances appended one after another; only `clear` frees them.
pub struct BumpInstances<ID, T> {
    buffer: GpuVec<T>,
    drain_cursor: usize,
    phantom: PhantomData<ID>,
}

impl<ID: SlotId, T: Default + Clone> BumpInstances<ID, T> {
    pub closed spec fn buffer(&self) -> GpuVec<T> {
        self.buffer
    }

    /// How many instances earlier drains have already handed out.
    pub closed spec fn drain_cursor(&self) -> int {
        self.drain_cursor as int
    }

    pub open spec fn wf(&self) -> bool {
        &&& self.buffer().wf()
        &&& 0 <= self.drain_cursor() <= self.buffer().spec_len()
    }

    pub fn new(capacity: usize) -> (b: Self)
        ensures
            b.wf(),
            b.buffer()@ == Seq::<T>::empty(),
            b.buffer().capacity() == capacity,
            !b.buffer().has_gpu_buffer(),
            !b.buffer().dirty(),
            !b.buffer().resized(),
            b.drain_cursor() == 0,
    {
        BumpInstances { buffer: GpuVec::new(capacity), drain_cursor: 0, phantom: PhantomData }
    }

    /// How many instances earlier drains have already handed out.
    pub fn drained_count(&self) -> (n: usize)
        ensures
            n == self.drain_cursor(),
    {
        self.drain_cursor
    }

    /// Appends an instance and returns the identifier of its slot.
    pub fn insert(&mut self, data: T) -> (id: ID)
        requires
            old(self).wf(),
            old(self).buffer().can_push(),
        ensures
            final(self).wf(),
            id == ID::spec_from_index(old(self).buffer().spec_len() as usize),
            final(self).buffer()@ == old(self).buffer()@.push(data),
            final(self).buffer().spec_len() == old(self).buffer().spec_len() + 1,
            final(self).buffer().capacity() == old(self).buffer().capacity_after_push(),
            old(self).buffer().push_storage(data, final(self).buffer().storage()),
            final(self).buffer().dirty(),
            final(self).buffer().has_gpu_buffer() == old(self).buffer().has_gpu_buffer(),
            final(self).buffer().gpu_capacity() == old(self).buffer().gpu_capacity(),
            final(self).buffer().resized() == old(self).buffer().resized(),
            final(self).drain_cursor() == old(self).drain_cursor(),
    {
        proof {
            self.buffer.lemma_view();
        }
        self.buffer.push(data);
        proof {
            self.buffer.lemma_view();
        }
        ID::from_index(self.buffer.len() - 1)
    }

    /// Drops every instance and restarts draining from the first slot.
    pub fn clear(&mut self)
        requires
            old(self).wf(),
        ensures
            final(self).wf(),
            final(self).buffer()@ == Seq::<T>::empty(),
            final(self).buffer().spec_len() == 0,
            final(self).buffer().storage() == old(self).buffer().storage(),
            final(self).buffer().dirty() == old(self).buffer().dirty(),
            final(self).buffer().has_gpu_buffer() == old(self).buffer().has_gpu_buffer(),
            final(self).buffer().gpu_capacity() == old(self).buffer().gpu_capacity(),
            final(self).buffer().resized() == old(self).buffer().resized(),
            final(self).drain_cursor() == 0,
    {
        self.buffer.clear();
        self.drain_cursor = 0;
        proof {
            self.buffer.lemma_view();
        }
    }

    pub fn len(&self) -> (n: usize)
        ensures
            n == self.buffer().spec_len(),
    {
        self.buffer.len()
    }

    pub fn is_empty(&self) -> (b: bool)
        ensures
            b == (self.buffer().spec_len() == 0),
    {
        self.buffer.is_empty()
    }

    /// One range over every instance, if there is any.
    pub fn ranges_iter(&self) -> (it: BumpRangesIter)
        ensures
            it.pending() == if self.buffer().spec_len() > 0 {
                Some(u32_range(0, self.buffer().spec_len() as int))
            } else {
                None
            },
    {
        let len = self.buffer.len();
        BumpRangesIter {
            range: if len > 0 {
                Some(0..#[verifier::truncate] (len as u32))
            } else {
                None
            },
        }
    }

    /// One range over the instances inserted since the previous drain, if
    /// there is any; the next drain starts after them.
    pub fn drain_iter(&mut self) -> (it: BumpRangesIter)
        requires
            old(self).wf(),
        ensures
            final(self).wf(),
            final(self).buffer() == old(self).buffer(),
            final(self).drain_cursor() == old(self).buffer().spec_len(),
            it.pending() == if old(self).drain_cursor() < old(self).buffer().spec_len() {
                Some(u32_range(old(self).drain_cursor(), old(self).buffer().spec_len() as int))
            } else {
                None
            },
    {
        let start = self.drain_cursor;
        let end = self.buffer.len();
        self.drain_cursor = end;
        BumpRangesIter {
            range: if start < end {
                Some(#[verifier::truncate] (start as u32)..#[verifier::truncate] (end as u32))
            } else {
                None
            },
        }
    }

    /// See `GpuVec::ensure_capacity`.
    pub fn ensure_capacity(&mut self) -> (plan: CapacityPlan)
        requires
            old(self).wf(),
        ensures
            final(self).wf(),
            plan == old(self).buffer().capacity_plan(),
            final(self).buffer().same_contents(old(self).buffer()),
            final(self).buffer().has_gpu_buffer(),
            final(self).buffer().spec_len() <= final(self).buffer().gpu_capacity(),
            final(self).buffer().gpu_capacity() == if old(self).buffer().needs_new_buffer() {
                old(self).buffer().capacity()
            } else {
                old(self).buffer().gpu_capacity()
            },
            final(self).buffer().resized() == (old(self).buffer().resized()
                || old(self).buffer().needs_new_buffer()),
            final(self).buffer().dirty() == (old(self).buffer().dirty()
                || old(self).buffer().needs_new_buffer()),
            final(self).drain_cursor() == old(self).drain_cursor(),
    {
        self.buffer.ensure_capacity()
    }

    /// See `GpuVec::flush`.
    pub fn flush(&mut self) -> (plan: FlushPlan)
        requires
            old(self).wf(),
        ensures
            final(self).wf(),
            plan == old(self).buffer().flush_plan(),
            final(self).buffer().same_contents(old(self).buffer()),
            final(self).buffer().has_gpu_buffer(),
            final(self).buffer().spec_len() <= final(self).buffer().gpu_capacity(),
            final(self).buffer().gpu_capacity() == if old(self).buffer().needs_new_buffer() {
                old(self).buffer().capacity()
            } else {
                old(self).buffer().gpu_capacity()
            },
            final(self).buffer().resized() == (old(self).buffer().resized()
                || old(self).buffer().needs_new_buffer()),
            !final(self).buffer().dirty(),
            final(self).drain_cursor() == old(self).drain_cursor(),
    {
        self.buffer.flush()
    }

    /// The instances.
    pub fn data(&self) -> (out: &[T])
        requires
            self.wf(),
        ensures
            out@ == self.buffer()@,
    {
        self.buffer.data()
    }

    /// Every stored element, including those beyond the instances.
    pub fn raw_data(&self) -> (out: &[T])
        ensures
            out@ == self.buffer().storage(),
    {
        self.buffer.raw_data()
    }
}

/// Instances in a slot pool, with the list of those inserted since the last
/// drain.
pub struct PoolInstances<ID, T> {
    buffer: GpuPoolBuffer<ID, T>,
    pending: Vec<ID>,
}

impl<ID: SlotId + Copy + PartialEq, T: Default + Clone> PoolInstances<ID, T> {
    pub closed spec fn buffer(&self) -> GpuPoolBuffer<ID, T> {
        self.buffer
    }

    /// The identifiers inserted since the last drain and not removed since.
    pub closed spec fn pending(&self) -> Seq<ID> {
        self.pending@
    }

    pub open spec fn wf(&self) -> bool {
        self.buffer().wf()
    }

    pub fn new(capacity: usize) -> (p: Self)
        ensures
            p.wf(),
            p.buffer().active() == Seq::<ID>::empty(),
            p.buffer().free() == Seq::<ID>::empty(),
            p.buffer().slots() == Seq::<T>::empty(),
            p.buffer().gpu().capacity() == capacity,
            !p.buffer().gpu().has_gpu_buffer(),
            !p.buffer().gpu().dirty(),
            !p.buffer().gpu().resized(),
            p.pending() == Seq::<ID>::empty(),
    {
        PoolInstances { buffer: GpuPoolBuffer::new(capacity), pending: Vec::new() }
    }

    /// Inserts an instance (see `GpuPoolBuffer::insert`) and marks it pending.
    pub fn insert(&mut self, data: T) -> (id: ID)
        requires
            old(self).wf(),
            old(self).buffer().can_insert(),
        ensures
            final(self).wf(),
            id == ID::spec_from_index(old(self).buffer().next_slot() as usize),
            final(self).buffer().active() == old(self).buffer().active().push(id),
            final(self).buffer().gpu().storage()[old(self).buffer().next_slot() as int] == data,
            old(self).buffer().free().len() == 0 ==> {
                &&& final(self).buffer().free() == old(self).buffer().free()
                &&& final(self).buffer().slots() == old(self).buffer().slots().push(data)
                &&& final(self).buffer().gpu().capacity() == old(self).buffer().gpu().capacity_after_push()
                &&& old(self).buffer().gpu().push_storage(data, final(self).buffer().gpu().storage())
            },
            old(self).buffer().free().len() > 0 ==> {
                &&& final(self).buffer().free() == old(self).buffer().free().drop_last()
                &&& final(self).buffer().gpu().storage() == old(self).buffer().gpu().storage().update(
                    old(self).buffer().next_slot() as int,
                    data,
                )
                &&& final(self).buffer().high_water() == old(self).buffer().high_water()
            },
            final(self).buffer().gpu().dirty(),
            final(self).buffer().gpu().has_gpu_buffer() == old(self).buffer().gpu().has_gpu_buffer(),
            final(self).buffer().gpu().gpu_capacity() == old(self).buffer().gpu().gpu_capacity(),
            final(self).buffer().gpu().resized() == old(self).buffer().gpu().resized(),
            final(self).pending() == old(self).pending().push(id),
            old(self).buffer().slots_partitioned() && round_trips::<ID>(
                old(self).buffer().next_slot() as usize,
            ) ==> final(self).buffer().slots_partitioned(),
    {
        let id = self.buffer.insert(data);
        self.pending.push(id);
        id
    }

    /// Removes the instance of `id` (see `GpuPoolBuffer::remove`) and drops
    /// every pending identifier equal to `id`.
    pub fn remove(&mut self, id: ID)
        requires
            old(self).wf(),
            ID::obeys_eq_spec(),
            has_match(old(self).buffer().active(), id),
        ensures
            final(self).wf(),
            final(self).buffer().active() == old(self).buffer().active().remove(
                first_match(old(self).buffer().active(), id),
            ),
            final(self).buffer().free() == insert_by_index(old(self).buffer().free(), id),
            final(self).buffer().gpu() == old(self).buffer().gpu(),
            final(self).pending() == old(self).pending().filter(|p: ID| !p.eq_spec(&id)),
            old(self).buffer().slots_partitioned() && eq_by_index::<ID>() ==> {
                &&& final(self).buffer().slots_partitioned()
                &&& !has_match(final(self).buffer().active(), id)
                &&& !has_match(final(self).pending(), id)
            },
    {
        self.buffer.remove(id);
        let ghost pred = |p: ID| !p.eq_spec(&id);
        let mut kept: Vec<ID> = Vec::new();
        let mut i: usize = 0;
        while i < self.pending.len()
            invariant
                i <= self.pending@.len(),
                self.pending@ == old(self).pending(),
                ID::obeys_eq_spec(),
                pred == (|p: ID| !p.eq_spec(&id)),
                kept@ == self.pending@.subrange(0, i as int).filter(pred),
            decreases self.pending@.len() - i,
        {
            let p = self.pending[i];
            proof {
                assert(self.pending@.subrange(0, i + 1) =~= self.pending@.subrange(0, i as int).push(p));
                self.pending@.subrange(0, i as int).lemma_filter_push(p, pred);
            }
            if p != id {
                kept.push(p);
            }
            i = i + 1;
        }
        proof {
            assert(self.pending@.subrange(0, i as int) =~= self.pending@);
        }
        self.pending = kept;
        proof {
            if old(self).buffer().slots_partitioned() && eq_by_index::<ID>() {
                let pn = self.pending();
                assert forall|j: int| 0 <= j < pn.len() implies !(#[trigger] pn[j]).eq_spec(&id) by {
                    old(self).pending().lemma_filter_pred(pred, j);
                }
            }
        }
    }

    /// Replaces the contents of the slot of `id`, which must be in use.
    pub fn update(&mut self, id: ID, data: T)
        requires
            old(self).wf(),
            ID::obeys_eq_spec(),
            has_match(old(self).buffer().active(), id),
            id.spec_index() < old(self).buffer().gpu().capacity(),
        ensures
            final(self).wf(),
            final(self).buffer().gpu().storage() == old(self).buffer().gpu().storage().update(
                id.spec_index() as int,
                data,
            ),
            final(self).buffer().high_water() == old(self).buffer().high_water(),
            final(self).buffer().active() == old(self).buffer().active(),
            final(self).buffer().free() == old(self).buffer().free(),
            final(self).pending() == old(self).pending(),
    {
        self.buffer.update(id, data);
    }

    /// The number of instances in use.
    pub fn len(&self) -> (n: usize)
        ensures
            n == self.buffer().active().len(),
    {
        self.buffer.len()
    }

    pub fn is_empty(&self) -> (b: bool)
        ensures
            b == (self.buffer().active().len() == 0),
    {
        self.buffer.is_empty()
    }

    /// The runs of slots in use below the high-water mark.
    pub fn ranges_iter(&self) -> (it: PoolRangesIter<ID>)
        requires
            self.wf(),
        ensures
            it.wf(),
            it.free_indices() == indices_of(self.buffer().free()),
            it.free_cursor() == 0,
            it.cursor() == 0,
            it.max_index() == self.buffer().high_water(),
    {
        let free = self.buffer.free_ids_slice();
        let mut copy: Vec<ID> = Vec::new();
        let mut i: usize = 0;
        while i < free.len()
            invariant
                i <= free@.len(),
                copy@ == free@.subrange(0, i as int),
            decreases free@.len() - i,
        {
            copy.push(free[i]);
            i = i + 1;
            proof {
                assert(copy@ =~= free@.subrange(0, i as int));
            }
        }
        proof {
            assert(copy@ =~= free@);
        }
        PoolRangesIter::new(copy, self.buffer.high_water_mark())
    }

    /// Hands out the pending identifiers sorted by slot index, as runs of
    /// consecutive slots; nothing is pending afterwards.
    pub fn drain_iter(&mut self) -> (it: PoolDrainIter<ID>)
        requires
            old(self).wf(),
        ensures
            final(self).wf(),
            final(self).buffer() == old(self).buffer(),
            final(self).pending() == Seq::<ID>::empty(),
            it.wf(),
            it.cursor() == 0,
            it.ids().to_multiset() == old(self).pending().to_multiset(),
            sorted_by_index(it.ids()),
    {
        let mut ids: Vec<ID> = Vec::new();
        std::mem::swap(&mut ids, &mut self.pending);
        let sorted = sort_by_index(ids);
        PoolDrainIter::new(sorted)
    }

    /// See `GpuVec::ensure_capacity`.
    pub fn ensure_capacity(&mut self) -> (plan: CapacityPlan)
        requires
            old(self).wf(),
        ensures
            final(self).wf(),
            plan == old(self).buffer().gpu().capacity_plan(),
            final(self).buffer().active() == old(self).buffer().active(),
            final(self).buffer().free() == old(self).buffer().free(),
            final(self).buffer().gpu().same_contents(old(self).buffer().gpu()),
            final(self).buffer().gpu().has_gpu_buffer(),
            final(self).buffer().high_water() <= final(self).buffer().gpu().gpu_capacity(),
            final(self).pending() == old(self).pending(),
    {
        self.buffer.ensure_capacity()
    }

    /// See `GpuVec::flush`.
    pub fn flush(&mut self) -> (plan: FlushPlan)
        requires
            old(self).wf(),
        ensures
            final(self).wf(),
            plan == old(self).buffer().gpu().flush_plan(),
            final(self).buffer().active() == old(self).buffer().active(),
            final(self).buffer().free() == old(self).buffer().free(),
            final(self).buffer().gpu().same_contents(old(self).buffer().gpu()),
            final(self).buffer().gpu().has_gpu_buffer(),
            !final(self).buffer().gpu().dirty(),
            final(self).pending() == old(self).pending(),
    {
        self.buffer.flush()
    }

    /// The contents of every slot below the high-water mark.
    pub fn data(&self) -> (out: &[T])
        requires
            self.wf(),
        ensures
            out@ == self.buffer().slots(),
    {
        self.buffer.data()
    }

    /// Every stored element, including those beyond the high-water mark.
    pub fn raw_data(&self) -> (out: &[T])
        ensures
            out@ == self.buffer().gpu().storage(),
    {
        self.buffer.raw_data()
    }
    /// Whether `id` is in use.
    pub fn contains(&self, id: ID) -> (b: bool)
        ensures
            ID::obeys_eq_spec() ==> b == has_match(self.buffer().active(), id),
    {
        self.buffer.contains(id)
    }

    /// The identifiers inserted since the last drain and not removed since.
    pub fn pending_ids(&self) -> (out: &[ID])
        ensures
            out@ == self.pending(),
    {
        self.pending.as_slice()
    }
}

} // verus!
