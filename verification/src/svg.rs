use vstd::prelude::*;

use crate::resources::mesh_2d::Mesh2DGpuPrimitive;

verus! {

/// The packed color of a primitive: red, green and blue in the three high
/// bytes, then the alpha byte.
pub open spec fn packed_color(red: u8, green: u8, blue: u8, alpha: u32) -> int {
    red * 0x100_0000 + green * 0x1_0000 + blue * 0x100 + alpha
}

/// The primitive of transform `transform_idx` with the given color; `alpha`
/// is the opacity already scaled to `0..=255`.
pub fn new_primitive(transform_idx: u32, red: u8, green: u8, blue: u8, alpha: u32) -> (p:
    Mesh2DGpuPrimitive)
    requires
        packed_color(red, green, blue, alpha) <= u32::MAX,
    ensures
        p.transform == transform_idx,
        p.color == packed_color(red, green, blue, alpha),
        p._pad == [0u32, 0u32],
{
    let r = red as u32;
    let g = green as u32;
    let b = blue as u32;
    assert(r << 24u32 == r * 0x100_0000) by (bit_vector)
        requires
            r <= 255,
    ;
    assert(g << 16u32 == g * 0x1_0000) by (bit_vector)
        requires
            g <= 255,
    ;
    assert(b << 8u32 == b * 0x100) by (bit_vector)
        requires
            b <= 255,
    ;
    Mesh2DGpuPrimitive {
        transform: transform_idx,
        color: (r << 24u32) + (g << 16u32) + (b << 8u32) + alpha,
        _pad: [0, 0],
    }
}

/// The paint of a fill or a stroke: its color, and its opacity scaled to
/// `0..=255`.
#[derive(Clone, Copy, Debug, PartialEq, Eq, Structural)]
pub struct Paint {
    pub red: u8,
    pub green: u8,
    pub blue: u8,
    pub alpha: u32,
}

/// The primitive of transform `transform_idx` painted with `paint`.
pub open spec fn paint_primitive(transform_idx: u32, paint: Paint) -> Mesh2DGpuPrimitive {
    Mesh2DGpuPrimitive {
        transform: transform_idx,
        color: packed_color(paint.red, paint.green, paint.blue, paint.alpha) as u32,
        _pad: [0u32, 0u32],
    }
}

/// Where the primitives of one path went: the index of its transform and the
/// indices of its fill and stroke primitives, where it has them.
#[derive(Clone, Copy, Debug, PartialEq, Eq, Structural)]
pub struct PathPrimitives {
    pub transform_idx: u32,
    pub fill: Option<u32>,
    pub stroke: Option<u32>,
}

/// The primitives of a mesh as its paths are visited in order, and the
/// number of transforms collected alongside (the transforms themselves are
/// kept by the caller).
pub struct PrimitiveCollector {
    transforms_len: usize,
    primitives: Vec<Mesh2DGpuPrimitive>,
}

impl PrimitiveCollector {
    pub closed spec fn spec_transforms_len(&self) -> nat {
        self.transforms_len as nat
    }

    pub closed spec fn spec_primitives(&self) -> Seq<Mesh2DGpuPrimitive> {
        self.primitives@
    }

    /// The transform count after a path whose transform differs from the
    /// previous path's (`transform_changed`).
    pub open spec fn transforms_after(&self, transform_changed: bool) -> nat {
        if transform_changed {
            self.spec_transforms_len() + 1
        } else {
            self.spec_transforms_len()
        }
    }

    /// Whether a path can be added: it must have a transform to refer to, and
    /// the transform and primitive indices must stay below `u32::MAX + 1`.
    pub open spec fn can_add(&self, transform_changed: bool, fill: Option<Paint>, stroke: Option<Paint>) -> bool {
        &&& 0 < self.transforms_after(transform_changed) <= u32::MAX
        &&& self.spec_primitives().len() + 2 <= u32::MAX
        &&& self.spec_transforms_len() < usize::MAX
        &&& fill matches Some(p) ==> p.alpha <= 255
        &&& stroke matches Some(p) ==> p.alpha <= 255
    }

    /// No transform and no primitive yet.
    pub fn new() -> (c: Self)
        ensures
            c.spec_transforms_len() == 0,
            c.spec_primitives() == Seq::<Mesh2DGpuPrimitive>::empty(),
    {
        PrimitiveCollector { transforms_len: 0, primitives: Vec::new() }
    }

    pub fn transforms_len(&self) -> (n: usize)
        ensures
            n == self.spec_transforms_len(),
    {
        self.transforms_len
    }

    pub fn primitives(&self) -> (out: &[Mesh2DGpuPrimitive])
        ensures
            out@ == self.spec_primitives(),
    {
        self.primitives.as_slice()
    }

    /// Adds a path. When its transform differs from the previous path's, the
    /// caller appends the transform and the count grows; the path refers to
    /// the last transform. A fill, then a stroke, each add one primitive of
    /// that transform, and their vertices refer to it by its index.
    pub fn add_path(&mut self, transform_changed: bool, fill: Option<Paint>, stroke: Option<Paint>) -> (r: PathPrimitives)
        requires
            old(self).can_add(transform_changed, fill, stroke),
        ensures
            final(self).spec_transforms_len() == old(self).transforms_after(transform_changed),
            r.transform_idx == old(self).transforms_after(transform_changed) - 1,
            final(self).spec_primitives() == old(self).spec_primitives() + (match fill {
                Some(p) => seq![paint_primitive(r.transform_idx, p)],
                None => Seq::empty(),
            }) + (match stroke {
                Some(p) => seq![paint_primitive(r.transform_idx, p)],
                None => Seq::empty(),
            }),
            r.fill == (match fill {
                Some(_) => Some(old(self).spec_primitives().len() as u32),
                None => None::<u32>,
            }),
            r.stroke == (match stroke {
                Some(_) => Some((final(self).spec_primitives().len() - 1) as u32),
                None => None::<u32>,
            }),
    {
        if transform_changed {
            self.transforms_len = self.transforms_len + 1;
        }
        let transform_idx = (self.transforms_len as u32) - 1;
        let ghost before = self.primitives@;
        let fill_idx = match fill {
            Some(p) => {
                self.primitives.push(new_primitive(transform_idx, p.red, p.green, p.blue, p.alpha));
                Some((self.primitives.len() as u32) - 1)
            },
            None => None,
        };
        let ghost mid = self.primitives@;
        let stroke_idx = match stroke {
            Some(p) => {
                self.primitives.push(new_primitive(transform_idx, p.red, p.green, p.blue, p.alpha));
                Some((self.primitives.len() as u32) - 1)
            },
            None => None,
        };
        proof {
            let fs: Seq<Mesh2DGpuPrimitive> = match fill {
                Some(p) => seq![paint_primitive(transform_idx, p)],
                None => Seq::empty(),
            };
            let ss: Seq<Mesh2DGpuPrimitive> = match stroke {
                Some(p) => seq![paint_primitive(transform_idx, p)],
                None => Seq::empty(),
            };
            assert(mid =~= before + fs);
            assert(self.primitives@ =~= before + fs + ss);
        }
        PathPrimitives { transform_idx, fill: fill_idx, stroke: stroke_idx }
    }
}

/// A segment of a path outline.
#[derive(Clone, Copy, Debug)]
pub enum PathSegment<P> {
    MoveTo(P),
    LineTo(P),
    /// A quadratic curve: control point, then end point.
    QuadTo(P, P),
    /// A cubic curve: two control points, then end point.
    CubicTo(P, P, P),
    Close,
}

/// An event of a path as tessellators read it.
#[derive(Clone, Copy, Debug)]
pub enum PathEvent<P> {
    Begin { at: P },
    Line { from: P, to: P },
    Quadratic { from: P, ctrl: P, to: P },
    Cubic { from: P, ctrl1: P, ctrl2: P, to: P },
    End { last: P, first: P, close: bool },
}

/// The state of a path conversion.
pub struct ConvState<P> {
    /// The position of the next segment.
    pub pos: int,
    /// The current point.
    pub prev: P,
    /// The first point of the current sub-path.
    pub first: P,
    /// A sub-path is open and must be ended.
    pub needs_end: bool,
    /// An event to yield before reading on.
    pub deferred: Option<PathEvent<P>>,
}

/// One step of the conversion of `segs` from state `s`: the event yielded
/// and the next state.
///
/// A deferred event comes first. A move starts a sub-path, ending the open
/// one first (then its start is deferred); a line or curve continues from
/// the current point; a close ends the sub-path back at its first point;
/// after the last segment an open sub-path is ended.
pub open spec fn conv_step<P>(segs: Seq<PathSegment<P>>, s: ConvState<P>) -> (
    Option<PathEvent<P>>,
    ConvState<P>,
) {
    if s.deferred is Some {
        (s.deferred, ConvState { deferred: None, ..s })
    } else if 0 <= s.pos < segs.len() {
        let next = ConvState { pos: s.pos + 1, ..s };
        match segs[s.pos] {
            PathSegment::MoveTo(pt) => if s.needs_end {
                (
                    Some(PathEvent::End { last: s.prev, first: s.first, close: false }),
                    ConvState {
                        prev: pt,
                        first: pt,
                        needs_end: false,
                        deferred: Some(PathEvent::Begin { at: pt }),
                        ..next
                    },
                )
            } else {
                (Some(PathEvent::Begin { at: pt }), ConvState { first: pt, needs_end: true, ..next })
            },
            PathSegment::LineTo(pt) => (
                Some(PathEvent::Line { from: s.prev, to: pt }),
                ConvState { prev: pt, needs_end: true, ..next },
            ),
            PathSegment::QuadTo(c, pt) => (
                Some(PathEvent::Quadratic { from: s.prev, ctrl: c, to: pt }),
                ConvState { prev: pt, needs_end: true, ..next },
            ),
            PathSegment::CubicTo(c1, c2, pt) => (
                Some(PathEvent::Cubic { from: s.prev, ctrl1: c1, ctrl2: c2, to: pt }),
                ConvState { prev: pt, needs_end: true, ..next },
            ),
            PathSegment::Close => (
                Some(PathEvent::End { last: s.first, first: s.first, close: true }),
                ConvState { prev: s.first, needs_end: false, ..next },
            ),
        }
    } else if s.needs_end {
        (
            Some(PathEvent::End { last: s.prev, first: s.first, close: false }),
            ConvState { needs_end: false, ..s },
        )
    } else {
        (None, s)
    }
}

/// A measure that every event-yielding step decreases.
pub open spec fn conv_measure<P>(segs: Seq<PathSegment<P>>, s: ConvState<P>) -> int {
    2 * (segs.len() - s.pos) + (if s.deferred is Some { 1int } else { 0 }) + (if s.needs_end {
        1int
    } else {
        0
    })
}

pub proof fn lemma_conv_step_decreases<P>(segs: Seq<PathSegment<P>>, s: ConvState<P>)
    requires
        0 <= s.pos <= segs.len(),
    ensures
        0 <= conv_step(segs, s).1.pos <= segs.len(),
        conv_step(segs, s).0 is Some ==> 0 <= conv_measure(segs, conv_step(segs, s).1) < conv_measure(segs, s),
        conv_step(segs, s).0 is None ==> conv_step(segs, s).1 == s,
{
}

/// Every event the conversion yields from state `s` on, in order.
pub open spec fn conv_events<P>(segs: Seq<PathSegment<P>>, s: ConvState<P>) -> Seq<PathEvent<P>>
    decreases conv_measure(segs, s),
{
    if 0 <= s.pos <= segs.len() {
        match conv_step(segs, s).0 {
            Some(e) => {
                proof {
                    lemma_conv_step_decreases(segs, s);
                }
                seq![e] + conv_events(segs, conv_step(segs, s).1)
            },
            None => Seq::empty(),
        }
    } else {
        Seq::empty()
    }
}

/// Converts a sequence of path segments into tessellator path events.
pub struct PathConvIter<P> {
    segments: Vec<PathSegment<P>>,
    pos: usize,
    prev: P,
    first: P,
    needs_end: bool,
    deferred: Option<PathEvent<P>>,
}

impl<P: Copy> PathConvIter<P> {
    pub closed spec fn segments(&self) -> Seq<PathSegment<P>> {
        self.segments@
    }

    pub closed spec fn state(&self) -> ConvState<P> {
        ConvState {
            pos: self.pos as int,
            prev: self.prev,
            first: self.first,
            needs_end: self.needs_end,
            deferred: self.deferred,
        }
    }

    pub open spec fn wf(&self) -> bool {
        0 <= self.state().pos <= self.segments().len()
    }

    /// The events still to be yielded.
    pub open spec fn remaining(&self) -> Seq<PathEvent<P>> {
        conv_events(self.segments(), self.state())
    }

    /// A conversion of `segments` that starts with `origin` as current and
    /// first point.
    pub fn new(segments: Vec<PathSegment<P>>, origin: P) -> (it: Self)
        ensures
            it.wf(),
            it.segments() == segments@,
            it.state() == (ConvState::<P> {
                pos: 0,
                prev: origin,
                first: origin,
                needs_end: false,
                deferred: None,
            }),
    {
        PathConvIter { segments, pos: 0, prev: origin, first: origin, needs_end: false, deferred: None }
    }

    /// Yields the next event (see `conv_step`).
    pub fn next(&mut self) -> (e: Option<PathEvent<P>>)
        requires
            old(self).wf(),
        ensures
            final(self).wf(),
            final(self).segments() == old(self).segments(),
            (e, final(self).state()) == conv_step(old(self).segments(), old(self).state()),
    {
        if self.deferred.is_some() {
            return self.deferred.take();
        }
        if self.pos < self.segments.len() {
            let seg = self.segments[self.pos];
            self.pos = self.pos + 1;
            match seg {
                PathSegment::MoveTo(pt) => {
                    if self.needs_end {
                        let last = self.prev;
                        let first = self.first;
                        self.needs_end = false;
                        self.prev = pt;
                        self.deferred = Some(PathEvent::Begin { at: pt });
                        self.first = pt;
                        Some(PathEvent::End { last, first, close: false })
                    } else {
                        self.first = pt;
                        self.needs_end = true;
                        Some(PathEvent::Begin { at: pt })
                    }
                },
                PathSegment::LineTo(pt) => {
                    self.needs_end = true;
                    let from = self.prev;
                    self.prev = pt;
                    Some(PathEvent::Line { from, to: pt })
                },
                PathSegment::QuadTo(ctrl, pt) => {
                    self.needs_end = true;
                    let from = self.prev;
                    self.prev = pt;
                    Some(PathEvent::Quadratic { from, ctrl, to: pt })
                },
                PathSegment::CubicTo(ctrl1, ctrl2, pt) => {
                    self.needs_end = true;
                    let from = self.prev;
                    self.prev = pt;
                    Some(PathEvent::Cubic { from, ctrl1, ctrl2, to: pt })
                },
                PathSegment::Close => {
                    self.needs_end = false;
                    self.prev = self.first;
                    Some(PathEvent::End { last: self.prev, first: self.first, close: true })
                },
            }
        } else if self.needs_end {
            self.needs_end = false;
            Some(PathEvent::End { last: self.prev, first: self.first, close: false })
        } else {
            None
        }
    }

    /// Every event still to be yielded, in order.
    pub fn collect_events(&mut self) -> (out: Vec<PathEvent<P>>)
        requires
            old(self).wf(),
        ensures
            final(self).wf(),
            out@ == old(self).remaining(),
    {
        let mut out: Vec<PathEvent<P>> = Vec::new();
        let ghost all = self.remaining();
        loop
            invariant
                self.wf(),
                self.segments() == old(self).segments(),
                all == old(self).remaining(),
                out@ + self.remaining() == all,
            decreases conv_measure(self.segments(), self.state()),
        {
            let ghost before = self.state();
            proof {
                lemma_conv_step_decreases(self.segments(), before);
            }
            match self.next() {
                Some(e) => {
                    proof {
                        assert(conv_events(self.segments(), before) =~= seq![e] + self.remaining());
                    }
                    out.push(e);
                    proof {
                        assert(out@ + self.remaining() =~= all);
                    }
                },
                None => {
                    proof {
                        assert(conv_events(self.segments(), before) =~= Seq::<PathEvent<P>>::empty());
                        assert(out@ =~= all);
                    }
                    return out;
                },
            }
        }
    }
}


/// A line or curve segment.
pub open spec fn draws<P>(seg: PathSegment<P>) -> bool {
    seg is LineTo || seg is QuadTo || seg is CubicTo
}

/// The segments open every sub-path before drawing in it: a move comes
/// first, only a move follows a close, and a move that ends a sub-path still
/// open is followed by a line, a curve or a close (so it neither ends the
/// path nor meets another move).
pub open spec fn segments_well_formed<P>(segs: Seq<PathSegment<P>>) -> bool {
    &&& segs.len() > 0 ==> segs[0] is MoveTo
    &&& forall|i: int|
        0 <= i < segs.len() - 1 && (#[trigger] segs[i]) is Close ==> segs[i + 1] is MoveTo
    &&& forall|i: int|
        0 < i < segs.len() && (#[trigger] segs[i]) is MoveTo && !(segs[i - 1] is Close) ==> i + 1
            < segs.len() && (draws(segs[i + 1]) || segs[i + 1] is Close)
}

/// The events form sub-paths: each opens with `Begin`, has only lines and
/// curves inside and closes with an `End` whose `first` is the point the
/// `Begin` was at. `open` tells whether a sub-path that started at `start` is
/// open before the first event.
pub open spec fn well_bracketed<P>(evs: Seq<PathEvent<P>>, open: bool, start: P) -> bool
    decreases evs.len(),
{
    if evs.len() == 0 {
        !open
    } else {
        match evs[0] {
            PathEvent::Begin { at } => !open && well_bracketed(evs.drop_first(), true, at),
            PathEvent::End { last, first, close } => open && first == start && well_bracketed(
                evs.drop_first(),
                false,
                start,
            ),
            _ => open && well_bracketed(evs.drop_first(), true, start),
        }
    }
}

/// The state of a conversion that follows well-formed segments.
pub open spec fn conv_inv<P>(segs: Seq<PathSegment<P>>, s: ConvState<P>) -> bool {
    &&& 0 <= s.pos <= segs.len()
    &&& segments_well_formed(segs)
    &&& s.deferred is Some ==> {
        &&& s.deferred == Some(PathEvent::Begin { at: s.first })
        &&& !s.needs_end
        &&& 0 < s.pos < segs.len()
        &&& segs[s.pos - 1] is MoveTo
        &&& draws(segs[s.pos]) || segs[s.pos] is Close
    }
    &&& s.needs_end ==> 0 < s.pos && !(segs[s.pos - 1] is Close)
    &&& (s.deferred is None && !s.needs_end && 0 < s.pos < segs.len()) ==> !draws(
        segs[s.pos - 1],
    )
    &&& (s.deferred is None && !s.needs_end && 0 < s.pos < segs.len() && segs[s.pos
        - 1] is MoveTo) ==> (draws(segs[s.pos]) || segs[s.pos] is Close)
}

/// Whether a sub-path is open in the events already yielded: one is being
/// drawn, or a move has just begun one whose first line, curve or close is
/// still to come.
pub open spec fn conv_open<P>(segs: Seq<PathSegment<P>>, s: ConvState<P>) -> bool {
    &&& s.deferred is None
    &&& s.needs_end || (0 < s.pos < segs.len() && segs[s.pos - 1] is MoveTo)
}

proof fn lemma_bracketed_cons<P>(e: PathEvent<P>, rest: Seq<PathEvent<P>>, open: bool, start: P)
    ensures
        well_bracketed(seq![e] + rest, open, start) == match e {
            PathEvent::Begin { at } => !open && well_bracketed(rest, true, at),
            PathEvent::End { last, first, close } => open && first == start && well_bracketed(
                rest,
                false,
                start,
            ),
            _ => open && well_bracketed(rest, true, start),
        },
{
    let evs = seq![e] + rest;
    assert(evs.drop_first() =~= rest);
    assert(evs[0] == e);
}

proof fn lemma_bracketed_closed_start<P>(evs: Seq<PathEvent<P>>, a: P, b: P)
    requires
        well_bracketed(evs, false, a),
    ensures
        well_bracketed(evs, false, b),
{
}

proof fn lemma_conv_step_inv<P>(segs: Seq<PathSegment<P>>, s: ConvState<P>)
    requires
        conv_inv(segs, s),
    ensures
        conv_inv(segs, conv_step(segs, s).1),
{
    if s.deferred is None && 0 <= s.pos < segs.len() {
        let seg = segs[s.pos];
        if seg is MoveTo && s.needs_end {
            assert(s.pos + 1 < segs.len() && (draws(segs[s.pos + 1]) || segs[s.pos + 1] is Close));
        }
    }
}

proof fn lemma_conv_step_bracketed<P>(
    segs: Seq<PathSegment<P>>,
    s: ConvState<P>,
    rest: Seq<PathEvent<P>>,
)
    requires
        conv_inv(segs, s),
        conv_step(segs, s).0 is Some,
        well_bracketed(rest, conv_open(segs, conv_step(segs, s).1), conv_step(segs, s).1.first),
    ensures
        well_bracketed(seq![conv_step(segs, s).0->0] + rest, conv_open(segs, s), s.first),
{
    let (e, s2) = conv_step(segs, s);
    lemma_bracketed_cons(e->0, rest, conv_open(segs, s), s.first);
    if s.deferred is None && 0 <= s.pos < segs.len() && segs[s.pos] is MoveTo && s.needs_end {
        lemma_bracketed_closed_start(rest, s2.first, s.first);
    }
}

proof fn lemma_conv_bracketed<P>(segs: Seq<PathSegment<P>>, s: ConvState<P>)
    requires
        conv_inv(segs, s),
    ensures
        well_bracketed(conv_events(segs, s), conv_open(segs, s), s.first),
    decreases conv_measure(segs, s),
{
    lemma_conv_step_decreases(segs, s);
    let (e, s2) = conv_step(segs, s);
    if e is Some {
        lemma_conv_step_inv(segs, s);
        lemma_conv_bracketed(segs, s2);
        lemma_conv_step_bracketed(segs, s, conv_events(segs, s2));
        assert(conv_events(segs, s) == seq![e->0] + conv_events(segs, s2));
    } else {
        assert(conv_events(segs, s) =~= Seq::<PathEvent<P>>::empty());
        assert(!conv_open(segs, s));
    }
}

/// The number of `Begin` events.
pub open spec fn count_begins<P>(evs: Seq<PathEvent<P>>) -> nat
    decreases evs.len(),
{
    if evs.len() == 0 {
        0
    } else {
        (if evs[0] is Begin {
            1nat
        } else {
            0nat
        }) + count_begins(evs.drop_first())
    }
}

/// The number of `End` events.
pub open spec fn count_ends<P>(evs: Seq<PathEvent<P>>) -> nat
    decreases evs.len(),
{
    if evs.len() == 0 {
        0
    } else {
        (if evs[0] is End {
            1nat
        } else {
            0nat
        }) + count_ends(evs.drop_first())
    }
}

/// The number of `End` events that close their sub-path.
pub open spec fn count_closing_ends<P>(evs: Seq<PathEvent<P>>) -> nat
    decreases evs.len(),
{
    if evs.len() == 0 {
        0
    } else {
        (if evs[0] matches PathEvent::End { close, .. } && close {
            1nat
        } else {
            0nat
        }) + count_closing_ends(evs.drop_first())
    }
}

/// The number of moves among the segments from position `pos` on.
pub open spec fn count_moves<P>(segs: Seq<PathSegment<P>>, pos: int) -> nat
    decreases segs.len() - pos,
{
    if 0 <= pos < segs.len() {
        (if segs[pos] is MoveTo {
            1nat
        } else {
            0nat
        }) + count_moves(segs, pos + 1)
    } else {
        0
    }
}

/// The number of closes among the segments from position `pos` on.
pub open spec fn count_closes<P>(segs: Seq<PathSegment<P>>, pos: int) -> nat
    decreases segs.len() - pos,
{
    if 0 <= pos < segs.len() {
        (if segs[pos] is Close {
            1nat
        } else {
            0nat
        }) + count_closes(segs, pos + 1)
    } else {
        0
    }
}

proof fn lemma_counts_cons<P>(e: PathEvent<P>, rest: Seq<PathEvent<P>>)
    ensures
        count_begins(seq![e] + rest) == (if e is Begin {
            1nat
        } else {
            0nat
        }) + count_begins(rest),
        count_ends(seq![e] + rest) == (if e is End {
            1nat
        } else {
            0nat
        }) + count_ends(rest),
        count_closing_ends(seq![e] + rest) == (if e matches PathEvent::End { close, .. }
            && close {
            1nat
        } else {
            0nat
        }) + count_closing_ends(rest),
{
    let evs = seq![e] + rest;
    assert(evs.drop_first() =~= rest);
    assert(evs[0] == e);
}

proof fn lemma_conv_counts<P>(segs: Seq<PathSegment<P>>, s: ConvState<P>)
    requires
        0 <= s.pos <= segs.len(),
        s.deferred is Some ==> s.deferred->0 is Begin,
    ensures
        count_begins(conv_events(segs, s)) == count_moves(segs, s.pos) + (if s.deferred is Some {
            1nat
        } else {
            0nat
        }),
        count_closing_ends(conv_events(segs, s)) == count_closes(segs, s.pos),
    decreases conv_measure(segs, s),
{
    lemma_conv_step_decreases(segs, s);
    let (e, s2) = conv_step(segs, s);
    if e is Some {
        lemma_conv_counts(segs, s2);
        lemma_counts_cons(e->0, conv_events(segs, s2));
        assert(conv_events(segs, s) == seq![e->0] + conv_events(segs, s2));
    } else {
        assert(conv_events(segs, s) =~= Seq::<PathEvent<P>>::empty());
    }
}

/// Law: converting any segments from scratch yields one `Begin` per move and
/// one closing `End` per close.
pub proof fn law_conversion_counts<P>(segs: Seq<PathSegment<P>>, origin: P)
    ensures
        count_begins(
            conv_events(
                segs,
                ConvState { pos: 0, prev: origin, first: origin, needs_end: false, deferred: None },
            ),
        ) == count_moves(segs, 0),
        count_closing_ends(
            conv_events(
                segs,
                ConvState { pos: 0, prev: origin, first: origin, needs_end: false, deferred: None },
            ),
        ) == count_closes(segs, 0),
{
    lemma_conv_counts(
        segs,
        ConvState { pos: 0, prev: origin, first: origin, needs_end: false, deferred: None },
    );
}

proof fn lemma_bracketed_counts<P>(evs: Seq<PathEvent<P>>, open: bool, start: P)
    requires
        well_bracketed(evs, open, start),
    ensures
        count_begins(evs) + (if open {
            1nat
        } else {
            0nat
        }) == count_ends(evs),
        evs.len() > 0 ==> evs.last() is End,
    decreases evs.len(),
{
    if evs.len() > 0 {
        let rest = evs.drop_first();
        assert(evs =~= seq![evs[0]] + rest);
        lemma_counts_cons(evs[0], rest);
        match evs[0] {
            PathEvent::Begin { at } => lemma_bracketed_counts(rest, true, at),
            PathEvent::End { .. } => lemma_bracketed_counts(rest, false, start),
            _ => lemma_bracketed_counts(rest, true, start),
        }
        if rest.len() > 0 {
            assert(evs.last() == rest.last());
        }
    }
}

/// Where a line or curve event ends.
pub open spec fn draw_end<P>(e: PathEvent<P>) -> Option<P> {
    match e {
        PathEvent::Line { to, .. } => Some(to),
        PathEvent::Quadratic { to, .. } => Some(to),
        PathEvent::Cubic { to, .. } => Some(to),
        _ => None,
    }
}

/// Where a line or curve event starts.
pub open spec fn draw_start<P>(e: PathEvent<P>) -> Option<P> {
    match e {
        PathEvent::Line { from, .. } => Some(from),
        PathEvent::Quadratic { from, .. } => Some(from),
        PathEvent::Cubic { from, .. } => Some(from),
        _ => None,
    }
}

/// Event `e` continues from point `p`: a line or curve starts at `p`, and an
/// `End` that does not close names `p` as its last point.
pub open spec fn continues_from<P>(e: PathEvent<P>, p: P) -> bool {
    &&& draw_start(e) is Some ==> draw_start(e)->0 == p
    &&& match e {
        PathEvent::End { last, close, .. } => !close ==> last == p,
        _ => true,
    }
}

/// Every event continues from where the line or curve before it, if any,
/// ended; `cur` is where the event before `evs` ended.
pub open spec fn joined<P>(evs: Seq<PathEvent<P>>, cur: Option<P>) -> bool
    decreases evs.len(),
{
    if evs.len() == 0 {
        true
    } else {
        &&& cur is Some ==> continues_from(evs[0], cur->0)
        &&& joined(evs.drop_first(), draw_end(evs[0]))
    }
}

proof fn lemma_conv_joined<P>(segs: Seq<PathSegment<P>>, s: ConvState<P>, cur: Option<P>)
    requires
        0 <= s.pos <= segs.len(),
        s.deferred is Some ==> s.deferred->0 is Begin,
        cur is Some ==> s.deferred is None && s.prev == cur->0,
    ensures
        joined(conv_events(segs, s), cur),
    decreases conv_measure(segs, s),
{
    lemma_conv_step_decreases(segs, s);
    let (e, s2) = conv_step(segs, s);
    if e is Some {
        let ev = e->0;
        lemma_conv_joined(segs, s2, draw_end(ev));
        let evs = conv_events(segs, s);
        assert(evs == seq![ev] + conv_events(segs, s2));
        assert(evs.drop_first() =~= conv_events(segs, s2));
        assert(evs[0] == ev);
    } else {
        assert(conv_events(segs, s) =~= Seq::<PathEvent<P>>::empty());
    }
}

proof fn lemma_joined_index<P>(evs: Seq<PathEvent<P>>, cur: Option<P>)
    requires
        joined(evs, cur),
    ensures
        forall|i: int|
            0 <= i && i + 1 < evs.len() && (#[trigger] draw_end(evs[i])) is Some
                ==> continues_from(evs[i + 1], draw_end(evs[i])->0),
    decreases evs.len(),
{
    if evs.len() > 0 {
        let rest = evs.drop_first();
        lemma_joined_index(rest, draw_end(evs[0]));
        assert forall|i: int|
            0 <= i && i + 1 < evs.len() && (#[trigger] draw_end(evs[i])) is Some
                implies continues_from(evs[i + 1], draw_end(evs[i])->0) by {
            assert(evs[i + 1] == rest[i]);
            if i > 0 {
                assert(evs[i] == rest[i - 1]);
            }
        }
    }
}

/// Law: in the conversion of any segments, every event that follows a line
/// or curve continues from where it ended: the next line or curve starts
/// there, and an `End` that does not close names it as the last point.
pub proof fn law_conversion_joins_segments<P>(segs: Seq<PathSegment<P>>, origin: P)
    ensures
        ({
            let evs = conv_events(
                segs,
                ConvState { pos: 0, prev: origin, first: origin, needs_end: false, deferred: None },
            );
            forall|i: int|
                0 <= i && i + 1 < evs.len() && (#[trigger] draw_end(evs[i])) is Some
                    ==> continues_from(evs[i + 1], draw_end(evs[i])->0)
        }),
{
    let s = ConvState { pos: 0, prev: origin, first: origin, needs_end: false, deferred: None };
    lemma_conv_joined(segs, s, None);
    lemma_joined_index(conv_events(segs, s), None);
}

/// Law: converting well-formed segments from scratch yields complete
/// sub-paths, each opened by `Begin` and closed by an `End` that names the
/// point the sub-path began at; there are as many `End` events as moves, and
/// the last event is an `End`.
pub proof fn law_conversion_is_bracketed<P>(segs: Seq<PathSegment<P>>, origin: P)
    requires
        segments_well_formed(segs),
    ensures
        well_bracketed(
            conv_events(
                segs,
                ConvState { pos: 0, prev: origin, first: origin, needs_end: false, deferred: None },
            ),
            false,
            origin,
        ),
        count_ends(
            conv_events(
                segs,
                ConvState { pos: 0, prev: origin, first: origin, needs_end: false, deferred: None },
            ),
        ) == count_moves(segs, 0),
        conv_events(
            segs,
            ConvState { pos: 0, prev: origin, first: origin, needs_end: false, deferred: None },
        ).len() > 0 ==> conv_events(
            segs,
            ConvState { pos: 0, prev: origin, first: origin, needs_end: false, deferred: None },
        ).last() is End,
{
    let s = ConvState { pos: 0, prev: origin, first: origin, needs_end: false, deferred: None };
    assert(conv_inv(segs, s));
    lemma_conv_bracketed(segs, s);
    lemma_bracketed_counts(conv_events(segs, s), false, origin);
    lemma_conv_counts(segs, s);
}

/// The segment that a line or curve event draws, with the control and end
/// points the event carries.
pub open spec fn drawn_segment<P>(e: PathEvent<P>) -> Option<PathSegment<P>> {
    match e {
        PathEvent::Line { to, .. } => Some(PathSegment::LineTo(to)),
        PathEvent::Quadratic { ctrl, to, .. } => Some(PathSegment::QuadTo(ctrl, to)),
        PathEvent::Cubic { ctrl1, ctrl2, to, .. } => Some(PathSegment::CubicTo(ctrl1, ctrl2, to)),
        _ => None,
    }
}

/// The segments that the line and curve events of `evs` draw, in order.
pub open spec fn drawn_segments<P>(evs: Seq<PathEvent<P>>) -> Seq<PathSegment<P>>
    decreases evs.len(),
{
    if evs.len() == 0 {
        Seq::empty()
    } else {
        (match drawn_segment(evs[0]) {
            Some(g) => seq![g],
            None => Seq::empty(),
        }) + drawn_segments(evs.drop_first())
    }
}

/// The line and curve segments of `segs` from position `pos` on, in order.
pub open spec fn drawing_segments<P>(segs: Seq<PathSegment<P>>, pos: int) -> Seq<PathSegment<P>>
    decreases segs.len() - pos,
{
    if 0 <= pos < segs.len() {
        (if draws(segs[pos]) {
            seq![segs[pos]]
        } else {
            Seq::empty()
        }) + drawing_segments(segs, pos + 1)
    } else {
        Seq::empty()
    }
}

proof fn lemma_drawn_cons<P>(e: PathEvent<P>, rest: Seq<PathEvent<P>>)
    ensures
        drawn_segments(seq![e] + rest) == (match drawn_segment(e) {
            Some(g) => seq![g],
            None => Seq::empty(),
        }) + drawn_segments(rest),
{
    let evs = seq![e] + rest;
    assert(evs.drop_first() =~= rest);
    assert(evs[0] == e);
}

proof fn lemma_conv_draws<P>(segs: Seq<PathSegment<P>>, s: ConvState<P>)
    requires
        0 <= s.pos <= segs.len(),
        s.deferred is Some ==> s.deferred->0 is Begin,
    ensures
        drawn_segments(conv_events(segs, s)) == drawing_segments(segs, s.pos),
    decreases conv_measure(segs, s),
{
    lemma_conv_step_decreases(segs, s);
    let (e, s2) = conv_step(segs, s);
    if e is Some {
        lemma_conv_draws(segs, s2);
        lemma_drawn_cons(e->0, conv_events(segs, s2));
        assert(conv_events(segs, s) == seq![e->0] + conv_events(segs, s2));
        if s.deferred is None && s.pos < segs.len() {
            assert(drawing_segments(segs, s.pos) == (if draws(segs[s.pos]) {
                seq![segs[s.pos]]
            } else {
                Seq::empty()
            }) + drawing_segments(segs, s.pos + 1));
            if draws(segs[s.pos]) {
                assert(drawing_segments(segs, s.pos) =~= seq![segs[s.pos]] + drawing_segments(
                    segs,
                    s.pos + 1,
                ));
            } else {
                assert(drawing_segments(segs, s.pos) =~= drawing_segments(segs, s.pos + 1));
            }
        }
    } else {
        assert(conv_events(segs, s) =~= Seq::<PathEvent<P>>::empty());
    }
}

/// Law: converting any segments draws exactly their lines and curves, in
/// order and with their own points: each `LineTo(pt)` gives a `Line` to
/// `pt`, each `QuadTo(c, pt)` a `Quadratic` with control point `c` to `pt`,
/// and each `CubicTo(c1, c2, pt)` a `Cubic` with control points `c1` then
/// `c2` to `pt`, whatever comes before them; no other event draws.
pub proof fn law_conversion_draws_each_segment<P>(segs: Seq<PathSegment<P>>, origin: P)
    ensures
        drawn_segments(
            conv_events(
                segs,
                ConvState { pos: 0, prev: origin, first: origin, needs_end: false, deferred: None },
            ),
        ) == drawing_segments(segs, 0),
{
    lemma_conv_draws(
        segs,
        ConvState { pos: 0, prev: origin, first: origin, needs_end: false, deferred: None },
    );
}

/// A closing `End` ends at the first point of its sub-path.
pub open spec fn closes_at_first<P>(e: PathEvent<P>) -> bool {
    match e {
        PathEvent::End { last, first, close } => close ==> last == first,
        _ => true,
    }
}

proof fn lemma_conv_closes_at_first<P>(segs: Seq<PathSegment<P>>, s: ConvState<P>)
    requires
        0 <= s.pos <= segs.len(),
        s.deferred is Some ==> s.deferred->0 is Begin,
    ensures
        forall|i: int|
            0 <= i < conv_events(segs, s).len() ==> closes_at_first(
                #[trigger] conv_events(segs, s)[i],
            ),
    decreases conv_measure(segs, s),
{
    lemma_conv_step_decreases(segs, s);
    let (e, s2) = conv_step(segs, s);
    if e is Some {
        lemma_conv_closes_at_first(segs, s2);
        let evs = conv_events(segs, s);
        let rest = conv_events(segs, s2);
        assert(evs == seq![e->0] + rest);
        assert forall|i: int| 0 <= i < evs.len() implies closes_at_first(#[trigger] evs[i]) by {
            if i > 0 {
                assert(evs[i] == rest[i - 1]);
            }
        }
    } else {
        assert(conv_events(segs, s) =~= Seq::<PathEvent<P>>::empty());
    }
}

/// Law: in the conversion of any segments, every `End` that closes its
/// sub-path (one per `Close` segment) names the sub-path's first point as its
/// last point: the outline returns to where it began.
pub proof fn law_closing_end_returns_to_first<P>(segs: Seq<PathSegment<P>>, origin: P)
    ensures
        ({
            let evs = conv_events(
                segs,
                ConvState { pos: 0, prev: origin, first: origin, needs_end: false, deferred: None },
            );
            forall|i: int| 0 <= i < evs.len() ==> closes_at_first(#[trigger] evs[i])
        }),
{
    lemma_conv_closes_at_first(
        segs,
        ConvState { pos: 0, prev: origin, first: origin, needs_end: false, deferred: None },
    );
}

} // verus!
