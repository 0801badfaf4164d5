use vstd::prelude::*;

verus! {

/// One drawn segment of a polyline, with the line style (`St`: width, color,
/// transform) in force when it was added.
#[derive(Clone, Copy, Debug)]
pub struct PolylineSegment<P, St> {
    pub from: P,
    pub to: P,
    pub style: St,
}

/// The state of a polyline after a point: its segments and its last point.
pub struct PolylineState<P, St> {
    pub segments: Seq<PolylineSegment<P, St>>,
    pub last_point: Option<P>,
}

/// Adding `point` in style `style`: it is joined to the last point, if any,
/// and becomes the last point.
pub open spec fn point_step<P, St>(s: PolylineState<P, St>, style: St, point: P) -> PolylineState<
    P,
    St,
> {
    PolylineState {
        segments: match s.last_point {
            Some(last) => s.segments.push(PolylineSegment { from: last, to: point, style }),
            None => s.segments,
        },
        last_point: Some(point),
    }
}

/// Adding each of `points` in turn, in style `style`.
pub open spec fn points_steps<P, St>(s: PolylineState<P, St>, style: St, points: Seq<P>) -> PolylineState<
    P,
    St,
>
    decreases points.len(),
{
    if points.len() == 0 {
        s
    } else {
        points_steps(point_step(s, style, points[0]), style, points.drop_first())
    }
}

/// The segments joining consecutive points of `points`.
pub open spec fn chain<P, St>(points: Seq<P>, style: St) -> Seq<PolylineSegment<P, St>> {
    Seq::new(
        (if points.len() == 0 {
            0
        } else {
            points.len() - 1
        }) as nat,
        |i: int| PolylineSegment { from: points[i], to: points[i + 1], style },
    )
}

proof fn lemma_points_steps_from<P, St>(
    s: PolylineState<P, St>,
    style: St,
    points: Seq<P>,
    last: P,
)
    requires
        s.last_point == Some(last),
    ensures
        points_steps(s, style, points).segments == s.segments + chain(seq![last] + points, style),
        points.len() > 0 ==> points_steps(s, style, points).last_point == Some(points.last()),
        points.len() == 0 ==> points_steps(s, style, points).last_point == Some(last),
    decreases points.len(),
{
    if points.len() == 0 {
        assert(chain(seq![last] + points, style) =~= Seq::<PolylineSegment<P, St>>::empty());
    } else {
        let s2 = point_step(s, style, points[0]);
        lemma_points_steps_from(s2, style, points.drop_first(), points[0]);
        let whole = seq![last] + points;
        let tail = seq![points[0]] + points.drop_first();
        assert(tail =~= points);
        assert(s.segments + chain(whole, style) =~= s2.segments + chain(tail, style));
        if points.len() > 1 {
            assert(points.drop_first().last() == points.last());
        }
    }
}

/// Law: adding points one by one to a polyline that has no last point (a new
/// or cleared one) draws exactly the segments joining consecutive points,
/// each in the current style, and leaves the last point as the last point.
pub proof fn law_points_form_a_chain<P, St>(
    segments: Seq<PolylineSegment<P, St>>,
    style: St,
    points: Seq<P>,
)
    ensures
        points_steps(PolylineState { segments, last_point: None }, style, points).segments
            == segments + chain(points, style),
        points.len() > 0 ==> points_steps(
            PolylineState { segments, last_point: None },
            style,
            points,
        ).last_point == Some(points.last()),
{
    let s = PolylineState { segments, last_point: None };
    if points.len() == 0 {
        assert(chain(points, style) =~= Seq::<PolylineSegment<P, St>>::empty());
    } else {
        let s2 = point_step(s, style, points[0]);
        assert(s2.segments == segments);
        lemma_points_steps_from(s2, style, points.drop_first(), points[0]);
        assert(seq![points[0]] + points.drop_first() =~= points);
        if points.len() > 1 {
            assert(points.drop_first().last() == points.last());
        }
    }
}

/// The segments of a polyline being built, the style new segments get, and
/// the point the next point is joined to.
pub struct PolylineResources<P, St> {
    data: Vec<PolylineSegment<P, St>>,
    style: St,
    last_point: Option<P>,
}

impl<P: Copy, St: Copy> PolylineResources<P, St> {
    pub closed spec fn segments(&self) -> Seq<PolylineSegment<P, St>> {
        self.data@
    }

    pub closed spec fn spec_style(&self) -> St {
        self.style
    }

    pub closed spec fn spec_last_point(&self) -> Option<P> {
        self.last_point
    }

    /// The segments and the last point.
    pub open spec fn state(&self) -> PolylineState<P, St> {
        PolylineState { segments: self.segments(), last_point: self.spec_last_point() }
    }

    /// An empty polyline drawn in `style`.
    pub fn new(style: St) -> (r: Self)
        ensures
            r.segments() == Seq::<PolylineSegment<P, St>>::empty(),
            r.spec_style() == style,
            r.spec_last_point() is None,
    {
        PolylineResources { data: Vec::new(), style, last_point: None }
    }

    pub fn len(&self) -> (n: usize)
        ensures
            n == self.segments().len(),
    {
        self.data.len()
    }

    pub fn is_empty(&self) -> (b: bool)
        ensures
            b == (self.segments().len() == 0),
    {
        self.data.len() == 0
    }

    /// Every segment, in the order added.
    pub fn data(&self) -> (out: &[PolylineSegment<P, St>])
        ensures
            out@ == self.segments(),
    {
        self.data.as_slice()
    }

    /// The style new segments get.
    pub fn style(&self) -> (st: St)
        ensures
            st == self.spec_style(),
    {
        self.style
    }

    /// Drops every segment and forgets the last point; the style stays.
    pub fn clear(&mut self)
        ensures
            final(self).segments() == Seq::<PolylineSegment<P, St>>::empty(),
            final(self).spec_last_point() is None,
            final(self).spec_style() == old(self).spec_style(),
    {
        self.data.clear();
        self.last_point = None;
    }

    /// Sets the style of the segments added from now on.
    pub fn set_style(&mut self, style: St)
        ensures
            final(self).spec_style() == style,
            final(self).state() == old(self).state(),
    {
        self.style = style;
    }

    /// Adds the segment from `point1` to `point2`; `point2` becomes the last
    /// point.
    pub fn add_line(&mut self, point1: P, point2: P)
        ensures
            final(self).segments() == old(self).segments().push(
                PolylineSegment { from: point1, to: point2, style: old(self).spec_style() },
            ),
            final(self).spec_last_point() == Some(point2),
            final(self).spec_style() == old(self).spec_style(),
    {
        self.data.push(PolylineSegment { from: point1, to: point2, style: self.style });
        self.last_point = Some(point2);
    }

    /// Adds the outline of the quadrilateral with corners `p1`, `p2`, `p3`,
    /// `p4` in order: four segments, the last one back to `p1`, which becomes
    /// the last point.
    pub fn add_rect(&mut self, p1: P, p2: P, p3: P, p4: P)
        ensures
            final(self).segments() == old(self).segments() + seq![
                PolylineSegment { from: p1, to: p2, style: old(self).spec_style() },
                PolylineSegment { from: p2, to: p3, style: old(self).spec_style() },
                PolylineSegment { from: p3, to: p4, style: old(self).spec_style() },
                PolylineSegment { from: p4, to: p1, style: old(self).spec_style() },
            ],
            final(self).spec_last_point() == Some(p1),
            final(self).spec_style() == old(self).spec_style(),
    {
        self.add_line(p1, p2);
        self.add_line(p2, p3);
        self.add_line(p3, p4);
        self.add_line(p4, p1);
        proof {
            let st = old(self).spec_style();
            assert(self.segments() =~= old(self).segments() + seq![
                PolylineSegment { from: p1, to: p2, style: st },
                PolylineSegment { from: p2, to: p3, style: st },
                PolylineSegment { from: p3, to: p4, style: st },
                PolylineSegment { from: p4, to: p1, style: st },
            ]);
        }
    }

    /// Adds `point`: it is joined to the last point, if any (see
    /// `point_step`).
    pub fn add_point(&mut self, point: P)
        ensures
            final(self).state() == point_step(old(self).state(), old(self).spec_style(), point),
            final(self).spec_style() == old(self).spec_style(),
    {
        if let Some(last_point) = self.last_point {
            self.data.push(PolylineSegment { from: last_point, to: point, style: self.style });
        }
        self.last_point = Some(point);
    }
}

} // verus!
