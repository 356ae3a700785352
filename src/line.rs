//! A cursor over every point of a set of tracks: track after track, segment
//! after segment, point after point.
use vstd::prelude::*;

verus! {

/// The sequences of `s`, one after another.
pub open spec fn flat<A>(s: Seq<Seq<A>>) -> Seq<A>
    decreases s.len(),
{
    if s.len() == 0 {
        Seq::empty()
    } else {
        flat(s.drop_last()) + s.last()
    }
}

/// The points of one track, segment after segment.
pub open spec fn track_points<P>(track: Vec<Vec<P>>) -> Seq<P> {
    flat(track@.map_values(|seg: Vec<P>| seg@))
}

/// The points of each track, as sequences.
pub open spec fn tracks_points<P>(tracks: Seq<Vec<Vec<P>>>) -> Seq<Seq<P>> {
    tracks.map_values(|t: Vec<Vec<P>>| track_points(t))
}

/// Every point of `tracks`, in order.
pub open spec fn all_points<P>(tracks: Seq<Vec<Vec<P>>>) -> Seq<P> {
    flat(tracks_points(tracks))
}

proof fn lemma_flat_take_step<A>(s: Seq<Seq<A>>, k: int)
    requires
        0 <= k < s.len(),
    ensures
        flat(s.take(k + 1)) == flat(s.take(k)) + s[k],
{
    assert(s.take(k + 1).drop_last() =~= s.take(k));
}

proof fn lemma_flat_prefix<A>(s: Seq<Seq<A>>, k: int)
    requires
        0 <= k <= s.len(),
    ensures
        flat(s.take(k)).len() <= flat(s).len(),
        forall|i: int| 0 <= i < flat(s.take(k)).len() ==> flat(s)[i] == #[trigger] flat(s.take(k))[i],
    decreases s.len() - k,
{
    if k == s.len() {
        assert(s.take(k) =~= s);
    } else {
        lemma_flat_prefix(s, k + 1);
        lemma_flat_take_step(s, k);
        assert forall|i: int| 0 <= i < flat(s.take(k)).len() implies flat(s)[i] == #[trigger] flat(s.take(k))[i] by {
            assert(flat(s.take(k + 1))[i] == flat(s.take(k))[i]);
        }
    }
}

/// Position `p` of sequence `k` is position `flat(s.take(k)).len() + p` of
/// the whole.
proof fn lemma_flat_index<A>(s: Seq<Seq<A>>, k: int, p: int)
    requires
        0 <= k < s.len(),
        0 <= p < s[k].len(),
    ensures
        flat(s.take(k)).len() + p < flat(s).len(),
        flat(s)[flat(s.take(k)).len() + p] == s[k][p],
{
    lemma_flat_take_step(s, k);
    lemma_flat_prefix(s, k + 1);
    assert(flat(s.take(k + 1))[flat(s.take(k)).len() + p] == s[k][p]);
}

/// A cursor over the points of `tracks`.
pub struct Line<'a, P> {
    tracks: &'a Vec<Vec<Vec<P>>>,
    current_track: usize,
    current_segment: usize,
    current_point: usize,
}

impl<'a, P> Line<'a, P> {
    pub closed spec fn tracks(&self) -> Seq<Vec<Vec<P>>> {
        self.tracks@
    }

    /// How many points the cursor has handed out.
    pub closed spec fn position(&self) -> int {
        let done = tracks_points(self.tracks@).take(self.current_track as int);
        if self.current_track < self.tracks@.len() {
            let segs = self.tracks@[self.current_track as int]@.map_values(|seg: Vec<P>| seg@);
            flat(done).len() + flat(segs.take(self.current_segment as int)).len() + self.current_point
        } else {
            flat(done).len() as int
        }
    }

    pub closed spec fn wf(&self) -> bool {
        &&& self.current_track <= self.tracks@.len()
        &&& self.current_track < self.tracks@.len() ==> {
            let track = self.tracks@[self.current_track as int];
            &&& self.current_segment <= track@.len()
            &&& self.current_segment < track@.len() ==> self.current_point <= track@[self.current_segment as int]@.len()
            &&& self.current_segment == track@.len() ==> self.current_point == 0
        }
        &&& self.current_track == self.tracks@.len() ==> self.current_segment == 0 && self.current_point == 0
    }

    pub fn new(tracks: &'a Vec<Vec<Vec<P>>>) -> (l: Self)
        ensures
            l.wf(),
            l.tracks() == tracks@,
            l.position() == 0,
    {
        let l = Line { tracks, current_track: 0, current_segment: 0, current_point: 0 };
        proof {
            assert(tracks_points(tracks@).take(0) =~= Seq::<Seq<P>>::empty());
            if tracks@.len() > 0 {
                let segs = tracks@[0]@.map_values(|seg: Vec<P>| seg@);
                assert(segs.take(0) =~= Seq::<Seq<P>>::empty());
            }
        }
        l
    }

    /// The next point, or `None` once every point has been handed out.
    pub fn next(&mut self) -> (r: Option<&'a P>)
        requires
            old(self).wf(),
        ensures
            final(self).wf(),
            final(self).tracks() == old(self).tracks(),
            0 <= old(self).position() <= all_points(old(self).tracks()).len(),
            r matches Some(p) ==> old(self).position() < all_points(old(self).tracks()).len()
                && *p == all_points(old(self).tracks())[old(self).position()]
                && final(self).position() == old(self).position() + 1,
            r is None ==> old(self).position() == all_points(old(self).tracks()).len()
                && final(self).position() == old(self).position(),
    {
        let ghost start = self.position();
        let ghost tp = tracks_points(self.tracks@);
        proof {
            self.lemma_position_bounds();
        }
        while self.current_track < self.tracks.len()
            invariant
                self.wf(),
                self.tracks@ == old(self).tracks@,
                tp == tracks_points(self.tracks@),
                self.position() == start,
                start == old(self).position(),
                0 <= start <= all_points(self.tracks@).len(),
            decreases self.tracks@.len() - self.current_track, if self.current_track < self.tracks@.len() {
                self.tracks@[self.current_track as int]@.len() - self.current_segment
            } else {
                0
            },
        {
            let tracks: &'a Vec<Vec<Vec<P>>> = self.tracks;
            let track = &tracks[self.current_track];
            let ghost t = self.current_track as int;
            let ghost segs = track@.map_values(|seg: Vec<P>| seg@);
            if self.current_segment < track.len() {
                let segment = &track[self.current_segment];
                if self.current_point < segment.len() {
                    let point = &segment[self.current_point];
                    proof {
                        let s = self.current_segment as int;
                        let p = self.current_point as int;
                        assert(tp[t] == flat(segs));
                        lemma_flat_index(segs, s, p);
                        lemma_flat_index(tp, t, flat(segs.take(s)).len() + p);
                    }
                    self.current_point = self.current_point + 1;
                    return Some(point);
                } else {
                    proof {
                        lemma_flat_take_step(segs, self.current_segment as int);
                    }
                    self.current_segment = self.current_segment + 1;
                    self.current_point = 0;
                    proof {
                        if self.current_segment == track@.len() {
                            assert(segs.take(self.current_segment as int) =~= segs);
                        }
                    }
                }
            } else {
                proof {
                    assert(segs.take(self.current_segment as int) =~= segs);
                    lemma_flat_take_step(tp, t);
                    assert(tp[t] == flat(segs));
                }
                self.current_track = self.current_track + 1;
                self.current_segment = 0;
                self.current_point = 0;
                proof {
                    if self.current_track < self.tracks@.len() {
                        let next = self.tracks@[self.current_track as int]@.map_values(|seg: Vec<P>| seg@);
                        assert(next.take(0) =~= Seq::<Seq<P>>::empty());
                    }
                }
            }
        }
        proof {
            assert(tp.take(self.current_track as int) =~= tp);
        }
        None
    }

    proof fn lemma_position_bounds(&self)
        requires
            self.wf(),
        ensures
            0 <= self.position() <= all_points(self.tracks@).len(),
    {
        let tp = tracks_points(self.tracks@);
        let t = self.current_track as int;
        if t < self.tracks@.len() {
            let segs = self.tracks@[t]@.map_values(|seg: Vec<P>| seg@);
            let s = self.current_segment as int;
            lemma_flat_take_step(tp, t);
            lemma_flat_prefix(tp, t + 1);
            lemma_flat_prefix(segs, s);
            assert(tp[t] == flat(segs));
            if s < segs.len() {
                lemma_flat_take_step(segs, s);
                lemma_flat_prefix(segs, s + 1);
            }
        } else {
            assert(tp.take(t) =~= tp);
        }
    }
}

} // verus!
