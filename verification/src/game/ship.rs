use vstd::prelude::*;

use crate::game::point::{copy_points, Point};
use crate::game::rotation::Rotation;

verus! {

// ---------------------------------------------------------------------------
// Extremes of a shape
// ---------------------------------------------------------------------------

/// Smallest `x` among the points of a non-empty shape.
pub open spec fn min_x(s: Seq<Point>) -> int
    recommends
        s.len() > 0,
    decreases s.len(),
{
    if s.len() <= 1 {
        s[0].x as int
    } else {
        let m = min_x(s.drop_last());
        if s.last().x < m {
            s.last().x as int
        } else {
            m
        }
    }
}

/// Largest `x` among the points of a non-empty shape.
pub open spec fn max_x(s: Seq<Point>) -> int
    recommends
        s.len() > 0,
    decreases s.len(),
{
    if s.len() <= 1 {
        s[0].x as int
    } else {
        let m = max_x(s.drop_last());
        if s.last().x > m {
            s.last().x as int
        } else {
            m
        }
    }
}

/// Smallest `y` among the points of a non-empty shape.
pub open spec fn min_y(s: Seq<Point>) -> int
    recommends
        s.len() > 0,
    decreases s.len(),
{
    if s.len() <= 1 {
        s[0].y as int
    } else {
        let m = min_y(s.drop_last());
        if s.last().y < m {
            s.last().y as int
        } else {
            m
        }
    }
}

/// Largest `y` among the points of a non-empty shape.
pub open spec fn max_y(s: Seq<Point>) -> int
    recommends
        s.len() > 0,
    decreases s.len(),
{
    if s.len() <= 1 {
        s[0].y as int
    } else {
        let m = max_y(s.drop_last());
        if s.last().y > m {
            s.last().y as int
        } else {
            m
        }
    }
}

/// `min_x` is a lower bound and is attained.
pub proof fn lemma_min_x(s: Seq<Point>)
    requires
        s.len() > 0,
    ensures
        forall|i: int| 0 <= i < s.len() ==> min_x(s) <= s[i].x,
        exists|i: int| 0 <= i < s.len() && min_x(s) == s[i].x,
    decreases s.len(),
{
    if s.len() <= 1 {
        assert(0 <= 0 < s.len() && min_x(s) == s[0].x);
    } else {
        let t = s.drop_last();
        lemma_min_x(t);
        assert forall|i: int| 0 <= i < s.len() implies min_x(s) <= s[i].x by {
            if i < s.len() - 1 {
                assert(s[i] == t[i]);
            }
        }
        if s.last().x < min_x(t) {
            assert(min_x(s) == s[s.len() - 1].x);
        } else {
            let j = choose|j: int| 0 <= j < t.len() && min_x(t) == t[j].x;
            assert(s[j] == t[j]);
            assert(0 <= j < s.len() && min_x(s) == s[j].x);
        }
    }
}

/// `max_x` is an upper bound and is attained.
pub proof fn lemma_max_x(s: Seq<Point>)
    requires
        s.len() > 0,
    ensures
        forall|i: int| 0 <= i < s.len() ==> s[i].x <= max_x(s),
        exists|i: int| 0 <= i < s.len() && max_x(s) == s[i].x,
    decreases s.len(),
{
    if s.len() <= 1 {
        assert(0 <= 0 < s.len() && max_x(s) == s[0].x);
    } else {
        let t = s.drop_last();
        lemma_max_x(t);
        assert forall|i: int| 0 <= i < s.len() implies s[i].x <= max_x(s) by {
            if i < s.len() - 1 {
                assert(s[i] == t[i]);
            }
        }
        if s.last().x > max_x(t) {
            assert(max_x(s) == s[s.len() - 1].x);
        } else {
            let j = choose|j: int| 0 <= j < t.len() && max_x(t) == t[j].x;
            assert(s[j] == t[j]);
            assert(0 <= j < s.len() && max_x(s) == s[j].x);
        }
    }
}

/// `min_y` is a lower bound and is attained.
pub proof fn lemma_min_y(s: Seq<Point>)
    requires
        s.len() > 0,
    ensures
        forall|i: int| 0 <= i < s.len() ==> min_y(s) <= s[i].y,
        exists|i: int| 0 <= i < s.len() && min_y(s) == s[i].y,
    decreases s.len(),
{
    if s.len() <= 1 {
        assert(0 <= 0 < s.len() && min_y(s) == s[0].y);
    } else {
        let t = s.drop_last();
        lemma_min_y(t);
        assert forall|i: int| 0 <= i < s.len() implies min_y(s) <= s[i].y by {
            if i < s.len() - 1 {
                assert(s[i] == t[i]);
            }
        }
        if s.last().y < min_y(t) {
            assert(min_y(s) == s[s.len() - 1].y);
        } else {
            let j = choose|j: int| 0 <= j < t.len() && min_y(t) == t[j].y;
            assert(s[j] == t[j]);
            assert(0 <= j < s.len() && min_y(s) == s[j].y);
        }
    }
}

/// `max_y` is an upper bound and is attained.
pub proof fn lemma_max_y(s: Seq<Point>)
    requires
        s.len() > 0,
    ensures
        forall|i: int| 0 <= i < s.len() ==> s[i].y <= max_y(s),
        exists|i: int| 0 <= i < s.len() && max_y(s) == s[i].y,
    decreases s.len(),
{
    if s.len() <= 1 {
        assert(0 <= 0 < s.len() && max_y(s) == s[0].y);
    } else {
        let t = s.drop_last();
        lemma_max_y(t);
        assert forall|i: int| 0 <= i < s.len() implies s[i].y <= max_y(s) by {
            if i < s.len() - 1 {
                assert(s[i] == t[i]);
            }
        }
        if s.last().y > max_y(t) {
            assert(max_y(s) == s[s.len() - 1].y);
        } else {
            let j = choose|j: int| 0 <= j < t.len() && max_y(t) == t[j].y;
            assert(s[j] == t[j]);
            assert(0 <= j < s.len() && max_y(s) == s[j].y);
        }
    }
}

/// A value that is a lower bound on the `x`s and is attained is `min_x`.
proof fn lemma_min_x_unique(s: Seq<Point>, v: int)
    requires
        s.len() > 0,
        forall|i: int| 0 <= i < s.len() ==> v <= s[i].x,
        exists|i: int| 0 <= i < s.len() && v == s[i].x,
    ensures
        min_x(s) == v,
{
    lemma_min_x(s);
}

/// A value that is an upper bound on the `x`s and is attained is `max_x`.
proof fn lemma_max_x_unique(s: Seq<Point>, v: int)
    requires
        s.len() > 0,
        forall|i: int| 0 <= i < s.len() ==> s[i].x <= v,
        exists|i: int| 0 <= i < s.len() && v == s[i].x,
    ensures
        max_x(s) == v,
{
    lemma_max_x(s);
}

/// A value that is a lower bound on the `y`s and is attained is `min_y`.
proof fn lemma_min_y_unique(s: Seq<Point>, v: int)
    requires
        s.len() > 0,
        forall|i: int| 0 <= i < s.len() ==> v <= s[i].y,
        exists|i: int| 0 <= i < s.len() && v == s[i].y,
    ensures
        min_y(s) == v,
{
    lemma_min_y(s);
}

/// A value that is an upper bound on the `y`s and is attained is `max_y`.
proof fn lemma_max_y_unique(s: Seq<Point>, v: int)
    requires
        s.len() > 0,
        forall|i: int| 0 <= i < s.len() ==> s[i].y <= v,
        exists|i: int| 0 <= i < s.len() && v == s[i].y,
    ensures
        max_y(s) == v,
{
    lemma_max_y(s);
}

// ---------------------------------------------------------------------------
// Rotation of a shape
// ---------------------------------------------------------------------------

/// The parts of a blueprint after rotating them by `target` about their
/// centroid and translating the result so that its smallest coordinates
/// are `(0, 0)`.
///
/// Rotating every point by a quarter turn about one fixed centre and then
/// subtracting the minimum of each coordinate gives the same shape no
/// matter which centre was used: the centre cancels against the minimum.
/// What remains are the closed forms below.  For a quarter turn
/// (`Horizontal`, 90 degrees) a point `(x, y)` goes to
/// `(max_y - y, x - min_x)`; a half turn (`Vertical`, 180 degrees) sends it
/// to `(max_x - x, max_y - y)`; a three-quarter turn
/// (`VerticalAndHorizontal`, 270 degrees) sends it to
/// `(y - min_y, max_x - x)`.
pub open spec fn rotated_parts(parts: Seq<Point>, target: Rotation) -> Seq<Point> {
    if parts.len() == 0 {
        parts
    } else {
        match target {
            Rotation::Zero => parts,
            Rotation::Horizontal => Seq::new(
                parts.len(),
                |i: int|
                    Point {
                        x: (max_y(parts) - parts[i].y) as usize,
                        y: (parts[i].x - min_x(parts)) as usize,
                    },
            ),
            Rotation::Vertical => Seq::new(
                parts.len(),
                |i: int|
                    Point {
                        x: (max_x(parts) - parts[i].x) as usize,
                        y: (max_y(parts) - parts[i].y) as usize,
                    },
            ),
            Rotation::VerticalAndHorizontal => Seq::new(
                parts.len(),
                |i: int|
                    Point {
                        x: (parts[i].y - min_y(parts)) as usize,
                        y: (max_x(parts) - parts[i].x) as usize,
                    },
            ),
        }
    }
}

/// Law: rotating by `Rotation::Zero` returns the parts unchanged.
pub proof fn lemma_rotate_zero(parts: Seq<Point>)
    ensures
        rotated_parts(parts, Rotation::Zero) == parts,
{
}

/// Elementwise description of one quarter turn together with the extremes
/// of the resulting shape.
proof fn lemma_quarter_turn(s: Seq<Point>)
    requires
        s.len() > 0,
    ensures
        ({
            let r = rotated_parts(s, Rotation::Horizontal);
            &&& r.len() == s.len()
            &&& forall|i: int|
                0 <= i < s.len() ==> r[i].x == max_y(s) - s[i].y && r[i].y == s[i].x - min_x(s)
            &&& min_x(r) == 0
            &&& max_x(r) == max_y(s) - min_y(s)
            &&& min_y(r) == 0
            &&& max_y(r) == max_x(s) - min_x(s)
        }),
{
    lemma_min_x(s);
    lemma_max_x(s);
    lemma_min_y(s);
    lemma_max_y(s);
    let r = rotated_parts(s, Rotation::Horizontal);
    assert forall|i: int|
        0 <= i < s.len() implies r[i].x == max_y(s) - s[i].y && r[i].y == s[i].x - min_x(s) by {
        assert(0 <= max_y(s) - s[i].y <= usize::MAX);
        assert(0 <= s[i].x - min_x(s) <= usize::MAX);
    }
    let jy = choose|j: int| 0 <= j < s.len() && max_y(s) == s[j].y;
    assert(r[jy].x == 0);
    lemma_min_x_unique(r, 0);
    let jy2 = choose|j: int| 0 <= j < s.len() && min_y(s) == s[j].y;
    assert(r[jy2].x == max_y(s) - min_y(s));
    lemma_max_x_unique(r, max_y(s) - min_y(s));
    let jx = choose|j: int| 0 <= j < s.len() && min_x(s) == s[j].x;
    assert(r[jx].y == 0);
    lemma_min_y_unique(r, 0);
    let jx2 = choose|j: int| 0 <= j < s.len() && max_x(s) == s[j].x;
    assert(r[jx2].y == max_x(s) - min_x(s));
    lemma_max_y_unique(r, max_x(s) - min_x(s));
}

/// Law: four successive quarter turns reproduce the original shape,
/// translated so that its smallest coordinates are `(0, 0)`.
pub proof fn lemma_rotate_four_quarter_turns(parts: Seq<Point>)
    ensures
        ({
            let r = rotated_parts(
                rotated_parts(
                    rotated_parts(rotated_parts(parts, Rotation::Horizontal), Rotation::Horizontal),
                    Rotation::Horizontal,
                ),
                Rotation::Horizontal,
            );
            &&& r.len() == parts.len()
            &&& forall|i: int|
                0 <= i < parts.len() ==> r[i].x == parts[i].x - min_x(parts) && r[i].y == parts[i].y
                    - min_y(parts)
        }),
{
    if parts.len() > 0 {
        lemma_min_x(parts);
        lemma_max_x(parts);
        lemma_min_y(parts);
        lemma_max_y(parts);
        let r1 = rotated_parts(parts, Rotation::Horizontal);
        lemma_quarter_turn(parts);
        let r2 = rotated_parts(r1, Rotation::Horizontal);
        lemma_quarter_turn(r1);
        let r3 = rotated_parts(r2, Rotation::Horizontal);
        lemma_quarter_turn(r2);
        let r4 = rotated_parts(r3, Rotation::Horizontal);
        lemma_quarter_turn(r3);
    }
}

/// Law: a shape already normalized to have smallest coordinates `(0, 0)`
/// comes back unchanged after four quarter turns.
pub proof fn lemma_rotate_four_identity(parts: Seq<Point>)
    requires
        parts.len() > 0 ==> min_x(parts) == 0 && min_y(parts) == 0,
    ensures
        rotated_parts(
            rotated_parts(
                rotated_parts(rotated_parts(parts, Rotation::Horizontal), Rotation::Horizontal),
                Rotation::Horizontal,
            ),
            Rotation::Horizontal,
        ) == parts,
{
    lemma_rotate_four_quarter_turns(parts);
    let r = rotated_parts(
        rotated_parts(
            rotated_parts(rotated_parts(parts, Rotation::Horizontal), Rotation::Horizontal),
            Rotation::Horizontal,
        ),
        Rotation::Horizontal,
    );
    assert(r =~= parts);
}

// ---------------------------------------------------------------------------
// Placed ships
// ---------------------------------------------------------------------------

/// Mathematical image of a placed [`Ship`].
pub struct ShipModel {
    pub id: u8,
    pub name: Seq<char>,
    pub parts_alive: nat,
    pub parts: Seq<Point>,
}

/// A placed, stateful instance of a blueprint: its unique id on the owning
/// board, its absolute occupied cells in placement order, and the number
/// of its cells that have not been hit yet.
pub struct Ship {
    pub id: u8,
    pub name: String,
    pub parts_alive: usize,
    pub parts: Vec<Point>,
}

impl View for Ship {
    type V = ShipModel;

    open spec fn view(&self) -> ShipModel {
        ShipModel {
            id: self.id,
            name: self.name@,
            parts_alive: self.parts_alive as nat,
            parts: self.parts@,
        }
    }
}

impl Ship {
    /// A freshly placed ship: every cell still alive.
    ///
    /// Ids are handed out by the board that owns the ship, so that no two
    /// boards share one exhaustible id space.
    pub fn new(points: Vec<Point>, name: String, id: u8) -> (s: Ship)
        ensures
            s@ == (ShipModel { id, name: name@, parts_alive: points@.len(), parts: points@ }),
    {
        Self { id, parts_alive: points.len(), parts: points, name }
    }

    /// Records one hit on a cell of this ship that was still alive.
    /// Returns the full cell list exactly when this hit was the last one,
    /// i.e. when the ship sinks.
    pub fn hit(&mut self) -> (r: Option<Vec<Point>>)
        requires
            old(self).parts_alive > 0,
        ensures
            final(self)@ == (ShipModel {
                parts_alive: (old(self)@.parts_alive - 1) as nat,
                ..old(self)@
            }),
            old(self).parts_alive > 1 ==> r is None,
            old(self).parts_alive == 1 ==> (r matches Some(v) && v@ == old(self)@.parts),
    {
        self.parts_alive -= 1;
        if self.parts_alive > 0 {
            return None;
        }
        Some(copy_points(&self.parts))
    }

    pub fn is_alive(&self) -> (r: bool)
        ensures
            r == (self@.parts_alive > 0),
    {
        self.parts_alive > 0
    }
}

// ---------------------------------------------------------------------------
// Blueprints
// ---------------------------------------------------------------------------

/// A template for a ship shape: a named, ordered list of offsets relative
/// to an anchor.  Immutable once constructed.
#[derive(Clone)]
pub struct ShipBlueprint {
    pub parts: Vec<Point>,
    pub name: String,
}

impl ShipBlueprint {
    pub fn new(parts: Vec<Point>, name: String) -> (s: Self)
        ensures
            s.parts == parts,
            s.name == name,
    {
        Self { parts, name }
    }

    /// The blueprint's parts rotated by `target` about their centroid and
    /// re-normalized so that the smallest coordinates are `(0, 0)`.
    ///
    /// Pure: the same blueprint and rotation always give the same list.
    pub fn rotate(&self, target: Rotation) -> (r: Vec<Point>)
        ensures
            r@ == rotated_parts(self.parts@, target),
    {
        if self.parts.len() == 0 {
            return copy_points(&self.parts);
        }
        if matches!(target, Rotation::Zero) {
            return copy_points(&self.parts);
        }
        proof {
            lemma_min_x(self.parts@);
            lemma_max_x(self.parts@);
            lemma_min_y(self.parts@);
            lemma_max_y(self.parts@);
        }
        let (mix, mxx, miy, mxy) = bounds(&self.parts);
        let ghost spec_r = rotated_parts(self.parts@, target);
        let mut r: Vec<Point> = Vec::new();
        for i in 0..self.parts.len()
            invariant
                r@.len() == i,
                forall|j: int| 0 <= j < i ==> r@[j] == spec_r[j],
                spec_r == rotated_parts(self.parts@, target),
                self.parts@.len() > 0,
                !(target is Zero),
                mix == min_x(self.parts@),
                mxx == max_x(self.parts@),
                miy == min_y(self.parts@),
                mxy == max_y(self.parts@),
                forall|j: int|
                    0 <= j < self.parts@.len() ==> mix <= #[trigger] self.parts@[j].x <= mxx,
                forall|j: int|
                    0 <= j < self.parts@.len() ==> miy <= #[trigger] self.parts@[j].y <= mxy,
        {
            let p = self.parts[i];
            let q = match target {
                Rotation::Zero => p,
                Rotation::Horizontal => Point::new(mxy - p.y, p.x - mix),
                Rotation::Vertical => Point::new(mxx - p.x, mxy - p.y),
                Rotation::VerticalAndHorizontal => Point::new(p.y - miy, mxx - p.x),
            };
            proof {
                assert(q == spec_r[i as int]);
            }
            r.push(q);
        }
        proof {
            assert(r@ =~= spec_r);
        }
        r
    }
}

/// The four extremes `(min_x, max_x, min_y, max_y)` of a non-empty list of
/// points.
fn bounds(parts: &Vec<Point>) -> (r: (usize, usize, usize, usize))
    requires
        parts@.len() > 0,
    ensures
        r.0 == min_x(parts@),
        r.1 == max_x(parts@),
        r.2 == min_y(parts@),
        r.3 == max_y(parts@),
{
    let mut mix = parts[0].x;
    let mut max = parts[0].x;
    let mut miy = parts[0].y;
    let mut may = parts[0].y;
    proof {
        assert(parts@.take(1) =~= seq![parts@[0]]);
    }
    for i in 1..parts.len()
        invariant
            1 <= i <= parts@.len(),
            mix == min_x(parts@.take(i as int)),
            max == max_x(parts@.take(i as int)),
            miy == min_y(parts@.take(i as int)),
            may == max_y(parts@.take(i as int)),
    {
        let p = parts[i];
        proof {
            let t = parts@.take(i as int + 1);
            assert(t.drop_last() =~= parts@.take(i as int));
            assert(t.last() == parts@[i as int]);
        }
        if p.x < mix {
            mix = p.x;
        }
        if p.x > max {
            max = p.x;
        }
        if p.y < miy {
            miy = p.y;
        }
        if p.y > may {
            may = p.y;
        }
    }
    proof {
        assert(parts@.take(parts@.len() as int) =~= parts@);
    }
    (mix, max, miy, may)
}

} // verus!
