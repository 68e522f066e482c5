//! The parts of the vision node that decide: which connected component is
//! the target, where its centre lies, and which HSV bounds the colour
//! filter applies.
use vstd::prelude::*;

verus! {

/// An axis-aligned rectangle in image pixels.
#[derive(Clone, Copy, Debug, PartialEq, Eq, Structural)]
pub struct Rect {
    pub x: i32,
    pub y: i32,
    pub width: i32,
    pub height: i32,
}

/// One row of the statistics table of a connected-component labelling:
/// bounding box and pixel count of one component. Row 0 is the background.
#[derive(Clone, Copy, Debug, PartialEq, Eq, Structural)]
pub struct ComponentStats {
    pub left: i32,
    pub top: i32,
    pub width: i32,
    pub height: i32,
    pub area: i32,
}

impl ComponentStats {
    /// The bounding box of the component.
    pub open spec fn bounding_box(self) -> Rect {
        Rect { x: self.left, y: self.top, width: self.width, height: self.height }
    }
}

/// A component's box is its statistics row read field by field: left edge,
/// top edge, width and height, none of them exchanged.
pub proof fn lemma_bounding_box_fields(c: ComponentStats)
    ensures
        c.bounding_box().x == c.left,
        c.bounding_box().y == c.top,
        c.bounding_box().width == c.width,
        c.bounding_box().height == c.height,
{
}

/// Row `i` is a foreground component with a positive area that no other
/// foreground row exceeds, and no earlier foreground row equals.
pub open spec fn is_largest_component(stats: Seq<ComponentStats>, i: int) -> bool {
    &&& 1 <= i < stats.len()
    &&& stats[i].area > 0
    &&& forall|j: int| 1 <= j < stats.len() ==> #[trigger] stats[j].area <= stats[i].area
    &&& forall|j: int| 1 <= j < i ==> #[trigger] stats[j].area < stats[i].area
}

/// The bounding box of the foreground component with the largest area; the
/// first such row wins a tie, and components of no positive area are never
/// chosen. `None` when no foreground row has a positive area.
pub fn largest_component(stats: &Vec<ComponentStats>) -> (detected: Option<Rect>)
    ensures
        detected is None <==> forall|j: int| 1 <= j < stats@.len() ==> #[trigger] stats@[j].area <= 0,
        detected matches Some(rect) ==> exists|i: int|
            is_largest_component(stats@, i) && rect == #[trigger] stats@[i].bounding_box(),
        detected matches Some(rect) ==> exists|i: int| {
            &&& 1 <= i < stats@.len()
            &&& #[trigger] stats@[i].area > 0
            &&& forall|j: int| 1 <= j < stats@.len() ==> #[trigger] stats@[j].area <= stats@[i].area
            &&& forall|j: int| 1 <= j < i ==> #[trigger] stats@[j].area < stats@[i].area
            &&& rect.x == stats@[i].left
            &&& rect.y == stats@[i].top
            &&& rect.width == stats@[i].width
            &&& rect.height == stats@[i].height
        },
{
    let mut detected: Option<Rect> = None;
    let mut max_area: i32 = 0;
    let ghost mut best: int = 0;
    let mut i: usize = 1;
    while i < stats.len()
        invariant
            1 <= i <= stats.len() || (i == 1 && stats.len() == 0),
            detected is None ==> max_area == 0 && forall|j: int| 1 <= j < i ==> #[trigger] stats@[j].area <= 0,
            detected matches Some(rect) ==> {
                &&& 1 <= best < i
                &&& best < stats@.len()
                &&& rect == stats@[best].bounding_box()
                &&& max_area == stats@[best].area
                &&& max_area > 0
                &&& forall|j: int| 1 <= j < i ==> #[trigger] stats@[j].area <= max_area
                &&& forall|j: int| 1 <= j < best ==> #[trigger] stats@[j].area < max_area
            },
        decreases stats.len() - i,
    {
        let row = stats[i];
        if row.area > max_area {
            detected = Some(Rect { x: row.left, y: row.top, width: row.width, height: row.height });
            max_area = row.area;
            proof {
                best = i as int;
            }
        }
        i = i + 1;
    }
    proof {
        if let Some(rect) = detected {
            assert(is_largest_component(stats@, best));
            assert(stats@[best].area > 0);
        }
    }
    detected
}

/// The row that a scan of rows `1..n` keeps, replacing its choice only by a
/// strictly larger area and starting from an area of zero; 0 when it keeps none.
spec fn scan_choice(stats: Seq<ComponentStats>, n: int) -> int
    decreases n,
{
    if n <= 1 {
        0
    } else {
        let p = scan_choice(stats, n - 1);
        let best = if p == 0 { 0 } else { stats[p].area as int };
        if stats[n - 1].area > best {
            n - 1
        } else {
            p
        }
    }
}

proof fn lemma_scan_choice(stats: Seq<ComponentStats>, n: int)
    requires
        n <= stats.len(),
    ensures
        scan_choice(stats, n) == 0 ==> forall|j: int| 1 <= j < n ==> #[trigger] stats[j].area <= 0,
        scan_choice(stats, n) != 0 ==> {
            let p = scan_choice(stats, n);
            &&& 1 <= p < n
            &&& stats[p].area > 0
            &&& forall|j: int| 1 <= j < n ==> #[trigger] stats[j].area <= stats[p].area
            &&& forall|j: int| 1 <= j < p ==> #[trigger] stats[j].area < stats[p].area
        },
    decreases n,
{
    if n > 1 {
        lemma_scan_choice(stats, n - 1);
    }
}

/// Whenever some foreground row has a positive area, a largest component
/// exists.
pub proof fn lemma_largest_component_exists(stats: Seq<ComponentStats>, j: int)
    requires
        1 <= j < stats.len(),
        stats[j].area > 0,
    ensures
        exists|i: int| is_largest_component(stats, i),
{
    lemma_scan_choice(stats, stats.len() as int);
    let p = scan_choice(stats, stats.len() as int);
    assert(is_largest_component(stats, p));
}

/// Wider colour bounds never lose the detection nor shrink it: when every
/// foreground component of a positive area in `narrow` is matched by a
/// foreground component of `wide` with no smaller area, a largest component
/// of `narrow` implies one of `wide` that is at least as large.
pub proof fn lemma_largest_component_monotone(narrow: Seq<ComponentStats>, wide: Seq<ComponentStats>, i: int)
    requires
        forall|k: int|
            1 <= k < narrow.len() && #[trigger] narrow[k].area > 0 ==> exists|m: int|
                1 <= m < wide.len() && #[trigger] wide[m].area >= narrow[k].area,
        is_largest_component(narrow, i),
    ensures
        exists|w: int| is_largest_component(wide, w) && wide[w].area >= narrow[i].area,
{
    assert(narrow[i].area > 0);
    let m = choose|m: int| 1 <= m < wide.len() && #[trigger] wide[m].area >= narrow[i].area;
    lemma_largest_component_exists(wide, m);
    let w = choose|w: int| is_largest_component(wide, w);
    assert(wide[m].area <= wide[w].area);
}

/// Half of `w`, rounded toward zero, as integer division by two does.
pub open spec fn half_toward_zero(w: int) -> int {
    if w >= 0 {
        w / 2
    } else {
        -((-w) / 2)
    }
}

/// Halving rounds toward zero: twice the half falls short of a non-negative
/// `w` by at most one, and exceeds a negative `w` by at most one.
pub proof fn lemma_half_toward_zero(w: int)
    ensures
        w >= 0 ==> 0 <= w - 2 * half_toward_zero(w) <= 1,
        w < 0 ==> -1 <= w - 2 * half_toward_zero(w) <= 0,
{
}

impl Rect {
    /// The horizontal centre of the rectangle: `x + width / 2`.
    pub fn center_x(&self) -> (c: i32)
        requires
            i32::MIN <= self.x + half_toward_zero(self.width as int) <= i32::MAX,
        ensures
            c == self.x + half_toward_zero(self.width as int),
            self.width >= 0 ==> 0 <= self.width - 2 * (c - self.x) <= 1,
            self.width < 0 ==> -1 <= self.width - 2 * (c - self.x) <= 0,
    {
        proof {
            lemma_half_toward_zero(self.width as int);
        }
        self.x + self.width / 2
    }
}

/// The HSV bounds that the colour filter applies: a pixel passes when each of
/// its hue, saturation and value lies between the minimum and the maximum.
#[derive(Clone, Copy, Debug, PartialEq, Eq, Structural)]
pub struct HsvThreshold {
    pub h_min: u8,
    pub s_min: u8,
    pub v_min: u8,
    pub h_max: u8,
    pub s_max: u8,
    pub v_max: u8,
}

/// The threshold after a message: a message of six bytes replaces the bounds
/// in the order hue, saturation and value minimum, then hue, saturation and
/// value maximum; a message of any other length leaves them as they were.
pub open spec fn threshold_after_message(t: HsvThreshold, data: Seq<u8>) -> HsvThreshold {
    if data.len() == 6 {
        HsvThreshold {
            h_min: data[0],
            s_min: data[1],
            v_min: data[2],
            h_max: data[3],
            s_max: data[4],
            v_max: data[5],
        }
    } else {
        t
    }
}

/// A six-byte message sets the bounds in byte order: hue, saturation and
/// value minimum from bytes 0 to 2, then their maxima from bytes 3 to 5; any
/// other message changes nothing.
pub proof fn lemma_threshold_positions(t: HsvThreshold, data: Seq<u8>)
    ensures
        data.len() == 6 ==> {
            let u = threshold_after_message(t, data);
            &&& u.h_min == data[0]
            &&& u.s_min == data[1]
            &&& u.v_min == data[2]
            &&& u.h_max == data[3]
            &&& u.s_max == data[4]
            &&& u.v_max == data[5]
        },
        data.len() != 6 ==> threshold_after_message(t, data) == t,
{
}

impl HsvThreshold {
    /// The bounds before any message has arrived: all zero.
    pub fn new() -> (t: HsvThreshold)
        ensures
            t == (HsvThreshold { h_min: 0, s_min: 0, v_min: 0, h_max: 0, s_max: 0, v_max: 0 }),
    {
        HsvThreshold { h_min: 0, s_min: 0, v_min: 0, h_max: 0, s_max: 0, v_max: 0 }
    }

    /// Takes the bounds from a received byte message; returns whether the
    /// message had the six bytes that it must have to be applied.
    pub fn apply_message(&mut self, data: &Vec<u8>) -> (applied: bool)
        ensures
            applied == (data@.len() == 6),
            *final(self) == threshold_after_message(*old(self), data@),
            data@.len() == 6 ==> {
                &&& final(self).h_min == data@[0]
                &&& final(self).s_min == data@[1]
                &&& final(self).v_min == data@[2]
                &&& final(self).h_max == data@[3]
                &&& final(self).s_max == data@[4]
                &&& final(self).v_max == data@[5]
            },
            data@.len() != 6 ==> *final(self) == *old(self),
    {
        if data.len() != 6 {
            return false;
        }
        self.h_min = data[0];
        self.s_min = data[1];
        self.v_min = data[2];
        self.h_max = data[3];
        self.s_max = data[4];
        self.v_max = data[5];
        true
    }
}

} // verus!
