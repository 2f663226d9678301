use vstd::prelude::*;

use crate::text::same_text;

verus! {

/// A screen region in cell coordinates.
#[derive(Debug, Clone, Copy, PartialEq, Eq, Structural)]
pub struct Rect {
    pub x: usize,
    pub y: usize,
    pub width: usize,
    pub height: usize,
}

impl Rect {
    /// The far edges of the region can be written as `usize`.
    pub open spec fn fits(self) -> bool {
        self.x + self.width <= usize::MAX && self.y + self.height <= usize::MAX
    }

    pub open spec fn contains_point(self, col: int, row: int) -> bool {
        self.x <= col < self.x + self.width && self.y <= row < self.y + self.height
    }
}

/// The axis along which a split divides its region: `Vert` stacks its two
/// parts top and bottom, `Horz` puts them side by side.
#[derive(Debug, Clone, Copy, PartialEq, Eq, Structural)]
pub enum SplitDir {
    Vert,
    Horz,
}

/// A direction on screen.
#[derive(Debug, Clone, Copy, PartialEq, Eq, Structural)]
pub enum SplitDirection {
    Up,
    Down,
    Left,
    Right,
}

/// The share `num / den` of a region that the first part of a split receives.
#[derive(Debug, Clone, Copy, PartialEq, Eq, Structural)]
pub struct Ratio {
    pub num: u32,
    pub den: u32,
}

impl Ratio {
    /// A share strictly between nothing and the whole.
    pub open spec fn wf(self) -> bool {
        0 < self.num < self.den
    }

    /// One half.
    pub fn half() -> (r: Ratio)
        ensures
            r.wf(),
            r.num == 1 && r.den == 2,
    {
        Ratio { num: 1, den: 2 }
    }

    /// The share `num / den`, where it lies strictly between 0 and 1.
    pub fn new(num: u32, den: u32) -> (r: Option<Ratio>)
        ensures
            match r {
                Some(q) => q.wf() && q.num == num && q.den == den,
                None => !(0 < num < den),
            },
    {
        if 0 < num && num < den {
            Some(Ratio { num, den })
        } else {
            None
        }
    }
}

/// `floor(extent * ratio)`.
pub open spec fn split_extent(extent: int, ratio: Ratio) -> int {
    (extent * ratio.num) / (ratio.den as int)
}

/// The two parts of `r` that a split along `dir` with `ratio` gives.
pub open spec fn split_rect(r: Rect, dir: SplitDir, ratio: Ratio) -> (Rect, Rect) {
    match dir {
        SplitDir::Vert => {
            let s = split_extent(r.height as int, ratio);
            (
                Rect { x: r.x, y: r.y, width: r.width, height: s as usize },
                Rect { x: r.x, y: (r.y + s) as usize, width: r.width, height: (r.height - s) as usize },
            )
        },
        SplitDir::Horz => {
            let s = split_extent(r.width as int, ratio);
            (
                Rect { x: r.x, y: r.y, width: s as usize, height: r.height },
                Rect { x: (r.x + s) as usize, y: r.y, width: (r.width - s) as usize, height: r.height },
            )
        },
    }
}

proof fn lemma_split_extent_bounds(extent: int, ratio: Ratio)
    requires
        ratio.wf(),
        extent >= 0,
    ensures
        0 <= split_extent(extent, ratio) <= extent,
{
    let n = ratio.num as int;
    let d = ratio.den as int;
    assert(extent * n <= extent * d) by (nonlinear_arith)
        requires
            extent >= 0,
            n < d,
    ;
    assert(0 <= extent * n) by (nonlinear_arith)
        requires
            extent >= 0,
            n > 0,
    ;
    assert((extent * n) / d <= (extent * d) / d) by (nonlinear_arith)
        requires
            extent * n <= extent * d,
            d > 0,
    ;
    assert((extent * d) / d == extent) by (nonlinear_arith)
        requires
            d > 0,
    ;
    assert(0 <= (extent * n) / d) by (nonlinear_arith)
        requires
            0 <= extent * n,
            d > 0,
    ;
}

/// The two parts of a split are side by side without overlap and together
/// cover the region exactly; the first part's extent along the split axis is
/// `floor(extent * ratio)`.
pub proof fn lemma_split_partitions(r: Rect, dir: SplitDir, ratio: Ratio)
    requires
        ratio.wf(),
        r.fits(),
    ensures
        ({
            let (a, b) = split_rect(r, dir, ratio);
            &&& a.fits() && b.fits()
            &&& a.x == r.x && a.y == r.y
            &&& match dir {
                SplitDir::Vert => {
                    &&& a.width == r.width && b.width == r.width && b.x == r.x
                    &&& a.height == split_extent(r.height as int, ratio)
                    &&& b.y == a.y + a.height
                    &&& a.height + b.height == r.height
                },
                SplitDir::Horz => {
                    &&& a.height == r.height && b.height == r.height && b.y == r.y
                    &&& a.width == split_extent(r.width as int, ratio)
                    &&& b.x == a.x + a.width
                    &&& a.width + b.width == r.width
                },
            }
        }),
{
    lemma_split_extent_bounds(r.height as int, ratio);
    lemma_split_extent_bounds(r.width as int, ratio);
}

proof fn lemma_product_fits(a: int, b: int)
    requires
        0 <= a <= usize::MAX,
        0 <= b <= u32::MAX,
    ensures
        0 <= a * b <= u128::MAX,
{
    assert(0 <= a * b <= usize::MAX * u32::MAX) by (nonlinear_arith)
        requires
            0 <= a <= usize::MAX,
            0 <= b <= u32::MAX,
    ;
}

/// Splits `r` along `dir` with `ratio`.
pub fn split_rect_exec(r: &Rect, dir: SplitDir, ratio: Ratio) -> (p: (Rect, Rect))
    requires
        ratio.wf(),
        r.fits(),
    ensures
        p == split_rect(*r, dir, ratio),
{
    proof {
        lemma_split_extent_bounds(r.height as int, ratio);
        lemma_split_extent_bounds(r.width as int, ratio);
        lemma_product_fits(r.height as int, ratio.num as int);
        lemma_product_fits(r.width as int, ratio.num as int);
    }
    match dir {
        SplitDir::Vert => {
            let s = ((r.height as u128) * (ratio.num as u128) / (ratio.den as u128)) as usize;
            (
                Rect { x: r.x, y: r.y, width: r.width, height: s },
                Rect { x: r.x, y: r.y + s, width: r.width, height: r.height - s },
            )
        },
        SplitDir::Horz => {
            let s = ((r.width as u128) * (ratio.num as u128) / (ratio.den as u128)) as usize;
            (
                Rect { x: r.x, y: r.y, width: s, height: r.height },
                Rect { x: r.x + s, y: r.y, width: r.width - s, height: r.height },
            )
        },
    }
}

/// The window layout: a window, or a region split in two.
pub enum LayoutNode {
    Leaf(String),
    Split { direction: SplitDir, ratio: Ratio, first: Box<LayoutNode>, second: Box<LayoutNode> },
}

/// The windows and rectangles of a list, as plain values.
pub open spec fn pairs_view(s: Seq<(String, Rect)>) -> Seq<(Seq<char>, Rect)> {
    s.map_values(|e: (String, Rect)| (e.0@, e.1))
}

impl LayoutNode {
    /// Every split's ratio lies strictly between 0 and 1.
    pub open spec fn wf(self) -> bool
        decreases self,
    {
        match self {
            LayoutNode::Leaf(_) => true,
            LayoutNode::Split { ratio, first, second, .. } => ratio.wf() && first.wf() && second.wf(),
        }
    }

    /// Whether a leaf of the tree shows the window `id`.
    pub open spec fn has_window(self, id: Seq<char>) -> bool
        decreases self,
    {
        match self {
            LayoutNode::Leaf(w) => w@ == id,
            LayoutNode::Split { first, second, .. } => first.has_window(id) || second.has_window(id),
        }
    }

    /// The windows of the tree with their rectangles inside `r`, first subtree
    /// before second.
    pub open spec fn rects_spec(self, r: Rect) -> Seq<(Seq<char>, Rect)>
        decreases self,
    {
        match self {
            LayoutNode::Leaf(w) => seq![(w@, r)],
            LayoutNode::Split { direction, ratio, first, second } => {
                let (a, b) = split_rect(r, direction, ratio);
                first.rects_spec(a) + second.rects_spec(b)
            },
        }
    }

    /// The tree without the window `id`: a split that loses one side becomes
    /// the other side; `None` where nothing is left.
    pub open spec fn removed(self, id: Seq<char>) -> Option<LayoutNode>
        decreases self,
    {
        match self {
            LayoutNode::Leaf(w) => if w@ == id {
                None
            } else {
                Some(self)
            },
            LayoutNode::Split { direction, ratio, first, second } => {
                match (first.removed(id), second.removed(id)) {
                    (Some(a), Some(b)) => Some(
                        LayoutNode::Split { direction, ratio, first: Box::new(a), second: Box::new(b) },
                    ),
                    (Some(a), None) => Some(a),
                    (None, Some(b)) => Some(b),
                    (None, None) => None,
                }
            },
        }
    }

    /// Appends the windows of the tree and their rectangles inside `rect` to
    /// `out`, first subtree before second.
    pub fn walk_nodes(&self, rect: &Rect, out: &mut Vec<(String, Rect)>)
        requires
            self.wf(),
            rect.fits(),
        ensures
            pairs_view(final(out)@) == pairs_view(old(out)@) + self.rects_spec(*rect),
        decreases self,
    {
        match self {
            LayoutNode::Leaf(w) => {
                let ghost before = out@;
                out.push((w.clone(), *rect));
                assert(pairs_view(out@) =~= pairs_view(before) + self.rects_spec(*rect));
            },
            LayoutNode::Split { direction, ratio, first, second } => {
                let (a, b) = split_rect_exec(rect, *direction, *ratio);
                proof {
                    lemma_split_partitions(*rect, *direction, *ratio);
                }
                let ghost before = out@;
                first.walk_nodes(&a, out);
                second.walk_nodes(&b, out);
                assert(pairs_view(out@) =~= pairs_view(before) + self.rects_spec(*rect));
            },
        }
    }

    /// The windows of the tree with their rectangles inside `rect`, first
    /// subtree before second.
    pub fn get_rects(&self, rect: &Rect) -> (r: Vec<(String, Rect)>)
        requires
            self.wf(),
            rect.fits(),
        ensures
            pairs_view(r@) == self.rects_spec(*rect),
    {
        let mut out: Vec<(String, Rect)> = Vec::new();
        self.walk_nodes(rect, &mut out);
        assert(pairs_view(Seq::<(String, Rect)>::empty()) =~= Seq::<(Seq<char>, Rect)>::empty());
        assert(Seq::<(Seq<char>, Rect)>::empty() + self.rects_spec(*rect) =~= self.rects_spec(
            *rect,
        ));
        out
    }

    /// Removes the window `window_id`: a split that loses one side is replaced
    /// by the other side; `None` where no window is left.
    pub fn remove_window(self, window_id: &str) -> (r: Option<LayoutNode>)
        ensures
            r == self.removed(window_id@),
        decreases self,
    {
        match self {
            LayoutNode::Leaf(w) => {
                if same_text(w.as_str(), window_id) {
                    None
                } else {
                    Some(LayoutNode::Leaf(w))
                }
            },
            LayoutNode::Split { direction, ratio, first, second } => {
                let a = (*first).remove_window(window_id);
                let b = (*second).remove_window(window_id);
                match (a, b) {
                    (Some(a), Some(b)) => Some(
                        LayoutNode::Split { direction, ratio, first: Box::new(a), second: Box::new(b) },
                    ),
                    (Some(a), None) => Some(a),
                    (None, Some(b)) => Some(b),
                    (None, None) => None,
                }
            },
        }
    }

    /// Whether a leaf shows the window `window_id`.
    pub fn contains_window(&self, window_id: &str) -> (r: bool)
        ensures
            r == self.has_window(window_id@),
        decreases self,
    {
        match self {
            LayoutNode::Leaf(w) => same_text(w.as_str(), window_id),
            LayoutNode::Split { first, second, .. } => {
                first.contains_window(window_id) || second.contains_window(window_id)
            },
        }
    }
}

/// A tree without the window is left as it is.
pub proof fn lemma_remove_absent(t: LayoutNode, id: Seq<char>)
    requires
        !t.has_window(id),
    ensures
        t.removed(id) == Some(t),
    decreases t,
{
    match t {
        LayoutNode::Leaf(_) => {},
        LayoutNode::Split { direction, ratio, first, second } => {
            lemma_remove_absent(*first, id);
            lemma_remove_absent(*second, id);
        },
    }
}

/// What is left after removing a window no longer shows it.
pub proof fn lemma_removed_lacks(t: LayoutNode, id: Seq<char>)
    ensures
        match t.removed(id) {
            Some(u) => !u.has_window(id),
            None => true,
        },
    decreases t,
{
    match t {
        LayoutNode::Leaf(_) => {},
        LayoutNode::Split { direction, ratio, first, second } => {
            lemma_removed_lacks(*first, id);
            lemma_removed_lacks(*second, id);
        },
    }
}

/// Removing the same window a second time leaves the tree unchanged.
pub proof fn lemma_remove_twice(t: LayoutNode, id: Seq<char>)
    requires
        t.removed(id) is Some,
    ensures
        t.removed(id)->Some_0.removed(id) == t.removed(id),
{
    lemma_removed_lacks(t, id);
    lemma_remove_absent(t.removed(id)->Some_0, id);
}

/// Removing one of two windows side by side leaves the other one's leaf alone.
pub proof fn lemma_remove_collapses(
    direction: SplitDir,
    ratio: Ratio,
    a: String,
    b: String,
)
    requires
        a@ != b@,
    ensures
        (LayoutNode::Split {
            direction,
            ratio,
            first: Box::new(LayoutNode::Leaf(a)),
            second: Box::new(LayoutNode::Leaf(b)),
        }).removed(a@) == Some(LayoutNode::Leaf(b)),
        (LayoutNode::Split {
            direction,
            ratio,
            first: Box::new(LayoutNode::Leaf(a)),
            second: Box::new(LayoutNode::Leaf(b)),
        }).removed(b@) == Some(LayoutNode::Leaf(a)),
{
    assert(LayoutNode::Leaf(a).removed(a@) is None);
    assert(LayoutNode::Leaf(b).removed(a@) == Some(LayoutNode::Leaf(b)));
    assert(LayoutNode::Leaf(b).removed(b@) is None);
    assert(LayoutNode::Leaf(a).removed(b@) == Some(LayoutNode::Leaf(a)));
}

/// The split that puts the new window `new` beside the subtree `old` in
/// direction `d`: above or to the left, `new` comes first; below or to the
/// right, second.
pub open spec fn joined(old: LayoutNode, new: LayoutNode, d: SplitDirection, ratio: Ratio) -> LayoutNode {
    match d {
        SplitDirection::Up => LayoutNode::Split {
            direction: SplitDir::Vert,
            ratio,
            first: Box::new(new),
            second: Box::new(old),
        },
        SplitDirection::Down => LayoutNode::Split {
            direction: SplitDir::Vert,
            ratio,
            first: Box::new(old),
            second: Box::new(new),
        },
        SplitDirection::Left => LayoutNode::Split {
            direction: SplitDir::Horz,
            ratio,
            first: Box::new(new),
            second: Box::new(old),
        },
        SplitDirection::Right => LayoutNode::Split {
            direction: SplitDir::Horz,
            ratio,
            first: Box::new(old),
            second: Box::new(new),
        },
    }
}

impl LayoutNode {
    /// The tree with the leaf of `target` replaced by the split of that leaf
    /// and `new`; the second subtree of a split is searched before the first.
    pub open spec fn split_spec(
        self,
        target: Seq<char>,
        new: LayoutNode,
        d: SplitDirection,
        ratio: Ratio,
    ) -> LayoutNode
        decreases self,
    {
        match self {
            LayoutNode::Leaf(w) => if w@ == target {
                joined(self, new, d, ratio)
            } else {
                self
            },
            LayoutNode::Split { direction, ratio: q, first, second } => if second.has_window(target) {
                LayoutNode::Split {
                    direction,
                    ratio: q,
                    first,
                    second: Box::new(second.split_spec(target, new, d, ratio)),
                }
            } else {
                LayoutNode::Split {
                    direction,
                    ratio: q,
                    first: Box::new(first.split_spec(target, new, d, ratio)),
                    second,
                }
            },
        }
    }

    /// Puts the new window `new_id` beside the window `target`, in direction
    /// `direction`, the two sharing its region by `ratio`. A tree without
    /// `target` is returned as it was.
    pub fn split_window(
        self,
        target: &str,
        new_id: String,
        direction: SplitDirection,
        ratio: Ratio,
    ) -> (r: LayoutNode)
        ensures
            r == self.split_spec(target@, LayoutNode::Leaf(new_id), direction, ratio),
        decreases self,
    {
        match self {
            LayoutNode::Leaf(w) => {
                if same_text(w.as_str(), target) {
                    let old = LayoutNode::Leaf(w);
                    let new = LayoutNode::Leaf(new_id);
                    match direction {
                        SplitDirection::Up => LayoutNode::Split {
                            direction: SplitDir::Vert,
                            ratio,
                            first: Box::new(new),
                            second: Box::new(old),
                        },
                        SplitDirection::Down => LayoutNode::Split {
                            direction: SplitDir::Vert,
                            ratio,
                            first: Box::new(old),
                            second: Box::new(new),
                        },
                        SplitDirection::Left => LayoutNode::Split {
                            direction: SplitDir::Horz,
                            ratio,
                            first: Box::new(new),
                            second: Box::new(old),
                        },
                        SplitDirection::Right => LayoutNode::Split {
                            direction: SplitDir::Horz,
                            ratio,
                            first: Box::new(old),
                            second: Box::new(new),
                        },
                    }
                } else {
                    LayoutNode::Leaf(w)
                }
            },
            LayoutNode::Split { direction: dir, ratio: q, first, second } => {
                if second.contains_window(target) {
                    let s = (*second).split_window(target, new_id, direction, ratio);
                    LayoutNode::Split { direction: dir, ratio: q, first, second: Box::new(s) }
                } else {
                    let f = (*first).split_window(target, new_id, direction, ratio);
                    LayoutNode::Split { direction: dir, ratio: q, first: Box::new(f), second }
                }
            },
        }
    }

    /// The leaf of the window `window_id`; the second subtree of a split is
    /// searched before the first.
    pub fn find_child(&self, window_id: &str) -> (r: Option<&LayoutNode>)
        ensures
            match r {
                Some(n) => self.has_window(window_id@) && (n matches LayoutNode::Leaf(w) && w@
                    == window_id@),
                None => !self.has_window(window_id@),
            },
        decreases self,
    {
        match self {
            LayoutNode::Leaf(w) => {
                if same_text(w.as_str(), window_id) {
                    Some(self)
                } else {
                    None
                }
            },
            LayoutNode::Split { first, second, .. } => {
                match second.find_child(window_id) {
                    Some(n) => Some(n),
                    None => first.find_child(window_id),
                }
            },
        }
    }
}

/// `b` lies next to `a` in direction `d`: they share part of a boundary edge.
pub open spec fn adjacent(a: Rect, b: Rect, d: SplitDirection) -> bool {
    let overlap_x = b.x < a.x + a.width && a.x < b.x + b.width;
    let overlap_y = b.y < a.y + a.height && a.y < b.y + b.height;
    match d {
        SplitDirection::Up => b.y + b.height == a.y && overlap_x,
        SplitDirection::Down => a.y + a.height == b.y && overlap_x,
        SplitDirection::Left => b.x + b.width == a.x && overlap_y,
        SplitDirection::Right => a.x + a.width == b.x && overlap_y,
    }
}

pub open spec fn abs_diff(a: int, b: int) -> int {
    if a >= b {
        a - b
    } else {
        b - a
    }
}

/// Twice the distance between the centres of `a` and `b`, walking along the axes.
pub open spec fn centre_distance(a: Rect, b: Rect) -> int {
    abs_diff(2 * a.x + a.width, 2 * b.x + b.width) + abs_diff(2 * a.y + a.height, 2 * b.y + b.height)
}

/// `i` is the first entry of `rs` for the window `id`.
pub open spec fn first_entry(rs: Seq<(Seq<char>, Rect)>, id: Seq<char>, i: int) -> bool {
    0 <= i < rs.len() && rs[i].0 == id && forall|j: int| 0 <= j < i ==> rs[j].0 != id
}

/// Entry `j` is a window next to entry `i` in direction `d`.
pub open spec fn candidate(rs: Seq<(Seq<char>, Rect)>, i: int, d: SplitDirection, j: int) -> bool {
    0 <= j < rs.len() && j != i && adjacent(rs[i].1, rs[j].1, d)
}

/// Entry `j` is the nearest window next to entry `i` in direction `d`, the
/// first such entry where several are equally near.
pub open spec fn nearest(rs: Seq<(Seq<char>, Rect)>, i: int, d: SplitDirection, j: int) -> bool {
    &&& candidate(rs, i, d, j)
    &&& forall|k: int| #[trigger]
        candidate(rs, i, d, k) ==> centre_distance(rs[i].1, rs[j].1) <= centre_distance(
            rs[i].1,
            rs[k].1,
        )
    &&& forall|k: int|
        0 <= k < j && #[trigger] candidate(rs, i, d, k) ==> centre_distance(rs[i].1, rs[j].1)
            < centre_distance(rs[i].1, rs[k].1)
}

/// What `neighbor_in` returns for the entries `rs`.
pub open spec fn neighbor_result(
    rs: Seq<(Seq<char>, Rect)>,
    id: Seq<char>,
    d: SplitDirection,
    r: Option<Seq<char>>,
) -> bool {
    match r {
        Some(w) => exists|i: int, j: int|
            first_entry(rs, id, i) && nearest(rs, i, d, j) && rs[j].0 == w,
        None => forall|i: int|
            first_entry(rs, id, i) ==> forall|j: int| !(#[trigger] candidate(rs, i, d, j)),
    }
}

fn distance(a: &Rect, b: &Rect) -> (r: u128)
    requires
        a.fits(),
        b.fits(),
    ensures
        r == centre_distance(*a, *b),
{
    let ax = 2 * (a.x as u128) + (a.width as u128);
    let bx = 2 * (b.x as u128) + (b.width as u128);
    let ay = 2 * (a.y as u128) + (a.height as u128);
    let by = 2 * (b.y as u128) + (b.height as u128);
    let dx = if ax >= bx {
        ax - bx
    } else {
        bx - ax
    };
    let dy = if ay >= by {
        ay - by
    } else {
        by - ay
    };
    dx + dy
}

fn is_adjacent(a: &Rect, b: &Rect, d: SplitDirection) -> (r: bool)
    requires
        a.fits(),
        b.fits(),
    ensures
        r == adjacent(*a, *b, d),
{
    let overlap_x = b.x < a.x + a.width && a.x < b.x + b.width;
    let overlap_y = b.y < a.y + a.height && a.y < b.y + b.height;
    match d {
        SplitDirection::Up => b.y + b.height == a.y && overlap_x,
        SplitDirection::Down => a.y + a.height == b.y && overlap_x,
        SplitDirection::Left => b.x + b.width == a.x && overlap_y,
        SplitDirection::Right => a.x + a.width == b.x && overlap_y,
    }
}

/// The window nearest to `window_id` among those next to it in direction
/// `direction`, in a list of windows and their rectangles.
pub fn neighbor_in(rects: &Vec<(String, Rect)>, window_id: &str, direction: SplitDirection) -> (r:
    Option<String>)
    requires
        forall|k: int| 0 <= k < rects@.len() ==> (#[trigger] rects@[k]).1.fits(),
    ensures
        neighbor_result(
            pairs_view(rects@),
            window_id@,
            direction,
            match r {
                Some(w) => Some(w@),
                None => None,
            },
        ),
{
    let ghost rs = pairs_view(rects@);
    let n = rects.len();
    let mut i: usize = 0;
    let mut found = false;
    while i < n && !found
        invariant
            n == rects@.len(),
            rs == pairs_view(rects@),
            i <= n,
            forall|j: int| 0 <= j < i ==> rs[j].0 != window_id@,
            found ==> i < n && rs[i as int].0 == window_id@,
        decreases n - i + (if found {
            0int
        } else {
            1int
        }),
    {
        if same_text(rects[i].0.as_str(), window_id) {
            found = true;
        } else {
            i = i + 1;
        }
    }
    if !found {
        return None;
    }
    assert(first_entry(rs, window_id@, i as int));
    assert forall|i2: int| first_entry(rs, window_id@, i2) implies i2 == i by {
        if i2 < i {
        } else if i2 > i {
            assert(rs[i as int].0 == window_id@);
        }
    }
    let own = rects[i].1;
    let mut best: Option<usize> = None;
    let mut best_dist: u128 = 0;
    let mut j: usize = 0;
    while j < n
        invariant
            n == rects@.len(),
            rs == pairs_view(rects@),
            i < n,
            j <= n,
            own == rs[i as int].1,
            own.fits(),
            forall|k: int| 0 <= k < rects@.len() ==> (#[trigger] rects@[k]).1.fits(),
            match best {
                Some(b) => {
                    &&& b < j
                    &&& candidate(rs, i as int, direction, b as int)
                    &&& best_dist == centre_distance(own, rs[b as int].1)
                    &&& forall|k: int|
                        0 <= k < j && #[trigger] candidate(rs, i as int, direction, k)
                            ==> best_dist <= centre_distance(own, rs[k].1)
                    &&& forall|k: int|
                        0 <= k < b && #[trigger] candidate(rs, i as int, direction, k)
                            ==> best_dist < centre_distance(own, rs[k].1)
                },
                None => forall|k: int| 0 <= k < j ==> !(#[trigger] candidate(rs, i as int, direction, k)),
            },
        decreases n - j,
    {
        if j != i {
            let other = &rects[j].1;
            if is_adjacent(&own, other, direction) {
                let dist = distance(&own, other);
                match best {
                    Some(b) => {
                        if dist < best_dist {
                            best = Some(j);
                            best_dist = dist;
                        }
                    },
                    None => {
                        best = Some(j);
                        best_dist = dist;
                    },
                }
            }
        }
        j = j + 1;
    }
    match best {
        Some(b) => {
            assert(nearest(rs, i as int, direction, b as int));
            Some(rects[b].0.clone())
        },
        None => None,
    }
}

/// The first entry whose rectangle holds the cell at `col`, `row`.
pub open spec fn hit(rs: Seq<(Seq<char>, Rect)>, col: int, row: int, j: int) -> bool {
    0 <= j < rs.len() && rs[j].1.contains_point(col, row) && forall|k: int|
        0 <= k < j ==> !rs[k].1.contains_point(col, row)
}

/// Rectangles inside a region that fits fit too.
proof fn lemma_rects_fit(t: LayoutNode, r: Rect)
    requires
        t.wf(),
        r.fits(),
    ensures
        forall|k: int| 0 <= k < t.rects_spec(r).len() ==> (#[trigger] t.rects_spec(r)[k]).1.fits(),
    decreases t,
{
    match t {
        LayoutNode::Leaf(_) => {},
        LayoutNode::Split { direction, ratio, first, second } => {
            lemma_split_partitions(r, direction, ratio);
            let (a, b) = split_rect(r, direction, ratio);
            lemma_rects_fit(*first, a);
            lemma_rects_fit(*second, b);
            let s1 = first.rects_spec(a);
            let s2 = second.rects_spec(b);
            assert forall|k: int| 0 <= k < (s1 + s2).len() implies (#[trigger] (s1 + s2)[k]).1.fits() by {
                if k >= s1.len() {
                    assert((s1 + s2)[k] == s2[k - s1.len()]);
                }
            }
        },
    }
}

impl LayoutNode {
    /// The window nearest to `window_id` among those next to it in direction
    /// `direction`, with the tree laid out inside `container`.
    pub fn get_neighbor(&self, window_id: &str, direction: SplitDirection, container: &Rect) -> (r:
        Option<String>)
        requires
            self.wf(),
            container.fits(),
        ensures
            neighbor_result(
                self.rects_spec(*container),
                window_id@,
                direction,
                match r {
                    Some(w) => Some(w@),
                    None => None,
                },
            ),
    {
        let rects = self.get_rects(container);
        proof {
            lemma_rects_fit(*self, *container);
            assert forall|k: int| 0 <= k < rects@.len() implies (#[trigger] rects@[k]).1.fits() by {
                assert(pairs_view(rects@)[k].1 == rects@[k].1);
            }
        }
        neighbor_in(&rects, window_id, direction)
    }

    /// The window whose region holds the cell at `col`, `row`, with the tree
    /// laid out inside `container`.
    pub fn window_at(&self, container: &Rect, col: usize, row: usize) -> (r: Option<String>)
        requires
            self.wf(),
            container.fits(),
        ensures
            match r {
                Some(w) => exists|j: int|
                    hit(self.rects_spec(*container), col as int, row as int, j)
                        && self.rects_spec(*container)[j].0 == w@,
                None => forall|j: int|
                    0 <= j < self.rects_spec(*container).len() ==> !(#[trigger] self.rects_spec(
                        *container,
                    )[j]).1.contains_point(col as int, row as int),
            },
    {
        let rects = self.get_rects(container);
        let ghost rs = pairs_view(rects@);
        proof {
            lemma_rects_fit(*self, *container);
        }
        let mut j: usize = 0;
        while j < rects.len()
            invariant
                rs == pairs_view(rects@),
                rs == self.rects_spec(*container),
                j <= rects@.len(),
                forall|k: int| 0 <= k < rs.len() ==> (#[trigger] rs[k]).1.fits(),
                forall|k: int| 0 <= k < j ==> !(#[trigger] rs[k]).1.contains_point(col as int, row as int),
            decreases rects@.len() - j,
        {
            let r = &rects[j].1;
            assert(rs[j as int].1 == *r);
            if r.x <= col && col < r.x + r.width && r.y <= row && row < r.y + r.height {
                assert(hit(rs, col as int, row as int, j as int));
                return Some(rects[j].0.clone());
            }
            j = j + 1;
        }
        None
    }
}

/// Splitting a leaf keeps every ratio of the tree strictly between 0 and 1.
pub proof fn lemma_split_wf(t: LayoutNode, target: Seq<char>, new: LayoutNode, d: SplitDirection, ratio: Ratio)
    requires
        t.wf(),
        new.wf(),
        ratio.wf(),
    ensures
        t.split_spec(target, new, d, ratio).wf(),
    decreases t,
{
    match t {
        LayoutNode::Leaf(_) => {},
        LayoutNode::Split { first, second, .. } => {
            lemma_split_wf(*first, target, new, d, ratio);
            lemma_split_wf(*second, target, new, d, ratio);
        },
    }
}

/// Removing a window keeps every ratio of the tree strictly between 0 and 1.
pub proof fn lemma_removed_wf(t: LayoutNode, id: Seq<char>)
    requires
        t.wf(),
    ensures
        t.removed(id) matches Some(u) ==> u.wf(),
    decreases t,
{
    match t {
        LayoutNode::Leaf(_) => {},
        LayoutNode::Split { first, second, .. } => {
            lemma_removed_wf(*first, id);
            lemma_removed_wf(*second, id);
        },
    }
}

/// A split of two windows lays them out in exactly two parts of its region,
/// first window first: along the split axis the first part takes
/// `floor(extent * ratio)` cells and the second the rest, so the two parts
/// share no cell and their areas add up to the region's.
pub proof fn lemma_split_of_two_windows(r: Rect, direction: SplitDir, ratio: Ratio, a: String, b: String)
    requires
        ratio.wf(),
        r.fits(),
    ensures
        ({
            let t = LayoutNode::Split {
                direction,
                ratio,
                first: Box::new(LayoutNode::Leaf(a)),
                second: Box::new(LayoutNode::Leaf(b)),
            };
            &&& t.rects_spec(r) == seq![
                (a@, split_rect(r, direction, ratio).0),
                (b@, split_rect(r, direction, ratio).1),
            ]
            &&& match direction {
                SplitDir::Vert => {
                    let s = split_extent(r.height as int, ratio);
                    &&& 0 <= s <= r.height
                    &&& t.rects_spec(r)[0].1 == Rect { x: r.x, y: r.y, width: r.width, height: s as usize }
                    &&& t.rects_spec(r)[1].1 == Rect {
                        x: r.x,
                        y: (r.y + s) as usize,
                        width: r.width,
                        height: (r.height - s) as usize,
                    }
                },
                SplitDir::Horz => {
                    let s = split_extent(r.width as int, ratio);
                    &&& 0 <= s <= r.width
                    &&& t.rects_spec(r)[0].1 == Rect { x: r.x, y: r.y, width: s as usize, height: r.height }
                    &&& t.rects_spec(r)[1].1 == Rect {
                        x: (r.x + s) as usize,
                        y: r.y,
                        width: (r.width - s) as usize,
                        height: r.height,
                    }
                },
            }
            &&& t.rects_spec(r)[0].1.width * t.rects_spec(r)[0].1.height + t.rects_spec(r)[1].1.width
                * t.rects_spec(r)[1].1.height == r.width * r.height
            &&& forall|col: int, row: int|
                !(#[trigger] t.rects_spec(r)[0].1.contains_point(col, row) && t.rects_spec(
                    r,
                )[1].1.contains_point(col, row))
            &&& forall|col: int, row: int| #[trigger]
                r.contains_point(col, row) <==> (t.rects_spec(r)[0].1.contains_point(col, row)
                    || t.rects_spec(r)[1].1.contains_point(col, row))
        }),
{
    let (p, q) = split_rect(r, direction, ratio);
    lemma_split_partitions(r, direction, ratio);
    lemma_split_extent_bounds(r.height as int, ratio);
    lemma_split_extent_bounds(r.width as int, ratio);
    assert(LayoutNode::Leaf(a).rects_spec(p) == seq![(a@, p)]);
    assert(LayoutNode::Leaf(b).rects_spec(q) == seq![(b@, q)]);
    assert(seq![(a@, p)] + seq![(b@, q)] =~= seq![(a@, p), (b@, q)]);
    let w = r.width as int;
    let h = r.height as int;
    match direction {
        SplitDir::Vert => {
            let s = split_extent(h, ratio);
            assert(w * s + w * (h - s) == w * h) by (nonlinear_arith);
        },
        SplitDir::Horz => {
            let s = split_extent(w, ratio);
            assert(s * h + (w - s) * h == w * h) by (nonlinear_arith);
        },
    }
}

impl LayoutNode {
    /// The window of the first leaf, in pre-order.
    pub open spec fn first_window_spec(self) -> String
        decreases self,
    {
        match self {
            LayoutNode::Leaf(w) => w,
            LayoutNode::Split { first, .. } => first.first_window_spec(),
        }
    }

    /// The window of the first leaf, in pre-order.
    pub fn first_window(&self) -> (r: String)
        ensures
            r == self.first_window_spec(),
            self.has_window(r@),
        decreases self,
    {
        match self {
            LayoutNode::Leaf(w) => w.clone(),
            LayoutNode::Split { first, .. } => first.first_window(),
        }
    }
}

} // verus!
