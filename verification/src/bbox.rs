//! Bounding boxes over a tree of shapes.

use vstd::prelude::*;

verus! {

/// An axis-aligned rectangle, given by its four edges. Each edge is an
/// integer that orders as the coordinate it stands for: the library compares
/// edges and never computes with them. [`coordinate_key`] gives the integer
/// for a coordinate in single precision.
#[derive(Clone, Copy, Debug, PartialEq, Eq, Structural)]
pub struct Bounds {
    pub left: i64,
    pub top: i64,
    pub right: i64,
    pub bottom: i64,
}

/// A node of a tree of shapes.
#[derive(Debug)]
pub enum ShapeNode {
    /// Something drawn, with the rectangle it covers.
    Path(Bounds),
    /// A container; its children are in document order.
    Group(Vec<ShapeNode>),
    /// Anything else. It has no extent, whatever lies below it.
    Other,
}

/// Whether the bit pattern has its sign bit set.
pub open spec fn is_negative(bits: u32) -> bool {
    bits >= 0x8000_0000
}

/// The bit pattern without its sign bit.
pub open spec fn magnitude(bits: u32) -> int {
    if is_negative(bits) {
        bits - 0x8000_0000
    } else {
        bits as int
    }
}

/// The key of a number in single precision, given by its bit pattern: the
/// magnitude where the sign bit is clear, and below zero the greater the
/// magnitude, the smaller the key. Negative zero comes just before zero.
pub open spec fn key_of(bits: u32) -> int {
    if is_negative(bits) {
        -magnitude(bits) - 1
    } else {
        magnitude(bits)
    }
}

/// The rectangles of the paths at or below `node`, in document order. A path
/// counts where only groups lie between it and `node`.
pub open spec fn drawable_bounds(node: ShapeNode) -> Seq<Bounds>
    decreases node,
{
    match node {
        ShapeNode::Path(b) => seq![b],
        ShapeNode::Group(children) => drawable_bounds_of(children@),
        ShapeNode::Other => Seq::empty(),
    }
}

/// The rectangles of the paths at or below `nodes`, in document order.
pub open spec fn drawable_bounds_of(nodes: Seq<ShapeNode>) -> Seq<Bounds>
    decreases nodes,
{
    if nodes.len() == 0 {
        Seq::empty()
    } else {
        drawable_bounds_of(nodes.drop_last()) + drawable_bounds(nodes.last())
    }
}

/// The smallest rectangle that holds both `a` and `b`.
pub open spec fn join(a: Bounds, b: Bounds) -> Bounds {
    Bounds {
        left: if a.left <= b.left { a.left } else { b.left },
        top: if a.top <= b.top { a.top } else { b.top },
        right: if a.right >= b.right { a.right } else { b.right },
        bottom: if a.bottom >= b.bottom { a.bottom } else { b.bottom },
    }
}

/// The smallest rectangle that holds all of `boxes`; none where there is no
/// box.
pub open spec fn union_of(boxes: Seq<Bounds>) -> Option<Bounds>
    decreases boxes.len(),
{
    if boxes.len() == 0 {
        None
    } else {
        match union_of(boxes.drop_last()) {
            None => Some(boxes.last()),
            Some(u) => Some(join(u, boxes.last())),
        }
    }
}

/// Whether `b` holds every one of `boxes`.
pub open spec fn covers(b: Bounds, boxes: Seq<Bounds>) -> bool {
    forall|i: int|
        0 <= i < boxes.len() ==> {
            let x = #[trigger] boxes[i];
            b.left <= x.left && b.top <= x.top && x.right <= b.right && x.bottom <= b.bottom
        }
}

/// Whether each edge of `b` is that edge of one of `boxes`.
pub open spec fn touches(b: Bounds, boxes: Seq<Bounds>) -> bool {
    &&& exists|i: int| 0 <= i < boxes.len() && (#[trigger] boxes[i]).left == b.left
    &&& exists|i: int| 0 <= i < boxes.len() && (#[trigger] boxes[i]).top == b.top
    &&& exists|i: int| 0 <= i < boxes.len() && (#[trigger] boxes[i]).right == b.right
    &&& exists|i: int| 0 <= i < boxes.len() && (#[trigger] boxes[i]).bottom == b.bottom
}

/// The union of some boxes holds each of them, and each of its edges is an
/// edge of one of them: its left and top are the least, its right and bottom
/// the greatest. Without boxes there is no union.
pub proof fn lemma_union_is_tight(boxes: Seq<Bounds>)
    ensures
        union_of(boxes) is None <==> boxes.len() == 0,
        union_of(boxes) matches Some(u) ==> covers(u, boxes) && touches(u, boxes),
    decreases boxes.len(),
{
    if boxes.len() > 0 {
        let front = boxes.drop_last();
        let last = boxes.last();
        lemma_union_is_tight(front);
        let u = union_of(boxes)->0;
        assert(boxes[boxes.len() - 1] == last);
        match union_of(front) {
            None => {
                assert(u == last);
            },
            Some(f) => {
                assert(u == join(f, last));
                assert forall|i: int| 0 <= i < boxes.len() implies {
                    let x = #[trigger] boxes[i];
                    u.left <= x.left && u.top <= x.top && x.right <= u.right && x.bottom
                        <= u.bottom
                } by {
                    if i < front.len() {
                        assert(front[i] == boxes[i]);
                    }
                }
                let l = choose|i: int| 0 <= i < front.len() && (#[trigger] front[i]).left == f.left;
                let t = choose|i: int| 0 <= i < front.len() && (#[trigger] front[i]).top == f.top;
                let r = choose|i: int|
                    0 <= i < front.len() && (#[trigger] front[i]).right == f.right;
                let b = choose|i: int|
                    0 <= i < front.len() && (#[trigger] front[i]).bottom == f.bottom;
                assert(boxes[l] == front[l] && boxes[t] == front[t] && boxes[r] == front[r]
                    && boxes[b] == front[b]);
            },
        }
    }
}

/// Different bit patterns have different keys, and the keys order as sign
/// and magnitude say: a pattern with the sign bit comes before one without;
/// without the sign bit the greater magnitude comes later, with it earlier.
pub proof fn lemma_keys_keep_the_order(a: u32, b: u32)
    ensures
        key_of(a) == key_of(b) <==> a == b,
        is_negative(a) && !is_negative(b) ==> key_of(a) < key_of(b),
        !is_negative(a) && !is_negative(b) ==> (key_of(a) <= key_of(b) <==> magnitude(a)
            <= magnitude(b)),
        is_negative(a) && is_negative(b) ==> (key_of(a) <= key_of(b) <==> magnitude(a)
            >= magnitude(b)),
        -0x8000_0000 <= key_of(a) < 0x8000_0000,
{
}

/// The key of a number in single precision, given by its bit pattern.
pub fn coordinate_key(bits: u32) -> (key: i64)
    ensures
        key == key_of(bits),
{
    if bits >= 0x8000_0000 {
        -((bits - 0x8000_0000) as i64) - 1
    } else {
        bits as i64
    }
}

/// The bit pattern whose key is `key`; none where `key` is no key.
pub fn key_coordinate(key: i64) -> (r: Option<u32>)
    ensures
        match r {
            Some(bits) => key_of(bits) == key,
            None => forall|bits: u32| key_of(bits) != key,
        },
{
    if 0 <= key && key < 0x8000_0000 {
        Some(key as u32)
    } else if -0x8000_0000 <= key && key < 0 {
        Some((-(key + 1)) as u32 + 0x8000_0000)
    } else {
        None
    }
}

/// Appends to `bboxes` the rectangle of every path at or below `node`, in
/// document order. Groups are walked; any other node is passed over, with
/// all that lies below it.
pub fn compute_bbox(node: &ShapeNode, bboxes: &mut Vec<Bounds>)
    ensures
        final(bboxes)@ == old(bboxes)@ + drawable_bounds(*node),
    decreases node,
{
    match node {
        ShapeNode::Path(b) => {
            bboxes.push(*b);
            assert(bboxes@ =~= old(bboxes)@ + drawable_bounds(*node));
        },
        ShapeNode::Group(children) => {
            let ghost nodes = children@;
            let mut i: usize = 0;
            assert(old(bboxes)@ + drawable_bounds_of(nodes.take(0)) =~= old(bboxes)@);
            while i < children.len()
                invariant
                    i <= children.len(),
                    nodes == children@,
                    *node == ShapeNode::Group(*children),
                    bboxes@ == old(bboxes)@ + drawable_bounds_of(nodes.take(i as int)),
                decreases children.len() - i,
            {
                let ghost before = bboxes@;
                assert(nodes.take(i + 1).drop_last() =~= nodes.take(i as int));
                assert(nodes.take(i + 1).last() == children[i as int]);
                assert(decreases_to!(node => node->Group_0));
                assert(decreases_to!(*children => children[i as int]));
                compute_bbox(&children[i], bboxes);
                assert(bboxes@ =~= old(bboxes)@ + drawable_bounds_of(nodes.take(i + 1)));
                i += 1;
            }
            assert(nodes.take(i as int) =~= nodes);
        },
        ShapeNode::Other => {
            assert(bboxes@ =~= old(bboxes)@ + drawable_bounds(*node));
        },
    }
}

/// The smallest rectangle that holds all of `boxes`.
pub fn bounding_box(boxes: &Vec<Bounds>) -> (r: Option<Bounds>)
    ensures
        r == union_of(boxes@),
        r is None <==> boxes.len() == 0,
        r matches Some(u) ==> covers(u, boxes@) && touches(u, boxes@),
{
    proof {
        lemma_union_is_tight(boxes@);
    }
    if boxes.len() == 0 {
        return None;
    }
    let mut u = boxes[0];
    let mut i: usize = 1;
    assert(boxes@.take(1).drop_last() =~= boxes@.take(0));
    assert(union_of(boxes@.take(0)) is None);
    while i < boxes.len()
        invariant
            1 <= i <= boxes.len(),
            union_of(boxes@.take(i as int)) == Some(u),
        decreases boxes.len() - i,
    {
        let x = boxes[i];
        assert(boxes@.take(i + 1).drop_last() =~= boxes@.take(i as int));
        assert(boxes@.take(i + 1).last() == x);
        if x.left < u.left {
            u.left = x.left;
        }
        if x.top < u.top {
            u.top = x.top;
        }
        if x.right > u.right {
            u.right = x.right;
        }
        if x.bottom > u.bottom {
            u.bottom = x.bottom;
        }
        i += 1;
    }
    assert(boxes@.take(i as int) =~= boxes@);
    Some(u)
}

/// The smallest rectangle that holds every path at or below `shape`; none
/// where nothing is drawn.
pub fn measure(shape: &ShapeNode) -> (r: Option<Bounds>)
    ensures
        r == union_of(drawable_bounds(*shape)),
{
    let mut boxes: Vec<Bounds> = Vec::new();
    compute_bbox(shape, &mut boxes);
    assert(boxes@ =~= drawable_bounds(*shape));
    bounding_box(&boxes)
}

} // verus!
