//! Bounding-volume hierarchy: tree form for construction, flat form for
//! traversal.
//!
//! The tree is either a leaf holding one primitive or an inner node holding
//! two children and the box that surrounds them.  Flattening lays the tree
//! out in pre-order; each inner entry carries a skip count, the number of
//! entries its subtree occupies after it, so a missed box advances the
//! cursor past the whole subtree in one step.
//!
//! Primitives and boxes are carried as opaque payloads: what it means for a
//! ray to hit a box or a primitive is numeric shading-side work.  The
//! theorems at the bottom hold for every choice of those two tests: walking
//! the flat layout visits primitives exactly as walking the tree does, and
//! whenever box misses prune soundly — in particular when every box test
//! passes — the walk computes exactly what a brute-force scan over the same
//! primitive set computes.

use vstd::prelude::*;

verus! {

/// Construction form: a binary tree over primitives of type `T` whose inner
/// nodes carry a surrounding box of type `B`.
pub enum BvhTree<T, B> {
    Leaf { obj: T },
    Node { left: Box<BvhTree<T, B>>, right: Box<BvhTree<T, B>>, bbox: B },
}

/// One entry of the flat layout: an inner node's box with its skip count,
/// or a leaf's primitive.
pub type BvhEntry<T, B> = Result<(B, usize), T>;

/// How many primitives the tree holds.
pub open spec fn tree_size<T, B>(t: BvhTree<T, B>) -> nat
    decreases t,
{
    match t {
        BvhTree::Leaf { .. } => 1,
        BvhTree::Node { left, right, .. } => tree_size(*left) + tree_size(*right),
    }
}

/// The tree's primitives, left to right.
pub open spec fn tree_leaves<T, B>(t: BvhTree<T, B>) -> Seq<T>
    decreases t,
{
    match t {
        BvhTree::Leaf { obj } => seq![obj],
        BvhTree::Node { left, right, .. } => tree_leaves(*left) + tree_leaves(*right),
    }
}

/// How many entries the tree occupies once flattened: one per leaf and one
/// per inner node.
pub open spec fn flat_len<T, B>(t: BvhTree<T, B>) -> nat
    decreases t,
{
    match t {
        BvhTree::Leaf { .. } => 1,
        BvhTree::Node { left, right, .. } => 1 + flat_len(*left) + flat_len(*right),
    }
}

/// The flat pre-order layout: an inner node's entry precedes its subtree
/// and its skip count is exactly that subtree's entry count.
pub open spec fn flat_of<T, B>(t: BvhTree<T, B>) -> Seq<BvhEntry<T, B>>
    decreases t,
{
    match t {
        BvhTree::Leaf { obj } => seq![Err(obj)],
        BvhTree::Node { left, right, bbox } => seq![
            Ok((bbox, ((flat_len(*left) + flat_len(*right)) as usize))),
        ] + flat_of(*left) + flat_of(*right),
    }
}

/// A tree holds as many primitives as it has leaves.
pub proof fn lemma_leaves_size<T, B>(t: BvhTree<T, B>)
    ensures
        tree_leaves(t).len() == tree_size(t),
    decreases t,
{
    match t {
        BvhTree::Leaf { .. } => {},
        BvhTree::Node { left, right, .. } => {
            lemma_leaves_size(*left);
            lemma_leaves_size(*right);
        },
    }
}

/// The leaf entries of a flat layout, in order.
pub open spec fn flat_leaves<T, B>(s: Seq<BvhEntry<T, B>>) -> Seq<T>
    decreases s.len(),
{
    if s.len() == 0 {
        Seq::empty()
    } else {
        match s[0] {
            Err(obj) => seq![obj] + flat_leaves(s.skip(1)),
            Ok(_) => flat_leaves(s.skip(1)),
        }
    }
}

/// Flattening a tree in front of anything else contributes exactly the
/// tree's leaves, in order.
pub proof fn lemma_flat_leaves_append<T, B>(t: BvhTree<T, B>, rest: Seq<BvhEntry<T, B>>)
    ensures
        flat_leaves(flat_of(t) + rest) == tree_leaves(t) + flat_leaves(rest),
    decreases t,
{
    match t {
        BvhTree::Leaf { obj } => {
            let e = flat_of(t) + rest;
            assert(e[0] == Err::<(B, usize), T>(obj));
            assert(e.skip(1) =~= rest);
            assert(flat_leaves(e) =~= tree_leaves(t) + flat_leaves(rest));
        },
        BvhTree::Node { left, right, bbox } => {
            lemma_flat_of_len(*left);
            lemma_flat_of_len(*right);
            let sk = (flat_len(*left) + flat_len(*right)) as usize;
            let e = flat_of(t) + rest;
            assert(e[0] == Ok::<(B, usize), T>((bbox, sk)));
            assert(e.skip(1) =~= flat_of(*left) + (flat_of(*right) + rest));
            lemma_flat_leaves_append(*left, flat_of(*right) + rest);
            lemma_flat_leaves_append(*right, rest);
            assert(tree_leaves(*left) + (tree_leaves(*right) + flat_leaves(rest)) =~= tree_leaves(t)
                + flat_leaves(rest));
        },
    }
}

/// The leaf entries of `flat_of(t)`, in order, are exactly the tree's
/// leaves: flattening loses no primitive and reorders none.
pub proof fn lemma_flat_of_leaves<T, B>(t: BvhTree<T, B>)
    ensures
        flat_leaves(flat_of(t)) == tree_leaves(t),
{
    lemma_flat_leaves_append(t, Seq::empty());
    assert(flat_of(t) + Seq::<BvhEntry<T, B>>::empty() =~= flat_of(t));
    assert(tree_leaves(t) + Seq::<T>::empty() =~= tree_leaves(t));
}

/// The flat layout is as long as `flat_len` says.
pub proof fn lemma_flat_of_len<T, B>(t: BvhTree<T, B>)
    ensures
        flat_of(t).len() == flat_len(t),
    decreases t,
{
    match t {
        BvhTree::Leaf { .. } => {},
        BvhTree::Node { left, right, .. } => {
            lemma_flat_of_len(*left);
            lemma_flat_of_len(*right);
        },
    }
}

impl<T, B> BvhTree<T, B> {
    /// How many primitives the tree holds.
    pub fn size(&self) -> (n: usize)
        requires
            tree_size(*self) <= usize::MAX,
        ensures
            n == tree_size(*self),
        decreases *self,
    {
        match self {
            BvhTree::Leaf { .. } => 1,
            BvhTree::Node { left, right, .. } => left.size() + right.size(),
        }
    }
}

/// Traversal form: the flat pre-order layout of a `BvhTree`.
pub struct LinearBvh<T, B> {
    lbvh: Vec<BvhEntry<T, B>>,
}

impl<T, B> View for LinearBvh<T, B> {
    type V = Seq<BvhEntry<T, B>>;

    closed spec fn view(&self) -> Seq<BvhEntry<T, B>> {
        self.lbvh@
    }
}

impl<T, B> LinearBvh<T, B> {
    /// Flattens a tree; the result is exactly `flat_of` the tree.
    pub fn new(bvh: BvhTree<T, B>) -> (r: LinearBvh<T, B>)
        requires
            flat_len(bvh) <= usize::MAX,
        ensures
            r@ == flat_of(bvh),
    {
        LinearBvh { lbvh: Self::flatten_bvh(bvh) }
    }

    fn flatten_bvh(bvh: BvhTree<T, B>) -> (v: Vec<BvhEntry<T, B>>)
        requires
            flat_len(bvh) <= usize::MAX,
        ensures
            v@ == flat_of(bvh),
        decreases bvh,
    {
        match bvh {
            BvhTree::Leaf { obj } => {
                let mut v: Vec<BvhEntry<T, B>> = Vec::new();
                v.push(Err(obj));
                proof {
                    assert(v@ =~= flat_of(BvhTree::<T, B>::Leaf { obj }));
                }
                v
            },
            BvhTree::Node { left, right, bbox } => {
                proof {
                    lemma_flat_of_len(*left);
                    lemma_flat_of_len(*right);
                }
                let mut l = Self::flatten_bvh(*left);
                let mut r = Self::flatten_bvh(*right);
                let mut v: Vec<BvhEntry<T, B>> = Vec::new();
                v.push(Ok((bbox, l.len() + r.len())));
                v.append(&mut l);
                v.append(&mut r);
                proof {
                    assert(v@ =~= flat_of(
                        BvhTree::Node { left: left, right: right, bbox: bbox },
                    ));
                }
                v
            },
        }
    }

    /// How many entries the flat layout holds.
    pub fn len(&self) -> (n: usize)
        ensures
            n == self@.len(),
    {
        self.lbvh.len()
    }

    /// The entry at `ix`.
    pub fn get(&self, ix: usize) -> (e: &BvhEntry<T, B>)
        requires
            ix < self@.len(),
        ensures
            *e == self@[ix as int],
    {
        &self.lbvh[ix]
    }
}

/// The cursor step of the flat walk: one entry forward after a leaf or a
/// hit box, past the whole subtree after a missed box.
pub fn advance_cursor(ix: usize, hit: bool, skip: usize) -> (next: usize)
    requires
        ix + skip + 1 <= usize::MAX,
    ensures
        next == if hit {
            ix + 1
        } else {
            ix + skip + 1
        },
        next > ix,
{
    if hit {
        ix + 1
    } else {
        ix + skip + 1
    }
}

/// Every inner entry's skip count stays inside the layout: counting from
/// the entry after the inner node, the subtree it may skip over ends within
/// the sequence.
pub open spec fn skips_in_bounds<T, B>(s: Seq<BvhEntry<T, B>>) -> bool {
    forall|i: int|
        0 <= i < s.len() && (#[trigger] s[i]) is Ok ==> i + 1 + (s[i]->Ok_0.1 as int) <= s.len()
}

/// A flattened tree's skip counts all stay inside the layout.
pub proof fn lemma_skips_in_bounds<T, B>(t: BvhTree<T, B>)
    ensures
        skips_in_bounds(flat_of(t)),
    decreases t,
{
    match t {
        BvhTree::Leaf { .. } => {},
        BvhTree::Node { left, right, .. } => {
            lemma_flat_of_len(*left);
            lemma_flat_of_len(*right);
            lemma_skips_in_bounds(*left);
            lemma_skips_in_bounds(*right);
            let e = flat_of(t);
            let a = flat_of(*left);
            let b = flat_of(*right);
            assert forall|i: int| 0 <= i < e.len() && (#[trigger] e[i]) is Ok implies i + 1 + (
            e[i]->Ok_0.1 as int) <= e.len() by {
                if i == 0 {
                } else if i < 1 + a.len() {
                    assert(e[i] == a[i - 1]);
                } else {
                    assert(e[i] == b[i - 1 - a.len()]);
                }
            }
        },
    }
}

/// Combining two boxes into the one that surrounds both; the renderer
/// implements it for its numeric box type.  Box contents are opaque here,
/// so nothing is assumed of the combination.
pub trait Surround: Sized {
    fn surrounding_box(&self, other: &Self) -> Self;
}

/// One primitive ready for hierarchy construction: the primitive itself,
/// its bounding box, and one sort key per axis.  A key stands for the box's
/// minimum corner on that axis, mapped to an integer so that key order is
/// corner order.
pub struct BvhItem<T, B> {
    pub obj: T,
    pub bbox: B,
    pub keys: [u64; 3],
}

/// The primitives of a run of items, in order.
pub open spec fn items_objs<T, B>(items: Seq<BvhItem<T, B>>) -> Seq<T> {
    items.map_values(|it: BvhItem<T, B>| it.obj)
}

/// The sort key of `it` on `axis`.
pub open spec fn axis_key<T, B>(it: BvhItem<T, B>, axis: int) -> u64 {
    it.keys[axis]
}

/// Keys on `axis` never decrease along `s`.
pub open spec fn sorted_by_axis<T, B>(s: Seq<BvhItem<T, B>>, axis: int) -> bool {
    forall|p: int, q: int|
        0 <= p < q < s.len() ==> axis_key(#[trigger] s[p], axis) <= axis_key(#[trigger] s[q], axis)
}

/// Stable insertion sort by the key of one axis.  Keeps the items (and so
/// the primitives) as a multiset.
pub(crate) fn sort_items_by_axis<T, B>(v: &mut Vec<BvhItem<T, B>>, axis: usize)
    requires
        axis < 3,
    ensures
        final(v)@.len() == old(v)@.len(),
        sorted_by_axis(final(v)@, axis as int),
        final(v)@.to_multiset() == old(v)@.to_multiset(),
        items_objs(final(v)@).to_multiset() == items_objs(old(v)@).to_multiset(),
{
    let mut i: usize = 1;
    while i < v.len()
        invariant
            1 <= i,
            axis < 3,
            v@.len() == old(v)@.len(),
            forall|p: int, q: int|
                0 <= p < q < i && q < v@.len() ==> axis_key(#[trigger] v@[p], axis as int)
                    <= axis_key(#[trigger] v@[q], axis as int),
            v@.to_multiset() == old(v)@.to_multiset(),
            items_objs(v@).to_multiset() == items_objs(old(v)@).to_multiset(),
        decreases v@.len() - i,
    {
        let ghost pre = v@;
        let key = v[i].keys[axis];
        let x = v.remove(i);
        let ghost mid = v@;
        let mut j: usize = 0;
        while j < i && v[j].keys[axis] <= key
            invariant
                j <= i,
                i < pre.len(),
                axis < 3,
                v@ == mid,
                mid == pre.remove(i as int),
                key == axis_key(pre[i as int], axis as int),
                forall|t: int| 0 <= t < j ==> axis_key(#[trigger] mid[t], axis as int) <= key,
            decreases i - j,
        {
            j = j + 1;
        }
        v.insert(j, x);
        proof {
            broadcast use vstd::seq_lib::group_to_multiset_ensures;
            broadcast use vstd::multiset::group_multiset_axioms;

            let ax = axis as int;
            let ii = i as int;
            let jj = j as int;
            assert(x == pre[ii]);
            assert(v@ == mid.insert(jj, x));
            // the sorted prefix grew by one
            assert forall|p: int, q: int|
                0 <= p < q < ii + 1 && q < v@.len() implies axis_key(#[trigger] v@[p], ax)
                <= axis_key(#[trigger] v@[q], ax) by {
                if q < jj {
                    assert(v@[p] == pre[p] && v@[q] == pre[q]);
                } else if p < jj && q == jj {
                    assert(v@[p] == mid[p] && v@[q] == x);
                } else if p < jj && q > jj {
                    assert(v@[p] == mid[p] && v@[q] == mid[q - 1]);
                    if jj < i as int {
                        assert(axis_key(mid[jj], ax) <= axis_key(mid[q - 1], ax) || q - 1 == jj);
                    }
                } else if p == jj {
                    assert(v@[p] == x && v@[q] == mid[q - 1]);
                    assert(jj < ii);
                    assert(axis_key(x, ax) < axis_key(mid[jj], ax));
                    assert(axis_key(mid[jj], ax) <= axis_key(mid[q - 1], ax) || q - 1 == jj);
                } else {
                    assert(v@[p] == mid[p - 1] && v@[q] == mid[q - 1]);
                }
            }
            // the items are the same multiset as before the step
            vstd::seq_lib::to_multiset_remove(pre, ii);
            vstd::seq_lib::to_multiset_insert(mid, jj, x);
            assert(pre.contains(pre[ii]));
            assert(pre.to_multiset().count(x) > 0);
            assert(v@.to_multiset() =~= pre.to_multiset());
            // and so are the primitives they carry
            assert(items_objs(mid) =~= items_objs(pre).remove(ii));
            assert(items_objs(v@) =~= items_objs(mid).insert(jj, x.obj));
            vstd::seq_lib::to_multiset_remove(items_objs(pre), ii);
            vstd::seq_lib::to_multiset_insert(items_objs(mid), jj, x.obj);
            assert(items_objs(pre).contains(items_objs(pre)[ii]));
            assert(items_objs(pre).to_multiset().count(x.obj) > 0);
            assert(items_objs(v@).to_multiset() =~= items_objs(pre).to_multiset());
        }
        i = i + 1;
    }
}

impl<T, B: Surround + Clone> BvhTree<T, B> {
    /// Builds the hierarchy over at least one primitive: a single item
    /// becomes a leaf; otherwise the items are sorted on a randomly chosen
    /// axis, split at the median, and the two halves become the children of
    /// a node whose box surrounds theirs.  The tree holds exactly the
    /// primitives that went in.
    pub fn new(objs: Vec<BvhItem<T, B>>, rng: &mut fastrand::Rng) -> (t: BvhTree<T, B>)
        requires
            objs@.len() >= 1,
        ensures
            tree_size(t) == objs@.len(),
            tree_leaves(t).to_multiset() == items_objs(objs@).to_multiset(),
    {
        let r = Self::new_with_box(objs, rng);
        r.0
    }

    fn new_with_box(objs: Vec<BvhItem<T, B>>, rng: &mut fastrand::Rng) -> (r: (BvhTree<T, B>, B))
        requires
            objs@.len() >= 1,
        ensures
            tree_size(r.0) == objs@.len(),
            tree_leaves(r.0).to_multiset() == items_objs(objs@).to_multiset(),
        decreases objs@.len(),
    {
        let ghost input = objs@;
        let mut objs = objs;
        if objs.len() == 1 {
            let it = objs.pop().unwrap();
            let t = BvhTree::Leaf { obj: it.obj };
            proof {
                broadcast use vstd::seq_lib::group_to_multiset_ensures;

                assert(tree_leaves(t) =~= seq![it.obj]);
                assert(items_objs(input) =~= seq![it.obj]);
            }
            (t, it.bbox)
        } else {
            let axis = crate::rng::rng_u8_bounded(rng, 2) as usize;
            sort_items_by_axis(&mut objs, axis);
            let ghost s = objs@;
            let mid = objs.len() / 2;
            let right_items = objs.split_off(mid);
            let lr = Self::new_with_box(right_items, rng);
            let ll = Self::new_with_box(objs, rng);
            let bbox = ll.1.surrounding_box(&lr.1);
            let bb = bbox.clone();
            let ghost glt = ll.0;
            let ghost grt = lr.0;
            let t = BvhTree::Node { left: Box::new(ll.0), right: Box::new(lr.0), bbox };
            proof {
                let lpart = s.subrange(0, mid as int);
                let rpart = s.subrange(mid as int, s.len() as int);
                assert(s =~= lpart + rpart);
                assert(items_objs(s) =~= items_objs(lpart) + items_objs(rpart));
                vstd::seq_lib::lemma_multiset_commutative(items_objs(lpart), items_objs(rpart));
                assert(tree_leaves(t) =~= tree_leaves(glt) + tree_leaves(grt));
                vstd::seq_lib::lemma_multiset_commutative(tree_leaves(glt), tree_leaves(grt));
                vstd::seq_lib::lemma_multiset_commutative(lpart, rpart);
            }
            (t, bb)
        }
    }
}

/// A flattened tree has one entry per leaf and one per inner node: two per
/// primitive, less one.
pub proof fn lemma_flat_len_size<T, B>(t: BvhTree<T, B>)
    ensures
        flat_len(t) == 2 * tree_size(t) - 1,
    decreases t,
{
    match t {
        BvhTree::Leaf { .. } => {},
        BvhTree::Node { left, right, .. } => {
            lemma_flat_len_size(*left);
            lemma_flat_len_size(*right);
        },
    }
}

impl<T, B: Surround + Clone> LinearBvh<T, B> {
    /// Builds the hierarchy over the given items and flattens it in one
    /// step.  An empty scene, or one too large for the flat layout to
    /// index, is a configuration error.
    pub fn from_items(objs: Vec<BvhItem<T, B>>, rng: &mut fastrand::Rng) -> (r: Option<
        LinearBvh<T, B>,
    >)
        ensures
            r is Some <==> 1 <= objs@.len() <= usize::MAX / 2,
            r matches Some(lb) ==> exists|t: BvhTree<T, B>|
                {
                    &&& lb@ == #[trigger] flat_of(t)
                    &&& tree_size(t) == objs@.len()
                    &&& tree_leaves(t).to_multiset() == items_objs(objs@).to_multiset()
                },
            r matches Some(lb) ==> {
                &&& lb@.len() == 2 * objs@.len() - 1
                &&& skips_in_bounds(lb@)
                &&& flat_leaves(lb@).len() == objs@.len()
                &&& flat_leaves(lb@).to_multiset() == items_objs(objs@).to_multiset()
            },
    {
        let n = objs.len();
        if n == 0 || n > usize::MAX / 2 {
            return None;
        }
        let t = BvhTree::new(objs, rng);
        let ghost gt = t;
        proof {
            lemma_flat_len_size(gt);
        }
        let lb = LinearBvh::new(t);
        proof {
            assert(lb@ == flat_of(gt) && tree_size(gt) == objs@.len() && tree_leaves(
                gt,
            ).to_multiset() == items_objs(objs@).to_multiset());
            lemma_flat_of_len(gt);
            lemma_skips_in_bounds(gt);
            lemma_flat_of_leaves(gt);
            lemma_leaves_size(gt);
        }
        Some(lb)
    }
}

/// What a walk of the tree computes, for any box test and any primitive
/// test.  The state `S` stands for the intersection record the renderer
/// threads through traversal; the ray is folded into the two tests.
pub open spec fn tree_traverse<T, B, S>(
    t: BvhTree<T, B>,
    s: S,
    box_test: spec_fn(B, S) -> bool,
    prim_test: spec_fn(T, S) -> S,
) -> S
    decreases t,
{
    match t {
        BvhTree::Leaf { obj } => prim_test(obj, s),
        BvhTree::Node { left, right, bbox } => if box_test(bbox, s) {
            tree_traverse(*right, tree_traverse(*left, s, box_test, prim_test), box_test, prim_test)
        } else {
            s
        },
    }
}

/// What the skip-count walk of a flat layout computes: leaves apply the
/// primitive test, a hit box steps one entry, a missed box steps past the
/// skip count.
pub open spec fn flat_traverse<T, B, S>(
    entries: Seq<BvhEntry<T, B>>,
    s: S,
    box_test: spec_fn(B, S) -> bool,
    prim_test: spec_fn(T, S) -> S,
) -> S
    decreases entries.len(),
{
    if entries.len() == 0 {
        s
    } else {
        match entries[0] {
            Err(obj) => flat_traverse(entries.skip(1), prim_test(obj, s), box_test, prim_test),
            Ok(p) => {
                if box_test(p.0, s) {
                    flat_traverse(entries.skip(1), s, box_test, prim_test)
                } else {
                    let step = if 1 + (p.1 as int) <= entries.len() {
                        1 + (p.1 as int)
                    } else {
                        entries.len() as int
                    };
                    flat_traverse(entries.skip(step), s, box_test, prim_test)
                }
            },
        }
    }
}

/// A brute-force scan: the primitive test applied to every primitive in
/// order, with no boxes consulted.
pub open spec fn scan_prims<T, S>(prims: Seq<T>, s: S, prim_test: spec_fn(T, S) -> S) -> S
    decreases prims.len(),
{
    if prims.len() == 0 {
        s
    } else {
        scan_prims(prims.skip(1), prim_test(prims[0], s), prim_test)
    }
}

/// Walking a tree's flat layout followed by anything else first computes
/// the tree's walk, then goes on with the rest.
pub proof fn lemma_flat_traverse_append<T, B, S>(
    t: BvhTree<T, B>,
    rest: Seq<BvhEntry<T, B>>,
    s: S,
    box_test: spec_fn(B, S) -> bool,
    prim_test: spec_fn(T, S) -> S,
)
    requires
        flat_len(t) <= usize::MAX,
    ensures
        flat_traverse(flat_of(t) + rest, s, box_test, prim_test) == flat_traverse(
            rest,
            tree_traverse(t, s, box_test, prim_test),
            box_test,
            prim_test,
        ),
    decreases t,
{
    lemma_flat_of_len(t);
    match t {
        BvhTree::Leaf { obj } => {
            let e = flat_of(t) + rest;
            assert(e[0] == Err::<(B, usize), T>(obj));
            assert(e.skip(1) =~= rest);
        },
        BvhTree::Node { left, right, bbox } => {
            lemma_flat_of_len(*left);
            lemma_flat_of_len(*right);
            let sk = (flat_len(*left) + flat_len(*right)) as usize;
            let e = flat_of(t) + rest;
            assert(e[0] == Ok::<(B, usize), T>((bbox, sk)));
            if box_test(bbox, s) {
                let s1 = tree_traverse(*left, s, box_test, prim_test);
                assert(e.skip(1) =~= flat_of(*left) + (flat_of(*right) + rest));
                lemma_flat_traverse_append(*left, flat_of(*right) + rest, s, box_test, prim_test);
                lemma_flat_traverse_append(*right, rest, s1, box_test, prim_test);
            } else {
                assert(1 + (sk as int) <= e.len());
                assert(e.skip(1 + (sk as int)) =~= rest);
            }
        },
    }
}

/// The walk of the flat layout computes exactly the walk of the tree it was
/// flattened from, for every box test and every primitive test.
pub proof fn lemma_linear_matches_tree<T, B, S>(
    t: BvhTree<T, B>,
    s: S,
    box_test: spec_fn(B, S) -> bool,
    prim_test: spec_fn(T, S) -> S,
)
    requires
        flat_len(t) <= usize::MAX,
    ensures
        flat_traverse(flat_of(t), s, box_test, prim_test) == tree_traverse(
            t,
            s,
            box_test,
            prim_test,
        ),
{
    lemma_flat_traverse_append(t, Seq::empty(), s, box_test, prim_test);
    assert(flat_of(t) + Seq::<BvhEntry<T, B>>::empty() =~= flat_of(t));
}

/// Scanning a concatenation scans the first part, then the second.
pub proof fn lemma_scan_append<T, S>(
    p1: Seq<T>,
    p2: Seq<T>,
    s: S,
    prim_test: spec_fn(T, S) -> S,
)
    ensures
        scan_prims(p1 + p2, s, prim_test) == scan_prims(p2, scan_prims(p1, s, prim_test), prim_test),
    decreases p1.len(),
{
    if p1.len() == 0 {
        assert(p1 + p2 =~= p2);
    } else {
        assert((p1 + p2)[0] == p1[0]);
        assert((p1 + p2).skip(1) =~= p1.skip(1) + p2);
        lemma_scan_append(p1.skip(1), p2, prim_test(p1[0], s), prim_test);
    }
}

/// Box misses may prune soundly: wherever a box test turns an inner node
/// away, scanning that node's primitives would have left the state alone.
/// This is what the numeric slab test provides when every inner box
/// encloses its subtree's primitives.
pub open spec fn pruning_sound<T, B, S>(
    t: BvhTree<T, B>,
    box_test: spec_fn(B, S) -> bool,
    prim_test: spec_fn(T, S) -> S,
) -> bool
    decreases t,
{
    match t {
        BvhTree::Leaf { .. } => true,
        BvhTree::Node { left, right, bbox } => {
            &&& forall|s: S|
                !box_test(bbox, s) ==> scan_prims(tree_leaves(t), s, prim_test) == s
            &&& pruning_sound(*left, box_test, prim_test)
            &&& pruning_sound(*right, box_test, prim_test)
        },
    }
}

/// With sound pruning, the tree's walk computes exactly what a brute-force
/// scan of its primitives computes.  Together with
/// `lemma_linear_matches_tree`, the flat skip-count walk then returns the
/// same closest hit as a scan over the same primitive set, for every ray.
pub proof fn lemma_pruned_is_scan<T, B, S>(
    t: BvhTree<T, B>,
    s: S,
    box_test: spec_fn(B, S) -> bool,
    prim_test: spec_fn(T, S) -> S,
)
    requires
        pruning_sound(t, box_test, prim_test),
    ensures
        tree_traverse(t, s, box_test, prim_test) == scan_prims(tree_leaves(t), s, prim_test),
    decreases t,
{
    match t {
        BvhTree::Leaf { obj } => {
            assert(tree_leaves(t) =~= seq![obj]);
            assert(seq![obj].skip(1) =~= Seq::<T>::empty());
            assert(scan_prims(Seq::<T>::empty(), prim_test(obj, s), prim_test) == prim_test(obj, s));
            assert(scan_prims(seq![obj], s, prim_test) == scan_prims(
                seq![obj].skip(1),
                prim_test(obj, s),
                prim_test,
            ));
        },
        BvhTree::Node { left, right, bbox } => {
            if box_test(bbox, s) {
                lemma_pruned_is_scan(*left, s, box_test, prim_test);
                let s1 = tree_traverse(*left, s, box_test, prim_test);
                lemma_pruned_is_scan(*right, s1, box_test, prim_test);
                lemma_scan_append(tree_leaves(*left), tree_leaves(*right), s, prim_test);
            }
        },
    }
}

/// The closest hit from the flat skip-count walk equals the closest hit
/// from a brute-force scan over the same primitive set, for every ray whose
/// box misses prune soundly.
pub proof fn lemma_linear_matches_scan<T, B, S>(
    t: BvhTree<T, B>,
    s: S,
    box_test: spec_fn(B, S) -> bool,
    prim_test: spec_fn(T, S) -> S,
)
    requires
        flat_len(t) <= usize::MAX,
        pruning_sound(t, box_test, prim_test),
    ensures
        flat_traverse(flat_of(t), s, box_test, prim_test) == scan_prims(
            tree_leaves(t),
            s,
            prim_test,
        ),
{
    lemma_linear_matches_tree(t, s, box_test, prim_test);
    lemma_pruned_is_scan(t, s, box_test, prim_test);
}

/// When every box test passes, the tree's walk is a brute-force scan of its
/// primitives in order.
pub proof fn lemma_no_prune_is_scan<T, B, S>(
    t: BvhTree<T, B>,
    s: S,
    box_test: spec_fn(B, S) -> bool,
    prim_test: spec_fn(T, S) -> S,
)
    requires
        forall|b: B, st: S| #[trigger] box_test(b, st),
    ensures
        tree_traverse(t, s, box_test, prim_test) == scan_prims(tree_leaves(t), s, prim_test),
    decreases t,
{
    match t {
        BvhTree::Leaf { obj } => {
            assert(tree_leaves(t) =~= seq![obj]);
            assert(seq![obj].skip(1) =~= Seq::<T>::empty());
            assert(scan_prims(Seq::<T>::empty(), prim_test(obj, s), prim_test) == prim_test(obj, s));
            assert(scan_prims(seq![obj], s, prim_test) == scan_prims(
                seq![obj].skip(1),
                prim_test(obj, s),
                prim_test,
            ));
        },
        BvhTree::Node { left, right, bbox } => {
            lemma_no_prune_is_scan(*left, s, box_test, prim_test);
            let s1 = tree_traverse(*left, s, box_test, prim_test);
            lemma_no_prune_is_scan(*right, s1, box_test, prim_test);
            lemma_scan_append(tree_leaves(*left), tree_leaves(*right), s, prim_test);
        },
    }
}

} // verus!
