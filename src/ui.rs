use vstd::prelude::*;

use crate::animator::{Animatable, AnimatedValue, pow_is_function, set_chain, lemma_writes_determined};
use crate::fixed::{add_fx, mul_fx, fx_add, fx_mul};
use crate::point::Point2;
use crate::scene::TextureId;

verus! {

/// The path from a root of a `Ui` down to one of its elements:
/// the root's index, then the index of each child taken on the way down.
#[derive(Debug, Clone)]
pub struct ElementId {
    path: Vec<usize>,
}

impl View for ElementId {
    type V = Seq<usize>;

    closed spec fn view(&self) -> Seq<usize> {
        self.path@
    }
}

impl PartialEq for ElementId {
    fn eq(&self, other: &ElementId) -> (r: bool) {
        let n = self.path.len();
        if n != other.path.len() {
            return false;
        }
        let mut i: usize = 0;
        while i < n
            invariant
                n == self.path@.len(),
                n == other.path@.len(),
                i <= n,
                forall|j: int| 0 <= j < i ==> self.path@[j] == other.path@[j],
            decreases n - i,
        {
            if self.path[i] != other.path[i] {
                return false;
            }
            i = i + 1;
        }
        assert(self.path@ =~= other.path@);
        true
    }
}

impl vstd::std_specs::cmp::PartialEqSpecImpl for ElementId {
    open spec fn obeys_eq_spec() -> bool {
        true
    }

    open spec fn eq_spec(&self, other: &ElementId) -> bool {
        self@ == other@
    }
}

impl ElementId {
    /// The path to the root at `id`.
    pub fn new(id: usize) -> (r: Self)
        ensures
            r@ == seq![id],
    {
        let mut path: Vec<usize> = Vec::new();
        path.push(id);
        ElementId { path }
    }

    /// A copy of this path.
    pub fn duplicate(&self) -> (r: Self)
        ensures
            r@ == self@,
    {
        let mut path: Vec<usize> = Vec::new();
        let mut i: usize = 0;
        while i < self.path.len()
            invariant
                i <= self.path@.len(),
                path@ == self.path@.subrange(0, i as int),
            decreases self.path@.len() - i,
        {
            path.push(self.path[i]);
            i = i + 1;
        }
        assert(path@ =~= self.path@);
        ElementId { path }
    }

    /// The path one level deeper, to the child at `child_id` of this element.
    pub fn push(&self, child_id: usize) -> (r: Self)
        ensures
            r@ == self@.push(child_id),
    {
        let mut element = self.duplicate();
        element.set_tail(child_id);
        element
    }

    /// Descends this path one level, to the child at `child_id`.
    pub fn set_tail(&mut self, child_id: usize)
        ensures
            final(self)@ == old(self)@.push(child_id),
    {
        self.path.push(child_id);
    }

    pub fn len(&self) -> (r: usize)
        ensures
            r == self@.len(),
    {
        self.path.len()
    }

    pub fn index(&self, i: usize) -> (r: usize)
        requires
            i < self@.len(),
        ensures
            r == self@[i as int],
    {
        self.path[i]
    }
}

/// What a click on an element reports.
pub struct UiEvent {
    pub element_id: ElementId,
}

/// A panel only shows; a button also takes clicks.
#[derive(Debug, Clone, Copy, PartialEq, Eq, Structural)]
pub enum UiElementType {
    Panel,
    Button,
}

/// An element as its owner describes it: position and size as fractions
/// of its parent's (fixed-point, see `fixed::UNIT`), and what it shows.
#[derive(Debug, Clone, Copy, PartialEq, Eq, Structural)]
pub struct UiElement {
    pub kind: UiElementType,
    pub pos: Point2<i64>,
    pub size: Point2<i64>,
    pub texture: TextureId,
}

/// The geometry that an element can be animated along.
#[derive(Debug, Clone, Copy, PartialEq, Eq, Structural)]
pub enum UiAnimatableId {
    ScaleX,
    ScaleY,
    PositionX,
    PositionY,
}

/// `e` with the component named by `id` set to `value`.
pub open spec fn with_property(e: UiElement, id: UiAnimatableId, value: i64) -> UiElement {
    match id {
        UiAnimatableId::ScaleX => UiElement { size: Point2 { x: value, y: e.size.y }, ..e },
        UiAnimatableId::ScaleY => UiElement { size: Point2 { x: e.size.x, y: value }, ..e },
        UiAnimatableId::PositionX => UiElement { pos: Point2 { x: value, y: e.pos.y }, ..e },
        UiAnimatableId::PositionY => UiElement { pos: Point2 { x: e.pos.x, y: value }, ..e },
    }
}

/// Absolute position of an element placed at `pos` inside a parent at `parent_pos` of `parent_size`.
pub open spec fn child_pos(parent_pos: Point2<i64>, parent_size: Point2<i64>, pos: Point2<i64>) -> Point2<i64> {
    Point2 {
        x: fx_add(parent_pos.x, fx_mul(pos.x, parent_size.x)),
        y: fx_add(parent_pos.y, fx_mul(pos.y, parent_size.y)),
    }
}

/// Absolute size of an element of relative `size` inside a parent of `parent_size`.
pub open spec fn child_size(parent_size: Point2<i64>, size: Point2<i64>) -> Point2<i64> {
    Point2 { x: fx_mul(size.x, parent_size.x), y: fx_mul(size.y, parent_size.y) }
}

/// An element with its absolute geometry.
#[derive(Debug, Clone, Copy)]
pub struct UiElementGlobal {
    pub inner: UiElement,
    pub global_size: Point2<i64>,
    pub global_pos: Point2<i64>,
}

pub open spec fn inside(lo: i64, len: i64, v: i64) -> bool {
    lo <= v <= lo + len
}

impl UiElementGlobal {
    /// Whether `pos` lies in the element's rectangle, edges included.
    pub open spec fn covers(&self, pos: Point2<i64>) -> bool {
        &&& inside(self.global_pos.x, self.global_size.x, pos.x)
        &&& inside(self.global_pos.y, self.global_size.y, pos.y)
    }

    pub fn intersects(&self, pos: Point2<i64>) -> (r: bool)
        ensures
            r == self.covers(pos),
    {
        let x0 = self.global_pos.x as i128;
        let y0 = self.global_pos.y as i128;
        x0 <= pos.x as i128 && pos.x as i128 <= x0 + self.global_size.x as i128
            && y0 <= pos.y as i128 && pos.y as i128 <= y0 + self.global_size.y as i128
    }
}

/// One element of a `Ui` and the children it owns, in insertion order.
pub struct UiElementInner {
    element: UiElementGlobal,
    children: Vec<UiElementInner>,
}

impl UiElementInner {
    pub closed spec fn element_spec(&self) -> UiElementGlobal {
        self.element
    }

    pub closed spec fn children_spec(&self) -> Seq<UiElementInner> {
        self.children@
    }

    /// This element sits at `gp` with size `gs`, and every descendant sits where
    /// its own relative geometry puts it inside its parent.
    pub open spec fn placed(&self, gp: Point2<i64>, gs: Point2<i64>) -> bool
        decreases self,
    {
        &&& self.element_spec().global_pos == gp
        &&& self.element_spec().global_size == gs
        &&& forall|i: int| #![trigger self.children_spec()[i]] 0 <= i < self.children_spec().len() ==> {
            let c = self.children_spec()[i];
            c.placed(
                child_pos(gp, gs, c.element_spec().inner.pos),
                child_size(gs, c.element_spec().inner.size),
            )
        }
    }

    /// The element reached from this one along `path`, each step a child index.
    pub open spec fn node_in(&self, path: Seq<usize>) -> Option<UiElementInner>
        decreases path.len(),
    {
        if path.len() == 0 {
            Some(*self)
        } else if path[0] < self.children_spec().len() {
            self.children_spec()[path[0] as int].node_in(path.drop_first())
        } else {
            None
        }
    }

    /// Both trees hold the same relative geometry and textures, shape for shape.
    pub open spec fn same_layout(&self, other: UiElementInner) -> bool
        decreases self,
    {
        &&& self.element_spec().inner == other.element_spec().inner
        &&& self.children_spec().len() == other.children_spec().len()
        &&& forall|i: int| #![trigger self.children_spec()[i]] 0 <= i < self.children_spec().len()
            ==> self.children_spec()[i].same_layout(other.children_spec()[i])
    }

    pub fn element(&self) -> (r: &UiElementGlobal)
        ensures
            *r == self.element_spec(),
    {
        &self.element
    }

    pub fn texture(&self) -> (r: TextureId)
        ensures
            r == self.element_spec().inner.texture,
    {
        self.element.inner.texture
    }

    pub fn child_count(&self) -> (r: usize)
        ensures
            r == self.children_spec().len(),
    {
        self.children.len()
    }

    fn new_node(element: UiElement, gp: Point2<i64>, gs: Point2<i64>) -> (r: Self)
        ensures
            r.element_spec() == (UiElementGlobal { inner: element, global_size: gs, global_pos: gp }),
            r.children_spec().len() == 0,
            r.placed(gp, gs),
    {
        let r = UiElementInner {
            element: UiElementGlobal { inner: element, global_size: gs, global_pos: gp },
            children: Vec::new(),
        };
        r
    }

    /// Moves this element to `gp` with size `gs` and lays out its descendants again.
    fn place(&mut self, gp: Point2<i64>, gs: Point2<i64>, Ghost(before): Ghost<UiElementInner>)
        requires
            before == *old(self),
        ensures
            final(self).placed(gp, gs),
            final(self).same_layout(*old(self)),
        decreases before,
    {
        self.element.global_pos = gp;
        self.element.global_size = gs;
        let n = self.children.len();
        let mut i: usize = 0;
        while i < n
            invariant
                before == *old(self),
                n == self.children@.len(),
                n == old(self).children@.len(),
                i <= n,
                self.element.global_pos == gp,
                self.element.global_size == gs,
                self.element.inner == old(self).element.inner,
                forall|j: int| i <= j < n ==> self.children@[j] == old(self).children@[j],
                forall|j: int| #![trigger self.children@[j]] 0 <= j < i ==> {
                    let c = self.children@[j];
                    &&& c.placed(
                        child_pos(gp, gs, c.element.inner.pos),
                        child_size(gs, c.element.inner.size),
                    )
                    &&& c.same_layout(old(self).children@[j])
                },
            decreases n - i,
        {
            let inner = self.children[i].element.inner;
            let cp = Point2 {
                x: add_fx(gp.x, mul_fx(inner.pos.x, gs.x)),
                y: add_fx(gp.y, mul_fx(inner.pos.y, gs.y)),
            };
            let cs = Point2 { x: mul_fx(inner.size.x, gs.x), y: mul_fx(inner.size.y, gs.y) };
            let ghost child = self.children@[i as int];
            proof {
                vstd::std_specs::vec::axiom_vec_index_decreases(before.children, i as int);
                assert(decreases_to!(before => before.children));
            }
            assert(decreases_to!(before => child));
            self.children[i].place(cp, cs, Ghost(child));
            i = i + 1;
        }
    }

    /// Sets one component of this element's relative geometry and lays it out again
    /// inside a parent at `pgp` of size `pgs`.
    fn set_placed(&mut self, id: UiAnimatableId, value: i64, pgp: Point2<i64>, pgs: Point2<i64>)
        ensures
            final(self).element_spec().inner == with_property(old(self).element_spec().inner, id, value),
            final(self).placed(
                child_pos(pgp, pgs, final(self).element_spec().inner.pos),
                child_size(pgs, final(self).element_spec().inner.size),
            ),
            set_target(id, value)(*old(self), *final(self)),
    {
        self.element.inner = set_property(self.element.inner, id, value);
        let inner = self.element.inner;
        let gp = Point2 {
            x: add_fx(pgp.x, mul_fx(inner.pos.x, pgs.x)),
            y: add_fx(pgp.y, mul_fx(inner.pos.y, pgs.y)),
        };
        let gs = Point2 { x: mul_fx(inner.size.x, pgs.x), y: mul_fx(inner.size.y, pgs.y) };
        let ghost mid = *self;
        self.place(gp, gs, Ghost(mid));
    }

    /// Sets one component of a root's geometry; a root's place is its own geometry.
    fn set_root(&mut self, id: UiAnimatableId, value: i64)
        ensures
            final(self).element_spec().inner == with_property(old(self).element_spec().inner, id, value),
            final(self).placed(final(self).element_spec().inner.pos, final(self).element_spec().inner.size),
            set_target(id, value)(*old(self), *final(self)),
    {
        self.element.inner = set_property(self.element.inner, id, value);
        let inner = self.element.inner;
        let ghost mid = *self;
        self.place(inner.pos, inner.size, Ghost(mid));
    }

    /// Sets a property of the descendant at `path[depth..]`, which is at least one level down.
    fn set_below(
        &mut self,
        path: &ElementId,
        depth: usize,
        id: UiAnimatableId,
        value: i64,
        gp: Point2<i64>,
        gs: Point2<i64>,
        Ghost(before): Ghost<UiElementInner>,
    )
        requires
            before == *old(self),
            old(self).placed(gp, gs),
            depth < path@.len(),
            old(self).node_in(path@.subrange(depth as int, path@.len() as int)) is Some,
        ensures
            final(self).placed(gp, gs),
            changed_at(*old(self), *final(self), path@.subrange(depth as int, path@.len() as int),
                set_target(id, value)),
        decreases before,
    {
        let ghost rest = path@.subrange(depth as int, path@.len() as int);
        assert(rest.drop_first() =~= path@.subrange(depth + 1, path@.len() as int));
        let c = path.index(depth);
        let ghost old_children = self.children@;
        proof {
            let ch = self.children_spec()[c as int];
            assert(ch.placed(child_pos(gp, gs, ch.element_spec().inner.pos),
                child_size(gs, ch.element_spec().inner.size)));
        }
        if depth == path.len() - 1 {
            self.children[c].set_placed(id, value, gp, gs);
        } else {
            let cgp = self.children[c].element.global_pos;
            let cgs = self.children[c].element.global_size;
            let ghost child = self.children@[c as int];
            proof {
                vstd::std_specs::vec::axiom_vec_index_decreases(before.children, c as int);
            }
            self.children[c].set_below(path, depth + 1, id, value, cgp, cgs, Ghost(child));
        }
        assert(rest[0] == c);
        assert(rest.drop_first().len() == 0 ==> changed_at(old_children[c as int], self.children@[c as int],
            rest.drop_first(), set_target(id, value)));
        assert(self.element == old(self).element);
        assert(forall|j: int| 0 <= j < old_children.len() && j != c ==> self.children@[j] == old_children[j]);
    }

    /// Gives the element at `path[depth..]` the texture `texture`.
    fn retexture_below(&mut self, path: &ElementId, depth: usize, texture: TextureId,
        Ghost(before): Ghost<UiElementInner>)
        requires
            before == *old(self),
            depth <= path@.len(),
            old(self).node_in(path@.subrange(depth as int, path@.len() as int)) is Some,
        ensures
            forall|gp: Point2<i64>, gs: Point2<i64>| old(self).placed(gp, gs) ==> final(self).placed(gp, gs),
            changed_at(*old(self), *final(self), path@.subrange(depth as int, path@.len() as int),
                texture_target(texture)),
        decreases before,
    {
        let ghost rest = path@.subrange(depth as int, path@.len() as int);
        if depth == path.len() {
            self.element.inner.texture = texture;
            assert(rest.len() == 0);
            assert forall|gp: Point2<i64>, gs: Point2<i64>| old(self).placed(gp, gs) implies self.placed(gp, gs) by {
                assert forall|i: int| 0 <= i < self.children_spec().len() implies
                    #[trigger] self.children_spec()[i] == old(self).children_spec()[i] by {}
            }
        } else {
            assert(rest.drop_first() =~= path@.subrange(depth + 1, path@.len() as int));
            let c = path.index(depth);
            let ghost old_children = self.children@;
            let ghost child = self.children@[c as int];
            proof {
                vstd::std_specs::vec::axiom_vec_index_decreases(before.children, c as int);
            }
            self.children[c].retexture_below(path, depth + 1, texture, Ghost(child));
            assert(forall|j: int| 0 <= j < old_children.len() && j != c ==> self.children@[j] == old_children[j]);
            assert forall|gp: Point2<i64>, gs: Point2<i64>| old(self).placed(gp, gs) implies self.placed(gp, gs) by {
                assert forall|i: int| #![trigger self.children_spec()[i]] 0 <= i < self.children_spec().len() implies {
                    let ch = self.children_spec()[i];
                    ch.placed(child_pos(gp, gs, ch.element_spec().inner.pos), child_size(gs, ch.element_spec().inner.size))
                } by {
                    let och = old(self).children_spec()[i];
                    assert(och.placed(child_pos(gp, gs, och.element_spec().inner.pos),
                        child_size(gs, och.element_spec().inner.size)));
                }
            }
        }
    }

    /// Adds `element` as the last child of the element at `path[depth..]`, laid out inside it.
    fn push_below(
        &mut self,
        path: &ElementId,
        depth: usize,
        element: UiElement,
        gp: Point2<i64>,
        gs: Point2<i64>,
        Ghost(before): Ghost<UiElementInner>,
    ) -> (r: usize)
        requires
            before == *old(self),
            old(self).placed(gp, gs),
            depth <= path@.len(),
            old(self).node_in(path@.subrange(depth as int, path@.len() as int)) is Some,
        ensures
            final(self).placed(gp, gs),
            r == old(self).node_in(path@.subrange(depth as int, path@.len() as int))->0.children_spec().len(),
            changed_at(*old(self), *final(self), path@.subrange(depth as int, path@.len() as int),
                push_target(element)),
        decreases before,
    {
        let ghost rest = path@.subrange(depth as int, path@.len() as int);
        if depth == path.len() {
            let n = self.children.len();
            let cp = Point2 {
                x: add_fx(self.element.global_pos.x, mul_fx(element.pos.x, self.element.global_size.x)),
                y: add_fx(self.element.global_pos.y, mul_fx(element.pos.y, self.element.global_size.y)),
            };
            let cs = Point2 {
                x: mul_fx(element.size.x, self.element.global_size.x),
                y: mul_fx(element.size.y, self.element.global_size.y),
            };
            let ghost old_children = self.children@;
            let node = UiElementInner::new_node(element, cp, cs);
            self.children.push(node);
            assert(rest.len() == 0);
            assert(self.children@[n as int] == node);
            assert(forall|j: int| 0 <= j < n ==> self.children@[j] == old_children[j]);
            n
        } else {
            assert(rest.drop_first() =~= path@.subrange(depth + 1, path@.len() as int));
            let c = path.index(depth);
            let ghost old_children = self.children@;
            proof {
                let ch = self.children_spec()[c as int];
                assert(ch.placed(child_pos(gp, gs, ch.element_spec().inner.pos),
                    child_size(gs, ch.element_spec().inner.size)));
            }
            let cgp = self.children[c].element.global_pos;
            let cgs = self.children[c].element.global_size;
            let ghost child = self.children@[c as int];
            proof {
                vstd::std_specs::vec::axiom_vec_index_decreases(before.children, c as int);
            }
            let r = self.children[c].push_below(path, depth + 1, element, cgp, cgs, Ghost(child));
            assert(forall|j: int| 0 <= j < old_children.len() && j != c ==> self.children@[j] == old_children[j]);
            r
        }
    }
}

/// The elements of the tree under `n`, with their paths, in depth-first pre-order
/// (an element before its children, children in insertion order); `path` leads to `n`.
pub open spec fn preorder(n: UiElementInner, path: Seq<usize>) -> Seq<(Seq<usize>, UiElementGlobal)>
    decreases n, n.children_spec().len() + 1,
{
    seq![(path, n.element_spec())] + preorder_children(n, path, n.children_spec().len() as nat)
}

/// The pre-order sequences of the first `k` children of `n`, one after another.
pub open spec fn preorder_children(n: UiElementInner, path: Seq<usize>, k: nat) -> Seq<(Seq<usize>, UiElementGlobal)>
    decreases n, k,
{
    if k == 0 || k > n.children_spec().len() {
        seq![]
    } else {
        preorder_children(n, path, (k - 1) as nat)
            + preorder(n.children_spec()[k - 1], path.push((k - 1) as usize))
    }
}

/// The pre-order sequences of the first `k` trees of a forest, one after another.
pub open spec fn preorder_forest(roots: Seq<UiElementInner>, k: nat) -> Seq<(Seq<usize>, UiElementGlobal)>
    decreases k,
{
    if k == 0 || k > roots.len() {
        seq![]
    } else {
        preorder_forest(roots, (k - 1) as nat) + preorder(roots[k - 1], seq![(k - 1) as usize])
    }
}

/// An element that takes a click at `pos`: a button whose rectangle holds `pos`.
pub open spec fn hit_by(e: UiElementGlobal, pos: Point2<i64>) -> bool {
    e.inner.kind == UiElementType::Button && e.covers(pos)
}

/// The path of the first element in `s` that takes a click at `pos`.
pub open spec fn first_hit(s: Seq<(Seq<usize>, UiElementGlobal)>, pos: Point2<i64>) -> Option<Seq<usize>>
    decreases s.len(),
{
    if s.len() == 0 {
        None
    } else if hit_by(s[0].1, pos) {
        Some(s[0].0)
    } else {
        first_hit(s.drop_first(), pos)
    }
}

pub proof fn lemma_first_hit_concat(a: Seq<(Seq<usize>, UiElementGlobal)>, b: Seq<(Seq<usize>, UiElementGlobal)>, pos: Point2<i64>)
    ensures
        first_hit(a + b, pos) == if first_hit(a, pos) is Some { first_hit(a, pos) } else { first_hit(b, pos) },
    decreases a.len(),
{
    if a.len() == 0 {
        assert(a + b =~= b);
    } else {
        assert((a + b).drop_first() =~= a.drop_first() + b);
        lemma_first_hit_concat(a.drop_first(), b, pos);
    }
}

pub proof fn lemma_preorder_children_prefix(n: UiElementInner, path: Seq<usize>, k: nat, m: nat)
    requires
        k <= m <= n.children_spec().len(),
    ensures
        exists|t: Seq<(Seq<usize>, UiElementGlobal)>|
            #[trigger] preorder_children(n, path, m) == preorder_children(n, path, k) + t,
    decreases m - k,
{
    if k == m {
        assert(preorder_children(n, path, m) == preorder_children(n, path, k) + seq![]);
    } else {
        lemma_preorder_children_prefix(n, path, k, (m - 1) as nat);
        let t = choose|t: Seq<(Seq<usize>, UiElementGlobal)>|
            #[trigger] preorder_children(n, path, (m - 1) as nat) == preorder_children(n, path, k) + t;
        let u = t + preorder(n.children_spec()[m - 1], path.push((m - 1) as usize));
        assert(preorder_children(n, path, m) =~= preorder_children(n, path, k) + u);
    }
}

pub proof fn lemma_preorder_forest_prefix(roots: Seq<UiElementInner>, k: nat, m: nat)
    requires
        k <= m <= roots.len(),
    ensures
        exists|t: Seq<(Seq<usize>, UiElementGlobal)>|
            #[trigger] preorder_forest(roots, m) == preorder_forest(roots, k) + t,
    decreases m - k,
{
    if k == m {
        assert(preorder_forest(roots, m) == preorder_forest(roots, k) + seq![]);
    } else {
        lemma_preorder_forest_prefix(roots, k, (m - 1) as nat);
        let t = choose|t: Seq<(Seq<usize>, UiElementGlobal)>|
            #[trigger] preorder_forest(roots, (m - 1) as nat) == preorder_forest(roots, k) + t;
        let u = t + preorder(roots[m - 1], seq![(m - 1) as usize]);
        assert(preorder_forest(roots, m) =~= preorder_forest(roots, k) + u);
    }
}

/// Once a prefix of `s` holds a hit, the rest of `s` does not change the first one.
pub proof fn lemma_first_hit_prefix(a: Seq<(Seq<usize>, UiElementGlobal)>, s: Seq<(Seq<usize>, UiElementGlobal)>,
    pos: Point2<i64>)
    requires
        first_hit(a, pos) is Some,
        exists|t: Seq<(Seq<usize>, UiElementGlobal)>| s == a + t,
    ensures
        first_hit(s, pos) == first_hit(a, pos),
{
    let t = choose|t: Seq<(Seq<usize>, UiElementGlobal)>| s == a + t;
    lemma_first_hit_concat(a, t, pos);
}

/// The elements of an ordered sequence, without their paths.
pub open spec fn globals(s: Seq<(Seq<usize>, UiElementGlobal)>) -> Seq<UiElementGlobal> {
    s.map_values(|p: (Seq<usize>, UiElementGlobal)| p.1)
}

pub proof fn lemma_globals_concat(a: Seq<(Seq<usize>, UiElementGlobal)>, b: Seq<(Seq<usize>, UiElementGlobal)>)
    ensures
        globals(a + b) == globals(a) + globals(b),
{
    assert(globals(a + b) =~= globals(a) + globals(b));
}

impl UiElementInner {
    /// Appends the elements under this one, in pre-order, to `out`.
    fn collect_in(&self, path: &ElementId, out: &mut Vec<UiElementGlobal>)
        ensures
            final(out)@ == old(out)@ + globals(preorder(*self, path@)),
        decreases self,
    {
        let n = self.children.len();
        let ghost start = out@;
        out.push(self.element);
        proof {
            lemma_globals_concat(seq![(path@, self.element)], preorder_children(*self, path@, n as nat));
            assert(globals(seq![(path@, self.element)]) =~= seq![self.element]);
        }
        let mut i: usize = 0;
        while i < n
            invariant
                n == self.children@.len(),
                i <= n,
                out@ == start + seq![self.element] + globals(preorder_children(*self, path@, i as nat)),
            decreases n - i,
        {
            let cid = path.push(i);
            self.children[i].collect_in(&cid, out);
            proof {
                let prev = preorder_children(*self, path@, i as nat);
                let sub = preorder(self.children@[i as int], path@.push(i));
                assert(preorder_children(*self, path@, (i + 1) as nat) == prev + sub);
                lemma_globals_concat(prev, sub);
            }
            i = i + 1;
        }
        assert(preorder(*self, path@) == seq![(path@, self.element)] + preorder_children(*self, path@, n as nat));
    }

    /// The first element under this one, in pre-order, that takes a click at `pos`.
    fn click_in(&self, path: &ElementId, pos: Point2<i64>) -> (r: Option<ElementId>)
        ensures
            first_hit(preorder(*self, path@), pos) == match r {
                Some(e) => Some(e@),
                None => None::<Seq<usize>>,
            },
        decreases self,
    {
        let ghost whole = preorder(*self, path@);
        let n = self.children.len();
        let ghost kids = preorder_children(*self, path@, n as nat);
        assert(whole.drop_first() =~= kids);
        if self.element.inner.kind == UiElementType::Button && self.element.intersects(pos) {
            return Some(path.duplicate());
        }
        let mut i: usize = 0;
        while i < n
            invariant
                n == self.children@.len(),
                i <= n,
                whole == preorder(*self, path@),
                first_hit(whole, pos) == first_hit(kids, pos),
                kids == preorder_children(*self, path@, n as nat),
                first_hit(preorder_children(*self, path@, i as nat), pos) is None,
            decreases n - i,
        {
            let cid = path.push(i);
            let r = self.children[i].click_in(&cid, pos);
            proof {
                let prev = preorder_children(*self, path@, i as nat);
                let sub = preorder(self.children@[i as int], path@.push(i));
                assert(preorder_children(*self, path@, (i + 1) as nat) == prev + sub);
                lemma_first_hit_concat(prev, sub, pos);
            }
            match r {
                Some(e) => {
                    proof {
                        lemma_preorder_children_prefix(*self, path@, (i + 1) as nat, n as nat);
                        lemma_first_hit_prefix(preorder_children(*self, path@, (i + 1) as nat), kids, pos);
                    }
                    return Some(e);
                },
                None => {},
            }
            i = i + 1;
        }
        None
    }
}

/// A forest of elements, kept laid out: each root sits where its own geometry says,
/// and each other element where its relative geometry puts it inside its parent.
pub struct Ui {
    elements: Vec<UiElementInner>,
}

impl Ui {
    pub closed spec fn roots(&self) -> Seq<UiElementInner> {
        self.elements@
    }

    pub open spec fn root_placed(n: UiElementInner) -> bool {
        n.placed(n.element_spec().inner.pos, n.element_spec().inner.size)
    }

    pub open spec fn wf(&self) -> bool {
        forall|i: int| 0 <= i < self.roots().len() ==> Self::root_placed(#[trigger] self.roots()[i])
    }

    /// The element that `id` leads to, if any.
    pub open spec fn node_at(&self, id: Seq<usize>) -> Option<UiElementInner> {
        if id.len() > 0 && id[0] < self.roots().len() {
            self.roots()[id[0] as int].node_in(id.drop_first())
        } else {
            None
        }
    }

    /// Only the root `id[0]` changed, and within it only the element at `id`, as `target` says.
    pub open spec fn changed_to(&self, new: Ui, id: Seq<usize>,
        target: spec_fn(UiElementInner, UiElementInner) -> bool) -> bool {
        &&& id.len() > 0
        &&& new.roots().len() == self.roots().len()
        &&& forall|j: int| 0 <= j < self.roots().len() && j != id[0]
            ==> #[trigger] new.roots()[j] == self.roots()[j]
        &&& changed_at(self.roots()[id[0] as int], new.roots()[id[0] as int], id.drop_first(), target)
    }

    pub fn new() -> (r: Self)
        ensures
            r.wf(),
            r.roots().len() == 0,
    {
        Ui { elements: Vec::new() }
    }

    /// Adds `element` as a new root, placed by its own geometry.
    pub fn push(&mut self, element: UiElement) -> (r: ElementId)
        requires
            old(self).wf(),
        ensures
            final(self).wf(),
            r@ == seq![old(self).roots().len() as usize],
            final(self).roots().len() == old(self).roots().len() + 1,
            forall|j: int| 0 <= j < old(self).roots().len() ==> #[trigger] final(self).roots()[j] == old(self).roots()[j],
            final(self).roots().last().element_spec()
                == (UiElementGlobal { inner: element, global_size: element.size, global_pos: element.pos }),
            final(self).roots().last().children_spec().len() == 0,
            final(self).node_at(r@) == Some(final(self).roots().last()),
    {
        let id = self.elements.len();
        self.elements.push(UiElementInner::new_node(element, element.pos, element.size));
        assert(Self::root_placed(self.elements@[id as int]));
        assert(seq![id].drop_first().len() == 0);
        ElementId::new(id)
    }

    /// Adds `element` as the last child of the element at `parent_id`, laid out inside it.
    pub fn push_child(&mut self, parent_id: &ElementId, element: UiElement) -> (r: ElementId)
        requires
            old(self).wf(),
            old(self).node_at(parent_id@) is Some,
        ensures
            final(self).wf(),
            r@ == parent_id@.push(old(self).node_at(parent_id@)->0.children_spec().len() as usize),
            old(self).changed_to(*final(self), parent_id@, push_target(element)),
            final(self).node_at(parent_id@) is Some,
            final(self).node_at(r@) == Some(final(self).node_at(parent_id@)->0.children_spec().last()),
    {
        let root = parent_id.index(0);
        let ghost before = self.elements@[root as int];
        let ghost old_roots = self.elements@;
        proof {
            assert(Self::root_placed(before));
            assert(parent_id@.drop_first() =~= parent_id@.subrange(1, parent_id@.len() as int));
        }
        let gp = self.elements[root].element.global_pos;
        let gs = self.elements[root].element.global_size;
        let k = self.elements[root].push_below(parent_id, 1, element, gp, gs, Ghost(before));
        proof {
            let now = self.elements@[root as int];
            let rest = parent_id@.drop_first();
            lemma_changed_at_path(before, now, rest, push_target(element));
            lemma_node_in_push(now, rest, k);
            assert(parent_id@.push(k).drop_first() =~= rest.push(k));
            assert(self.elements@[root as int].element == before.element);
            assert forall|j: int| 0 <= j < self.roots().len() implies Self::root_placed(#[trigger] self.roots()[j]) by {
                if j != root {
                    assert(self.roots()[j] == old_roots[j]);
                }
            }
        }
        parent_id.push(k)
    }

    /// Whether `id` leads to an element.
    pub fn contains(&self, id: &ElementId) -> (r: bool)
        ensures
            r == self.node_at(id@) is Some,
    {
        if id.len() == 0 || id.index(0) >= self.elements.len() {
            return false;
        }
        let mut node = &self.elements[id.index(0)];
        let mut d: usize = 1;
        assert(id@.drop_first() =~= id@.subrange(1, id@.len() as int));
        while d < id.len()
            invariant
                1 <= d <= id@.len(),
                node.node_in(id@.subrange(d as int, id@.len() as int)) == self.node_at(id@),
            decreases id@.len() - d,
        {
            let ghost rest = id@.subrange(d as int, id@.len() as int);
            assert(rest.drop_first() =~= id@.subrange(d + 1, id@.len() as int));
            let c = id.index(d);
            if c >= node.children.len() {
                return false;
            }
            node = &node.children[c];
            d = d + 1;
        }
        assert(id@.subrange(d as int, id@.len() as int).len() == 0);
        true
    }

    /// The element at `id`.
    pub fn get(&self, id: &ElementId) -> (r: &UiElementInner)
        requires
            self.node_at(id@) is Some,
        ensures
            *r == self.node_at(id@)->0,
    {
        let mut node = &self.elements[id.index(0)];
        let mut d: usize = 1;
        assert(id@.drop_first() =~= id@.subrange(1, id@.len() as int));
        while d < id.len()
            invariant
                1 <= d <= id@.len(),
                node.node_in(id@.subrange(d as int, id@.len() as int)) == self.node_at(id@),
                self.node_at(id@) is Some,
            decreases id@.len() - d,
        {
            let ghost rest = id@.subrange(d as int, id@.len() as int);
            assert(rest.drop_first() =~= id@.subrange(d + 1, id@.len() as int));
            node = &node.children[id.index(d)];
            d = d + 1;
        }
        assert(id@.subrange(d as int, id@.len() as int).len() == 0);
        node
    }

    /// Gives the element at `id` the texture `texture`; nothing moves.
    pub fn set_texture(&mut self, id: &ElementId, texture: TextureId)
        requires
            old(self).wf(),
            old(self).node_at(id@) is Some,
        ensures
            final(self).wf(),
            old(self).changed_to(*final(self), id@, texture_target(texture)),
    {
        let root = id.index(0);
        let ghost before = self.elements@[root as int];
        let ghost old_roots = self.elements@;
        proof {
            assert(Self::root_placed(before));
            assert(id@.drop_first() =~= id@.subrange(1, id@.len() as int));
        }
        self.elements[root].retexture_below(id, 1, texture, Ghost(before));
        proof {
            let now = self.elements@[root as int];
            lemma_changed_at_path(before, now, id@.drop_first(), texture_target(texture));
            if id@.len() == 1 {
                assert(now.element_spec().inner.pos == before.element_spec().inner.pos);
            } else {
                assert(now.element_spec() == before.element_spec());
            }
            assert(Self::root_placed(now));
            assert forall|j: int| 0 <= j < self.roots().len() implies Self::root_placed(#[trigger] self.roots()[j]) by {
                if j != root {
                    assert(self.roots()[j] == old_roots[j]);
                }
            }
        }
    }

    /// Sets property `prop` of the element at `id` to `value` and lays out again
    /// that element and everything below it; nothing else moves.
    pub fn set(&mut self, id: &ElementId, prop: UiAnimatableId, value: i64)
        requires
            old(self).wf(),
            old(self).node_at(id@) is Some,
        ensures
            final(self).wf(),
            old(self).changed_to(*final(self), id@, set_target(prop, value)),
    {
        let root = id.index(0);
        let ghost before = self.elements@[root as int];
        let ghost old_roots = self.elements@;
        proof {
            assert(Self::root_placed(before));
            assert(id@.drop_first() =~= id@.subrange(1, id@.len() as int));
        }
        if id.len() == 1 {
            self.elements[root].set_root(prop, value);
        } else {
            let gp = self.elements[root].element.global_pos;
            let gs = self.elements[root].element.global_size;
            self.elements[root].set_below(id, 1, prop, value, gp, gs, Ghost(before));
            assert(self.elements@[root as int].element == before.element);
        }
        proof {
            assert forall|j: int| 0 <= j < self.roots().len() implies Self::root_placed(#[trigger] self.roots()[j]) by {
                if j != root {
                    assert(self.roots()[j] == old_roots[j]);
                }
            }
        }
    }

    /// Every element with its absolute geometry, in drawing order: depth-first
    /// pre-order, roots and children in insertion order.
    pub fn draw_order(&self) -> (r: Vec<UiElementGlobal>)
        ensures
            r@ == globals(self.preorder_all()),
    {
        let mut out: Vec<UiElementGlobal> = Vec::new();
        let n = self.elements.len();
        let mut i: usize = 0;
        assert(globals(preorder_forest(self.roots(), 0)) =~= Seq::<UiElementGlobal>::empty());
        while i < n
            invariant
                n == self.elements@.len(),
                i <= n,
                out@ == globals(preorder_forest(self.roots(), i as nat)),
            decreases n - i,
        {
            let id = ElementId::new(i);
            self.elements[i].collect_in(&id, &mut out);
            proof {
                let prev = preorder_forest(self.roots(), i as nat);
                let sub = preorder(self.roots()[i as int], seq![i]);
                assert(preorder_forest(self.roots(), (i + 1) as nat) == prev + sub);
                lemma_globals_concat(prev, sub);
            }
            i = i + 1;
        }
        out
    }

    /// The elements of the forest, with their paths, in depth-first pre-order.
    pub open spec fn preorder_all(&self) -> Seq<(Seq<usize>, UiElementGlobal)> {
        preorder_forest(self.roots(), self.roots().len() as nat)
    }

    /// The first element in pre-order that is a button and whose rectangle, edges
    /// included, holds `pos`; the search ends there.
    pub fn click(&self, pos: Point2<i64>) -> (r: Option<UiEvent>)
        ensures
            first_hit(self.preorder_all(), pos) == match r {
                Some(e) => Some(e.element_id@),
                None => None::<Seq<usize>>,
            },
    {
        let n = self.elements.len();
        let ghost all = self.preorder_all();
        let mut i: usize = 0;
        while i < n
            invariant
                n == self.elements@.len(),
                i <= n,
                all == self.preorder_all(),
                first_hit(preorder_forest(self.roots(), i as nat), pos) is None,
            decreases n - i,
        {
            let id = ElementId::new(i);
            let r = self.elements[i].click_in(&id, pos);
            proof {
                let prev = preorder_forest(self.roots(), i as nat);
                let sub = preorder(self.roots()[i as int], seq![i]);
                assert(preorder_forest(self.roots(), (i + 1) as nat) == prev + sub);
                lemma_first_hit_concat(prev, sub, pos);
            }
            match r {
                Some(element_id) => {
                    proof {
                        lemma_preorder_forest_prefix(self.roots(), (i + 1) as nat, n as nat);
                        lemma_first_hit_prefix(preorder_forest(self.roots(), (i + 1) as nat), all, pos);
                    }
                    return Some(UiEvent { element_id });
                },
                None => {},
            }
            i = i + 1;
        }
        None
    }
}

/// `e` with the component named by `id` set to `value`.
fn set_property(e: UiElement, id: UiAnimatableId, value: i64) -> (r: UiElement)
    ensures
        r == with_property(e, id, value),
{
    match id {
        UiAnimatableId::ScaleX => UiElement { size: Point2 { x: value, y: e.size.y }, ..e },
        UiAnimatableId::ScaleY => UiElement { size: Point2 { x: e.size.x, y: value }, ..e },
        UiAnimatableId::PositionX => UiElement { pos: Point2 { x: value, y: e.pos.y }, ..e },
        UiAnimatableId::PositionY => UiElement { pos: Point2 { x: e.pos.x, y: value }, ..e },
    }
}

/// `new` is `old` where only the element at `path` (and what lies below it) may differ,
/// and the pair at `path` meets `target`; elsewhere every element is as it was.
pub open spec fn changed_at(
    old: UiElementInner,
    new: UiElementInner,
    path: Seq<usize>,
    target: spec_fn(UiElementInner, UiElementInner) -> bool,
) -> bool
    decreases path.len(),
{
    if path.len() == 0 {
        target(old, new)
    } else {
        let c = path[0] as int;
        &&& c < old.children_spec().len()
        &&& new.element_spec() == old.element_spec()
        &&& new.children_spec().len() == old.children_spec().len()
        &&& forall|j: int| 0 <= j < old.children_spec().len() && j != c
            ==> #[trigger] new.children_spec()[j] == old.children_spec()[j]
        &&& changed_at(old.children_spec()[c], new.children_spec()[c], path.drop_first(), target)
    }
}

/// The element's property `id` now holds `value`; its descendants keep their layout.
pub open spec fn set_target(id: UiAnimatableId, value: i64) -> spec_fn(UiElementInner, UiElementInner) -> bool {
    |old: UiElementInner, new: UiElementInner| {
        &&& new.element_spec().inner == with_property(old.element_spec().inner, id, value)
        &&& new.children_spec().len() == old.children_spec().len()
        &&& forall|i: int| #![trigger new.children_spec()[i]] 0 <= i < new.children_spec().len()
            ==> new.children_spec()[i].same_layout(old.children_spec()[i])
    }
}

/// The element shows `texture` and is otherwise as it was.
pub open spec fn texture_target(texture: TextureId) -> spec_fn(UiElementInner, UiElementInner) -> bool {
    |old: UiElementInner, new: UiElementInner| {
        &&& new.element_spec().inner == (UiElement { texture, ..old.element_spec().inner })
        &&& new.element_spec().global_pos == old.element_spec().global_pos
        &&& new.element_spec().global_size == old.element_spec().global_size
        &&& new.children_spec() == old.children_spec()
    }
}

/// The element is unchanged but for one more child, last, made from `element`, with no children.
pub open spec fn push_target(element: UiElement) -> spec_fn(UiElementInner, UiElementInner) -> bool {
    |old: UiElementInner, new: UiElementInner| {
        &&& new.element_spec() == old.element_spec()
        &&& new.children_spec().len() == old.children_spec().len() + 1
        &&& forall|i: int| 0 <= i < old.children_spec().len()
            ==> #[trigger] new.children_spec()[i] == old.children_spec()[i]
        &&& new.children_spec().last().element_spec().inner == element
        &&& new.children_spec().last().children_spec().len() == 0
    }
}

/// After a change at `path`, `path` still leads to an element, and the two elements there meet `target`.
pub proof fn lemma_changed_at_path(old: UiElementInner, new: UiElementInner, path: Seq<usize>,
    target: spec_fn(UiElementInner, UiElementInner) -> bool)
    requires
        changed_at(old, new, path, target),
    ensures
        old.node_in(path) is Some,
        new.node_in(path) is Some,
        target(old.node_in(path)->0, new.node_in(path)->0),
    decreases path.len(),
{
    if path.len() > 0 {
        let c = path[0] as int;
        lemma_changed_at_path(old.children_spec()[c], new.children_spec()[c], path.drop_first(), target);
    }
}

/// A path one step longer leads to a child of the element the shorter one leads to.
pub proof fn lemma_node_in_push(n: UiElementInner, path: Seq<usize>, k: usize)
    requires
        n.node_in(path) is Some,
        k < n.node_in(path)->0.children_spec().len(),
    ensures
        n.node_in(path.push(k)) == Some(n.node_in(path)->0.children_spec()[k as int]),
    decreases path.len(),
{
    if path.len() == 0 {
        assert(path.push(k).drop_first() =~= Seq::<usize>::empty());
        assert(path.push(k)[0] == k);
        let c = n.children_spec()[k as int];
        assert(c.node_in(Seq::<usize>::empty()) == Some(c));
    } else {
        assert(path.push(k).drop_first() =~= path.drop_first().push(k));
        assert(path.push(k)[0] == path[0]);
        lemma_node_in_push(n.children_spec()[path[0] as int], path.drop_first(), k);
    }
}

/// An element placed at `gp` with size `gs` places each element below it as its
/// parent's geometry and its own relative geometry say.
pub proof fn lemma_placed_below(n: UiElementInner, gp: Point2<i64>, gs: Point2<i64>, path: Seq<usize>)
    requires
        n.placed(gp, gs),
        n.node_in(path) is Some,
    ensures
        ({
            let m = n.node_in(path)->0;
            m.placed(m.element_spec().global_pos, m.element_spec().global_size)
        }),
    decreases path.len(),
{
    if path.len() > 0 {
        let c = n.children_spec()[path[0] as int];
        lemma_placed_below(c, child_pos(gp, gs, c.element_spec().inner.pos),
            child_size(gs, c.element_spec().inner.size), path.drop_first());
    }
}

/// In a laid-out `Ui` a root's absolute geometry is its own geometry, and every child
/// of the element at `id` sits at its parent's position plus its relative position
/// times its parent's size, with its relative size times its parent's size.
pub proof fn lemma_layout(ui: Ui, id: Seq<usize>, i: int)
    requires
        ui.wf(),
        ui.node_at(id) is Some,
    ensures
        id.len() == 1 ==> ({
            let r = ui.node_at(id)->0.element_spec();
            r.global_pos == r.inner.pos && r.global_size == r.inner.size
        }),
        0 <= i < ui.node_at(id)->0.children_spec().len() ==> ({
            let p = ui.node_at(id)->0.element_spec();
            let c = ui.node_at(id)->0.children_spec()[i].element_spec();
            &&& c.global_pos == child_pos(p.global_pos, p.global_size, c.inner.pos)
            &&& c.global_size == child_size(p.global_size, c.inner.size)
        }),
{
    let root = ui.roots()[id[0] as int];
    assert(Ui::root_placed(root));
    lemma_placed_below(root, root.element_spec().inner.pos, root.element_spec().inner.size, id.drop_first());
    let m = ui.node_at(id)->0;
    if 0 <= i < m.children_spec().len() {
        let c = m.children_spec()[i];
        assert(c.placed(child_pos(m.element_spec().global_pos, m.element_spec().global_size, c.element_spec().inner.pos),
            child_size(m.element_spec().global_size, c.element_spec().inner.size)));
    }
}

/// Both trees hold the same elements, geometry and textures included, shape for shape.
pub open spec fn same_tree(a: UiElementInner, b: UiElementInner) -> bool
    decreases a,
{
    &&& a.element_spec() == b.element_spec()
    &&& a.children_spec().len() == b.children_spec().len()
    &&& forall|i: int| #![trigger a.children_spec()[i]] 0 <= i < a.children_spec().len()
        ==> same_tree(a.children_spec()[i], b.children_spec()[i])
}

/// Both forests hold the same trees in the same order, in the sense of `same_tree`.
pub open spec fn same_ui(a: Ui, b: Ui) -> bool {
    &&& a.roots().len() == b.roots().len()
    &&& forall|j: int| 0 <= j < a.roots().len() ==> same_tree(#[trigger] a.roots()[j], b.roots()[j])
}

pub proof fn lemma_same_tree_refl(a: UiElementInner)
    ensures
        same_tree(a, a),
    decreases a,
{
    assert forall|i: int| #![trigger a.children_spec()[i]] 0 <= i < a.children_spec().len()
        implies same_tree(a.children_spec()[i], a.children_spec()[i]) by {
        lemma_same_tree_refl(a.children_spec()[i]);
    }
}

/// Layouts agree along a chain `a ~ b ~ c ~ d` where the middle link is `same_tree`.
pub proof fn lemma_same_layout_chain(a: UiElementInner, b: UiElementInner, c: UiElementInner, d: UiElementInner)
    requires
        a.same_layout(b),
        same_tree(b, c),
        d.same_layout(c),
    ensures
        a.same_layout(d),
    decreases a,
{
    assert forall|i: int| #![trigger a.children_spec()[i]] 0 <= i < a.children_spec().len()
        implies a.children_spec()[i].same_layout(d.children_spec()[i]) by {
        lemma_same_layout_chain(a.children_spec()[i], b.children_spec()[i], c.children_spec()[i], d.children_spec()[i]);
    }
}

/// A layout and a placement fix a tree.
pub proof fn lemma_placed_unique(a: UiElementInner, b: UiElementInner, gp: Point2<i64>, gs: Point2<i64>)
    requires
        a.same_layout(b),
        a.placed(gp, gs),
        b.placed(gp, gs),
    ensures
        same_tree(a, b),
    decreases a,
{
    assert forall|i: int| #![trigger a.children_spec()[i]] 0 <= i < a.children_spec().len()
        implies same_tree(a.children_spec()[i], b.children_spec()[i]) by {
        let (x, y) = (a.children_spec()[i], b.children_spec()[i]);
        assert(y == b.children_spec()[i]);
        lemma_placed_unique(x, y, child_pos(gp, gs, x.element_spec().inner.pos),
            child_size(gs, x.element_spec().inner.size));
    }
}

/// Setting the same property to the same value at the same path of two equal trees,
/// each laid out at the same place, gives equal trees.
pub proof fn lemma_set_unique(o1: UiElementInner, o2: UiElementInner, n1: UiElementInner, n2: UiElementInner,
    path: Seq<usize>, id: UiAnimatableId, value: i64, gp: Point2<i64>, gs: Point2<i64>)
    requires
        same_tree(o1, o2),
        changed_at(o1, n1, path, set_target(id, value)),
        changed_at(o2, n2, path, set_target(id, value)),
        n1.placed(gp, gs),
        n2.placed(gp, gs),
    ensures
        same_tree(n1, n2),
    decreases path.len(),
{
    if path.len() == 0 {
        assert forall|i: int| #![trigger n1.children_spec()[i]] 0 <= i < n1.children_spec().len()
            implies n1.children_spec()[i].same_layout(n2.children_spec()[i]) by {
            lemma_same_layout_chain(n1.children_spec()[i], o1.children_spec()[i], o2.children_spec()[i],
                n2.children_spec()[i]);
        }
        lemma_placed_unique(n1, n2, gp, gs);
    } else {
        let c = path[0] as int;
        let (a, b) = (n1.children_spec()[c], n2.children_spec()[c]);
        let rest = path.drop_first();
        assert(a.element_spec().inner == b.element_spec().inner) by {
            if rest.len() > 0 {
                assert(changed_at(o1.children_spec()[c], a, rest, set_target(id, value)));
                assert(changed_at(o2.children_spec()[c], b, rest, set_target(id, value)));
                assert(a.element_spec() == o1.children_spec()[c].element_spec());
                assert(b.element_spec() == o2.children_spec()[c].element_spec());
            } else {
                assert(changed_at(o1.children_spec()[c], a, rest, set_target(id, value)));
                assert(changed_at(o2.children_spec()[c], b, rest, set_target(id, value)));
                assert(set_target(id, value)(o1.children_spec()[c], a));
                assert(set_target(id, value)(o2.children_spec()[c], b));
            }
            assert(same_tree(o1.children_spec()[c], o2.children_spec()[c]));
        }
        assert forall|j: int| #![trigger n1.children_spec()[j]] 0 <= j < n1.children_spec().len()
            implies same_tree(n1.children_spec()[j], n2.children_spec()[j]) by {
            if j == c {
                lemma_set_unique(o1.children_spec()[c], o2.children_spec()[c], a, b, rest, id, value,
                    child_pos(gp, gs, a.element_spec().inner.pos), child_size(gs, a.element_spec().inner.size));
            } else {
                assert(n1.children_spec()[j] == o1.children_spec()[j]);
                assert(n2.children_spec()[j] == o2.children_spec()[j]);
                assert(same_tree(o1.children_spec()[j], o2.children_spec()[j]));
            }
        }
    }
}

/// One element of a `Ui`, as the target of an animation.
pub struct UiTarget {
    pub ui: Ui,
    pub id: ElementId,
}

impl Animatable<UiAnimatableId> for UiTarget {
    open spec fn ready(&self) -> bool {
        self.ui.wf() && self.ui.node_at(self.id@) is Some
    }

    /// The same element of the `Ui` has property `id` set to `value`; nothing else changed
    /// but the layout below it.
    open spec fn set_post(&self, id: UiAnimatableId, value: i64, new: UiTarget) -> bool {
        &&& new.id@ == self.id@
        &&& self.ui.changed_to(new.ui, self.id@, set_target(id, value))
    }

    fn set(&mut self, id: &UiAnimatableId, value: i64) {
        let ghost before = self.ui;
        self.ui.set(&self.id, *id, value);
        proof {
            let path = self.id@;
            lemma_changed_at_path(before.roots()[path[0] as int], self.ui.roots()[path[0] as int],
                path.drop_first(), set_target(*id, value));
        }
    }
}

/// Setting the same property to the same value on two equal targets gives equal targets.
pub proof fn lemma_target_set_unique(t1: UiTarget, t2: UiTarget, n1: UiTarget, n2: UiTarget,
    id: UiAnimatableId, value: i64)
    requires
        t1.id@ == t2.id@,
        same_ui(t1.ui, t2.ui),
        t1.ready(),
        n1.ready(),
        n2.ready(),
        t1.set_post(id, value, n1),
        t2.set_post(id, value, n2),
    ensures
        n1.id@ == n2.id@,
        same_ui(n1.ui, n2.ui),
{
    let path = t1.id@;
    let r = path[0] as int;
    let rest = path.drop_first();
    let (o1, o2) = (t1.ui.roots()[r], t2.ui.roots()[r]);
    let (a, b) = (n1.ui.roots()[r], n2.ui.roots()[r]);
    assert(same_tree(o1, o2));
    assert(a.element_spec().inner == b.element_spec().inner) by {
        if rest.len() == 0 {
            assert(set_target(id, value)(o1, a));
            assert(set_target(id, value)(o2, b));
        }
    }
    assert(Ui::root_placed(a));
    assert(Ui::root_placed(b));
    lemma_set_unique(o1, o2, a, b, rest, id, value, a.element_spec().inner.pos, a.element_spec().inner.size);
    assert forall|j: int| 0 <= j < n1.ui.roots().len() implies same_tree(#[trigger] n1.ui.roots()[j], n2.ui.roots()[j]) by {
        if j != r {
            assert(n1.ui.roots()[j] == t1.ui.roots()[j]);
            assert(n2.ui.roots()[j] == t2.ui.roots()[j]);
            assert(same_tree(t1.ui.roots()[j], t2.ui.roots()[j]));
        }
    }
}

/// Two ticks at the same progress on equal `Ui` targets, with `pow` a function, make the
/// same writes and leave equal targets; so a repeated tick changes nothing further.
pub proof fn lemma_ui_tick_determined<F: Fn(i64, i64) -> i64>(values: Seq<AnimatedValue<UiAnimatableId>>, g: i64,
    pow: F, s1: UiTarget, e1: UiTarget, states1: Seq<UiTarget>, xs1: Seq<i64>, s2: UiTarget, e2: UiTarget,
    states2: Seq<UiTarget>, xs2: Seq<i64>)
    requires
        pow_is_function(pow),
        s1.ready(),
        s1.id@ == s2.id@,
        same_ui(s1.ui, s2.ui),
        set_chain(values, g, pow, s1, e1, states1, xs1),
        set_chain(values, g, pow, s2, e2, states2, xs2),
    ensures
        xs1 == xs2,
        e1.id@ == e2.id@,
        same_ui(e1.ui, e2.ui),
{
    lemma_writes_determined(values, g, pow, s1, e1, states1, xs1, s2, e2, states2, xs2);
    lemma_chain_same(values, g, pow, s1, e1, states1, xs1, s2, e2, states2, xs2, values.len() as int);
}

proof fn lemma_chain_same<F: Fn(i64, i64) -> i64>(values: Seq<AnimatedValue<UiAnimatableId>>, g: i64,
    pow: F, s1: UiTarget, e1: UiTarget, states1: Seq<UiTarget>, xs1: Seq<i64>, s2: UiTarget, e2: UiTarget,
    states2: Seq<UiTarget>, xs2: Seq<i64>, k: int)
    requires
        0 <= k <= values.len(),
        xs1 == xs2,
        s1.ready(),
        s1.id@ == s2.id@,
        same_ui(s1.ui, s2.ui),
        set_chain(values, g, pow, s1, e1, states1, xs1),
        set_chain(values, g, pow, s2, e2, states2, xs2),
    ensures
        states1[k].id@ == states2[k].id@,
        same_ui(states1[k].ui, states2[k].ui),
        states1[k].ready(),
    decreases k,
{
    if k > 0 {
        lemma_chain_same(values, g, pow, s1, e1, states1, xs1, s2, e2, states2, xs2, k - 1);
        let i = k - 1;
        assert(xs1[i] == xs2[i]);
        lemma_target_set_unique(states1[i], states2[i], states1[k], states2[k], values[i].id, xs1[i]);
    }
}

} // verus!
