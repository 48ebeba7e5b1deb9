//! Putting a frame together: what it shows, layer upon layer.
//!
//! Larger z-indices lie on top. Among equal z-indices, what was registered
//! first lies below, static objects and steady objects below animations.

use vstd::prelude::*;
use crate::animations::AnimatedObject;
use crate::shape::{ShapeView, Visual, VisualView};
use crate::timeline::{
    frame_fits, source_fits, Activation, Frame, FrameView, Phase, Source, Timeline,
};
use crate::units::FULL;

verus! {

/// The z-index and the mathematical value of each layer.
pub open spec fn layers(drawn: Seq<(isize, Visual)>) -> Seq<(isize, VisualView)> {
    Seq::new(drawn.len(), |t: int| (drawn[t].0, drawn[t].1@))
}

/// The layers with one more put in: above all layers with the same or a smaller
/// z-index, below those with a larger one.
pub open spec fn insert_layer(sorted: Seq<(isize, VisualView)>, layer: (isize, VisualView)) -> Seq<
    (isize, VisualView),
>
    decreases sorted.len(),
{
    if sorted.len() == 0 {
        seq![layer]
    } else if sorted.last().0 <= layer.0 {
        sorted.push(layer)
    } else {
        insert_layer(sorted.drop_last(), layer).push(sorted.last())
    }
}

/// The layers in ascending order of their z-index, those with equal z-index in
/// their given order.
pub open spec fn composited(items: Seq<(isize, VisualView)>) -> Seq<(isize, VisualView)>
    decreases items.len(),
{
    if items.len() == 0 {
        Seq::empty()
    } else {
        insert_layer(composited(items.drop_last()), items.last())
    }
}

/// What a reference to something drawn as it is stands for.
pub open spec fn shown(
    statics: Seq<(isize, ShapeView)>,
    entities: Seq<AnimatedObject>,
    source: Source,
) -> (isize, VisualView) {
    match source {
        Source::Static(k) => (
            statics[k as int].0,
            VisualView { shape: statics[k as int].1, opacity: FULL },
        ),
        Source::Steady(k) => (
            entities[k as int].object.0,
            VisualView { shape: entities[k as int].object.1@, opacity: FULL },
        ),
    }
}

/// What an animation shows at the given time.
pub open spec fn animated(entities: Seq<AnimatedObject>, activation: Activation, time: int) -> (
    isize,
    VisualView,
) {
    match activation.phase {
        Phase::Enter => entities[activation.entity as int].enter.frame_at(time),
        Phase::Exit => entities[activation.entity as int].exit.frame_at(time),
    }
}

/// All that a frame shows, in the order of registration: first what is drawn as
/// it is, then what the animations show at the time of the frame.
pub open spec fn drawn(
    statics: Seq<(isize, ShapeView)>,
    entities: Seq<AnimatedObject>,
    frame: FrameView,
) -> Seq<(isize, VisualView)> {
    Seq::new(
        frame.objects.len() + frame.animations.len(),
        |t: int|
            if t < frame.objects.len() {
                shown(statics, entities, frame.objects[t])
            } else {
                animated(entities, frame.animations[t - frame.objects.len()], frame.time as int)
            },
    )
}

/// The layers with the given z-index, in their given order.
pub open spec fn with_z(items: Seq<(isize, VisualView)>, z: isize) -> Seq<(isize, VisualView)>
    decreases items.len(),
{
    if items.len() == 0 {
        Seq::empty()
    } else if items.last().0 == z {
        with_z(items.drop_last(), z).push(items.last())
    } else {
        with_z(items.drop_last(), z)
    }
}

/// Whether the z-indices never fall from one layer to the next.
pub open spec fn ascending(items: Seq<(isize, VisualView)>) -> bool {
    forall|i: int, j: int| 0 <= i < j < items.len() ==> items[i].0 <= items[j].0
}

/// Putting a layer in adds one layer, keeps ascending layers ascending, and puts
/// the new layer above those of its own z-index.
proof fn lemma_insert_layer_keeps(sorted: Seq<(isize, VisualView)>, layer: (isize, VisualView), z: isize)
    ensures
        insert_layer(sorted, layer).len() == sorted.len() + 1,
        ascending(sorted) ==> ascending(insert_layer(sorted, layer)),
        with_z(insert_layer(sorted, layer), z) == if layer.0 == z {
            with_z(sorted, z).push(layer)
        } else {
            with_z(sorted, z)
        },
        forall|t: int|
            0 <= t < insert_layer(sorted, layer).len() ==> (#[trigger] insert_layer(sorted, layer)[t])
                == layer || sorted.contains(insert_layer(sorted, layer)[t]),
    decreases sorted.len(),
{
    let after = insert_layer(sorted, layer);
    let goal = with_z(after, z) == if layer.0 == z {
        with_z(sorted, z).push(layer)
    } else {
        with_z(sorted, z)
    };
    if sorted.len() == 0 {
        assert(after.drop_last() =~= sorted);
        assert(after.last() == layer);
        assert(goal);
    } else if sorted.last().0 <= layer.0 {
        assert(after.drop_last() =~= sorted);
        assert(after.last() == layer);
        assert(goal);
        assert forall|t: int| 0 <= t < after.len() implies (#[trigger] after[t]) == layer
            || sorted.contains(after[t]) by {
            if t < sorted.len() {
                assert(sorted[t] == after[t]);
            }
        }
    } else {
        let front = sorted.drop_last();
        let inner = insert_layer(front, layer);
        lemma_insert_layer_keeps(front, layer, z);
        assert(after.drop_last() =~= inner);
        assert(after.last() == sorted.last());
        assert(goal);
        assert forall|t: int| 0 <= t < after.len() implies (#[trigger] after[t]) == layer
            || sorted.contains(after[t]) by {
            if t < inner.len() {
                assert(after[t] == inner[t]);
                if inner[t] != layer {
                    let w = choose|w: int| 0 <= w < front.len() && front[w] == inner[t];
                    assert(sorted[w] == inner[t]);
                }
            } else {
                assert(sorted[sorted.len() - 1] == after[t]);
            }
        }
        if ascending(sorted) {
            assert(ascending(front)) by {
                assert forall|i: int, j: int| 0 <= i < j < front.len() implies front[i].0
                    <= front[j].0 by {
                    assert(sorted[i].0 <= sorted[j].0);
                }
            }
            assert forall|i: int, j: int| 0 <= i < j < after.len() implies after[i].0
                <= after[j].0 by {
                if j < inner.len() {
                    assert(after[i] == inner[i] && after[j] == inner[j]);
                } else {
                    assert(after[i] == inner[i]);
                    if inner[i] != layer {
                        let w = choose|w: int| 0 <= w < front.len() && front[w] == inner[i];
                        assert(sorted[w].0 <= sorted[sorted.len() - 1].0);
                    }
                }
            }
        }
    }
}

/// Compositing is a stable sort: it keeps every layer, orders the layers by
/// ascending z-index, and leaves the layers of each z-index in their given order.
pub proof fn lemma_composited_stable_sort(items: Seq<(isize, VisualView)>, z: isize)
    ensures
        composited(items).len() == items.len(),
        ascending(composited(items)),
        with_z(composited(items), z) == with_z(items, z),
    decreases items.len(),
{
    if items.len() > 0 {
        lemma_composited_stable_sort(items.drop_last(), z);
        lemma_insert_layer_keeps(composited(items.drop_last()), items.last(), z);
    }
}

/// Putting a layer in comes to inserting it at the place below which no z-index
/// is larger and from which on every z-index is larger.
proof fn lemma_insert_layer(sorted: Seq<(isize, VisualView)>, layer: (isize, VisualView), at: int)
    requires
        0 <= at <= sorted.len(),
        at == 0 || sorted[at - 1].0 <= layer.0,
        forall|j: int| at <= j < sorted.len() ==> (#[trigger] sorted[j]).0 > layer.0,
    ensures
        insert_layer(sorted, layer) == sorted.insert(at, layer),
    decreases sorted.len(),
{
    if sorted.len() == 0 {
        assert(seq![layer] =~= sorted.insert(at, layer));
    } else if at == sorted.len() {
        assert(sorted.push(layer) =~= sorted.insert(at, layer));
    } else {
        assert(sorted.last().0 > layer.0);
        let front = sorted.drop_last();
        assert forall|j: int| at <= j < front.len() implies (#[trigger] front[j]).0 > layer.0 by {
            assert(front[j] == sorted[j]);
        }
        lemma_insert_layer(front, layer, at);
        assert(front.insert(at, layer).push(sorted.last()) =~= sorted.insert(at, layer));
    }
}

/// Puts a layer in among the sorted layers.
fn place(sorted: &mut Vec<(isize, Visual)>, layer: (isize, Visual))
    ensures
        layers(final(sorted)@) == insert_layer(layers(old(sorted)@), (layer.0, layer.1@)),
{
    let mut at: usize = sorted.len();
    while at > 0 && sorted[at - 1].0 > layer.0
        invariant
            at <= sorted@.len(),
            sorted@ == old(sorted)@,
            forall|j: int| at <= j < sorted@.len() ==> (#[trigger] sorted@[j]).0 > layer.0,
        decreases at,
    {
        at -= 1;
    }
    proof {
        let before = layers(sorted@);
        assert forall|j: int| at <= j < before.len() implies (#[trigger] before[j]).0 > layer.0 by {
            assert(sorted@[j].0 > layer.0);
        }
        lemma_insert_layer(before, (layer.0, layer.1@), at as int);
    }
    sorted.insert(at, layer);
    assert(layers(sorted@) =~= layers(old(sorted)@).insert(at as int, (layer.0, layer.1@)));
}

impl Timeline {
    /// What a reference to something drawn as it is stands for.
    pub fn show(&self, source: Source) -> (r: (isize, Visual))
        requires
            source_fits(self.statics().len() as int, self.entities().len() as int, source),
        ensures
            (r.0, r.1@) == shown(self.statics(), self.entities(), source),
    {
        match source {
            Source::Static(k) => {
                let object = self.object(k);
                (object.0, Visual { shape: object.1.clone(), opacity: FULL })
            },
            Source::Steady(k) => {
                let entity = self.entity(k);
                (entity.object.0, Visual { shape: entity.object.1.clone(), opacity: FULL })
            },
        }
    }

    /// What an animation shows at the given time.
    pub fn evaluate(&self, activation: Activation, time: i64) -> (r: (isize, Visual))
        requires
            self.wf(),
            activation.entity < self.entities().len(),
        ensures
            (r.0, r.1@) == animated(self.entities(), activation, time as int),
    {
        let entity = self.entity(activation.entity);
        match activation.phase {
            Phase::Enter => entity.enter.animate(time),
            Phase::Exit => entity.exit.animate(time),
        }
    }

    /// All that the frame shows, from the lowest layer to the topmost: the
    /// objects of the frame as they are, and its animations evaluated at the
    /// time of the frame, in ascending order of their z-index; among equal
    /// z-indices in the order of registration.
    pub fn render_frame(&self, frame: &Frame) -> (r: Vec<(isize, Visual)>)
        requires
            self.wf(),
            frame_fits(self.statics().len() as int, self.entities().len() as int, frame@),
        ensures
            layers(r@) == composited(drawn(self.statics(), self.entities(), frame@)),
    {
        let ghost all = drawn(self.statics(), self.entities(), frame@);
        let mut sorted: Vec<(isize, Visual)> = Vec::new();
        let mut t: usize = 0;
        assert(layers(sorted@) =~= composited(all.take(0)));
        while t < frame.objects.len()
            invariant
                t <= frame.objects@.len(),
                frame_fits(self.statics().len() as int, self.entities().len() as int, frame@),
                all == drawn(self.statics(), self.entities(), frame@),
                layers(sorted@) == composited(all.take(t as int)),
            decreases frame.objects@.len() - t,
        {
            let source: Source = frame.objects[t];
            assert(frame@.objects[t as int] == source);
            let layer: (isize, Visual) = self.show(source);
            proof {
                let upto = all.take(t + 1);
                assert(upto.drop_last() =~= all.take(t as int));
                assert(upto.last() == all[t as int]);
            }
            place(&mut sorted, layer);
            t += 1;
        }
        let shown: usize = t;
        let mut a: usize = 0;
        while a < frame.animations.len()
            invariant
                a <= frame.animations@.len(),
                shown == frame.objects@.len(),
                self.wf(),
                frame_fits(self.statics().len() as int, self.entities().len() as int, frame@),
                all == drawn(self.statics(), self.entities(), frame@),
                layers(sorted@) == composited(all.take(shown + a)),
            decreases frame.animations@.len() - a,
        {
            let activation: Activation = frame.animations[a];
            assert(frame@.animations[a as int] == activation);
            let layer: (isize, Visual) = self.evaluate(activation, frame.time);
            proof {
                let upto = all.take(shown + a + 1);
                assert(upto.drop_last() =~= all.take(shown + a));
                assert(upto.last() == all[shown + a]);
            }
            place(&mut sorted, layer);
            a += 1;
        }
        assert(all.take(shown + a) =~= all);
        sorted
    }
}

} // verus!
