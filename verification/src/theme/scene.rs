//! A scene: an ordered stack of layers, drawn first to last, with the
//! counter that hands out fresh layer identifiers.
use vstd::prelude::*;

use crate::theme::layer::{BackgroundLayer, ImageLayer, Layer, LayerId, TextLayer};

verus! {

/// Some layer of `layers` carries `id`.
pub open spec fn contains_id(layers: Seq<Layer>, id: LayerId) -> bool {
    exists|i: int| 0 <= i < layers.len() && #[trigger] layers[i].spec_id() == id
}

/// `i` is the first position of `layers` that carries `id`.
pub open spec fn is_first_index(layers: Seq<Layer>, id: LayerId, i: int) -> bool {
    &&& 0 <= i < layers.len()
    &&& layers[i].spec_id() == id
    &&& forall|j: int| 0 <= j < i ==> #[trigger] layers[j].spec_id() != id
}

/// The first position of `layers` that carries `id` (meaningful when
/// `contains_id(layers, id)`).
pub open spec fn first_index(layers: Seq<Layer>, id: LayerId) -> int {
    choose|i: int| is_first_index(layers, id, i)
}

/// The layer that `Scene::layer` finds for `id`.
pub open spec fn find_layer(layers: Seq<Layer>, id: LayerId) -> Option<Layer> {
    if contains_id(layers, id) {
        Some(layers[first_index(layers, id)])
    } else {
        None
    }
}

/// No two layers share an identifier.
pub open spec fn ids_unique(layers: Seq<Layer>) -> bool {
    forall|i: int, j: int|
        0 <= i < layers.len() && 0 <= j < layers.len() && i != j ==> #[trigger] layers[i].spec_id()
            != #[trigger] layers[j].spec_id()
}

/// Every identifier lies strictly below `bound`.
pub open spec fn ids_below(layers: Seq<Layer>, bound: LayerId) -> bool {
    forall|i: int| 0 <= i < layers.len() ==> #[trigger] layers[i].spec_id() < bound
}

/// Identifiers are unique, non-zero and below the counter `next`.
pub open spec fn layers_wf(layers: Seq<Layer>, next: LayerId) -> bool {
    &&& next > 0
    &&& ids_unique(layers)
    &&& ids_below(layers, next)
    &&& forall|i: int| 0 <= i < layers.len() ==> #[trigger] layers[i].spec_id() != 0
}

/// The largest identifier in `layers`, or 0 when there is none.
pub open spec fn max_id(layers: Seq<Layer>) -> LayerId
    decreases layers.len(),
{
    if layers.len() == 0 {
        0
    } else {
        let rest = max_id(layers.drop_last());
        let last = layers.last().spec_id();
        if last > rest {
            last
        } else {
            rest
        }
    }
}

/// `layers` with positions `i` and `j` exchanged.
pub open spec fn swapped(layers: Seq<Layer>, i: int, j: int) -> Seq<Layer> {
    layers.update(i, layers[j]).update(j, layers[i])
}

/// The stack after raising the layer `id` one step, or `None` when the
/// layer is missing, is a background, or is already on top.
pub open spec fn spec_move_up(layers: Seq<Layer>, id: LayerId) -> Option<Seq<Layer>> {
    if !contains_id(layers, id) {
        None
    } else {
        let i = first_index(layers, id);
        if layers[i] is Background || i + 1 >= layers.len() {
            None
        } else {
            Some(swapped(layers, i, i + 1))
        }
    }
}

/// The stack after lowering the layer `id` one step, or `None` when the
/// layer is missing, is a background, is at the bottom, or would pass
/// below a background.
pub open spec fn spec_move_down(layers: Seq<Layer>, id: LayerId) -> Option<Seq<Layer>> {
    if !contains_id(layers, id) {
        None
    } else {
        let i = first_index(layers, id);
        if i == 0 || layers[i] is Background || layers[i - 1] is Background {
            None
        } else {
            Some(swapped(layers, i, i - 1))
        }
    }
}

/// The layers that do not carry `id`, in their order.
pub open spec fn without_id(layers: Seq<Layer>, id: LayerId) -> Seq<Layer> {
    layers.filter(|layer: Layer| layer.spec_id() != id)
}

/// A layer that is present has a first position.
pub proof fn lemma_first_index_exists(layers: Seq<Layer>, id: LayerId)
    requires
        contains_id(layers, id),
    ensures
        is_first_index(layers, id, first_index(layers, id)),
    decreases layers.len(),
{
    let k = choose|k: int| 0 <= k < layers.len() && #[trigger] layers[k].spec_id() == id;
    if k == 0 {
        assert(is_first_index(layers, id, 0));
    } else if layers[0].spec_id() == id {
        assert(is_first_index(layers, id, 0));
    } else {
        let rest = layers.drop_first();
        assert(rest[k - 1].spec_id() == id);
        lemma_first_index_exists(rest, id);
        let r = first_index(rest, id);
        assert forall|j: int| 0 <= j < r + 1 implies #[trigger] layers[j].spec_id() != id by {
            if j > 0 {
                assert(layers[j] == rest[j - 1]);
            }
        }
        assert(is_first_index(layers, id, r + 1));
    }
}

/// The first position is unique.
pub proof fn lemma_first_index_unique(layers: Seq<Layer>, id: LayerId, i: int)
    requires
        is_first_index(layers, id, i),
    ensures
        first_index(layers, id) == i,
        contains_id(layers, id),
{
    assert(layers[i].spec_id() == id);
    lemma_first_index_exists(layers, id);
    let f = first_index(layers, id);
    if f < i {
        assert(layers[f].spec_id() != id);
    } else if i < f {
        assert(layers[i].spec_id() != id);
    }
}

/// With unique identifiers, the layer carrying `id` sits exactly where
/// some layer with that identifier sits.
pub proof fn lemma_unique_index(layers: Seq<Layer>, id: LayerId, i: int)
    requires
        ids_unique(layers),
        0 <= i < layers.len(),
        layers[i].spec_id() == id,
    ensures
        is_first_index(layers, id, i),
        first_index(layers, id) == i,
{
    assert forall|j: int| 0 <= j < i implies #[trigger] layers[j].spec_id() != id by {
        assert(layers[j].spec_id() != layers[i].spec_id());
    }
    lemma_first_index_unique(layers, id, i);
}

/// Extending a stack by one layer extends the maximum identifier.
proof fn lemma_max_id_push(layers: Seq<Layer>, layer: Layer)
    ensures
        max_id(layers.push(layer)) == if layer.spec_id() > max_id(layers) {
            layer.spec_id()
        } else {
            max_id(layers)
        },
{
    assert(layers.push(layer).drop_last() =~= layers);
}

/// Every identifier is at most the maximum, and the maximum of a
/// non-empty stack is carried by one of its layers.
pub proof fn lemma_max_id_bounds(layers: Seq<Layer>)
    ensures
        forall|i: int| 0 <= i < layers.len() ==> #[trigger] layers[i].spec_id() <= max_id(layers),
        layers.len() > 0 ==> contains_id(layers, max_id(layers)),
    decreases layers.len(),
{
    if layers.len() > 0 {
        let rest = layers.drop_last();
        lemma_max_id_bounds(rest);
        assert forall|i: int| 0 <= i < layers.len() implies #[trigger] layers[i].spec_id()
            <= max_id(layers) by {
            if i < layers.len() - 1 {
                assert(layers[i] == rest[i]);
            }
        }
        if layers.last().spec_id() <= max_id(rest) && rest.len() > 0 {
            let k = choose|k: int| 0 <= k < rest.len() && #[trigger] rest[k].spec_id() == max_id(
                rest,
            );
            assert(layers[k] == rest[k]);
        } else {
            assert(layers[layers.len() - 1].spec_id() == max_id(layers));
        }
    }
}

/// An ordered stack of layers.
#[derive(Debug)]
pub struct Scene {
    pub name: String,
    pub layers: Vec<Layer>,
    /// The identifier that the next layer without one receives.
    pub next_layer_id: LayerId,
}

impl Clone for Scene {
    fn clone(&self) -> (copy: Scene)
        ensures
            copy.name == self.name,
            copy.layers@ == self.layers@,
            copy.spec_next_layer_id() == self.spec_next_layer_id(),
    {
        let mut layers: Vec<Layer> = Vec::new();
        let mut i: usize = 0;
        while i < self.layers.len()
            invariant
                i <= self.layers.len(),
                layers@ == self.layers@.take(i as int),
            decreases self.layers.len() - i,
        {
            layers.push(self.layers[i].clone());
            i = i + 1;
            assert(layers@ =~= self.layers@.take(i as int));
        }
        assert(layers@ =~= self.layers@);
        Scene { name: self.name.clone(), layers, next_layer_id: self.next_layer_id }
    }
}

impl Scene {
    /// The identifier that the next layer without one will receive.
    pub open spec fn spec_next_layer_id(&self) -> LayerId {
        self.next_layer_id
    }

    /// Identifiers are unique, non-zero and below the counter: the state
    /// every scene built through these operations is in.
    pub open spec fn wf(&self) -> bool {
        layers_wf(self.layers@, self.spec_next_layer_id())
    }

    /// An empty scene whose first layer will receive identifier 1.
    pub fn new(name: &str) -> (scene: Scene)
        ensures
            scene.name@ == name@,
            scene.layers@ == Seq::<Layer>::empty(),
            scene.spec_next_layer_id() == 1,
            scene.wf(),
    {
        Scene { name: name.to_owned(), layers: Vec::new(), next_layer_id: 1 }
    }

    /// Rebuilds a scene from its parts (used when a stored scene is read
    /// back); call `rebuild_layer_ids` to restore the counter.
    pub fn from_parts(name: String, layers: Vec<Layer>) -> (scene: Scene)
        ensures
            scene.name == name,
            scene.layers@ == layers@,
            scene.spec_next_layer_id() == 0,
    {
        Scene { name, layers, next_layer_id: 0 }
    }

    /// Position of the first layer that carries `id`.
    fn position(&self, id: LayerId) -> (index: Option<usize>)
        ensures
            match index {
                Some(i) => is_first_index(self.layers@, id, i as int),
                None => !contains_id(self.layers@, id),
            },
    {
        let mut i: usize = 0;
        while i < self.layers.len()
            invariant
                i <= self.layers.len(),
                forall|j: int| 0 <= j < i ==> #[trigger] self.layers@[j].spec_id() != id,
            decreases self.layers.len() - i,
        {
            if self.layers[i].id() == id {
                return Some(i);
            }
            i = i + 1;
        }
        None
    }

    /// Raises the layer `id` one step towards the top. Backgrounds never
    /// move, and the top layer stays on top; `false` means nothing changed.
    pub fn move_layer_up(&mut self, id: LayerId) -> (moved: bool)
        ensures
            moved == spec_move_up(old(self).layers@, id) is Some,
            final(self).layers@ == match spec_move_up(old(self).layers@, id) {
                Some(layers) => layers,
                None => old(self).layers@,
            },
            final(self).name == old(self).name,
            final(self).spec_next_layer_id() == old(self).spec_next_layer_id(),
    {
        let index = match self.position(id) {
            Some(index) => index,
            None => {
                return false;
            },
        };
        proof {
            lemma_first_index_unique(self.layers@, id, index as int);
        }
        if matches!(self.layers[index], Layer::Background(_)) {
            return false;
        }
        assert(index < self.layers.len());
        if index + 1 >= self.layers.len() {
            return false;
        }
        let above = self.layers.remove(index + 1);
        self.layers.insert(index, above);
        assert(self.layers@ =~= swapped(old(self).layers@, index as int, index + 1));
        true
    }

    /// Lowers the layer `id` one step. Backgrounds never move and no layer
    /// passes below a background; `false` means nothing changed.
    pub fn move_layer_down(&mut self, id: LayerId) -> (moved: bool)
        ensures
            moved == spec_move_down(old(self).layers@, id) is Some,
            final(self).layers@ == match spec_move_down(old(self).layers@, id) {
                Some(layers) => layers,
                None => old(self).layers@,
            },
            final(self).name == old(self).name,
            final(self).spec_next_layer_id() == old(self).spec_next_layer_id(),
    {
        let index = match self.position(id) {
            Some(index) => index,
            None => {
                return false;
            },
        };
        proof {
            lemma_first_index_unique(self.layers@, id, index as int);
        }
        if index == 0 || matches!(self.layers[index], Layer::Background(_)) {
            return false;
        }
        let target = index - 1;
        if matches!(self.layers[target], Layer::Background(_)) {
            return false;
        }
        let current = self.layers.remove(index);
        self.layers.insert(target, current);
        assert(self.layers@ =~= swapped(old(self).layers@, index as int, target as int));
        true
    }

    /// Whether the layer `id` exists and is a background.
    pub fn is_background(&self, id: LayerId) -> (background: bool)
        ensures
            background == (find_layer(self.layers@, id) matches Some(layer)
                && layer is Background),
    {
        match self.layer(id) {
            Some(layer) => matches!(layer, Layer::Background(_)),
            None => false,
        }
    }

    /// Hands out the counter's identifier and advances the counter.
    pub fn next_layer_id(&mut self) -> (id: LayerId)
        requires
            old(self).spec_next_layer_id() < LayerId::MAX,
        ensures
            id == old(self).spec_next_layer_id(),
            final(self).spec_next_layer_id() == id + 1,
            final(self).layers@ == old(self).layers@,
            final(self).name == old(self).name,
    {
        let id = self.next_layer_id;
        self.next_layer_id = self.next_layer_id + 1;
        id
    }

    /// The counter after a layer with `requested` identifier is added.
    pub open spec fn counter_after_add(&self, requested: LayerId) -> LayerId {
        if requested == 0 {
            (self.spec_next_layer_id() + 1) as LayerId
        } else if self.spec_next_layer_id() > requested + 1 {
            self.spec_next_layer_id()
        } else {
            (requested + 1) as LayerId
        }
    }

    /// The identifier a layer with `requested` identifier ends up with.
    pub open spec fn id_after_add(&self, requested: LayerId) -> LayerId {
        if requested == 0 {
            self.spec_next_layer_id()
        } else {
            requested
        }
    }

    /// The requirement of the add operations: the counter, or the explicit
    /// identifier plus one, must fit.
    pub open spec fn can_add(&self, requested: LayerId) -> bool {
        if requested == 0 {
            self.spec_next_layer_id() < LayerId::MAX
        } else {
            requested < LayerId::MAX
        }
    }

    /// Adds an image layer on top. A layer with identifier 0 receives the
    /// counter's identifier; any other identifier is kept and the counter
    /// moves past it.
    pub fn add_image(&mut self, layer: ImageLayer) -> (id: LayerId)
        requires
            old(self).can_add(layer.id),
        ensures
            id == old(self).id_after_add(layer.id),
            final(self).layers@ == old(self).layers@.push(
                Layer::Image(ImageLayer { id, ..layer }),
            ),
            final(self).spec_next_layer_id() == old(self).counter_after_add(layer.id),
            final(self).name == old(self).name,
            old(self).wf() && (layer.id == 0 || !contains_id(old(self).layers@, layer.id))
                ==> final(self).wf(),
    {
        let mut layer = layer;
        if layer.id == 0 {
            layer.id = self.next_layer_id();
        } else {
            self.next_layer_id = if self.next_layer_id > layer.id + 1 {
                self.next_layer_id
            } else {
                layer.id + 1
            };
        }
        let id = layer.id;
        self.layers.push(Layer::Image(layer));
        proof {
            assert(self.layers@.drop_last() =~= old(self).layers@);
            self.lemma_push_keeps_wf(*old(self), id);
        }
        id
    }

    /// Adds a visible background of `color` on top, with the counter's
    /// identifier.
    pub fn add_background(&mut self, color: [u8; 4]) -> (id: LayerId)
        requires
            old(self).spec_next_layer_id() < LayerId::MAX,
        ensures
            id == old(self).spec_next_layer_id(),
            final(self).layers@ == old(self).layers@.push(
                Layer::Background(BackgroundLayer { id, visible: true, color }),
            ),
            final(self).spec_next_layer_id() == id + 1,
            final(self).name == old(self).name,
            old(self).wf() ==> final(self).wf(),
    {
        let id = self.next_layer_id();
        self.layers.push(Layer::Background(BackgroundLayer::new(id, color)));
        proof {
            assert(self.layers@.drop_last() =~= old(self).layers@);
            self.lemma_push_keeps_wf(*old(self), id);
        }
        id
    }

    /// Adds a text layer on top, with the same identifier rule as
    /// `add_image`.
    pub fn add_text(&mut self, layer: TextLayer) -> (id: LayerId)
        requires
            old(self).can_add(layer.id),
        ensures
            id == old(self).id_after_add(layer.id),
            final(self).layers@ == old(self).layers@.push(
                Layer::Text(TextLayer { id, ..layer }),
            ),
            final(self).spec_next_layer_id() == old(self).counter_after_add(layer.id),
            final(self).name == old(self).name,
            old(self).wf() && (layer.id == 0 || !contains_id(old(self).layers@, layer.id))
                ==> final(self).wf(),
    {
        let mut layer = layer;
        if layer.id == 0 {
            layer.id = self.next_layer_id();
        } else {
            self.next_layer_id = if self.next_layer_id > layer.id + 1 {
                self.next_layer_id
            } else {
                layer.id + 1
            };
        }
        let id = layer.id;
        self.layers.push(Layer::Text(layer));
        proof {
            assert(self.layers@.drop_last() =~= old(self).layers@);
            self.lemma_push_keeps_wf(*old(self), id);
        }
        id
    }

    /// A push of a layer carrying `id` keeps the scene well formed when
    /// `id` was fresh, non-zero and the counter moved past it.
    proof fn lemma_push_keeps_wf(&self, before: Scene, id: LayerId)
        requires
            self.layers@.len() == before.layers@.len() + 1,
            self.layers@.drop_last() == before.layers@,
            self.layers@.last().spec_id() == id,
            self.spec_next_layer_id() > id,
            self.spec_next_layer_id() >= before.spec_next_layer_id(),
        ensures
            before.wf() && (id == before.spec_next_layer_id() || (id != 0 && !contains_id(
                before.layers@,
                id,
            ))) ==> self.wf(),
    {
        if before.wf() && (id == before.spec_next_layer_id() || (id != 0 && !contains_id(
            before.layers@,
            id,
        ))) {
            let s = self.layers@;
            let n = s.len() - 1;
            assert forall|i: int| 0 <= i < n implies #[trigger] s[i] == before.layers@[i] by {
                assert(s.drop_last()[i] == s[i]);
            }
            assert forall|i: int, j: int|
                0 <= i < s.len() && 0 <= j < s.len() && i != j implies #[trigger] s[i].spec_id()
                != #[trigger] s[j].spec_id() by {
                if i < n && j < n {
                    assert(before.layers@[i].spec_id() != before.layers@[j].spec_id());
                } else if i == n {
                    assert(s[j] == before.layers@[j]);
                    assert(before.layers@[j].spec_id() < before.spec_next_layer_id());
                } else {
                    assert(s[i] == before.layers@[i]);
                    assert(before.layers@[i].spec_id() < before.spec_next_layer_id());
                }
            }
            assert forall|i: int| 0 <= i < s.len() implies #[trigger] s[i].spec_id()
                < self.spec_next_layer_id() by {
                if i < n {
                    assert(s[i] == before.layers@[i]);
                }
            }
            assert forall|i: int| 0 <= i < s.len() implies #[trigger] s[i].spec_id() != 0 by {
                if i < n {
                    assert(s[i] == before.layers@[i]);
                }
            }
        }
    }

    /// The first layer that carries `id`.
    pub fn layer(&self, id: LayerId) -> (found: Option<&Layer>)
        ensures
            match found {
                Some(layer) => find_layer(self.layers@, id) == Some(*layer),
                None => find_layer(self.layers@, id) is None,
            },
    {
        match self.position(id) {
            Some(index) => {
                proof {
                    lemma_first_index_unique(self.layers@, id, index as int);
                }
                Some(&self.layers[index])
            },
            None => None,
        }
    }

    /// The first layer that carries `id`, for editing in place.
    pub fn layer_mut(&mut self, id: LayerId) -> (found: Option<&mut Layer>)
        ensures
            match found {
                Some(layer) => {
                    &&& contains_id(old(self).layers@, id)
                    &&& find_layer(old(self).layers@, id) == Some(*layer)
                    &&& final(self).layers@ == old(self).layers@.update(
                        first_index(old(self).layers@, id),
                        *final(layer),
                    )
                },
                None => {
                    &&& !contains_id(old(self).layers@, id)
                    &&& final(self).layers@ == old(self).layers@
                },
            },
            final(self).name == old(self).name,
            final(self).spec_next_layer_id() == old(self).spec_next_layer_id(),
    {
        match self.position(id) {
            Some(index) => {
                proof {
                    lemma_first_index_unique(self.layers@, id, index as int);
                }
                Some(&mut self.layers[index])
            },
            None => None,
        }
    }

    /// Removes every layer that carries `id`; reports whether one was there.
    pub fn remove_layer(&mut self, id: LayerId) -> (removed: bool)
        ensures
            removed == contains_id(old(self).layers@, id),
            final(self).layers@ == without_id(old(self).layers@, id),
            final(self).name == old(self).name,
            final(self).spec_next_layer_id() == old(self).spec_next_layer_id(),
    {
        let ghost before = self.layers@;
        let mut kept: Vec<Layer> = Vec::new();
        let mut i: usize = 0;
        while i < self.layers.len()
            invariant
                i <= self.layers.len(),
                self.layers@ == before,
                kept@ == without_id(before.take(i as int), id),
            decreases self.layers.len() - i,
        {
            proof {
                assert(before.take(i + 1) =~= before.take(i as int).push(before[i as int]));
                before.take(i as int).lemma_filter_push(before[i as int], |layer: Layer| layer.spec_id() != id);
            }
            if self.layers[i].id() != id {
                kept.push(self.layers[i].clone());
            }
            i = i + 1;
        }
        assert(before.take(before.len() as int) =~= before);
        let removed = kept.len() != self.layers.len();
        proof {
            broadcast use vstd::seq_lib::group_filter_ensures;
            if contains_id(before, id) {
                let k = choose|k: int| 0 <= k < before.len() && #[trigger] before[k].spec_id() == id;
                if kept@.len() == before.len() {
                    lemma_filter_all_kept(before, id, k);
                }
            } else {
                lemma_filter_nothing_dropped(before, id);
            }
        }
        self.layers = kept;
        removed
    }

    /// Sets the counter one past the largest identifier (1 for an empty
    /// scene), as needed after a scene is read back from storage.
    pub fn rebuild_layer_ids(&mut self)
        requires
            ids_below(old(self).layers@, LayerId::MAX),
        ensures
            final(self).spec_next_layer_id() == max_id(old(self).layers@) + 1,
            final(self).layers@ == old(self).layers@,
            final(self).name == old(self).name,
    {
        let mut largest: LayerId = 0;
        let mut i: usize = 0;
        while i < self.layers.len()
            invariant
                i <= self.layers.len(),
                largest == max_id(self.layers@.take(i as int)),
            decreases self.layers.len() - i,
        {
            proof {
                assert(self.layers@.take(i + 1).drop_last() =~= self.layers@.take(i as int));
            }
            let id = self.layers[i].id();
            if id > largest {
                largest = id;
            }
            i = i + 1;
        }
        assert(self.layers@.take(self.layers.len() as int) =~= self.layers@);
        proof {
            lemma_max_id_bounds(self.layers@);
            if self.layers@.len() > 0 {
                let k = choose|k: int| 0 <= k < self.layers@.len() && #[trigger] self.layers@[k].spec_id() == largest;
                assert(self.layers@[k].spec_id() < LayerId::MAX);
            }
        }
        self.next_layer_id = largest + 1;
    }
}

/// A filter that keeps as many layers as it was given dropped none.
proof fn lemma_filter_all_kept(layers: Seq<Layer>, id: LayerId, k: int)
    requires
        0 <= k < layers.len(),
        layers[k].spec_id() == id,
    ensures
        without_id(layers, id).len() < layers.len(),
    decreases layers.len(),
{
    let pred = |layer: Layer| layer.spec_id() != id;
    let rest = layers.drop_last();
    assert(layers =~= rest.push(layers.last()));
    rest.lemma_filter_push(layers.last(), pred);
    if k < layers.len() - 1 {
        assert(rest[k] == layers[k]);
        lemma_filter_all_kept(rest, id, k);
    }
}

/// A filter that keeps everything when no layer carries `id`.
proof fn lemma_filter_nothing_dropped(layers: Seq<Layer>, id: LayerId)
    requires
        !contains_id(layers, id),
    ensures
        without_id(layers, id).len() == layers.len(),
    decreases layers.len(),
{
    if layers.len() > 0 {
        let pred = |layer: Layer| layer.spec_id() != id;
        let rest = layers.drop_last();
        assert(layers =~= rest.push(layers.last()));
        rest.lemma_filter_push(layers.last(), pred);
        assert forall|i: int| 0 <= i < rest.len() implies #[trigger] rest[i].spec_id() != id by {
            assert(rest[i] == layers[i]);
        }
        assert(layers[layers.len() - 1].spec_id() != id);
        lemma_filter_nothing_dropped(rest, id);
    }
}



/// Raising a layer and then lowering it restores the stack, provided the
/// layer it passed was not a background (which a layer may pass on the way
/// up but never on the way down).
pub proof fn law_move_down_undoes_move_up(layers: Seq<Layer>, id: LayerId)
    requires
        ids_unique(layers),
        spec_move_up(layers, id) is Some,
        !(layers[first_index(layers, id) + 1] is Background),
    ensures
        spec_move_down(spec_move_up(layers, id)->0, id) == Some(layers),
{
    lemma_first_index_exists(layers, id);
    let i = first_index(layers, id);
    let moved = swapped(layers, i, i + 1);
    lemma_swapped_keeps_unique(layers, i, i + 1);
    lemma_unique_index(moved, id, i + 1);
    assert(swapped(moved, i + 1, i) =~= layers);
}

/// Lowering a layer and then raising it restores the stack.
pub proof fn law_move_up_undoes_move_down(layers: Seq<Layer>, id: LayerId)
    requires
        ids_unique(layers),
        spec_move_down(layers, id) is Some,
    ensures
        spec_move_up(spec_move_down(layers, id)->0, id) == Some(layers),
{
    lemma_first_index_exists(layers, id);
    let i = first_index(layers, id);
    let moved = swapped(layers, i, i - 1);
    lemma_swapped_keeps_unique(layers, i, i - 1);
    lemma_unique_index(moved, id, i - 1);
    assert(swapped(moved, i - 1, i) =~= layers);
}

/// A background layer is never the layer that moves.
pub proof fn law_backgrounds_do_not_move(layers: Seq<Layer>, id: LayerId)
    requires
        find_layer(layers, id) matches Some(layer) && layer is Background,
    ensures
        spec_move_up(layers, id) is None,
        spec_move_down(layers, id) is None,
{
}

/// Exchanging two layers keeps identifiers unique.
proof fn lemma_swapped_keeps_unique(layers: Seq<Layer>, i: int, j: int)
    requires
        ids_unique(layers),
        0 <= i < layers.len(),
        0 <= j < layers.len(),
    ensures
        ids_unique(swapped(layers, i, j)),
{
    let s = swapped(layers, i, j);
    assert forall|a: int, b: int|
        0 <= a < s.len() && 0 <= b < s.len() && a != b implies #[trigger] s[a].spec_id()
        != #[trigger] s[b].spec_id() by {
        let pa = if a == i { j } else if a == j { i } else { a };
        let pb = if b == i { j } else if b == j { i } else { b };
        assert(s[a] == layers[pa]);
        assert(s[b] == layers[pb]);
        assert(layers[pa].spec_id() != layers[pb].spec_id());
    }
}

/// Moving a layer up or down keeps a well-formed stack well formed.
pub proof fn law_moves_keep_scene_well_formed(layers: Seq<Layer>, next: LayerId, id: LayerId)
    requires
        layers_wf(layers, next),
    ensures
        spec_move_up(layers, id) matches Some(moved) ==> layers_wf(moved, next),
        spec_move_down(layers, id) matches Some(moved) ==> layers_wf(moved, next),
{
    if contains_id(layers, id) {
        lemma_first_index_exists(layers, id);
        let i = first_index(layers, id);
        if i + 1 < layers.len() {
            lemma_swapped_keeps_unique(layers, i, i + 1);
            lemma_swapped_below(layers, i, i + 1, next);
        }
        if i > 0 {
            lemma_swapped_keeps_unique(layers, i, i - 1);
            lemma_swapped_below(layers, i, i - 1, next);
        }
    }
}

/// Exchanging two layers keeps every identifier below a bound.
proof fn lemma_swapped_below(layers: Seq<Layer>, i: int, j: int, bound: LayerId)
    requires
        ids_below(layers, bound),
        0 <= i < layers.len(),
        0 <= j < layers.len(),
        forall|k: int| 0 <= k < layers.len() ==> #[trigger] layers[k].spec_id() != 0,
    ensures
        ids_below(swapped(layers, i, j), bound),
        forall|k: int|
            0 <= k < layers.len() ==> #[trigger] swapped(layers, i, j)[k].spec_id() != 0,
{
    let s = swapped(layers, i, j);
    assert forall|a: int| 0 <= a < s.len() implies #[trigger] s[a].spec_id() < bound && s[a].spec_id() != 0 by {
        let pa = if a == i { j } else if a == j { i } else { a };
        assert(s[a] == layers[pa]);
    }
}

/// In a well-formed scene the counter names no existing layer, so the
/// identifier the next layer receives is fresh.
pub proof fn law_counter_is_fresh(scene: Scene)
    requires
        scene.wf(),
    ensures
        !contains_id(scene.layers@, scene.spec_next_layer_id()),
{
}

/// Removing `id` leaves no layer with that identifier and keeps a
/// well-formed stack well formed.
pub proof fn law_removed_layer_is_gone(layers: Seq<Layer>, next: LayerId, id: LayerId)
    ensures
        !contains_id(without_id(layers, id), id),
        layers_wf(layers, next) ==> layers_wf(without_id(layers, id), next),
{
    broadcast use vstd::seq_lib::group_filter_ensures;

    let pred = |layer: Layer| layer.spec_id() != id;
    let kept = without_id(layers, id);
    assert forall|k: int| 0 <= k < kept.len() implies #[trigger] kept[k].spec_id() != id by {
        assert(pred(kept[k]));
    }
    if layers_wf(layers, next) {
        lemma_filter_keeps_unique(layers, id);
        assert forall|k: int| 0 <= k < kept.len() implies #[trigger] kept[k].spec_id() < next
            && kept[k].spec_id() != 0 by {
            assert(layers.contains(kept[k]));
        }
    }
}

/// Filtering keeps identifiers unique.
proof fn lemma_filter_keeps_unique(layers: Seq<Layer>, id: LayerId)
    requires
        ids_unique(layers),
    ensures
        ids_unique(without_id(layers, id)),
        forall|k: int|
            0 <= k < without_id(layers, id).len() ==> #[trigger] layers.contains(
                without_id(layers, id)[k],
            ),
    decreases layers.len(),
{
    broadcast use vstd::seq_lib::group_filter_ensures;

    let pred = |layer: Layer| layer.spec_id() != id;
    if layers.len() > 0 {
        let rest = layers.drop_last();
        assert(layers =~= rest.push(layers.last()));
        rest.lemma_filter_push(layers.last(), pred);
        assert forall|a: int, b: int|
            0 <= a < rest.len() && 0 <= b < rest.len() && a != b implies #[trigger] rest[a].spec_id()
            != #[trigger] rest[b].spec_id() by {
            assert(rest[a] == layers[a]);
            assert(rest[b] == layers[b]);
        }
        lemma_filter_keeps_unique(rest, id);
        let kr = without_id(rest, id);
        assert forall|k: int| 0 <= k < kr.len() implies #[trigger] layers.contains(kr[k]) by {
            assert(rest.contains(kr[k]));
            let w = choose|w: int| 0 <= w < rest.len() && rest[w] == kr[k];
            assert(layers[w] == rest[w]);
        }
        if pred(layers.last()) {
            let k2 = without_id(layers, id);
            assert(k2 =~= kr.push(layers.last()));
            assert forall|a: int, b: int|
                0 <= a < k2.len() && 0 <= b < k2.len() && a != b implies #[trigger] k2[a].spec_id()
                != #[trigger] k2[b].spec_id() by {
                if a < kr.len() && b < kr.len() {
                } else if a == kr.len() {
                    assert(rest.contains(kr[b]));
                    let w = choose|w: int| 0 <= w < rest.len() && rest[w] == kr[b];
                    assert(layers[w] == rest[w]);
                    assert(layers[layers.len() - 1].spec_id() != layers[w].spec_id());
                } else {
                    assert(rest.contains(kr[a]));
                    let w = choose|w: int| 0 <= w < rest.len() && rest[w] == kr[a];
                    assert(layers[w] == rest[w]);
                    assert(layers[layers.len() - 1].spec_id() != layers[w].spec_id());
                }
            }
            assert forall|k: int| 0 <= k < k2.len() implies #[trigger] layers.contains(k2[k]) by {
                if k < kr.len() {
                } else {
                    assert(layers[layers.len() - 1] == k2[k]);
                }
            }
        }
    }
}

/// After the counter is rebuilt, a scene whose identifiers are unique and
/// non-zero is well formed, so new layers get fresh identifiers again.
pub proof fn law_rebuilt_counter_is_fresh(scene: Scene)
    requires
        ids_unique(scene.layers@),
        forall|i: int| 0 <= i < scene.layers@.len() ==> #[trigger] scene.layers@[i].spec_id() != 0,
        scene.spec_next_layer_id() == max_id(scene.layers@) + 1,
    ensures
        scene.wf(),
{
    lemma_max_id_bounds(scene.layers@);
}

} // verus!
