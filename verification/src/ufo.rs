//! A font object as read from disk: an ordered list of named layers.
//!
//! The on-disk format (a directory of layers governed by a manifest file) is
//! the format collaborator's business; this module only holds what it hands
//! back.

use vstd::prelude::*;
use crate::document::Layer;

verus! {

/// A Unified Font Object: the layers its manifest listed, in order.
pub struct Ufo {
    layers: Vec<LayerInfo>,
}

/// A font layer, along with its name and the path of its directory, as the
/// manifest gave them.
pub struct LayerInfo {
    pub name: String,
    pub path: String,
    pub layer: Layer,
}

impl View for Ufo {
    type V = Seq<LayerInfo>;

    closed spec fn view(&self) -> Seq<LayerInfo> {
        self.layers@
    }
}

impl Ufo {
    /// A font object over the given layers; reading them off disk is the
    /// format collaborator's work, outside this library.
    pub fn from_layers(layers: Vec<LayerInfo>) -> (r: Ufo)
        ensures
            r@ == layers@,
    {
        Ufo { layers }
    }

    /// Returns the first layer matching a predicate. The predicate takes a
    /// `LayerInfo` struct, which includes the layer's name and path as well
    /// as the layer itself.
    pub fn find_layer<P: Fn(&LayerInfo) -> bool>(&self, predicate: P) -> (r: Option<&Layer>)
        requires
            forall|l: &LayerInfo| #[trigger] call_requires(predicate, (l,)),
        ensures
            match r {
                Some(layer) => exists|i: int|
                    0 <= i < self@.len() && call_ensures(predicate, (&self@[i],), true)
                        && *layer == self@[i].layer && (forall|j: int|
                        0 <= j < i ==> call_ensures(predicate, (&self@[j],), false)),
                None => forall|i: int|
                    0 <= i < self@.len() ==> call_ensures(predicate, (&self@[i],), false),
            },
    {
        let n = self.layers.len();
        let mut i: usize = 0;
        while i < n
            invariant
                n == self.layers@.len(),
                i <= n,
                forall|j: int| 0 <= j < i ==> call_ensures(predicate, (&self.layers@[j],), false),
                forall|l: &LayerInfo| #[trigger] call_requires(predicate, (l,)),
            decreases n - i,
        {
            let info = &self.layers[i];
            if predicate(info) {
                proof {
                    assert(call_ensures(predicate, (&self@[i as int],), true));
                    assert(forall|j: int|
                        0 <= j < i as int ==> call_ensures(predicate, (&self@[j],), false));
                }
                return Some(&info.layer);
            }
            i += 1;
        }
        None
    }

    /// All layers in this font object, in order.
    pub fn iter(&self) -> (r: &Vec<LayerInfo>)
        ensures
            r@ == self@,
    {
        &self.layers
    }
}

} // verus!
