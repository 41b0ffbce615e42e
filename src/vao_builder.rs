use vstd::prelude::*;

verus! {

/// The bytes that a list of attribute layers takes per vertex: each layer
/// holds a number of elements of some size.
pub open spec fn layers_size(layers: Seq<(usize, usize)>) -> int
    decreases layers.len(),
{
    if layers.len() == 0 {
        0
    } else {
        layers_size(layers.drop_last()) + layers.last().0 * layers.last().1
    }
}

/// Describes the vertex attributes of a vertex array: layers of elements,
/// laid out one after the other in each vertex.
#[derive(Debug)]
pub struct VaoBuilder {
    /// The layers of the vertex array: the number of elements in each, and the
    /// size of one element.
    layers: Vec<(usize, usize)>,
}

impl VaoBuilder {
    /// The layers added so far, in order.
    pub closed spec fn layers(&self) -> Seq<(usize, usize)> {
        self.layers@
    }

    /// Creates a new builder, with no layers.
    pub fn new() -> (r: Self)
        ensures
            r.layers() == Seq::<(usize, usize)>::empty(),
    {
        VaoBuilder { layers: Vec::new() }
    }

    /// Adds a layer of `n` elements of type `T`.
    pub fn add_layer<T>(&mut self, n: usize) -> (r: &mut Self)
        ensures
            *final(self) == *final(r),
            r.layers() == old(self).layers().push((n, core::mem::size_of::<T>())),
    {
        self.layers.push((n, core::mem::size_of::<T>()));
        self
    }

    /// The attribute layout of a vertex: its stride in bytes, and for each
    /// layer its number of elements and its byte offset in the vertex.
    pub fn attribute_layout(&self) -> (r: (usize, Vec<(usize, usize)>))
        requires
            layers_size(self.layers()) <= usize::MAX,
        ensures
            r.0 == layers_size(self.layers()),
            r.1@.len() == self.layers().len(),
            forall|k: int|
                0 <= k < self.layers().len() ==> (#[trigger] r.1@[k]).0 == self.layers()[k].0 && r.1@[k].1
                    == layers_size(self.layers().take(k)),
    {
        let mut attributes: Vec<(usize, usize)> = Vec::new();
        let mut offset: usize = 0;
        let mut k: usize = 0;
        while k < self.layers.len()
            invariant
                k <= self.layers@.len(),
                layers_size(self.layers@) <= usize::MAX,
                offset == layers_size(self.layers@.take(k as int)),
                attributes@.len() == k,
                forall|j: int|
                    0 <= j < k ==> (#[trigger] attributes@[j]).0 == self.layers@[j].0 && attributes@[j].1
                        == layers_size(self.layers@.take(j)),
            decreases self.layers@.len() - k,
        {
            let (count, size) = self.layers[k];
            proof {
                assert(self.layers@.take(k + 1).drop_last() =~= self.layers@.take(k as int));
                lemma_layers_size_prefix(self.layers@, k + 1);
                assert(count * size >= 0) by (nonlinear_arith);
            }
            attributes.push((count, offset));
            offset = offset + count * size;
            k = k + 1;
        }
        assert(self.layers@.take(k as int) =~= self.layers@);
        (offset, attributes)
    }
}

/// The size of a prefix of the layers is at most the size of all of them.
proof fn lemma_layers_size_prefix(layers: Seq<(usize, usize)>, k: int)
    requires
        0 <= k <= layers.len(),
    ensures
        layers_size(layers.take(k)) <= layers_size(layers),
    decreases layers.len() - k,
{
    if k < layers.len() {
        lemma_layers_size_prefix(layers, k + 1);
        assert(layers.take(k + 1).drop_last() =~= layers.take(k));
        let l = layers[k];
        assert(l.0 * l.1 >= 0) by (nonlinear_arith);
    } else {
        assert(layers.take(k) =~= layers);
    }
}

} // verus!
