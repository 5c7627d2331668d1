use vstd::prelude::*;

verus! {

/// What the 3D view shows besides the model itself.
#[derive(Clone, Copy, Debug, PartialEq, Eq, Structural)]
pub struct RenderOptions {
    pub show_axes: bool,
    pub show_vert_indices: bool,
}

/// One kind of object the 3D view draws.
#[derive(Clone, Copy, Debug, PartialEq, Eq, Structural)]
pub enum Layer {
    /// A text label next to every vertex of every copy.
    VertexTexts,
    /// A cylinder along every edge of every copy.
    EdgeMesh,
    /// A sphere at every vertex of every copy.
    VertexMesh,
    /// The coordinate axes.
    Axes,
}

/// The layers drawn for `options`, in drawing order.
pub open spec fn layers_spec(options: RenderOptions) -> Seq<Layer> {
    (if options.show_vert_indices {
        seq![Layer::VertexTexts]
    } else {
        Seq::empty()
    }) + seq![Layer::EdgeMesh, Layer::VertexMesh] + (if options.show_axes {
        seq![Layer::Axes]
    } else {
        Seq::empty()
    })
}

/// The vertex labels are drawn exactly when they are asked for and the axes
/// exactly when they are asked for, each regardless of the other option;
/// edges and vertices are always drawn; the labels come first and the axes
/// last.
pub proof fn law_layers_follow_options(options: RenderOptions)
    ensures
        layers_spec(options).contains(Layer::VertexTexts) <==> options.show_vert_indices,
        layers_spec(options).contains(Layer::Axes) <==> options.show_axes,
        layers_spec(options).contains(Layer::EdgeMesh),
        layers_spec(options).contains(Layer::VertexMesh),
        layers_spec(options).len() == 2 + (if options.show_vert_indices {
            1int
        } else {
            0int
        }) + (if options.show_axes {
            1int
        } else {
            0int
        }),
        options.show_vert_indices ==> layers_spec(options)[0] == Layer::VertexTexts,
        options.show_axes ==> layers_spec(options)[layers_spec(options).len() - 1] == Layer::Axes,
{
    let s = layers_spec(options);
    let a = if options.show_vert_indices {
        seq![Layer::VertexTexts]
    } else {
        Seq::<Layer>::empty()
    };
    let c = if options.show_axes {
        seq![Layer::Axes]
    } else {
        Seq::<Layer>::empty()
    };
    let mid = seq![Layer::EdgeMesh, Layer::VertexMesh];
    assert(s == a + mid + c);
    assert(s[a.len() as int] == Layer::EdgeMesh);
    assert(s[a.len() + 1int] == Layer::VertexMesh);
    if options.show_vert_indices {
        assert(s[0] == Layer::VertexTexts);
    }
    if options.show_axes {
        assert(s[s.len() - 1] == Layer::Axes);
    }
    if s.contains(Layer::VertexTexts) {
        let j = choose|j: int| 0 <= j < s.len() && s[j] == Layer::VertexTexts;
        if !options.show_vert_indices {
            if j < a.len() + 2 {
                assert(s[j] == mid[j - a.len()]);
            } else {
                assert(s[j] == c[j - a.len() - 2]);
            }
        }
    }
    if s.contains(Layer::Axes) {
        let j = choose|j: int| 0 <= j < s.len() && s[j] == Layer::Axes;
        if !options.show_axes {
            if j < a.len() {
                assert(s[j] == a[j]);
            } else {
                assert(s[j] == mid[j - a.len()]);
            }
        }
    }
}

impl RenderOptions {
    /// What a frame draws, in order: the vertex labels when they are shown,
    /// the edges, the vertices, then the axes when they are shown.
    pub fn layers(&self) -> (layers: Vec<Layer>)
        ensures
            layers@ == layers_spec(*self),
            layers@.contains(Layer::VertexTexts) <==> self.show_vert_indices,
            layers@.contains(Layer::Axes) <==> self.show_axes,
            layers@.contains(Layer::EdgeMesh),
            layers@.contains(Layer::VertexMesh),
            layers@.len() == 2 + (if self.show_vert_indices {
                1int
            } else {
                0int
            }) + (if self.show_axes {
                1int
            } else {
                0int
            }),
            self.show_vert_indices ==> layers@[0] == Layer::VertexTexts,
            self.show_axes ==> layers@[layers@.len() - 1] == Layer::Axes,
    {
        let mut layers: Vec<Layer> = Vec::new();
        if self.show_vert_indices {
            layers.push(Layer::VertexTexts);
        }
        layers.push(Layer::EdgeMesh);
        layers.push(Layer::VertexMesh);
        if self.show_axes {
            layers.push(Layer::Axes);
        }
        assert(layers@ =~= layers_spec(*self));
        proof {
            law_layers_follow_options(*self);
        }
        layers
    }
}

impl Default for RenderOptions {
    /// Neither the axes nor the vertex labels.
    fn default() -> (options: Self)
        ensures
            !options.show_axes,
            !options.show_vert_indices,
    {
        RenderOptions { show_axes: false, show_vert_indices: false }
    }
}

} // verus!
