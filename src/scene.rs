use vstd::prelude::*;

verus! {

broadcast use vstd::std_specs::vec::group_vec_axioms;

/// A node of a scene graph: its local transform, its children in declaration
/// order, and what it carries (a perspective projection, a mesh).
///
/// The library never looks inside a transform or a projection: it only
/// decides which local transforms make up the transform a node inherits.
#[verifier::reject_recursive_types(X)]
#[verifier::reject_recursive_types(P)]
pub struct SceneNode<X, P> {
    pub transform: X,
    pub children: Vec<SceneNode<X, P>>,
    pub camera: Option<P>,
    pub mesh: bool,
}

/// A camera found in a scene. `ancestors` holds the local transforms of the
/// node's strict ancestors, outermost first: the inherited transform is their
/// product in that order (the identity for a top-level node). `transform` is
/// the node's own local transform.
#[derive(Debug, Clone, PartialEq)]
pub struct Camera<X, P> {
    pub ancestors: Vec<X>,
    pub transform: X,
    pub projection: P,
}

/// A mesh found in a scene, with the same transform data as a camera.
#[derive(Debug, Clone, PartialEq)]
pub struct Mesh<X> {
    pub ancestors: Vec<X>,
    pub transform: X,
}

pub struct CameraView<X, P> {
    pub ancestors: Seq<X>,
    pub transform: X,
    pub projection: P,
}

pub struct MeshView<X> {
    pub ancestors: Seq<X>,
    pub transform: X,
}

impl<X, P> View for Camera<X, P> {
    type V = CameraView<X, P>;

    open spec fn view(&self) -> CameraView<X, P> {
        CameraView { ancestors: self.ancestors@, transform: self.transform, projection: self.projection }
    }
}

impl<X> View for Mesh<X> {
    type V = MeshView<X>;

    open spec fn view(&self) -> MeshView<X> {
        MeshView { ancestors: self.ancestors@, transform: self.transform }
    }
}

/// Decides whether a node is an entity of one kind, given the local
/// transforms of its strict ancestors.
pub trait Matcher<X, P, T: View> {
    spec fn spec_evaluate(&self, node: SceneNode<X, P>, ancestors: Seq<X>) -> Option<T::V>;

    fn evaluate(&self, node: &SceneNode<X, P>, ancestors: &Vec<X>) -> (r: Option<T>)
        ensures
            view_opt(r) == self.spec_evaluate(*node, ancestors@),
    ;
}

/// Finds nodes that carry a perspective projection.
pub struct CameraMatcher;

/// Finds nodes that carry a mesh.
pub struct MeshMatcher;

pub open spec fn view_opt<T: View>(o: Option<T>) -> Option<T::V> {
    match o {
        Some(t) => Some(t@),
        None => None,
    }
}

pub open spec fn views<T: View>(s: Seq<T>) -> Seq<T::V> {
    s.map_values(|t: T| t@)
}

pub open spec fn opt_seq<A>(o: Option<A>) -> Seq<A> {
    match o {
        Some(a) => seq![a],
        None => Seq::empty(),
    }
}

pub open spec fn first_of<A>(s: Seq<A>) -> Option<A> {
    if s.len() > 0 {
        Some(s[0])
    } else {
        None
    }
}

/// What a camera node yields.
pub open spec fn camera_of<X, P>(node: SceneNode<X, P>, ancestors: Seq<X>) -> Option<CameraView<X, P>> {
    match node.camera {
        Some(p) => Some(CameraView { ancestors, transform: node.transform, projection: p }),
        None => None,
    }
}

/// What a mesh node yields.
pub open spec fn mesh_of<X, P>(node: SceneNode<X, P>, ancestors: Seq<X>) -> Option<MeshView<X>> {
    if node.mesh {
        Some(MeshView { ancestors, transform: node.transform })
    } else {
        None
    }
}

/// Every match of `m` in the forest `nodes`, in preorder (a node before its
/// descendants, siblings in declaration order), where the nodes of `nodes`
/// have the strict ancestors `ancestors`.
pub open spec fn forest_matches<X, P, T: View, M: Matcher<X, P, T>>(
    m: M,
    nodes: Seq<SceneNode<X, P>>,
    ancestors: Seq<X>,
) -> Seq<T::V>
    decreases nodes,
{
    if nodes.len() == 0 {
        Seq::empty()
    } else {
        let last = nodes.last();
        forest_matches(m, nodes.drop_last(), ancestors)
            + opt_seq(m.spec_evaluate(last, ancestors))
            + forest_matches(m, last.children@, ancestors.push(last.transform))
    }
}

/// Appends every match in `nodes` to `out`, in preorder. `ancestors` is
/// extended and restored on the way down and up.
fn visit_all<X: Copy, P, T: View, M: Matcher<X, P, T>>(
    m: &M,
    nodes: &Vec<SceneNode<X, P>>,
    ancestors: &mut Vec<X>,
    out: &mut Vec<T>,
)
    ensures
        final(ancestors)@ == old(ancestors)@,
        views(final(out)@) == views(old(out)@) + forest_matches(*m, nodes@, old(ancestors)@),
    decreases nodes,
{
    let ghost anc = ancestors@;
    let ghost start = views(out@);
    let mut i: usize = 0;
    while i < nodes.len()
        invariant
            i <= nodes@.len(),
            ancestors@ == anc,
            views(out@) == start + forest_matches(*m, nodes@.subrange(0, i as int), anc),
        decreases nodes@.len() - i,
    {
        let node = &nodes[i];
        let ghost before = views(out@);
        let found = m.evaluate(node, ancestors);
        match found {
            Some(t) => {
                out.push(t);
                assert(views(out@) =~= before + opt_seq(m.spec_evaluate(*node, anc)));
            },
            None => {
                assert(views(out@) =~= before + opt_seq(m.spec_evaluate(*node, anc)));
            },
        }
        ancestors.push(node.transform);
        let ghost mid = views(out@);
        visit_all(m, &node.children, ancestors, out);
        ancestors.pop();
        proof {
            let pre = nodes@.subrange(0, i as int + 1);
            assert(pre.drop_last() =~= nodes@.subrange(0, i as int));
            assert(pre.last() == *node);
            assert(ancestors@ =~= anc);
            assert(views(out@) =~= start + forest_matches(*m, pre, anc));
        }
        i += 1;
    }
    assert(nodes@.subrange(0, nodes@.len() as int) =~= nodes@);
}

/// The first match in `nodes`, in preorder; visits nothing after it.
fn visit_first<X: Copy, P, T: View, M: Matcher<X, P, T>>(
    m: &M,
    nodes: &Vec<SceneNode<X, P>>,
    ancestors: &mut Vec<X>,
) -> (r: Option<T>)
    ensures
        final(ancestors)@ == old(ancestors)@,
        view_opt(r) == first_of(forest_matches(*m, nodes@, old(ancestors)@)),
    decreases nodes,
{
    let ghost anc = ancestors@;
    let mut i: usize = 0;
    while i < nodes.len()
        invariant
            i <= nodes@.len(),
            ancestors@ == anc,
            anc == old(ancestors)@,
            forest_matches(*m, nodes@.subrange(0, i as int), anc).len() == 0,
        decreases nodes@.len() - i,
    {
        let node = &nodes[i];
        let ghost pre = nodes@.subrange(0, i as int + 1);
        proof {
            assert(pre.drop_last() =~= nodes@.subrange(0, i as int));
            assert(pre.last() == *node);
            lemma_first_of_prefix(*m, nodes@, i as int + 1, anc);
        }
        let found = m.evaluate(node, ancestors);
        if found.is_some() {
            return found;
        }
        ancestors.push(node.transform);
        let below = visit_first(m, &node.children, ancestors);
        ancestors.pop();
        proof {
            assert(ancestors@ =~= anc);
        }
        if below.is_some() {
            return below;
        }
        i += 1;
    }
    assert(nodes@.subrange(0, nodes@.len() as int) =~= nodes@);
    None
}

/// The matches of a forest are those of any prefix of it, followed by those
/// of the rest.
proof fn lemma_forest_split<X, P, T: View, M: Matcher<X, P, T>>(
    m: M,
    nodes: Seq<SceneNode<X, P>>,
    k: int,
    ancestors: Seq<X>,
)
    requires
        0 <= k <= nodes.len(),
    ensures
        forest_matches(m, nodes, ancestors) =~= forest_matches(m, nodes.subrange(0, k), ancestors)
            + forest_matches(m, nodes.subrange(k, nodes.len() as int), ancestors),
    decreases nodes.len(),
{
    if k == nodes.len() {
        assert(nodes.subrange(0, k) =~= nodes);
        assert(nodes.subrange(k, nodes.len() as int) =~= Seq::<SceneNode<X, P>>::empty());
    } else {
        let d = nodes.drop_last();
        lemma_forest_split(m, d, k, ancestors);
        assert(d.subrange(0, k) =~= nodes.subrange(0, k));
        let tail = nodes.subrange(k, nodes.len() as int);
        assert(tail.drop_last() =~= d.subrange(k, d.len() as int));
        assert(tail.last() == nodes.last());
    }
}

/// When a prefix of a forest holds no match, the first match of the
/// prefix one longer is the first match of the whole forest, if it has one.
proof fn lemma_first_of_prefix<X, P, T: View, M: Matcher<X, P, T>>(
    m: M,
    nodes: Seq<SceneNode<X, P>>,
    k: int,
    ancestors: Seq<X>,
)
    requires
        0 < k <= nodes.len(),
        forest_matches(m, nodes.subrange(0, k - 1), ancestors).len() == 0,
    ensures
        forest_matches(m, nodes.subrange(0, k), ancestors).len() > 0 ==> first_of(
            forest_matches(m, nodes, ancestors),
        ) == first_of(forest_matches(m, nodes.subrange(0, k), ancestors)),
{
    lemma_forest_split(m, nodes, k, ancestors);
}

/// The camera a node carries, if it carries a perspective projection.
pub fn get_camera<X: Copy, P: Copy>(node: &SceneNode<X, P>, ancestors: &Vec<X>) -> (r: Option<Camera<X, P>>)
    ensures
        view_opt(r) == camera_of(*node, ancestors@),
{
    match node.camera {
        Some(p) => Some(Camera { ancestors: copy_chain(ancestors), transform: node.transform, projection: p }),
        None => None,
    }
}

/// The mesh a node carries, if it carries one.
pub fn get_mesh<X: Copy, P>(node: &SceneNode<X, P>, ancestors: &Vec<X>) -> (r: Option<Mesh<X>>)
    ensures
        view_opt(r) == mesh_of(*node, ancestors@),
{
    if node.mesh {
        Some(Mesh { ancestors: copy_chain(ancestors), transform: node.transform })
    } else {
        None
    }
}

impl<X: Copy, P: Copy> Matcher<X, P, Camera<X, P>> for CameraMatcher {
    open spec fn spec_evaluate(&self, node: SceneNode<X, P>, ancestors: Seq<X>) -> Option<CameraView<X, P>> {
        camera_of(node, ancestors)
    }

    fn evaluate(&self, node: &SceneNode<X, P>, ancestors: &Vec<X>) -> (r: Option<Camera<X, P>>) {
        get_camera(node, ancestors)
    }
}

impl<X: Copy, P> Matcher<X, P, Mesh<X>> for MeshMatcher {
    open spec fn spec_evaluate(&self, node: SceneNode<X, P>, ancestors: Seq<X>) -> Option<MeshView<X>> {
        mesh_of(node, ancestors)
    }

    fn evaluate(&self, node: &SceneNode<X, P>, ancestors: &Vec<X>) -> (r: Option<Mesh<X>>) {
        get_mesh(node, ancestors)
    }
}

/// The first entity that `matcher` finds in the scene whose top-level nodes
/// are `scene`, in preorder. Nothing after that entity is evaluated.
pub fn extract<X: Copy, P, T: View, M: Matcher<X, P, T>>(scene: &Vec<SceneNode<X, P>>, matcher: &M) -> (r: Option<T>)
    ensures
        view_opt(r) == first_of(forest_matches(*matcher, scene@, Seq::empty())),
{
    let mut ancestors: Vec<X> = Vec::new();
    visit_first(matcher, scene, &mut ancestors)
}

/// Every entity that `matcher` finds in the scene whose top-level nodes are
/// `scene`, in preorder.
pub fn extract_all<X: Copy, P, T: View, M: Matcher<X, P, T>>(scene: &Vec<SceneNode<X, P>>, matcher: &M) -> (r: Vec<T>)
    ensures
        views(r@) == forest_matches(*matcher, scene@, Seq::empty()),
{
    let mut ancestors: Vec<X> = Vec::new();
    let mut out: Vec<T> = Vec::new();
    proof {
        assert(views(out@) =~= Seq::<T::V>::empty());
    }
    visit_all(matcher, scene, &mut ancestors, &mut out);
    proof {
        assert(Seq::<T::V>::empty() + forest_matches(*matcher, scene@, Seq::empty()) =~= forest_matches(
            *matcher,
            scene@,
            Seq::empty(),
        ));
    }
    out
}

/// `extract` yields the first entity that `extract_all` yields, and nothing
/// exactly when `extract_all` yields nothing.
pub proof fn law_first_is_head_of_all<X, P, T: View, M: Matcher<X, P, T>>(
    m: M,
    scene: Seq<SceneNode<X, P>>,
)
    ensures
        forest_matches(m, scene, Seq::empty()).len() == 0 <==> first_of(forest_matches(m, scene, Seq::empty()))
            is None,
        forest_matches(m, scene, Seq::empty()).len() > 0 ==> first_of(forest_matches(m, scene, Seq::empty()))
            == Some(forest_matches(m, scene, Seq::empty())[0]),
{
}

/// A scene of childless nodes that all carry a mesh yields one mesh per
/// node, in declaration order, each with no ancestors and its node's own
/// transform.
pub proof fn law_flat_meshes<X: Copy, P>(scene: Seq<SceneNode<X, P>>)
    requires
        forall|i: int| 0 <= i < scene.len() ==> (#[trigger] scene[i]).mesh && scene[i].children@.len() == 0,
    ensures
        forest_matches(MeshMatcher, scene, Seq::empty()).len() == scene.len(),
        forall|i: int|
            0 <= i < scene.len() ==> #[trigger] forest_matches(MeshMatcher, scene, Seq::empty())[i] == (MeshView {
                ancestors: Seq::<X>::empty(),
                transform: scene[i].transform,
            }),
    decreases scene.len(),
{
    if scene.len() > 0 {
        let d = scene.drop_last();
        law_flat_meshes(d);
        let last = scene.last();
        assert(forest_matches(MeshMatcher, last.children@, Seq::<X>::empty().push(last.transform)) =~= Seq::<
            MeshView<X>,
        >::empty());
        assert(forall|i: int| 0 <= i < d.len() ==> d[i] == scene[i]);
    }
}

/// A scene in which no node, at any depth, carries a mesh yields no mesh,
/// whatever the ancestors of its top-level nodes; `extract` then yields
/// nothing (see `law_first_is_head_of_all`).
pub proof fn law_no_mesh_no_match<X: Copy, P>(scene: Seq<SceneNode<X, P>>, ancestors: Seq<X>)
    requires
        forall|i: int| 0 <= i < scene.len() ==> !(#[trigger] scene[i]).mesh && no_mesh_below(scene[i]),
    ensures
        forest_matches(MeshMatcher, scene, ancestors).len() == 0,
    decreases scene,
{
    if scene.len() > 0 {
        let d = scene.drop_last();
        assert(forall|i: int| 0 <= i < d.len() ==> d[i] == scene[i]);
        law_no_mesh_no_match(d, ancestors);
        let last = scene.last();
        assert(scene[scene.len() - 1] == last);
        law_no_mesh_no_match(last.children@, ancestors.push(last.transform));
    }
}

/// No node of the subtree under `node` (the node itself excluded) carries a mesh.
pub open spec fn no_mesh_below<X, P>(node: SceneNode<X, P>) -> bool
    decreases node,
{
    forall|i: int| 0 <= i < node.children@.len() ==> !(#[trigger] node.children@[i]).mesh && no_mesh_below(node.children@[i])
}

/// A copy of a chain of transforms.
fn copy_chain<X: Copy>(chain: &Vec<X>) -> (r: Vec<X>)
    ensures
        r@ == chain@,
{
    let mut r: Vec<X> = Vec::new();
    let mut i: usize = 0;
    while i < chain.len()
        invariant
            i <= chain@.len(),
            r@ == chain@.subrange(0, i as int),
        decreases chain@.len() - i,
    {
        r.push(chain[i]);
        i += 1;
    }
    r
}

} // verus!
