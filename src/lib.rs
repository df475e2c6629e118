// scene: finding cameras and meshes in a scene graph, with the transforms
// they inherit. request: reading a render request from its fields.
// dispatch: the decisions of the render pipeline (admission, queue, worker,
// results). collect: the list of model files of a directory.

pub mod collect;
pub mod dispatch;
pub mod request;
pub mod scene;
