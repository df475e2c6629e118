use rs3d::scene::{extract, extract_all, get_camera, get_mesh, CameraMatcher, MeshMatcher, SceneNode};

#[derive(Debug, Clone, Copy, PartialEq)]
struct Perspective {
    aspect_ratio: f32,
    yfov: f32,
    zfar: f32,
    znear: f32,
}

type Node = SceneNode<u32, Perspective>;

fn leaf(transform: u32, mesh: bool) -> Node {
    SceneNode { transform, children: vec![], camera: None, mesh }
}

fn branch(transform: u32, children: Vec<Node>) -> Node {
    SceneNode { transform, children, camera: None, mesh: false }
}

fn perspective() -> Perspective {
    Perspective { aspect_ratio: 1.0, yfov: 0.8, zfar: 100.0, znear: 0.1 }
}

#[test]
fn camera() {
    let scene = vec![SceneNode { transform: 0, children: vec![], camera: Some(perspective()), mesh: false }];
    let camera = extract(&scene, &CameraMatcher).expect("camera");
    assert_eq!(camera.projection, perspective());
    assert_eq!(camera.transform, 0);
    assert!(camera.ancestors.is_empty());
}

#[test]
fn meshes() {
    let scene = vec![leaf(1, true), leaf(2, true), leaf(3, true)];
    let meshes = extract_all(&scene, &MeshMatcher);
    assert_eq!(meshes.len(), 3);
    let order: Vec<u32> = meshes.iter().map(|m| m.transform).collect();
    assert_eq!(order, vec![1, 2, 3]);
    assert!(meshes.iter().all(|m| m.ancestors.is_empty()));
}

#[test]
fn first_of_no_match_is_none() {
    let scene = vec![branch(1, vec![leaf(2, false), branch(3, vec![leaf(4, false)])]), leaf(5, false)];
    assert!(extract(&scene, &MeshMatcher).is_none());
    assert!(extract_all(&scene, &MeshMatcher).is_empty());
    assert!(extract(&scene, &CameraMatcher).is_none());
}

#[test]
fn first_finds_deep_descendant_of_second_root() {
    let scene = vec![
        branch(1, vec![leaf(2, false)]),
        branch(10, vec![branch(11, vec![branch(12, vec![leaf(13, true)])])]),
    ];
    let mesh = extract(&scene, &MeshMatcher).expect("mesh");
    assert_eq!(mesh.transform, 13);
    assert_eq!(mesh.ancestors, vec![10, 11, 12]);
}

#[test]
fn first_stops_at_earliest_in_preorder() {
    let scene = vec![
        branch(1, vec![branch(2, vec![leaf(3, true)]), leaf(4, true)]),
        leaf(5, true),
    ];
    let mesh = extract(&scene, &MeshMatcher).expect("mesh");
    assert_eq!(mesh.transform, 3);
    assert_eq!(mesh.ancestors, vec![1, 2]);
}

#[test]
fn all_in_preorder_with_ancestors() {
    let scene = vec![
        SceneNode { transform: 1, children: vec![leaf(2, true), leaf(3, false)], camera: None, mesh: true },
        branch(4, vec![branch(5, vec![leaf(6, true)])]),
        leaf(7, true),
    ];
    let meshes = extract_all(&scene, &MeshMatcher);
    let found: Vec<(u32, Vec<u32>)> = meshes.into_iter().map(|m| (m.transform, m.ancestors)).collect();
    assert_eq!(
        found,
        vec![(1, vec![]), (2, vec![1]), (6, vec![4, 5]), (7, vec![])]
    );
}

#[test]
fn camera_nested_under_transforms() {
    let scene = vec![branch(
        1,
        vec![leaf(2, true), SceneNode { transform: 3, children: vec![], camera: Some(perspective()), mesh: false }],
    )];
    let camera = extract(&scene, &CameraMatcher).expect("camera");
    assert_eq!(camera.transform, 3);
    assert_eq!(camera.ancestors, vec![1]);
}

#[test]
fn single_node_matchers() {
    let node = SceneNode { transform: 9u32, children: vec![], camera: Some(perspective()), mesh: true };
    let chain = vec![7u32, 8];
    let mesh = get_mesh(&node, &chain).expect("mesh");
    assert_eq!(mesh.ancestors, chain);
    assert_eq!(mesh.transform, 9);
    let camera = get_camera(&node, &chain).expect("camera");
    assert_eq!(camera.ancestors, chain);
    assert_eq!(camera.projection, perspective());
    assert!(get_mesh(&leaf(1, false), &chain).is_none());
    assert!(get_camera(&leaf(1, true), &chain).is_none());
}
