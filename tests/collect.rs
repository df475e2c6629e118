use rs3d::collect::Collect;

fn names(list: &[&str]) -> Vec<String> {
    list.iter().map(|s| s.to_string()).collect()
}

#[test]
fn model_file_names() {
    assert!(Collect::is_model_file(&"chair.glb".to_string()));
    assert!(Collect::is_model_file(&"a.b.glb".to_string()));
    assert!(Collect::is_model_file(&"..glb".to_string()));
    assert!(!Collect::is_model_file(&".glb".to_string()));
    assert!(!Collect::is_model_file(&"chair.gltf".to_string()));
    assert!(!Collect::is_model_file(&"chair.GLB".to_string()));
    assert!(!Collect::is_model_file(&"glb".to_string()));
    assert!(!Collect::is_model_file(&"chair.glb.png".to_string()));
}

#[test]
fn selection_keeps_order() {
    let found = Collect::select_models(&names(&["b.glb", "notes.txt", "a.glb", ".glb"]));
    assert_eq!(found, names(&["b.glb", "a.glb"]));
}

#[test]
fn list_one_name_per_line() {
    assert_eq!(Collect::list_text(&names(&[])), "");
    assert_eq!(Collect::list_text(&names(&["a.glb"])), "a.glb");
    assert_eq!(Collect::list_text(&names(&["a.glb", "b.glb", "c.glb"])), "a.glb\nb.glb\nc.glb");
}

#[test]
fn collect_from_directory_names() {
    let text = Collect::collect_models(&names(&["x.glb", "readme.md", "y.glb"]));
    assert_eq!(text, "x.glb\ny.glb");
    assert_eq!(Collect::collect_models(&names(&["readme.md"])), "");
}
