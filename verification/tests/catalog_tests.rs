use font_thingy::catalog::FaceRec;
use font_thingy::catalog::Font;
use font_thingy::catalog::Fonts;

fn face(id: u64, names: &[&str]) -> FaceRec {
    FaceRec { id, families: names.iter().map(|n| n.to_string()).collect() }
}

fn rows(fonts: &Fonts) -> Vec<(u64, String)> {
    fonts.fonts.iter().map(|f| (f.id, f.name.clone())).collect()
}

#[test]
fn duplicate_name_on_later_face_is_suppressed() {
    let faces = vec![face(1, &["Arial"]), face(2, &["Arial", "Arial Bold"])];
    let mut catalog = Fonts::default();
    catalog.rebuild(&faces);
    assert_eq!(
        rows(&catalog),
        vec![(1, "Arial".to_string()), (2, "Arial Bold".to_string())]
    );
}

#[test]
fn rebuild_twice_is_identical() {
    let faces = vec![face(3, &["Mono", "Sans"]), face(9, &["Serif", "Mono"])];
    let mut first = Fonts::default();
    first.rebuild(&faces);
    let mut second = Fonts::default();
    second.rebuild(&faces);
    assert_eq!(rows(&first), rows(&second));

    // Rebuilding in place over old contents also yields the same catalog.
    let mut again = Fonts::default();
    again.rebuild(&faces);
    again.rebuild(&faces);
    assert_eq!(rows(&again), rows(&first));
}

#[test]
fn empty_database_yields_empty_catalog() {
    let mut catalog = Fonts::default();
    catalog.rebuild(&Vec::new());
    assert_eq!(catalog.len(), 0);

    // Rebuilding with no faces clears whatever was there.
    let faces = vec![face(1, &["Arial"])];
    catalog.rebuild(&faces);
    assert_eq!(catalog.len(), 1);
    catalog.rebuild(&Vec::new());
    assert_eq!(catalog.len(), 0);
}

#[test]
fn first_seen_order_is_kept() {
    let faces = vec![face(7, &["B", "A"]), face(8, &["A", "C"])];
    let mut catalog = Fonts::default();
    catalog.rebuild(&faces);
    assert_eq!(
        rows(&catalog),
        vec![(7, "B".to_string()), (7, "A".to_string()), (8, "C".to_string())]
    );
}

#[test]
fn face_with_no_family_adds_nothing() {
    let faces = vec![face(4, &[]), face(5, &["Only"])];
    let mut catalog = Fonts::default();
    catalog.rebuild(&faces);
    assert_eq!(rows(&catalog), vec![(5, "Only".to_string())]);
}

#[test]
fn rows_are_the_same_face_by_id_alone() {
    let a = Font { id: 2, name: "Arial".to_string() };
    let b = Font { id: 2, name: "Arial Bold".to_string() };
    let c = Font { id: 3, name: "Arial".to_string() };
    assert!(a.same_face(&b));
    assert!(!a.same_face(&c));
}

#[test]
fn display_name_is_the_family_name() {
    let a = Font { id: 2, name: "Arial Bold".to_string() };
    assert_eq!(a.display_name(), "Arial Bold");
}
