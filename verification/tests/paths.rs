use pahole::catalog::Data;
use pahole::model::{Item, LayoutError, Struct};
use pahole::path::TypePath;

fn path(segments: &[&str]) -> TypePath {
    TypePath {
        absolute: false,
        segments: segments.iter().map(|s| s.to_string()).collect(),
    }
}

#[test]
fn new_path_is_empty_and_relative() {
    let p = TypePath::new();
    assert!(!p.is_absolute());
    assert!(p.segments.is_empty());
}

#[test]
fn push_appends_segments() {
    let mut p = TypePath::new();
    p.push("outer".to_string());
    p.push("Inner".to_string());
    assert_eq!(p.segments, ["outer", "Inner"]);
}

#[test]
fn concat_appends_relative_paths() {
    let base = path(&["a", "b"]);
    let joined = base.concat(path(&["c"]));
    assert_eq!(joined.segments, ["a", "b", "c"]);
    assert!(!joined.is_absolute());
}

#[test]
fn concat_keeps_absolute_other() {
    let base = path(&["a"]);
    let abs = TypePath {
        absolute: true,
        segments: vec!["root".to_string()],
    };
    let joined = base.concat(abs);
    assert!(joined.is_absolute());
    assert_eq!(joined.segments, ["root"]);
}

#[test]
fn path_eq_is_structural() {
    assert!(path(&["a", "b"]).path_eq(&path(&["a", "b"])));
    assert!(!path(&["a", "b"]).path_eq(&path(&["a", "c"])));
    assert!(!path(&["a"]).path_eq(&path(&["a", "b"])));
    let abs = TypePath {
        absolute: true,
        segments: vec!["a".to_string()],
    };
    assert!(!abs.path_eq(&path(&["a"])));
}

#[test]
fn doubling_records_overflow_the_machine_word() {
    // Each level holds two fields of the previous one, doubling the size
    // until it cannot fit a machine word any more.
    let mut d = Data::new();
    let mut prev = "u64".to_string();
    for i in 0..64 {
        let name = format!("d{}", i);
        d.register_type(
            path(&[&name]),
            Item::Struct(Struct::Struct(vec![
                ("a".to_string(), path(&[&prev])),
                ("b".to_string(), path(&[&prev])),
            ])),
        )
        .unwrap();
        prev = name;
    }
    let e = d.resolve(&path(&["d63"])).unwrap_err();
    assert!(matches!(e, LayoutError::SizeOverflow(_)));
}
