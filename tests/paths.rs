use nasm_rs::{join, object_path};

#[test]
fn join_adds_one_separator() {
    assert_eq!(join("out", "a.s"), "out/a.s");
    assert_eq!(join("out/", "a.s"), "out/a.s");
    assert_eq!(join("", "a.s"), "a.s");
    assert_eq!(join("out", "/abs/a.s"), "/abs/a.s");
}

#[test]
fn object_path_replaces_extension() {
    assert_eq!(object_path("out", "src/a.s"), Some("out/a.o".to_string()));
    assert_eq!(object_path("out", "a.tar.asm"), Some("out/a.tar.o".to_string()));
    assert_eq!(object_path("out", "noext"), Some("out/noext.o".to_string()));
    assert_eq!(object_path("out", ".hidden"), Some("out/.hidden.o".to_string()));
    assert_eq!(object_path("out", "a."), Some("out/a.o".to_string()));
}

#[test]
fn object_path_uses_final_component() {
    assert_eq!(object_path("o", "dir/sub/"), Some("o/sub.o".to_string()));
    assert_eq!(object_path("o", "dir/sub/."), Some("o/sub.o".to_string()));
    assert_eq!(object_path("", "x/y.s"), Some("y.o".to_string()));
}

#[test]
fn object_path_without_file_name() {
    assert_eq!(object_path("o", ""), None);
    assert_eq!(object_path("o", "/"), None);
    assert_eq!(object_path("o", "."), None);
    assert_eq!(object_path("o", "a/.."), None);
}
