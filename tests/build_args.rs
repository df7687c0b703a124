use nasm_rs::{output_file_name, unit_args, Build};

#[test]
fn test_build() {
    let mut build = Build::new(None);
    build.file("test");
    build.archiver("ar");
    build.include_dir("./");
    build.include_dir("dir");
    build.define("foo", Some("1"));
    build.define("bar", None);
    build.flag("-test");
    build.target("i686-unknown-linux-musl");
    build.out_dir("/tmp");
    build.min_version(0, 0, 0);

    assert_eq!(
        build.get_args("i686-unknown-linux-musl"),
        &["-felf32", "-I./", "-Idir/", "-Dfoo=1", "-Dbar", "-test"]
    );
}

#[test]
fn args_with_debug_and_chained_calls() {
    let mut build = Build::new(None);
    build.debug(true).flag("-a").flag("-b").define("X", Some("y"));
    assert_eq!(
        build.get_args("x86_64-unknown-linux-gnu"),
        &["-felf64", "-gdwarf", "-a", "-b", "-DX=y"]
    );
    assert_eq!(build.get_args("x86_64-pc-windows-msvc"), &["-fwin64", "-g", "-a", "-b", "-DX=y"]);
}

#[test]
fn args_for_unknown_target_keep_empty_format_flag() {
    let mut build = Build::new(None);
    build.flag("-w");
    assert_eq!(build.get_args("aarch64-apple-darwin"), &["", "-w"]);
}

#[test]
fn args_keep_duplicates_in_order() {
    let mut build = Build::new(None);
    build.flag("-x").include_dir("a/").flag("-x");
    assert_eq!(build.get_args("i686-pc-windows-gnu"), &["-fwin32", "-x", "-Ia/", "-x"]);
}

#[test]
fn debug_follows_host_setting() {
    assert_eq!(Build::new(Some("true")).get_args("i386-apple-ios"), &["-fmacho32", "-g"]);
    assert_eq!(Build::new(Some("1")).get_args("x86_64-unknown-linux"), &["-felf64", "-gdwarf"]);
    assert_eq!(Build::new(Some("false")).get_args("x86_64-unknown-linux"), &["-felf64"]);
    assert_eq!(Build::new(None).get_args("x86_64-unknown-linux"), &["-felf64"]);
}

#[test]
fn output_names_follow_target() {
    assert_eq!(output_file_name("foo", "x86_64-unknown-linux-gnu"), "libfoo.a");
    assert_eq!(output_file_name("foo", "x86_64-pc-windows-msvc"), "foo.lib");
}

#[test]
fn output_names_unwrap_older_forms() {
    assert_eq!(output_file_name("libfoo.a", "x86_64-unknown-linux-gnu"), "libfoo.a");
    assert_eq!(output_file_name("libfoo.a", "i686-pc-windows-msvc"), "foo.lib");
    assert_eq!(output_file_name("foo.lib", "i686-pc-windows-msvc"), "foo.lib");
    assert_eq!(output_file_name("foo.lib.lib", "x86_64-apple-darwin"), "libfoo.a");
    assert_eq!(output_file_name("lib.a", "x86_64-apple-darwin"), "lib.a");
    assert_eq!(output_file_name("libbar", "x86_64-apple-darwin"), "liblibbar.a");
}

#[test]
fn target_and_out_dir_resolution() {
    let mut b = Build::new(None);
    assert_eq!(b.get_target(None), Err("TARGET must be set".to_string()));
    assert_eq!(b.get_out_dir(None), Err("OUT_DIR must be set".to_string()));
    assert_eq!(b.get_target(Some("i686-pc-windows-msvc")), Ok("i686-pc-windows-msvc".to_string()));
    assert_eq!(b.get_out_dir(Some("/out")), Ok("/out".to_string()));
    b.target("x86_64-apple-darwin").out_dir("/mine");
    assert_eq!(b.get_target(Some("i686-pc-windows-msvc")), Ok("x86_64-apple-darwin".to_string()));
    assert_eq!(b.get_out_dir(Some("/out")), Ok("/mine".to_string()));
}

#[test]
fn units_in_input_order() {
    let mut b = Build::new(None);
    b.files(&["a.s", "sub/b.asm", "/abs/c.s"]);
    let units = b.compile_units("/src", "/out").unwrap();
    let pairs: Vec<(String, String)> =
        units.into_iter().map(|u| (u.source, u.object)).collect();
    assert_eq!(
        pairs,
        vec![
            ("/src/a.s".to_string(), "/out/a.o".to_string()),
            ("/src/sub/b.asm".to_string(), "/out/b.o".to_string()),
            ("/abs/c.s".to_string(), "/out/c.o".to_string()),
        ]
    );
}

#[test]
fn end_to_end_names() {
    let mut b = Build::new(None);
    b.files(&["a.s", "b.s"]);
    let units = b.compile_units("/src", "/out").unwrap();
    let objects: Vec<String> = units.iter().map(|u| u.object.clone()).collect();
    assert_eq!(objects, vec!["/out/a.o".to_string(), "/out/b.o".to_string()]);
    assert_eq!(output_file_name("foo", "x86_64-unknown-linux-gnu"), "libfoo.a");
    assert_eq!(output_file_name("foo", "x86_64-pc-windows-msvc"), "foo.lib");
    let (program, args) = b.archive_command("/out", "libfoo.a", &objects, None, false);
    assert_eq!(program, "ar");
    assert_eq!(args, vec!["crus", "/out/libfoo.a", "/out/a.o", "/out/b.o"]);
}

#[test]
fn units_with_shared_base_name_collide() {
    let mut b = Build::new(None);
    b.file("x/a.s").file("y/a.s");
    let units = b.compile_units("", "out").unwrap();
    assert_eq!(units[0].object, "out/a.o");
    assert_eq!(units[1].object, "out/a.o");
    assert_eq!(units[0].source, "x/a.s");
}

#[test]
fn unit_without_file_name_is_error() {
    let mut b = Build::new(None);
    b.file("a.s").file("..");
    assert_eq!(
        b.compile_units("/src", "/out").err(),
        Some("source path has no file name: ..".to_string())
    );
}

#[test]
fn unit_arguments() {
    let mut b = Build::new(None);
    b.file("a.s").flag("-Fdwarf");
    let units = b.compile_units("/src/", "/out").unwrap();
    let args = b.get_args("x86_64-unknown-linux-gnu");
    assert_eq!(
        unit_args(&args, &units[0]),
        vec!["-felf64", "-Fdwarf", "/src/a.s", "-o", "/out/a.o"]
    );
}

#[test]
fn archive_unix_style() {
    let b = Build::new(None);
    let objs = vec!["o/a.o".to_string(), "o/b.o".to_string()];
    let (program, args) = b.archive_command("o", "libx.a", &objs, None, false);
    assert_eq!(program, "ar");
    assert_eq!(args, vec!["crus", "o/libx.a", "o/a.o", "o/b.o"]);
    let (program, _) = b.archive_command("o", "libx.a", &objs, Some("llvm-ar"), false);
    assert_eq!(program, "llvm-ar");
}

#[test]
fn archive_msvc_style() {
    let b = Build::new(None);
    let objs = vec!["o/a.o".to_string()];
    let (program, args) = b.archive_command("o", "x.lib", &objs, None, true);
    assert_eq!(program, "lib");
    assert_eq!(args, vec!["/OUT:o/x.lib", "o/a.o"]);
    let (program, args) = b.archive_command("o", "x.lib", &objs, Some("llvm-lib"), true);
    assert_eq!(program, "llvm-lib");
    assert_eq!(args, vec!["/OUT:o/x.lib", "o/a.o"]);
}

#[test]
fn archive_explicit_settings_win() {
    let mut b = Build::new(None);
    b.archiver_is_msvc(false).archiver("my-ar");
    let objs = vec!["a.o".to_string()];
    let (program, args) = b.archive_command("", "liby.a", &objs, Some("other"), true);
    assert_eq!(program, "my-ar");
    assert_eq!(args, vec!["crus", "liby.a", "a.o"]);
    b.archiver_is_msvc(true);
    let (program, args) = b.archive_command("d/", "y.lib", &objs, None, false);
    assert_eq!(program, "my-ar");
    assert_eq!(args, vec!["/OUT:d/y.lib", "a.o"]);
    let mut c = Build::new(None);
    c.archiver_is_msvc(true);
    let (program, _) = c.archive_command("d", "y.lib", &objs, None, false);
    assert_eq!(program, "lib");
    let (program, _) = c.archive_command("d", "y.lib", &objs, Some("other"), false);
    assert_eq!(program, "other");
}
