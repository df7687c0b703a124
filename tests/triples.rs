use nasm_rs::parse_triple;

#[test]
fn test_parse_triple() {
    let triple = "x86_64-unknown-linux-gnux32";
    assert_eq!(parse_triple(&triple), ("-felfx32", "-gdwarf"));

    let triple = "x86_64-unknown-linux";
    assert_eq!(parse_triple(&triple), ("-felf64", "-gdwarf"));
}

#[test]
fn triple_i686_windows_msvc() {
    assert_eq!(parse_triple("i686-pc-windows-msvc"), ("-fwin32", "-g"));
}

#[test]
fn triple_x86_64_variants() {
    assert_eq!(parse_triple("x86_64-apple-darwin"), ("-fmacho64", "-g"));
    assert_eq!(parse_triple("x86_64-apple-ios"), ("-fmacho64", "-g"));
    assert_eq!(parse_triple("x86_64-pc-windows-gnu"), ("-fwin64", "-g"));
    assert_eq!(parse_triple("x86_64-unknown-uefi"), ("-fwin64", "-g"));
    assert_eq!(parse_triple("x86_64-unknown-linux-gnu"), ("-felf64", "-gdwarf"));
    assert_eq!(parse_triple("x86_64-unknown-freebsd"), ("-felf64", "-gdwarf"));
}

#[test]
fn triple_x86_32_variants() {
    assert_eq!(parse_triple("i386-apple-darwin"), ("-fmacho32", "-g"));
    assert_eq!(parse_triple("i586-pc-windows-msvc"), ("-fwin32", "-g"));
    assert_eq!(parse_triple("x86-unknown-uefi"), ("-fwin32", "-g"));
    assert_eq!(parse_triple("i686-unknown-linux-musl"), ("-felf32", "-gdwarf"));
}

#[test]
fn triple_malformed_or_unknown_is_unformatted() {
    assert_eq!(parse_triple(""), ("", "-g"));
    assert_eq!(parse_triple("x86_64"), ("", "-g"));
    assert_eq!(parse_triple("x86_64-linux"), ("", "-g"));
    assert_eq!(parse_triple("aarch64-unknown-linux-gnu"), ("", "-g"));
    assert_eq!(parse_triple("arm-unknown-linux-gnueabi"), ("", "-g"));
    assert_eq!(parse_triple("X86_64-unknown-linux"), ("", "-g"));
}

#[test]
fn triple_gnux32_needs_x86_64() {
    assert_eq!(parse_triple("i686-unknown-linux-gnux32"), ("-felf32", "-gdwarf"));
    assert_eq!(parse_triple("x86_64-unknown-linux-gnux32-extra"), ("-felfx32", "-gdwarf"));
}

#[test]
fn triple_is_deterministic() {
    let t = "x86_64-pc-windows-msvc";
    assert_eq!(parse_triple(t), parse_triple(t));
    assert_eq!(parse_triple(t), ("-fwin64", "-g"));
}
