use wasm_driver_utils::repo::{Repo, RepoRoot};
use wasm_driver_utils::text::{
    path_extension, path_file_name, path_join, path_parent, str_ends_with, str_eq,
    str_starts_with, u64_to_string,
};
use wasm_driver_utils::toolchain::WasmToolchain;

#[test]
fn string_helpers() {
    assert!(str_eq("abc", "abc"));
    assert!(!str_eq("abc", "abd"));
    assert!(str_starts_with("--flag=x", "--flag="));
    assert!(!str_starts_with("-f", "--flag="));
    assert!(str_ends_with("libx.so", ".so"));
    assert!(!str_ends_with("libx.so", ".a"));
}

#[test]
fn decimal_rendering() {
    assert_eq!(u64_to_string(0), "0");
    assert_eq!(u64_to_string(7), "7");
    assert_eq!(u64_to_string(10), "10");
    assert_eq!(u64_to_string(90210), "90210");
    assert_eq!(u64_to_string(u64::MAX), "18446744073709551615");
}

#[test]
fn path_helpers() {
    assert_eq!(path_join("dir", "file"), "dir/file");
    assert_eq!(path_join("dir/", "file"), "dir/file");
    assert_eq!(path_join("", "file"), "file");
    assert_eq!(path_join("dir", "/abs"), "/abs");

    assert_eq!(path_parent("a/b/c"), "a/b");
    assert_eq!(path_parent("c"), "");
    assert_eq!(path_parent("/c"), "/");

    assert_eq!(path_file_name("a/b/c.o"), "c.o");
    assert_eq!(path_file_name("c.o"), "c.o");

    assert_eq!(path_extension("a/b/c.so"), Some("so".to_string()));
    assert_eq!(path_extension("noext"), None);
    assert_eq!(path_extension(".bashrc"), None);
    assert_eq!(path_extension("a.b.c"), Some("c".to_string()));
}

#[test]
fn repo_naming() {
    let repo = Repo::new_git(
        "musl".to_string(),
        "https://example.invalid/musl.git".to_string(),
        "mainline".to_string(),
    );
    assert_eq!(repo.remote_name(), "remote-musl-branch-mainline");
    assert!(repo.clobber);
    assert!(repo.commit.is_none());

    let pinned = Repo::new_git_commit(
        "zlib".to_string(),
        "https://example.invalid/zlib.git".to_string(),
        "stable".to_string(),
        "abc123".to_string(),
    );
    assert_eq!(pinned.commit, Some("abc123".to_string()));

    let mut root = RepoRoot::Local { path: "/src/musl".to_string(), branch: "work".to_string() };
    assert_eq!(root.branch(), "work");
    *root.branch_mut() = "other".to_string();
    assert_eq!(root.branch(), "other");
}

#[test]
fn toolchain_layout() {
    let tc = WasmToolchain::with_paths(
        "/opt/binaryen".to_string(),
        "/opt/emscripten".to_string(),
        "/opt/llvm".to_string(),
        "/home/u/.wasm-toolchain/sysroot".to_string(),
    );
    assert_eq!(tc.llvm_tool("clang"), "/opt/llvm/bin/clang");
    assert_eq!(tc.binaryen_tool("wasm-opt"), "/opt/binaryen/bin/wasm-opt");
    assert_eq!(tc.sysroot(), "/home/u/.wasm-toolchain/sysroot");
    assert_eq!(tc.sysroot_cache(), "/home/u/.wasm-toolchain/sysroot");
    assert_eq!(tc.sysroot_lib(), "/home/u/.wasm-toolchain/sysroot/lib");
}
