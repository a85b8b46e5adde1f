use wasm_driver_utils::filetype::FileTypeCache;
use wasm_driver_utils::ldtools::{
    expand_input, parse_linker_script, parse_linker_script_file, tokenize, AllowedTypes, Input,
};

fn flags(inputs: &[Input]) -> Vec<String> {
    inputs
        .iter()
        .map(|i| match i {
            Input::Flag(f) => format!("flag:{}", f),
            Input::File(p) => format!("file:{}", p),
            Input::Library(true, p, _) => format!("lib-exact:{}", p),
            Input::Library(false, p, _) => format!("lib:{}", p),
        })
        .collect()
}

#[test]
fn tokenize_splits_parens() {
    let toks = tokenize("INPUT(a.o b.o)");
    assert_eq!(toks, vec!["INPUT", "(", "a.o", "b.o", ")"]);

    let toks = tokenize("  GROUP ( -la )  ");
    assert_eq!(toks, vec!["GROUP", "(", "-la", ")"]);

    let toks = tokenize("");
    assert!(toks.is_empty());
}

#[test]
fn parse_group_emits_group_flags() {
    let parsed = parse_linker_script("GROUP ( -la -lb )", ".").unwrap();
    assert_eq!(
        flags(&parsed),
        vec!["flag:--start-group", "flag:-la", "flag:-lb", "flag:--end-group"]
    );
}

#[test]
fn parse_unbalanced_scripts_is_none() {
    assert!(parse_linker_script("GROUP ( -la -lb", ".").is_none());
    assert!(parse_linker_script("GROUP -la )", ".").is_none());
    assert!(parse_linker_script(") INPUT ( x )", ".").is_none());
    assert!(parse_linker_script("SECTIONS ( x )", ".").is_none());
}

#[test]
fn parse_input_resolves_relative_to_dir() {
    let parsed = parse_linker_script("INPUT ( crt1.o )", "/usr/lib").unwrap();
    assert_eq!(flags(&parsed), vec!["lib-exact:/usr/lib/crt1.o"]);
}

#[test]
fn parse_extern_and_output_format() {
    let parsed = parse_linker_script("OUTPUT_FORMAT ( elf64-x86-64 ) EXTERN ( _start main )", ".")
        .unwrap();
    assert_eq!(
        flags(&parsed),
        vec!["flag:--undefined=_start", "flag:--undefined=main"]
    );
}

#[test]
fn parse_as_needed_and_semicolons() {
    let parsed = parse_linker_script("; INPUT ( AS_NEEDED ( libx.so ) ) ;", "/d").unwrap();
    assert_eq!(
        flags(&parsed),
        vec!["flag:--as-needed", "lib-exact:/d/libx.so", "flag:--no-as-needed"]
    );
}

#[test]
fn parse_skips_token_boundary_comments() {
    let parsed = parse_linker_script("/* a comment */ GROUP ( -la )", ".").unwrap();
    assert_eq!(
        flags(&parsed),
        vec!["flag:--start-group", "flag:-la", "flag:--end-group"]
    );
}

#[test]
fn expand_flag_passes_through() {
    let cache = FileTypeCache::new();
    let out = expand_input(
        &cache,
        Input::Flag("--whole-archive".to_string()),
        &vec![],
        false,
    )
    .unwrap();
    assert_eq!(flags(&out), vec!["flag:--whole-archive"]);
}

#[test]
fn expand_prefers_shared_over_static() {
    let mut cache = FileTypeCache::new();
    cache.override_file_contents("dir/libfoo.so", b"ordinary contents".to_vec());
    cache.override_file_contents("dir/libfoo.a", b"ordinary contents".to_vec());

    let out = expand_input(
        &cache,
        Input::Library(false, "foo".to_string(), AllowedTypes::Any),
        &vec!["dir".to_string()],
        false,
    )
    .unwrap();
    assert_eq!(flags(&out), vec!["lib-exact:dir/libfoo.so"]);

    let out = expand_input(
        &cache,
        Input::Library(false, "foo".to_string(), AllowedTypes::Any),
        &vec!["dir".to_string()],
        true,
    )
    .unwrap();
    assert_eq!(flags(&out), vec!["lib-exact:dir/libfoo.a"]);
}

/// The search is per directory: a static library in an earlier directory
/// wins over a shared one further down the path.
#[test]
fn expand_searches_directory_by_directory() {
    let mut cache = FileTypeCache::new();
    cache.override_file_contents("first/libfoo.a", b"static one".to_vec());
    cache.override_file_contents("second/libfoo.so", b"shared one".to_vec());

    let out = expand_input(
        &cache,
        Input::Library(false, "foo".to_string(), AllowedTypes::Any),
        &vec!["first".to_string(), "second".to_string()],
        false,
    )
    .unwrap();
    assert_eq!(flags(&out), vec!["lib-exact:first/libfoo.a"]);
}

#[test]
fn expand_missing_library_names_the_reference() {
    let cache = FileTypeCache::new();
    let err = expand_input(
        &cache,
        Input::Library(false, "bar".to_string(), AllowedTypes::Any),
        &vec!["dir".to_string()],
        false,
    )
    .unwrap_err();
    assert_eq!(err, "`bar` not found");

    let err = expand_input(
        &cache,
        Input::Library(true, "baz.a".to_string(), AllowedTypes::Any),
        &vec!["dir".to_string()],
        false,
    )
    .unwrap_err();
    assert_eq!(err, "`:baz.a` not found");
}

#[test]
fn expand_retags_resolved_library_with_detected_type() {
    let mut cache = FileTypeCache::new();
    // Raw bitcode magic in the static library candidate.
    cache.override_file_contents("d/libbc.a", vec![0x42, 0x43, 0xc0, 0xde, 1, 2, 3]);

    let out = expand_input(
        &cache,
        Input::Library(false, "bc".to_string(), AllowedTypes::Any),
        &vec!["d".to_string()],
        true,
    )
    .unwrap();
    assert_eq!(out.len(), 1);
    match &out[0] {
        Input::Library(true, p, AllowedTypes::Bitcode) => assert_eq!(p, "d/libbc.a"),
        other => panic!("unexpected expansion: {:?}", other),
    }
}

#[test]
fn expand_follows_linker_scripts() {
    let mut cache = FileTypeCache::new();
    cache.override_file_contents("d/libgroup.so", b"GROUP ( -lm )".to_vec());
    cache.override_file_contents("d/libm.a", b"plain".to_vec());

    let out = expand_input(
        &cache,
        Input::Library(false, "group".to_string(), AllowedTypes::Any),
        &vec!["d".to_string()],
        false,
    )
    .unwrap();
    assert_eq!(
        flags(&out),
        vec!["flag:--start-group", "flag:-lm", "flag:--end-group"]
    );
}

#[test]
fn expand_file_passthrough_and_script() {
    let cache = FileTypeCache::new();
    let out = expand_input(
        &cache,
        Input::File("plain.o".to_string()),
        &vec![],
        false,
    )
    .unwrap();
    assert_eq!(flags(&out), vec!["file:plain.o"]);

    let mut cache = FileTypeCache::new();
    cache.override_file_contents("scripts/deps.x", b"INPUT ( one.o )".to_vec());
    cache.override_file_contents("scripts/one.o", b"an object".to_vec());
    let out = expand_input(
        &cache,
        Input::File("scripts/deps.x".to_string()),
        &vec!["".to_string()],
        false,
    )
    .unwrap();
    assert_eq!(flags(&out), vec!["lib-exact:scripts/one.o"]);
}

#[test]
fn parse_linker_script_file_reads_recorded_contents() {
    let mut cache = FileTypeCache::new();
    cache.override_file_contents("sub/lib.x", b"GROUP ( -lz )".to_vec());
    let parsed = parse_linker_script_file(&cache, &"sub/lib.x".to_string()).unwrap();
    assert_eq!(
        flags(&parsed),
        vec!["flag:--start-group", "flag:-lz", "flag:--end-group"]
    );

    // Not valid UTF-8: no parse.
    let mut cache = FileTypeCache::new();
    cache.override_file_contents("sub/bad.x", vec![0xff, 0xfe, 0x00]);
    assert!(parse_linker_script_file(&cache, &"sub/bad.x".to_string()).is_none());
}

#[test]
fn allowed_types_filter_by_detected_kind() {
    let mut cache = FileTypeCache::new();
    cache.override_file_contents("x/libn.so", b"native-ish".to_vec());
    cache.override_file_contents("x/libb.so", vec![0x42, 0x43, 0xc0, 0xde]);

    assert!(AllowedTypes::Any.check(&cache, &"x/libn.so".to_string()));
    assert!(AllowedTypes::Native.check(&cache, &"x/libn.so".to_string()));
    assert!(!AllowedTypes::Bitcode.check(&cache, &"x/libn.so".to_string()));

    assert!(AllowedTypes::Bitcode.check(&cache, &"x/libb.so".to_string()));
    assert!(!AllowedTypes::Native.check(&cache, &"x/libb.so".to_string()));
}

/// An exact `-l:` reference is looked up under its own filename, and the
/// IRT shim has a stand-in tried once the real name fails.
#[test]
fn exact_references_and_shim_fallback() {
    let mut cache = FileTypeCache::new();
    cache.override_file_contents("lib/crt1.o", b"startup".to_vec());
    let out = expand_input(
        &cache,
        Input::Library(true, "crt1.o".to_string(), AllowedTypes::Any),
        &vec!["lib".to_string()],
        false,
    )
    .unwrap();
    assert_eq!(flags(&out), vec!["lib-exact:lib/crt1.o"]);

    let mut cache = FileTypeCache::new();
    cache.override_file_contents("lib/libpnacl_irt_shim_dummy.a", b"stand-in".to_vec());
    let out = expand_input(
        &cache,
        Input::Library(true, "libpnacl_irt_shim.a".to_string(), AllowedTypes::Any),
        &vec!["lib".to_string()],
        false,
    )
    .unwrap();
    assert_eq!(flags(&out), vec!["lib-exact:lib/libpnacl_irt_shim_dummy.a"]);
}

/// The private pthread stand-in also serves the exact `-l:` form.
#[test]
fn exact_pthread_reference_falls_back_too() {
    let mut cache = FileTypeCache::new();
    cache.override_file_contents("s/libpthread_private.a", b"stand-in".to_vec());

    let out = expand_input(
        &cache,
        Input::Library(true, "pthread".to_string(), AllowedTypes::Any),
        &vec!["s".to_string()],
        false,
    )
    .unwrap();
    assert_eq!(flags(&out), vec!["lib-exact:s/libpthread_private.a"]);
}

#[test]
fn pthread_falls_back_to_private_implementation() {
    let mut cache = FileTypeCache::new();
    cache.override_file_contents("s/libpthread_private.so", b"stand-in".to_vec());

    let out = expand_input(
        &cache,
        Input::Library(false, "pthread".to_string(), AllowedTypes::Any),
        &vec!["s".to_string()],
        false,
    )
    .unwrap();
    assert_eq!(flags(&out), vec!["lib-exact:s/libpthread_private.so"]);
}
