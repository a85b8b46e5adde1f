use wasm_driver_utils::filetype::{
    archive_type, could_be_linker_script, file_type, is_buffer_an_archive, is_file_an_archive,
    is_file_native, is_linker_script, is_stream_llvm_bitcode, is_stream_pnacl_bitcode,
    is_stream_raw_llvm_bitcode, is_stream_wasm_module, is_stream_wrapped_llvm_bitcode,
    parse_decimal_size, FileTypeCache, MemberHeader, Subtype, Type,
};

fn raw_bitcode() -> Vec<u8> {
    vec![0x42, 0x43, 0xc0, 0xde, 9, 9]
}

fn wrapped_bitcode() -> Vec<u8> {
    vec![0xde, 0xc0, 0x17, 0x0b, 1]
}

fn pexe() -> Vec<u8> {
    b"PEXE rest".to_vec()
}

fn wasm() -> Vec<u8> {
    vec![0x00, 0x61, 0x73, 0x6d, 1, 0, 0, 0]
}

/// An archive holding one member with the given contents, built with the
/// same library the sniffer reads archives with.
fn archive_with_member(member: &[u8]) -> Vec<u8> {
    let mut builder = ar::Builder::new(Vec::new());
    let header = ar::Header::new(b"m.o".to_vec(), member.len() as u64);
    builder.append(&header, member).unwrap();
    builder.into_inner().unwrap()
}

#[test]
fn magic_bytes_are_recognized() {
    assert!(is_stream_raw_llvm_bitcode(&raw_bitcode()));
    assert!(!is_stream_raw_llvm_bitcode(&wrapped_bitcode()));
    assert!(is_stream_wrapped_llvm_bitcode(&wrapped_bitcode()));
    assert!(is_stream_llvm_bitcode(&raw_bitcode()));
    assert!(is_stream_llvm_bitcode(&wrapped_bitcode()));
    assert!(is_stream_pnacl_bitcode(&pexe()));
    assert!(is_stream_wasm_module(&wasm()));
    assert!(!is_stream_wasm_module(&pexe()));
    // Short reads never match.
    assert!(!is_stream_raw_llvm_bitcode(&vec![0x42, 0x43]));
}

#[test]
fn archive_magic_is_recognized() {
    let archive = archive_with_member(b"anything");
    assert!(is_buffer_an_archive(&archive));
    assert!(!is_buffer_an_archive(&raw_bitcode()));
}

#[test]
fn classification_by_contents() {
    let mut cache = FileTypeCache::new();
    assert_eq!(
        file_type(&mut cache, &"a.bc".to_string(), Some(&raw_bitcode())),
        Some(Type::Object(Subtype::Bitcode))
    );
    assert_eq!(
        file_type(&mut cache, &"a.pexe".to_string(), Some(&pexe())),
        Some(Type::Pexe)
    );
    assert_eq!(
        file_type(&mut cache, &"a.wasm".to_string(), Some(&wasm())),
        Some(Type::Wasm)
    );
    assert_eq!(file_type(&mut cache, &"a.txt".to_string(), Some(&b"hi".to_vec())), None);
}

/// Sniffing is idempotent: the second classification returns the same result
/// with no bytes offered at all.
#[test]
fn classification_is_memoized() {
    let mut cache = FileTypeCache::new();
    let first = file_type(&mut cache, &"a.bc".to_string(), Some(&raw_bitcode()));
    assert_eq!(first, Some(Type::Object(Subtype::Bitcode)));
    let second = file_type(&mut cache, &"a.bc".to_string(), None);
    assert_eq!(second, first);
    assert_eq!(
        cache.get_cached_filetype("a.bc"),
        Some(Type::Object(Subtype::Bitcode))
    );
}

#[test]
fn overrides_and_clears() {
    let mut cache = FileTypeCache::new();
    cache.override_filetype("x.o", Type::Archive(Subtype::Bitcode));
    assert_eq!(cache.get_cached_filetype("x.o"), Some(Type::Archive(Subtype::Bitcode)));
    cache.override_filetype("x.o", Type::Pexe);
    assert_eq!(cache.get_cached_filetype("x.o"), Some(Type::Pexe));
    cache.clear_filetype("x.o");
    assert_eq!(cache.get_cached_filetype("x.o"), None);

    cache.override_filetype("y.o", Type::Wasm);
    cache.clear_filetypes();
    assert_eq!(cache.get_cached_filetype("y.o"), None);

    cache.override_file_contents("z.o", b"abc".to_vec());
    assert!(cache.file_exists("z.o"));
    cache.clear_file_contents_cache("z.o");
    assert!(!cache.file_exists("z.o"));
}

#[test]
fn archives_are_classified_by_first_member() {
    let mut cache = FileTypeCache::new();
    let bc_archive = archive_with_member(&raw_bitcode());
    assert_eq!(
        archive_type(&cache, &"libbc.a".to_string(), Some(&bc_archive)),
        Some(Subtype::Bitcode)
    );
    assert_eq!(
        file_type(&mut cache, &"libbc.a".to_string(), Some(&bc_archive)),
        Some(Type::Archive(Subtype::Bitcode))
    );

    let native_archive = archive_with_member(b"ELF-ish native code");
    assert_eq!(
        archive_type(&cache, &"libnative.a".to_string(), Some(&native_archive)),
        None
    );
    assert!(is_file_an_archive(&cache, &"libnative.a".to_string(), Some(&native_archive)));
}

#[test]
fn native_defaults_and_bitcode_detection() {
    let cache = FileTypeCache::new();
    assert!(is_file_native(&cache, &"unknown.o".to_string(), Some(&b"whatever".to_vec())));
    assert!(!is_file_native(&cache, &"a.bc".to_string(), Some(&raw_bitcode())));
    assert!(!is_file_native(&cache, &"a.pexe".to_string(), Some(&pexe())));
    let bc_archive = archive_with_member(&raw_bitcode());
    assert!(!is_file_native(&cache, &"libbc.a".to_string(), Some(&bc_archive)));

    let mut cache = FileTypeCache::new();
    cache.override_filetype("forced.o", Type::Object(Subtype::Bitcode));
    assert!(!is_file_native(&cache, &"forced.o".to_string(), None));
}

#[test]
fn linker_script_heuristic() {
    let cache = FileTypeCache::new();
    let script = b"GROUP ( -la )".to_vec();
    // Extension gate: .x counts, .txt does not.
    assert!(could_be_linker_script(&cache, &"lib.x".to_string(), Some(&script)));
    assert!(!could_be_linker_script(&cache, &"lib.txt".to_string(), Some(&script)));
    // Bitcode and archives are never scripts.
    assert!(!could_be_linker_script(&cache, &"lib.a".to_string(), Some(&raw_bitcode())));
    let archive = archive_with_member(b"m");
    assert!(!could_be_linker_script(&cache, &"lib.a".to_string(), Some(&archive)));

    assert!(is_linker_script(&cache, &"lib.x".to_string(), Some(&script)));
    assert!(!is_linker_script(&cache, &"lib.x".to_string(), Some(&b"not a script".to_vec())));
}

/// A symbol table ahead of the first real member is stepped over: the
/// archive is judged by its first regular member.
#[test]
fn archive_symbol_table_is_skipped() {
    let mut builder = ar::Builder::new(Vec::new());
    let symtab = ar::Header::new(b"/".to_vec(), 4);
    builder.append(&symtab, &b"\x00\x00\x00\x00"[..]).unwrap();
    let member = ar::Header::new(b"m.o".to_vec(), 4);
    builder.append(&member, &raw_bitcode()[..4]).unwrap();
    let bytes = builder.into_inner().unwrap();

    let cache = FileTypeCache::new();
    assert_eq!(
        archive_type(&cache, &"libx.a".to_string(), Some(&bytes)),
        Some(Subtype::Bitcode)
    );
    assert!(!is_file_native(&cache, &"libx.a".to_string(), Some(&bytes)));
}

/// Crafted archive bytes whose first header carries a GNU long-name
/// reference with no name table: classification treats them as unreadable
/// and falls back to native, without failing.
#[test]
fn malformed_archive_headers_are_harmless() {
    let mut bytes = b"!<arch>\n".to_vec();
    let mut header = Vec::new();
    header.extend_from_slice(b"/9              "); // name: a dangling reference
    header.extend_from_slice(b"0           "); // mtime
    header.extend_from_slice(b"0     "); // uid
    header.extend_from_slice(b"0     "); // gid
    header.extend_from_slice(b"100644  "); // mode
    header.extend_from_slice(b"4         "); // size
    header.extend_from_slice(b"\x60\x0a");
    bytes.extend_from_slice(&header);
    bytes.extend_from_slice(b"data");

    let mut cache = FileTypeCache::new();
    // The `/9` name is not a symbol or string table, so the walk hands back
    // the member as regular; it is not bitcode, so nothing special is seen.
    assert_eq!(archive_type(&cache, &"odd.a".to_string(), Some(&bytes)), None);
    assert!(is_file_native(&cache, &"odd.a".to_string(), Some(&bytes)));
    assert_eq!(file_type(&mut cache, &"odd.a".to_string(), Some(&bytes)), None);

    // Truncated headers end the walk with nothing as well.
    let truncated = b"!<arch>\ngarbage".to_vec();
    assert_eq!(archive_type(&cache, &"trunc.a".to_string(), Some(&truncated)), None);
    assert!(is_file_native(&cache, &"trunc.a".to_string(), Some(&truncated)));
}

#[test]
fn decimal_size_field() {
    assert_eq!(parse_decimal_size(&b"0000000128".to_vec()), Ok(128));
    assert_eq!(parse_decimal_size(&b"42".to_vec()), Ok(42));
    assert!(parse_decimal_size(&b"12 ".to_vec()).is_err());
    assert!(parse_decimal_size(&b"".to_vec()).is_err());
    assert!(parse_decimal_size(&b"99999999999999999999".to_vec()).is_err());
}

fn header_with_name(name: &[u8; 16]) -> Vec<u8> {
    let mut h = Vec::new();
    h.extend_from_slice(name);
    h.extend_from_slice(b"0           "); // mtime
    h.extend_from_slice(b"0     "); // uid
    h.extend_from_slice(b"0     "); // gid
    h.extend_from_slice(b"100644  "); // mode
    h.extend_from_slice(b"0000000064"); // size
    h.extend_from_slice(b"\x60\x0a");
    h
}

#[test]
fn member_header_parse_and_kinds() {
    let header = header_with_name(b"hello.o/        ");
    let m = MemberHeader::parse(&header, 68).unwrap();
    assert_eq!(m.start, 68);
    assert_eq!(m.size, 64);
    assert_eq!(m.name().as_slice(), b"hello.o/        ");
    assert!(m.is_regular_member());
    assert!(!m.is_long_name());

    let m = MemberHeader::parse(&header_with_name(b"/               "), 0).unwrap();
    assert!(m.is_svr4_symtab());
    assert!(!m.is_regular_member());

    let m = MemberHeader::parse(&header_with_name(b"//              "), 0).unwrap();
    assert!(m.is_strtab());

    let m = MemberHeader::parse(&header_with_name(b"#_LLVM_SYM_TAB_#"), 0).unwrap();
    assert!(m.is_llvm_symtab());

    let m = MemberHeader::parse(&header_with_name(b"__.SYMDEF SORTED"), 0).unwrap();
    assert!(m.is_bsd4_symtab());

    let m = MemberHeader::parse(&header_with_name(b"/123            "), 0).unwrap();
    assert!(m.is_long_name());

    // Bad closing magic.
    let mut bad = header_with_name(b"hello.o/        ");
    bad[58] = b'!';
    assert!(MemberHeader::parse(&bad, 0).is_err());

    // BSD long names are refused.
    assert!(MemberHeader::parse(&header_with_name(b"#1/20           "), 0).is_err());

    // Short headers are refused.
    assert!(MemberHeader::parse(&b"too short".to_vec(), 0).is_err());
}
