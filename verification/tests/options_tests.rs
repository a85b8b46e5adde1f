use wasm_driver_utils::options::{Arch, ArchSubtype, EhMode, OptimizationGoal, StripMode};

#[test]
fn eh_mode_test() {
    assert_eq!(EhMode::parse_arg("--something"), None);
    match EhMode::parse_arg("--pnacl-exceptions=notahandler") {
        Some(Err(_)) => {}
        _ => unreachable!(),
    }
    match EhMode::parse_arg("--pnacl-exceptions=blahnone") {
        Some(Err(_)) => {}
        _ => unreachable!(),
    }
    assert_eq!(EhMode::parse_arg("--pnacl-exceptions=none"), Some(Ok(EhMode::Off)));
    assert_eq!(EhMode::parse_arg("--pnacl-exceptions=sjlj"), Some(Ok(EhMode::SjLj)));
    assert_eq!(
        EhMode::parse_arg("--pnacl-exceptions=zerocost"),
        Some(Ok(EhMode::Zerocost))
    );

    assert_eq!(
        EhMode::parse_arg("--pnacl-allow-exceptions"),
        Some(Ok(EhMode::Zerocost))
    );
}

#[test]
fn lib_eh_mode_test() {
    assert_eq!(EhMode::parse_arg("--something"), None);
    match EhMode::parse_arg("--pnacl-exceptions=notahandler") {
        Some(Err(_)) => {}
        _ => unreachable!(),
    }
    match EhMode::parse_arg("--pnacl-exceptions=blahnone") {
        Some(Err(_)) => {}
        _ => unreachable!(),
    }
    assert_eq!(EhMode::parse_arg("--pnacl-exceptions=none"), Some(Ok(EhMode::Off)));
    assert_eq!(EhMode::parse_arg("--pnacl-exceptions=sjlj"), Some(Ok(EhMode::SjLj)));
    assert_eq!(
        EhMode::parse_arg("--pnacl-exceptions=zerocost"),
        Some(Ok(EhMode::Zerocost))
    );

    assert_eq!(
        EhMode::parse_arg("--pnacl-allow-exceptions"),
        Some(Ok(EhMode::Zerocost))
    );
}

#[test]
fn eh_error_names_the_handler() {
    assert_eq!(
        EhMode::parse_arg("--pnacl-exceptions=frobnicate"),
        Some(Err("`frobnicate` is an unknown eh handler".to_string()))
    );
}

#[test]
fn parse_triples() {
    assert_eq!(Arch::parse_from_triple("wasm32-unknown"), Ok(Arch::Wasm32));
    assert_eq!(Arch::parse_from_triple("wasm64-unknown-unknown"), Ok(Arch::Wasm64));
    assert_eq!(Arch::parse_from_triple("x86_64-nacl"), Ok(Arch::X8664));
    assert_eq!(Arch::parse_from_triple("i686-unknown-nacl"), Ok(Arch::X8632(None)));
    assert_eq!(Arch::parse_from_triple("armv7a-unknown-nacl"), Ok(Arch::AArch32(None)));
    assert_eq!(Arch::parse_from_triple("le32-nacl"), Ok(Arch::Le32));
    assert_eq!(Arch::parse_from_triple("mipsel-unknown-nacl"), Ok(Arch::Mips32));

    assert_eq!(
        Arch::parse_from_triple("sparc-unknown-nacl"),
        Err("`sparc` is an unknown target arch".to_string())
    );
    assert_eq!(
        Arch::parse_from_triple("wasm32"),
        Err("`wasm32` is an unknown target triple format".to_string())
    );
    assert_eq!(
        Arch::parse_from_triple("x86_64-unknown-linux"),
        Err("OS `linux` is not supported".to_string())
    );
}

#[test]
fn arch_predicates_and_names() {
    assert!(Arch::Wasm32.is_wasm());
    assert!(Arch::Wasm64.is_wasm());
    assert!(!Arch::X8664.is_wasm());
    assert!(Arch::Le32.is_portable());
    assert!(!Arch::Mips32.is_portable());

    assert_eq!(Arch::Wasm32.llvm_arch(), Some("wasm32"));
    assert_eq!(Arch::Le32.llvm_arch(), Some("le32"));
    assert_eq!(Arch::X8664.llvm_arch(), None);

    assert_eq!(Arch::X8664.bcld_output_format(), "elf64-x86-64-nacl");
    assert_eq!(
        Arch::X8632(Some(ArchSubtype::NonSFI)).bcld_output_format(),
        "elf32-i386-nacl"
    );
    assert_eq!(Arch::Mips32.bcld_output_format(), "elf32-tradlittlemips-nacl");

    assert_eq!(Arch::Le32.bc_subpath(), "le32-nacl");
    assert_eq!(Arch::X8632(None).bc_subpath(), "i686_bc-nacl");
    assert_eq!(Arch::AArch32(None).bc_subpath(), "arm_bc-nacl");

    assert_eq!(Arch::default(), Arch::Wasm32);
}

#[test]
fn optimization_parsing_and_flags() {
    assert_eq!(OptimizationGoal::parse(""), Some(OptimizationGoal::Speed(2)));
    assert_eq!(OptimizationGoal::parse("2"), Some(OptimizationGoal::Speed(2)));
    assert_eq!(OptimizationGoal::parse("0"), Some(OptimizationGoal::Speed(0)));
    assert_eq!(OptimizationGoal::parse("4"), Some(OptimizationGoal::Speed(4)));
    assert_eq!(OptimizationGoal::parse("s"), Some(OptimizationGoal::Balanced));
    assert_eq!(OptimizationGoal::parse("z"), Some(OptimizationGoal::Size));
    assert_eq!(OptimizationGoal::parse("fast"), None);

    assert_eq!(OptimizationGoal::Speed(3).as_flag(), "-O3");
    assert_eq!(OptimizationGoal::Balanced.as_flag(), "-Os");
    assert_eq!(OptimizationGoal::Size.as_flag(), "-Oz");
    assert_eq!(OptimizationGoal::default(), OptimizationGoal::Speed(0));
    OptimizationGoal::Speed(4).check();
}

#[test]
fn strip_mode_flags() {
    assert_eq!(StripMode::Keep.as_flag(), "");
    assert_eq!(StripMode::Debug.as_flag(), "-s");
    assert_eq!(StripMode::All.as_flag(), "-S");
    assert_eq!(StripMode::default(), StripMode::Keep);
}
