use speck::toolchain::{
    artifact_name, combine_failures, missing_tool, select_llvm_triple, BuildEnvironment,
    HostTarget, LlvmValidation, Presenter,
};

#[test]
fn selects_supported_hosts_and_rejects_others() {
    assert_eq!(HostTarget::from_os_arch("linux", "x86_64"), Ok(HostTarget::LinuxX86_64));
    assert_eq!(HostTarget::from_os_arch("macos", "aarch64"), Ok(HostTarget::MacOsArm64));
    assert!(HostTarget::from_os_arch("windows", "x86_64")
        .unwrap_err()
        .contains("unsupported host platform"));
}

#[test]
fn accepts_only_compatible_clang_triples() {
    assert!(HostTarget::LinuxX86_64.accepts_llvm_triple("x86_64-pc-linux-gnu"));
    assert!(!HostTarget::LinuxX86_64.accepts_llvm_triple("arm64-apple-darwin"));
    assert!(HostTarget::MacOsArm64.accepts_llvm_triple("arm64-apple-darwin25.5.0"));
    assert!(HostTarget::MacOsArm64.accepts_llvm_triple("aarch64-apple-macosx"));
    assert!(!HostTarget::MacOsArm64.accepts_llvm_triple("x86_64-apple-darwin"));
}

#[test]
fn linux_command_policy_preserves_lld_and_elf_flags() {
    let target = HostTarget::LinuxX86_64;
    assert_eq!(target.object_extension(), "o");
    assert_eq!(target.executable_extension(), "");
    assert_eq!(target.link_args(), ["-fuse-ld=lld", "-Wl,--gc-sections,--strip-all"]);
    assert!(target.c_compile_args().contains(&"-ffunction-sections"));
    assert_eq!(target.runtime_platform_sources(), ["platform/posix_main.c"]);
}

#[test]
fn macos_command_policy_uses_apple_linker_flags() {
    let target = HostTarget::MacOsArm64;
    assert_eq!(target.object_extension(), "o");
    assert_eq!(target.executable_extension(), "");
    assert_eq!(target.link_args(), ["-Wl,-dead_strip,-S,-x"]);
    assert!(!target.link_args().iter().any(|arg| arg.contains("lld")));
    assert_eq!(target.runtime_platform_sources(), ["platform/posix_main.c"]);
}

#[test]
fn presenter_selection_keeps_stream_code_out_of_normal_builds() {
    assert_eq!(Presenter::Ppm.source(), "present_ppm.c");
    assert_eq!(Presenter::DevelopmentStream.source(), "present_stream.c");
    assert_ne!(Presenter::Ppm.name(), Presenter::DevelopmentStream.name());
    assert!(Presenter::Ppm.compile_definitions().is_empty());
    assert!(Presenter::Ppm.link_args().is_empty());
}

#[test]
fn cocoa_presenter_is_selected_only_for_macos_arm64() {
    assert_eq!(Presenter::native_for_target(HostTarget::MacOsArm64), Ok(Presenter::Cocoa));
    let error = Presenter::native_for_target(HostTarget::LinuxX86_64)
        .expect_err("Linux must not select Cocoa");
    assert!(error.contains("requires macOS ARM64"));
    assert!(error.contains("speck build"));
}

#[test]
fn cocoa_policy_uses_objective_c_and_apple_frameworks() {
    assert_eq!(Presenter::Cocoa.source(), "present_cocoa.m");
    assert_eq!(Presenter::Cocoa.output_suffix(), "_native");
    assert_eq!(Presenter::Cocoa.source_compile_args(), ["-x", "objective-c"]);
    assert_eq!(Presenter::Cocoa.compile_definitions(), ["-DCRUMB_COCOA=1", "-DCRUMB_PACED=1"]);
    assert_eq!(
        Presenter::Cocoa.link_args(),
        ["-framework", "AppKit", "-framework", "CoreGraphics"]
    );
    assert!(!Presenter::Ppm.link_args().contains(&"AppKit"));
    assert!(!Presenter::DevelopmentStream.link_args().contains(&"AppKit"));
}

#[test]
fn clang_triples_are_kept_only_when_they_fit_the_host() {
    assert_eq!(
        select_llvm_triple(HostTarget::LinuxX86_64, "clang", "x86_64-unknown-linux-gnu"),
        Ok("x86_64-unknown-linux-gnu".to_string())
    );
    assert!(select_llvm_triple(HostTarget::MacOsArm64, "clang", "x86_64-apple-darwin").is_err());
    assert_eq!(
        select_llvm_triple(HostTarget::MacOsArm64, "clang", ""),
        Ok("arm64-apple-darwin".to_string())
    );
}

#[test]
fn artifact_names_come_from_the_source_stem() {
    assert!(artifact_name(None).is_err());
    assert_eq!(artifact_name(Some("my game.v2")), Ok("my_game_v2".to_string()));
    assert!(artifact_name(Some("")).is_err());
}

#[test]
fn failure_messages_keep_every_part() {
    let message = missing_tool("clang", &["/usr/bin/clang".to_string()], "install clang");
    assert!(message.contains("required tool not found: clang"));
    assert!(message.contains("/usr/bin/clang"));
    assert!(message.ends_with("resolution: install clang"));
    let combined = combine_failures(Some("first".to_string()), "second".to_string());
    assert!(combined.contains("first"));
    assert!(combined.contains("second"));
    assert!(LlvmValidation::LlvmAs("/usr/bin/llvm-as".to_string()).describe().contains("llvm-as"));
}

#[test]
fn discovered_environment_reports_its_parts() {
    let environment = BuildEnvironment::from_discovered(
        HostTarget::LinuxX86_64,
        "/usr/bin/clang".to_string(),
        "/usr/bin/ld.lld".to_string(),
        None,
        Some("/sdk".to_string()),
        "x86_64-pc-linux-gnu".to_string(),
    );
    assert_eq!(environment.target(), HostTarget::LinuxX86_64);
    assert_eq!(environment.clang(), "/usr/bin/clang");
    assert_eq!(environment.linker(), "/usr/bin/ld.lld");
    assert_eq!(environment.llvm_target_triple(), "x86_64-pc-linux-gnu");
    assert_eq!(environment.llvm_as(), None);
    assert_eq!(
        environment.target_args(),
        vec!["--target=x86_64-pc-linux-gnu".to_string(), "-isysroot".to_string(), "/sdk".to_string()]
    );
}
