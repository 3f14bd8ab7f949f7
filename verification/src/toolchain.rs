//! Host targets, presenters, and the command lines of native builds.
use vstd::prelude::*;
use vstd::string::StrSliceExecFns;

use crate::text::{
    ascii_lower, contains, has_infix, has_prefix, owned, push_str, starts_with, str_equal,
    to_ascii_lowercase,
};

verus! {

#[derive(Clone, Copy, Debug, PartialEq, Eq, Structural)]
pub enum HostTarget {
    LinuxX86_64,
    MacOsArm64,
}

/// The message for a host that Speck does not build on.
pub open spec fn unsupported_host_message(os: Seq<char>, arch: Seq<char>) -> Seq<char> {
    "unsupported host platform `"@ + os + "/"@ + arch
        + "`; Speck host-native builds currently support Linux x86-64 and macOS ARM64, and do not cross-compile"@
}

pub open spec fn description_of(target: HostTarget) -> Seq<char> {
    match target {
        HostTarget::LinuxX86_64 => "Linux x86-64"@,
        HostTarget::MacOsArm64 => "macOS ARM64"@,
    }
}

/// Whether a Clang target triple (compared case-insensitively) suits the host.
pub open spec fn triple_fits(target: HostTarget, triple: Seq<char>) -> bool {
    let t = triple.map_values(|c: char| ascii_lower(c));
    match target {
        HostTarget::LinuxX86_64 => has_prefix(t, "x86_64-"@) && has_infix(t, "linux"@),
        HostTarget::MacOsArm64 => (has_prefix(t, "arm64-"@) || has_prefix(t, "aarch64-"@))
            && has_infix(t, "apple"@) && (has_infix(t, "darwin"@) || has_infix(t, "macos"@)),
    }
}

/// The characters of a list of static strings.
pub open spec fn strs_view(v: Seq<&'static str>) -> Seq<Seq<char>> {
    v.map_values(|s: &'static str| s@)
}

impl HostTarget {
    pub fn from_os_arch(os: &str, arch: &str) -> (target: Result<HostTarget, String>)
        ensures
            os@ == "linux"@ && arch@ == "x86_64"@ ==> target == Ok::<HostTarget, String>(
                HostTarget::LinuxX86_64,
            ),
            os@ == "macos"@ && arch@ == "aarch64"@ ==> target == Ok::<HostTarget, String>(
                HostTarget::MacOsArm64,
            ),
            !(os@ == "linux"@ && arch@ == "x86_64"@) && !(os@ == "macos"@ && arch@ == "aarch64"@)
                ==> (target matches Err(e) && e@ == unsupported_host_message(os@, arch@)),
    {
        proof {
            reveal_strlit("linux");
            reveal_strlit("macos");
            assert("macos"@[0] != "linux"@[0]);
        }
        if str_equal(os, "linux") && str_equal(arch, "x86_64") {
            Ok(HostTarget::LinuxX86_64)
        } else if str_equal(os, "macos") && str_equal(arch, "aarch64") {
            Ok(HostTarget::MacOsArm64)
        } else {
            let mut message = owned("unsupported host platform `");
            push_str(&mut message, os);
            push_str(&mut message, "/");
            push_str(&mut message, arch);
            push_str(
                &mut message,
                "`; Speck host-native builds currently support Linux x86-64 and macOS ARM64, and do not cross-compile",
            );
            Err(message)
        }
    }

    pub fn description(self) -> (text: &'static str)
        ensures
            text@ == description_of(self),
    {
        match self {
            HostTarget::LinuxX86_64 => "Linux x86-64",
            HostTarget::MacOsArm64 => "macOS ARM64",
        }
    }

    pub fn fallback_llvm_triple(self) -> (triple: &'static str)
        ensures
            triple@ == match self {
                HostTarget::LinuxX86_64 => "x86_64-unknown-linux-gnu"@,
                HostTarget::MacOsArm64 => "arm64-apple-darwin"@,
            },
    {
        match self {
            HostTarget::LinuxX86_64 => "x86_64-unknown-linux-gnu",
            HostTarget::MacOsArm64 => "arm64-apple-darwin",
        }
    }

    pub fn accepts_llvm_triple(self, triple: &str) -> (accepted: bool)
        ensures
            accepted == triple_fits(self, triple@),
    {
        let lowered = to_ascii_lowercase(triple);
        let t = lowered.as_str();
        match self {
            HostTarget::LinuxX86_64 => starts_with(t, "x86_64-") && contains(t, "linux"),
            HostTarget::MacOsArm64 => (starts_with(t, "arm64-") || starts_with(t, "aarch64-"))
                && contains(t, "apple") && (contains(t, "darwin") || contains(t, "macos")),
        }
    }

    pub fn object_extension(self) -> (extension: &'static str)
        ensures
            extension@ == "o"@,
    {
        "o"
    }

    pub fn executable_extension(self) -> (extension: &'static str)
        ensures
            extension@ == ""@,
    {
        ""
    }

    pub fn runtime_platform_sources(self) -> (sources: Vec<&'static str>)
        ensures
            strs_view(sources@) == seq!["platform/posix_main.c"@],
    {
        let sources = vec!["platform/posix_main.c"];
        assert(strs_view(sources@) =~= seq!["platform/posix_main.c"@]);
        sources
    }

    pub fn c_compile_args(self) -> (args: Vec<&'static str>)
        ensures
            strs_view(args@) == match self {
                HostTarget::LinuxX86_64 => seq![
                    "-ffunction-sections"@,
                    "-fdata-sections"@,
                    "-fno-asynchronous-unwind-tables"@,
                ],
                HostTarget::MacOsArm64 => seq!["-fno-asynchronous-unwind-tables"@],
            },
    {
        let args = match self {
            HostTarget::LinuxX86_64 => vec![
                "-ffunction-sections",
                "-fdata-sections",
                "-fno-asynchronous-unwind-tables",
            ],
            HostTarget::MacOsArm64 => vec!["-fno-asynchronous-unwind-tables"],
        };
        assert(strs_view(args@) =~= match self {
            HostTarget::LinuxX86_64 => seq![
                "-ffunction-sections"@,
                "-fdata-sections"@,
                "-fno-asynchronous-unwind-tables"@,
            ],
            HostTarget::MacOsArm64 => seq!["-fno-asynchronous-unwind-tables"@],
        });
        args
    }

    pub fn link_args(self) -> (args: Vec<&'static str>)
        ensures
            strs_view(args@) == match self {
                HostTarget::LinuxX86_64 => seq!["-fuse-ld=lld"@, "-Wl,--gc-sections,--strip-all"@],
                HostTarget::MacOsArm64 => seq!["-Wl,-dead_strip,-S,-x"@],
            },
    {
        let args = match self {
            HostTarget::LinuxX86_64 => vec!["-fuse-ld=lld", "-Wl,--gc-sections,--strip-all"],
            HostTarget::MacOsArm64 => vec!["-Wl,-dead_strip,-S,-x"],
        };
        assert(strs_view(args@) =~= match self {
            HostTarget::LinuxX86_64 => seq!["-fuse-ld=lld"@, "-Wl,--gc-sections,--strip-all"@],
            HostTarget::MacOsArm64 => seq!["-Wl,-dead_strip,-S,-x"@],
        });
        args
    }

    pub fn missing_clang_help(self) -> (help: &'static str)
        ensures
            help@ == match self {
                HostTarget::LinuxX86_64 => "install Clang and ensure `clang` is on PATH"@,
                HostTarget::MacOsArm64 =>
                    "install Apple's Command Line Tools with `xcode-select --install`, or put Clang on PATH"@,
            },
    {
        match self {
            HostTarget::LinuxX86_64 => "install Clang and ensure `clang` is on PATH",
            HostTarget::MacOsArm64 =>
                "install Apple's Command Line Tools with `xcode-select --install`, or put Clang on PATH",
        }
    }

    pub fn missing_linker_help(self) -> (help: &'static str)
        ensures
            help@ == match self {
                HostTarget::LinuxX86_64 => "install LLD and ensure `ld.lld` is on PATH"@,
                HostTarget::MacOsArm64 =>
                    "install Apple's Command Line Tools with `xcode-select --install`"@,
            },
    {
        match self {
            HostTarget::LinuxX86_64 => "install LLD and ensure `ld.lld` is on PATH",
            HostTarget::MacOsArm64 => "install Apple's Command Line Tools with `xcode-select --install`",
        }
    }
}

#[derive(Clone, Copy, Debug, PartialEq, Eq, Structural)]
pub enum Presenter {
    Ppm,
    DevelopmentStream,
    Cocoa,
}

/// The message for a request of the native presenter on a host without one.
pub open spec fn no_native_presenter_message(target: HostTarget) -> Seq<char> {
    "native Cocoa presentation requires macOS ARM64; detected "@ + description_of(target)
        + ". Use `speck build` for deterministic PPM output or `speck dev` for browser presentation on this host"@
}

impl Presenter {
    pub fn name(self) -> (name: &'static str)
        ensures
            name@ == match self {
                Presenter::Ppm => "ppm"@,
                Presenter::DevelopmentStream => "stream"@,
                Presenter::Cocoa => "cocoa"@,
            },
    {
        match self {
            Presenter::Ppm => "ppm",
            Presenter::DevelopmentStream => "stream",
            Presenter::Cocoa => "cocoa",
        }
    }

    pub fn source(self) -> (source: &'static str)
        ensures
            source@ == match self {
                Presenter::Ppm => "present_ppm.c"@,
                Presenter::DevelopmentStream => "present_stream.c"@,
                Presenter::Cocoa => "present_cocoa.m"@,
            },
    {
        match self {
            Presenter::Ppm => "present_ppm.c",
            Presenter::DevelopmentStream => "present_stream.c",
            Presenter::Cocoa => "present_cocoa.m",
        }
    }

    pub fn output_suffix(self) -> (suffix: &'static str)
        ensures
            suffix@ == match self {
                Presenter::Ppm => ""@,
                Presenter::DevelopmentStream => "_dev"@,
                Presenter::Cocoa => "_native"@,
            },
    {
        match self {
            Presenter::Ppm => "",
            Presenter::DevelopmentStream => "_dev",
            Presenter::Cocoa => "_native",
        }
    }

    pub fn compile_definitions(self) -> (definitions: Vec<&'static str>)
        ensures
            strs_view(definitions@) == match self {
                Presenter::Ppm => seq![],
                Presenter::DevelopmentStream => seq!["-DCRUMB_DEVELOPMENT=1"@, "-DCRUMB_PACED=1"@],
                Presenter::Cocoa => seq!["-DCRUMB_COCOA=1"@, "-DCRUMB_PACED=1"@],
            },
    {
        let definitions = match self {
            Presenter::Ppm => Vec::new(),
            Presenter::DevelopmentStream => vec!["-DCRUMB_DEVELOPMENT=1", "-DCRUMB_PACED=1"],
            Presenter::Cocoa => vec!["-DCRUMB_COCOA=1", "-DCRUMB_PACED=1"],
        };
        assert(strs_view(definitions@) =~= match self {
            Presenter::Ppm => seq![],
            Presenter::DevelopmentStream => seq!["-DCRUMB_DEVELOPMENT=1"@, "-DCRUMB_PACED=1"@],
            Presenter::Cocoa => seq!["-DCRUMB_COCOA=1"@, "-DCRUMB_PACED=1"@],
        });
        definitions
    }

    pub fn source_compile_args(self) -> (args: Vec<&'static str>)
        ensures
            strs_view(args@) == match self {
                Presenter::Cocoa => seq!["-x"@, "objective-c"@],
                _ => seq![],
            },
    {
        let args = match self {
            Presenter::Cocoa => vec!["-x", "objective-c"],
            _ => Vec::new(),
        };
        assert(strs_view(args@) =~= match self {
            Presenter::Cocoa => seq!["-x"@, "objective-c"@],
            _ => seq![],
        });
        args
    }

    pub fn link_args(self) -> (args: Vec<&'static str>)
        ensures
            strs_view(args@) == match self {
                Presenter::Cocoa => seq!["-framework"@, "AppKit"@, "-framework"@, "CoreGraphics"@],
                _ => seq![],
            },
    {
        let args = match self {
            Presenter::Cocoa => vec!["-framework", "AppKit", "-framework", "CoreGraphics"],
            _ => Vec::new(),
        };
        assert(strs_view(args@) =~= match self {
            Presenter::Cocoa => seq!["-framework"@, "AppKit"@, "-framework"@, "CoreGraphics"@],
            _ => seq![],
        });
        args
    }

    pub fn native_for_target(target: HostTarget) -> (presenter: Result<Presenter, String>)
        ensures
            target == HostTarget::MacOsArm64 ==> presenter == Ok::<Presenter, String>(
                Presenter::Cocoa,
            ),
            target == HostTarget::LinuxX86_64 ==> (presenter matches Err(e) && e@
                == no_native_presenter_message(target)),
    {
        match target {
            HostTarget::MacOsArm64 => Ok(Presenter::Cocoa),
            HostTarget::LinuxX86_64 => {
                let mut message = owned("native Cocoa presentation requires macOS ARM64; detected ");
                push_str(&mut message, target.description());
                push_str(
                    &mut message,
                    ". Use `speck build` for deterministic PPM output or `speck dev` for browser presentation on this host",
                );
                Err(message)
            },
        }
    }
}

/// Whether a character is kept in an executable name.
pub open spec fn artifact_char(c: char) -> char {
    if ('a' <= c <= 'z') || ('A' <= c <= 'Z') || ('0' <= c <= '9') || c == '_' || c == '-' {
        c
    } else {
        '_'
    }
}

/// The executable name for a source file's stem: its characters with every character other
/// than an ASCII letter, digit, `_` or `-` replaced by `_`.
pub fn artifact_name(stem: Option<&str>) -> (name: Result<String, String>)
    ensures
        match stem {
            None => name matches Err(e) && e@ == "source file must have a valid UTF-8 file name"@,
            Some(s) => if s@.len() == 0 {
                name matches Err(e) && e@
                    == "source file name does not contain a usable executable name"@
            } else {
                name matches Ok(n) && n@ == s@.map_values(|c: char| artifact_char(c))
            },
        },
{
    let stem = match stem {
        Some(stem) => stem,
        None => {
            return Err(owned("source file must have a valid UTF-8 file name"));
        },
    };
    let n = stem.unicode_len();
    let mut name = String::new();
    let mut k: usize = 0;
    while k < n
        invariant
            n == stem@.len(),
            k <= n,
            name@ == stem@.subrange(0, k as int).map_values(|c: char| artifact_char(c)),
        decreases n - k,
    {
        let c = stem.get_char(k);
        let kept = if ('a' <= c && c <= 'z') || ('A' <= c && c <= 'Z') || ('0' <= c && c <= '9')
            || c == '_' || c == '-' {
            c
        } else {
            '_'
        };
        name.push(kept);
        assert(stem@.subrange(0, k + 1).map_values(|c: char| artifact_char(c)) =~= stem@.subrange(
            0,
            k as int,
        ).map_values(|c: char| artifact_char(c)).push(kept));
        k += 1;
    }
    assert(stem@.subrange(0, n as int) == stem@);
    if n == 0 {
        Err(owned("source file name does not contain a usable executable name"))
    } else {
        Ok(name)
    }
}

/// The message for a failed Clang fallback, with the earlier failure if there was one.
pub fn combine_failures(earlier: Option<String>, clang_failure: String) -> (message: String)
    ensures
        match earlier {
            Some(e) => message@
                == "standalone LLVM validation was unusable, and Clang's direct fallback also failed\n\nfirst failure:\n"@
                + e@ + "\n\nfallback failure:\n"@ + clang_failure@,
            None => message@ == clang_failure@,
        },
{
    match earlier {
        Some(earlier) => {
            let mut message = owned(
                "standalone LLVM validation was unusable, and Clang's direct fallback also failed\n\nfirst failure:\n",
            );
            push_str(&mut message, earlier.as_str());
            push_str(&mut message, "\n\nfallback failure:\n");
            push_str(&mut message, clang_failure.as_str());
            message
        },
        None => clang_failure,
    }
}

/// Entries joined by a separator.
pub open spec fn join_with(parts: Seq<Seq<char>>, separator: Seq<char>) -> Seq<char>
    decreases parts.len(),
{
    if parts.len() == 0 {
        seq![]
    } else if parts.len() == 1 {
        parts[0]
    } else {
        join_with(parts.drop_last(), separator) + separator + parts.last()
    }
}

/// Joining two non-empty lists one after the other is joining each and putting the separator
/// between the two texts.
pub proof fn lemma_join_with_concat(a: Seq<Seq<char>>, b: Seq<Seq<char>>, separator: Seq<char>)
    requires
        a.len() > 0,
        b.len() > 0,
    ensures
        join_with(a + b, separator) == join_with(a, separator) + separator + join_with(b, separator),
    decreases b.len(),
{
    if b.len() == 1 {
        assert((a + b).drop_last() =~= a);
        assert((a + b).last() == b[0]);
    } else {
        lemma_join_with_concat(a, b.drop_last(), separator);
        assert((a + b).drop_last() =~= a + b.drop_last());
        assert((a + b).last() == b.last());
    }
}

/// The message for a required tool that was not found among the checked candidates.
pub fn missing_tool(tool: &str, checked: &[String], resolution: &str) -> (message: String)
    ensures
        message@ == "required tool not found: "@ + tool@ + "\ncandidates checked:\n  - "@
            + join_with(checked@.map_values(|s: String| s@), "\n  - "@) + "\nresolution: "@
            + resolution@,
{
    let ghost parts = checked@.map_values(|s: String| s@);
    let mut message = owned("required tool not found: ");
    push_str(&mut message, tool);
    push_str(&mut message, "\ncandidates checked:\n  - ");
    let ghost head = message@;
    let mut k: usize = 0;
    while k < checked.len()
        invariant
            k <= checked@.len(),
            parts == checked@.map_values(|s: String| s@),
            message@ == head + join_with(parts.subrange(0, k as int), "\n  - "@),
        decreases checked.len() - k,
    {
        if k > 0 {
            push_str(&mut message, "\n  - ");
        }
        push_str(&mut message, checked[k].as_str());
        assert(parts.subrange(0, k + 1).drop_last() == parts.subrange(0, k as int));
        k += 1;
    }
    assert(parts.subrange(0, k as int) == parts);
    push_str(&mut message, "\nresolution: ");
    push_str(&mut message, resolution);
    message
}

/// How the generated IR was validated before compilation.
#[derive(Clone, Debug, PartialEq, Eq)]
pub enum LlvmValidation {
    LlvmAs(String),
    ClangDirect { reason: String },
}

impl LlvmValidation {
    /// A one-line description of the validation path.
    pub fn describe(&self) -> (text: String)
        ensures
            text@ == match *self {
                LlvmValidation::LlvmAs(path) => "llvm-as ("@ + path@ + ")"@,
                LlvmValidation::ClangDirect { reason } => "Clang direct ("@ + reason@ + ")"@,
            },
    {
        match self {
            LlvmValidation::LlvmAs(path) => {
                let mut text = owned("llvm-as (");
                push_str(&mut text, path.as_str());
                push_str(&mut text, ")");
                text
            },
            LlvmValidation::ClangDirect { reason } => {
                let mut text = owned("Clang direct (");
                push_str(&mut text, reason.as_str());
                push_str(&mut text, ")");
                text
            },
        }
    }
}

/// The outputs of a successful native build.
#[derive(Debug)]
pub struct BuildArtifacts {
    pub executable: String,
    pub llvm_ir: String,
    pub llvm_bitcode: String,
    pub size: u64,
    pub llvm_validation: LlvmValidation,
}

/// The tools and target selected for native builds on this host.
#[derive(Debug)]
pub struct BuildEnvironment {
    target: HostTarget,
    clang: String,
    linker: String,
    llvm_as: Option<String>,
    sdk_path: Option<String>,
    llvm_target_triple: String,
}

impl BuildEnvironment {
    pub closed spec fn target_view(self) -> HostTarget {
        self.target
    }

    pub closed spec fn clang_view(self) -> Seq<char> {
        self.clang@
    }

    pub closed spec fn linker_view(self) -> Seq<char> {
        self.linker@
    }

    pub closed spec fn triple_view(self) -> Seq<char> {
        self.llvm_target_triple@
    }

    pub closed spec fn sdk_view(self) -> Option<Seq<char>> {
        match self.sdk_path {
            Some(p) => Some(p@),
            None => None,
        }
    }

    pub closed spec fn llvm_as_view(self) -> Option<Seq<char>> {
        match self.llvm_as {
            Some(p) => Some(p@),
            None => None,
        }
    }

    /// An environment from the tools that discovery found.
    pub fn from_discovered(
        target: HostTarget,
        clang: String,
        linker: String,
        llvm_as: Option<String>,
        sdk_path: Option<String>,
        llvm_target_triple: String,
    ) -> (environment: BuildEnvironment)
        ensures
            environment.target_view() == target,
            environment.clang_view() == clang@,
            environment.linker_view() == linker@,
            environment.triple_view() == llvm_target_triple@,
            environment.sdk_view() == match sdk_path {
                Some(p) => Some(p@),
                None => None::<Seq<char>>,
            },
            environment.llvm_as_view() == match llvm_as {
                Some(p) => Some(p@),
                None => None::<Seq<char>>,
            },
    {
        BuildEnvironment { target, clang, linker, llvm_as, sdk_path, llvm_target_triple }
    }

    pub fn target(&self) -> (target: HostTarget)
        ensures
            target == self.target_view(),
    {
        self.target
    }

    pub fn clang(&self) -> (clang: &str)
        ensures
            clang@ == self.clang_view(),
    {
        self.clang.as_str()
    }

    pub fn linker(&self) -> (linker: &str)
        ensures
            linker@ == self.linker_view(),
    {
        self.linker.as_str()
    }

    pub fn llvm_as(&self) -> (path: Option<&str>)
        ensures
            match (path, self.llvm_as_view()) {
                (Some(p), Some(v)) => p@ == v,
                (None, None) => true,
                _ => false,
            },
    {
        match &self.llvm_as {
            Some(path) => Some(path.as_str()),
            None => None,
        }
    }

    pub fn llvm_target_triple(&self) -> (triple: &str)
        ensures
            triple@ == self.triple_view(),
    {
        self.llvm_target_triple.as_str()
    }

    /// `--target=<triple>`, then `-isysroot <sdk>` when an SDK was found.
    pub fn target_args(&self) -> (args: Vec<String>)
        ensures
            args@.map_values(|a: String| a@) == seq!["--target="@ + self.triple_view()] + match self.sdk_view() {
                Some(sdk) => seq!["-isysroot"@, sdk],
                None => seq![],
            },
    {
        let mut first = owned("--target=");
        push_str(&mut first, self.llvm_target_triple.as_str());
        let mut args: Vec<String> = Vec::new();
        args.push(first);
        match &self.sdk_path {
            Some(sdk) => {
                args.push(owned("-isysroot"));
                args.push(owned(sdk.as_str()));
            },
            None => {},
        }
        assert(args@.map_values(|a: String| a@) =~= seq!["--target="@ + self.triple_view()] + match self.sdk_view() {
            Some(sdk) => seq!["-isysroot"@, sdk],
            None => seq![],
        });
        args
    }
}

/// The message for a Clang that reports a target other than the host's.
pub open spec fn foreign_triple_message(clang: Seq<char>, triple: Seq<char>, target: HostTarget) -> Seq<
    char,
> {
    "selected Clang `"@ + clang + "` reported target `"@ + triple
        + "`, which does not match the detected host "@ + description_of(target)
        + "; check which Clang is selected or rebuild Speck on a supported native host"@
}

/// The LLVM target triple to use, from the (trimmed) triple that Clang reported.
pub fn select_llvm_triple(target: HostTarget, clang: &str, reported: &str) -> (triple: Result<
    String,
    String,
>)
    ensures
        reported@.len() == 0 ==> (triple matches Ok(t) && t@ == match target {
            HostTarget::LinuxX86_64 => "x86_64-unknown-linux-gnu"@,
            HostTarget::MacOsArm64 => "arm64-apple-darwin"@,
        }),
        reported@.len() > 0 && triple_fits(target, reported@) ==> (triple matches Ok(t) && t@
            == reported@),
        reported@.len() > 0 && !triple_fits(target, reported@) ==> (triple matches Err(e) && e@
            == foreign_triple_message(clang@, reported@, target)),
{
    if reported.unicode_len() == 0 {
        return Ok(owned(target.fallback_llvm_triple()));
    }
    if !target.accepts_llvm_triple(reported) {
        let mut message = owned("selected Clang `");
        push_str(&mut message, clang);
        push_str(&mut message, "` reported target `");
        push_str(&mut message, reported);
        push_str(&mut message, "`, which does not match the detected host ");
        push_str(&mut message, target.description());
        push_str(
            &mut message,
            "; check which Clang is selected or rebuild Speck on a supported native host",
        );
        return Err(message);
    }
    Ok(owned(reported))
}

} // verus!
