//! Target architectures and the small option enums every driver shares:
//! optimization goals, symbol stripping, exception-handling modes.

use vstd::prelude::*;

verus! {

use vstd::string::StrSliceExecFns;
use vstd::string::StringExecFns;
use crate::text;

#[derive(Clone, Copy, Eq, PartialEq, Debug, Structural)]
pub enum ArchSubtype {
    Linux,
    Mac,
    NonSFI,
}

#[derive(Clone, Copy, Eq, PartialEq, Debug, Structural)]
pub enum Arch {
    Le32,
    X8632(Option<ArchSubtype>),
    X8664,
    AArch32(Option<ArchSubtype>),
    Mips32,
    Wasm32,
    Wasm64,
}

impl Default for Arch {
    fn default() -> (r: Arch)
        ensures
            r == Arch::Wasm32,
    {
        Arch::Wasm32
    }
}

/// Splits a string at every `-`, keeping empty pieces; there is always at
/// least one piece.
pub open spec fn spec_dash_split_acc(s: Seq<char>, cur: Seq<char>) -> Seq<Seq<char>>
    decreases s.len(),
{
    if s.len() == 0 {
        seq![cur]
    } else if s[0] == '-' {
        seq![cur] + spec_dash_split_acc(s.drop_first(), Seq::empty())
    } else {
        spec_dash_split_acc(s.drop_first(), cur.push(s[0]))
    }
}

pub open spec fn spec_dash_split(s: Seq<char>) -> Seq<Seq<char>> {
    spec_dash_split_acc(s, Seq::empty())
}

proof fn lemma_dash_split_nonempty(s: Seq<char>, cur: Seq<char>)
    ensures
        spec_dash_split_acc(s, cur).len() >= 1,
    decreases s.len(),
{
    if s.len() > 0 {
        if s[0] == '-' {
            lemma_dash_split_nonempty(s.drop_first(), Seq::empty());
        } else {
            lemma_dash_split_nonempty(s.drop_first(), cur.push(s[0]));
        }
    }
}

fn dash_split(s: &str) -> (r: Vec<String>)
    ensures
        r.deep_view() == spec_dash_split(s@),
{
    let n = s.unicode_len();
    let mut out: Vec<String> = Vec::new();
    let mut start: usize = 0;
    let mut i: usize = 0;
    proof {
        assert(s@.skip(0) =~= s@);
        assert(s@.subrange(0, 0) =~= Seq::<char>::empty());
        assert(out.deep_view() =~= Seq::<Seq<char>>::empty());
    }
    while i < n
        invariant
            start <= i <= n,
            n == s@.len(),
            forall|k: int| start <= k < i ==> #[trigger] s@[k] != '-',
            spec_dash_split(s@) == out.deep_view() + spec_dash_split_acc(
                s@.skip(i as int),
                s@.subrange(start as int, i as int),
            ),
        decreases n - i,
    {
        let ghost rest = s@.skip(i as int);
        let ghost cur = s@.subrange(start as int, i as int);
        proof {
            assert(rest[0] == s@[i as int]);
            assert(rest.drop_first() =~= s@.skip(i as int + 1));
        }
        let c = s.get_char(i);
        if c == '-' {
            let piece = s.substring_char(start, i).to_owned();
            out.push(piece);
            proof {
                assert(out.deep_view() =~= out.deep_view().drop_last() + seq![cur]);
                assert(s@.subrange(i as int + 1, i as int + 1) =~= Seq::<char>::empty());
                assert(out.deep_view() + spec_dash_split_acc(rest.drop_first(), Seq::empty())
                    =~= spec_dash_split(s@));
            }
            i = i + 1;
            start = i;
        } else {
            proof {
                assert(s@.subrange(start as int, i as int + 1) =~= cur.push(s@[i as int]));
            }
            i = i + 1;
        }
    }
    proof {
        assert(s@.skip(n as int) =~= Seq::<char>::empty());
    }
    let piece = s.substring_char(start, n).to_owned();
    out.push(piece);
    proof {
        assert(out.deep_view() =~= out.deep_view().drop_last() + seq![
            s@.subrange(start as int, n as int),
        ]);
        assert(spec_dash_split(s@) =~= out.deep_view());
    }
    out
}

/// The architecture a triple's first component names, if any.
pub open spec fn spec_parse_arch(t: Seq<char>) -> Option<Arch> {
    if t == "x86-32"@ || t == "x86_32"@ || t == "x8632"@ || t == "X86-32"@ || t == "X86_32"@ || t
        == "X8632"@ || t == "i386"@ || t == "i686"@ || t == "386"@ || t == "686"@ || t == "ia32"@ {
        Some(Arch::X8632(None))
    } else if t == "x86-32-linux"@ {
        Some(Arch::X8632(Some(ArchSubtype::Linux)))
    } else if t == "x86-32-mac"@ {
        Some(Arch::X8632(Some(ArchSubtype::Mac)))
    } else if t == "x86-32-nonsfi"@ {
        Some(Arch::X8632(Some(ArchSubtype::NonSFI)))
    } else if t == "x86-64"@ || t == "x86_64"@ || t == "x8664"@ || t == "X86-64"@ || t == "X86_64"@
        || t == "X8664"@ || t == "amd64"@ {
        Some(Arch::X8664)
    } else if t == "arm"@ || t == "armv7"@ || t == "armv7a"@ {
        Some(Arch::AArch32(None))
    } else if t == "arm-nonsfi"@ {
        Some(Arch::AArch32(Some(ArchSubtype::NonSFI)))
    } else if t == "mips"@ || t == "mips32"@ || t == "mipsel"@ {
        Some(Arch::Mips32)
    } else if t == "le32"@ {
        Some(Arch::Le32)
    } else if t == "wasm32"@ {
        Some(Arch::Wasm32)
    } else if t == "wasm64"@ {
        Some(Arch::Wasm64)
    } else {
        None
    }
}

fn parse_arch(t: &str) -> (r: Option<Arch>)
    ensures
        r == spec_parse_arch(t@),
{
    if text::str_eq(t, "x86-32") || text::str_eq(t, "x86_32") || text::str_eq(t, "x8632")
        || text::str_eq(t, "X86-32") || text::str_eq(t, "X86_32") || text::str_eq(t, "X8632")
        || text::str_eq(t, "i386") || text::str_eq(t, "i686") || text::str_eq(t, "386")
        || text::str_eq(t, "686") || text::str_eq(t, "ia32") {
        Some(Arch::X8632(None))
    } else if text::str_eq(t, "x86-32-linux") {
        Some(Arch::X8632(Some(ArchSubtype::Linux)))
    } else if text::str_eq(t, "x86-32-mac") {
        Some(Arch::X8632(Some(ArchSubtype::Mac)))
    } else if text::str_eq(t, "x86-32-nonsfi") {
        Some(Arch::X8632(Some(ArchSubtype::NonSFI)))
    } else if text::str_eq(t, "x86-64") || text::str_eq(t, "x86_64") || text::str_eq(t, "x8664")
        || text::str_eq(t, "X86-64") || text::str_eq(t, "X86_64") || text::str_eq(t, "X8664")
        || text::str_eq(t, "amd64") {
        Some(Arch::X8664)
    } else if text::str_eq(t, "arm") || text::str_eq(t, "armv7") || text::str_eq(t, "armv7a") {
        Some(Arch::AArch32(None))
    } else if text::str_eq(t, "arm-nonsfi") {
        Some(Arch::AArch32(Some(ArchSubtype::NonSFI)))
    } else if text::str_eq(t, "mips") || text::str_eq(t, "mips32") || text::str_eq(t, "mipsel") {
        Some(Arch::Mips32)
    } else if text::str_eq(t, "le32") {
        Some(Arch::Le32)
    } else if text::str_eq(t, "wasm32") {
        Some(Arch::Wasm32)
    } else if text::str_eq(t, "wasm64") {
        Some(Arch::Wasm64)
    } else {
        None
    }
}

pub open spec fn spec_is_wasm(a: Arch) -> bool {
    a == Arch::Wasm32 || a == Arch::Wasm64
}

pub open spec fn spec_unknown_format_msg(triple: Seq<char>) -> Seq<char> {
    "`"@ + triple + "` is an unknown target triple format"@
}

pub open spec fn spec_unknown_arch_msg(arch: Seq<char>) -> Seq<char> {
    "`"@ + arch + "` is an unknown target arch"@
}

pub open spec fn spec_unsupported_os_msg(os: Seq<char>) -> Seq<char> {
    "OS `"@ + os + "` is not supported"@
}

/// What parsing a target triple yields: its architecture when the OS part is
/// `nacl` (or `unknown` for a wasm architecture), else which of the three
/// errors.
pub open spec fn spec_parse_from_triple(s: Seq<char>) -> Result<Arch, Seq<char>> {
    let pieces = spec_dash_split(s);
    match spec_parse_arch(pieces[0]) {
        None => Err(spec_unknown_arch_msg(pieces[0])),
        Some(arch) => {
            if pieces.len() < 2 {
                Err(spec_unknown_format_msg(s))
            } else {
                let os = if pieces.len() == 2 {
                    pieces[1]
                } else {
                    pieces[2]
                };
                let nacl_or_wasm = os == "nacl"@ || (spec_is_wasm(arch) && os == "unknown"@);
                if !nacl_or_wasm {
                    Err(spec_unsupported_os_msg(os))
                } else if pieces.len() >= 5 {
                    Err(spec_unknown_format_msg(s))
                } else {
                    Ok(arch)
                }
            }
        },
    }
}

fn unknown_format_error(triple: &str) -> (r: String)
    ensures
        r@ == spec_unknown_format_msg(triple@),
{
    let mut out = "`".to_owned();
    out.append(triple);
    out.append("` is an unknown target triple format");
    proof {
        assert(out@ =~= spec_unknown_format_msg(triple@));
    }
    out
}

fn unknown_arch_error(arch: &str) -> (r: String)
    ensures
        r@ == spec_unknown_arch_msg(arch@),
{
    let mut out = "`".to_owned();
    out.append(arch);
    out.append("` is an unknown target arch");
    proof {
        assert(out@ =~= spec_unknown_arch_msg(arch@));
    }
    out
}

fn unsupported_os_error(os: &str) -> (r: String)
    ensures
        r@ == spec_unsupported_os_msg(os@),
{
    let mut out = "OS `".to_owned();
    out.append(os);
    out.append("` is not supported");
    proof {
        assert(out@ =~= spec_unsupported_os_msg(os@));
    }
    out
}

impl Arch {
    /// Parses a GCC-style target triple into its architecture; the OS part
    /// must be `nacl`, or `unknown` for a wasm architecture.
    pub fn parse_from_triple(triple: &str) -> (r: Result<Arch, String>)
        ensures
            match r {
                Ok(a) => spec_parse_from_triple(triple@) == Result::<Arch, Seq<char>>::Ok(a),
                Err(e) => spec_parse_from_triple(triple@) == Result::<Arch, Seq<char>>::Err(e@),
            },
    {
        let pieces = dash_split(triple);
        proof {
            lemma_dash_split_nonempty(triple@, Seq::empty());
            assert(pieces.deep_view().len() == pieces@.len());
            assert(pieces.deep_view()[0] == pieces@[0]@);
        }
        let arch = match parse_arch(pieces[0].as_str()) {
            None => {
                return Err(unknown_arch_error(pieces[0].as_str()));
            },
            Some(a) => a,
        };
        if pieces.len() < 2 {
            return Err(unknown_format_error(triple));
        }
        let os_idx: usize = if pieces.len() == 2 {
            1
        } else {
            2
        };
        proof {
            assert(pieces.deep_view()[os_idx as int] == pieces@[os_idx as int]@);
        }
        let os = &pieces[os_idx];
        let is_wasm_arch = arch == Arch::Wasm32 || arch == Arch::Wasm64;
        let nacl_or_wasm = text::str_eq(os.as_str(), "nacl") || (is_wasm_arch && text::str_eq(
            os.as_str(),
            "unknown",
        ));
        if !nacl_or_wasm {
            Err(unsupported_os_error(os.as_str()))
        } else if pieces.len() >= 5 {
            Err(unknown_format_error(triple))
        } else {
            Ok(arch)
        }
    }

    /// The LLVM name of a portable architecture.
    pub fn llvm_arch(&self) -> (r: Option<&'static str>)
        ensures
            match self {
                Arch::Wasm32 => r matches Some(s) && s@ == "wasm32"@,
                Arch::Wasm64 => r matches Some(s) && s@ == "wasm64"@,
                Arch::Le32 => r matches Some(s) && s@ == "le32"@,
                _ => r is None,
            },
    {
        match self {
            Arch::Wasm32 => Some("wasm32"),
            Arch::Wasm64 => Some("wasm64"),
            Arch::Le32 => Some("le32"),
            _ => None,
        }
    }

    /// Whether this architecture has a bitcode-linker output format.
    pub open spec fn spec_has_bcld_format(self) -> bool {
        match self {
            Arch::Le32 | Arch::X8664 | Arch::Mips32 => true,
            Arch::X8632(sub) => sub is None || sub == Some(ArchSubtype::NonSFI),
            Arch::AArch32(sub) => sub is None || sub == Some(ArchSubtype::NonSFI),
            _ => false,
        }
    }

    /// The object format the bitcode linker emits for this architecture.
    pub fn bcld_output_format(&self) -> (r: &'static str)
        requires
            self.spec_has_bcld_format(),
        ensures
            match self {
                Arch::Le32 | Arch::X8632(_) => r@ == "elf32-i386-nacl"@,
                Arch::AArch32(_) => r@ == "elf32-littlearm-nacl"@,
                Arch::Mips32 => r@ == "elf32-tradlittlemips-nacl"@,
                Arch::X8664 => r@ == "elf64-x86-64-nacl"@,
                _ => true,
            },
    {
        match self {
            Arch::Le32 | Arch::X8632(_) => "elf32-i386-nacl",
            Arch::AArch32(_) => "elf32-littlearm-nacl",
            Arch::Mips32 => "elf32-tradlittlemips-nacl",
            Arch::X8664 => "elf64-x86-64-nacl",
            _ => "elf32-i386-nacl",
        }
    }

    pub fn is_portable(&self) -> (r: bool)
        ensures
            r == (*self == Arch::Le32 || *self == Arch::Wasm32 || *self == Arch::Wasm64),
    {
        match self {
            Arch::Le32 | Arch::Wasm32 | Arch::Wasm64 => true,
            _ => false,
        }
    }

    pub fn is_wasm(&self) -> (r: bool)
        ensures
            r == spec_is_wasm(*self),
    {
        match self {
            Arch::Wasm32 | Arch::Wasm64 => true,
            _ => false,
        }
    }

    /// Which architectures keep bitcode system libraries.
    pub open spec fn spec_has_bc_subpath(self) -> bool {
        match self {
            Arch::Le32 | Arch::X8632(_) | Arch::X8664 | Arch::AArch32(_) => true,
            _ => false,
        }
    }

    /// The bitcode sysroot subdirectory of this architecture.
    pub fn bc_subpath(&self) -> (r: &'static str)
        requires
            self.spec_has_bc_subpath(),
        ensures
            match self {
                Arch::Le32 => r@ == "le32-nacl"@,
                Arch::X8632(_) => r@ == "i686_bc-nacl"@,
                Arch::X8664 => r@ == "x86_64_bc-nacl"@,
                Arch::AArch32(_) => r@ == "arm_bc-nacl"@,
                _ => true,
            },
    {
        match self {
            Arch::Le32 => "le32-nacl",
            Arch::X8632(_) => "i686_bc-nacl",
            Arch::X8664 => "x86_64_bc-nacl",
            _ => "arm_bc-nacl",
        }
    }
}

#[derive(Copy, Clone, Eq, PartialEq, Debug, Structural)]
pub enum OptimizationGoal {
    /// `-O0` through `-O4`.
    Speed(u8),
    /// `-Os`.
    Balanced,
    /// `-Oz`.
    Size,
}

impl Default for OptimizationGoal {
    fn default() -> (r: OptimizationGoal)
        ensures
            r == OptimizationGoal::Speed(0u8),
    {
        OptimizationGoal::Speed(0)
    }
}

/// The goal each `-O` suffix selects; an empty suffix means `-O2`.
pub open spec fn spec_parse_opt(s: Seq<char>) -> Option<OptimizationGoal> {
    if s == Seq::<char>::empty() || s == "2"@ {
        Some(OptimizationGoal::Speed(2u8))
    } else if s == "0"@ {
        Some(OptimizationGoal::Speed(0u8))
    } else if s == "1"@ {
        Some(OptimizationGoal::Speed(1u8))
    } else if s == "3"@ {
        Some(OptimizationGoal::Speed(3u8))
    } else if s == "4"@ {
        Some(OptimizationGoal::Speed(4u8))
    } else if s == "s"@ {
        Some(OptimizationGoal::Balanced)
    } else if s == "z"@ {
        Some(OptimizationGoal::Size)
    } else {
        None
    }
}

impl OptimizationGoal {
    pub fn parse(s: &str) -> (r: Option<OptimizationGoal>)
        ensures
            r == spec_parse_opt(s@),
    {
        if s.unicode_len() == 0 {
            proof {
                assert(s@ =~= Seq::<char>::empty());
            }
            return Some(OptimizationGoal::Speed(2));
        }
        if text::str_eq(s, "2") {
            Some(OptimizationGoal::Speed(2))
        } else if text::str_eq(s, "0") {
            Some(OptimizationGoal::Speed(0))
        } else if text::str_eq(s, "1") {
            Some(OptimizationGoal::Speed(1))
        } else if text::str_eq(s, "3") {
            Some(OptimizationGoal::Speed(3))
        } else if text::str_eq(s, "4") {
            Some(OptimizationGoal::Speed(4))
        } else if text::str_eq(s, "s") {
            Some(OptimizationGoal::Balanced)
        } else if text::str_eq(s, "z") {
            Some(OptimizationGoal::Size)
        } else {
            proof {
                if s@ == Seq::<char>::empty() {
                    assert(s@.len() == 0);
                }
            }
            None
        }
    }

    /// A speed level past `-O4` is invalid.
    pub open spec fn spec_valid(self) -> bool {
        match self {
            OptimizationGoal::Speed(n) => n <= 4,
            _ => true,
        }
    }

    pub fn check(&self)
        requires
            self.spec_valid(),
    {
    }

    /// The command-line flag this goal spells, `-O2` for `Speed(2)` and so
    /// on.
    pub fn as_flag(&self) -> (r: String)
        ensures
            match self {
                OptimizationGoal::Speed(n) => r@ == "-O"@ + text::spec_decimal(*n as int),
                OptimizationGoal::Balanced => r@ == "-Os"@,
                OptimizationGoal::Size => r@ == "-Oz"@,
            },
    {
        match self {
            OptimizationGoal::Speed(n) => {
                let digits = text::u64_to_string(*n as u64);
                let r = text::str_concat("-O", digits.as_str());
                r
            },
            OptimizationGoal::Balanced => "-Os".to_owned(),
            OptimizationGoal::Size => "-Oz".to_owned(),
        }
    }
}

#[derive(Copy, Clone, Eq, PartialEq, Debug, Structural)]
pub enum StripMode {
    All,
    Debug,
    Keep,
}

impl Default for StripMode {
    fn default() -> (r: StripMode)
        ensures
            r == StripMode::Keep,
    {
        StripMode::Keep
    }
}

impl StripMode {
    /// The flag this mode passes to the linker; stripping nothing passes
    /// nothing.
    pub fn as_flag(&self) -> (r: String)
        ensures
            match self {
                StripMode::Keep => r@ == Seq::<char>::empty(),
                StripMode::Debug => r@ == "-s"@,
                StripMode::All => r@ == "-S"@,
            },
    {
        match self {
            StripMode::Keep => {
                let r = String::new();
                r
            },
            StripMode::Debug => "-s".to_owned(),
            StripMode::All => "-S".to_owned(),
        }
    }
}

#[derive(Copy, Clone, Eq, PartialEq, Debug, Structural)]
pub enum EhMode {
    Off,
    SjLj,
    Zerocost,
}

impl Default for EhMode {
    fn default() -> (r: EhMode)
        ensures
            r == EhMode::Off,
    {
        EhMode::Off
    }
}

pub open spec fn spec_unknown_eh_msg(handler: Seq<char>) -> Seq<char> {
    "`"@ + handler + "` is an unknown eh handler"@
}

/// What an exception-handling argument means: `None` when the argument is
/// not about exception handling at all, an error for an unknown handler
/// behind `--pnacl-exceptions=`.
pub open spec fn spec_parse_eh_arg(s: Seq<char>) -> Option<Result<EhMode, Seq<char>>> {
    if text::spec_starts_with(s, "--pnacl-exceptions="@) {
        let handler = s.skip("--pnacl-exceptions="@.len() as int);
        if handler == "none"@ {
            Some(Ok(EhMode::Off))
        } else if handler == "sjlj"@ {
            Some(Ok(EhMode::SjLj))
        } else if handler == "zerocost"@ {
            Some(Ok(EhMode::Zerocost))
        } else {
            Some(Err(spec_unknown_eh_msg(handler)))
        }
    } else if s == "--pnacl-allow-exceptions"@ {
        Some(Ok(EhMode::Zerocost))
    } else {
        None
    }
}

impl EhMode {
    pub fn parse_arg(arg: &str) -> (r: Option<Result<EhMode, String>>)
        ensures
            match r {
                Some(Ok(m)) => spec_parse_eh_arg(arg@) == Some(Result::<EhMode, Seq<char>>::Ok(m)),
                Some(Err(e)) => spec_parse_eh_arg(arg@) == Some(
                    Result::<EhMode, Seq<char>>::Err(e@),
                ),
                None => spec_parse_eh_arg(arg@) is None,
            },
    {
        let prefix = "--pnacl-exceptions=";
        if text::str_starts_with(arg, prefix) {
            let plen = prefix.unicode_len();
            let handler = arg.substring_char(plen, arg.unicode_len()).to_owned();
            proof {
                assert(handler@ =~= arg@.skip("--pnacl-exceptions="@.len() as int));
            }
            if text::str_eq(handler.as_str(), "none") {
                Some(Ok(EhMode::Off))
            } else if text::str_eq(handler.as_str(), "sjlj") {
                Some(Ok(EhMode::SjLj))
            } else if text::str_eq(handler.as_str(), "zerocost") {
                Some(Ok(EhMode::Zerocost))
            } else {
                let mut msg = "`".to_owned();
                msg.append(handler.as_str());
                msg.append("` is an unknown eh handler");
                proof {
                    assert(msg@ =~= spec_unknown_eh_msg(handler@));
                }
                Some(Err(msg))
            }
        } else if text::str_eq(arg, "--pnacl-allow-exceptions") {
            Some(Ok(EhMode::Zerocost))
        } else {
            None
        }
    }
}

} // verus!
