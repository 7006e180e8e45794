//! The kinds of payload, the architectures and variants, and the run's options.
use vstd::prelude::*;

verus! {

/// What a staged payload holds; decides where it goes and which files are kept.
#[derive(Clone, Copy, Debug, PartialEq, Eq, Structural)]
pub enum PayloadKind {
    CrtHeaders,
    CrtLibs,
    SdkHeaders,
    SdkLibs,
    SdkStoreLibs,
    Ucrt,
}

/// A product variant. `Spectre` only ever modifies the others in a request.
#[derive(Clone, Copy, Debug, PartialEq, Eq, Structural)]
pub enum Variant {
    Desktop,
    OneCore,
    Store,
    Spectre,
}

/// A target architecture.
#[derive(Clone, Copy, Debug, PartialEq, Eq, Structural)]
pub enum Arch {
    X86,
    X86_64,
    Aarch,
    Aarch64,
}

pub const VARIANT_DESKTOP: u32 = 1;

pub const VARIANT_ONECORE: u32 = 2;

pub const VARIANT_STORE: u32 = 4;

pub const VARIANT_SPECTRE: u32 = 8;

pub const ARCH_X86: u32 = 1;

pub const ARCH_X86_64: u32 = 2;

pub const ARCH_AARCH: u32 = 4;

pub const ARCH_AARCH64: u32 = 8;

impl Variant {
    pub open spec fn bit_spec(self) -> u32 {
        match self {
            Variant::Desktop => VARIANT_DESKTOP,
            Variant::OneCore => VARIANT_ONECORE,
            Variant::Store => VARIANT_STORE,
            Variant::Spectre => VARIANT_SPECTRE,
        }
    }

    /// The bit that stands for this variant in a request's set.
    pub fn bit(self) -> (r: u32)
        ensures
            r == self.bit_spec(),
    {
        match self {
            Variant::Desktop => VARIANT_DESKTOP,
            Variant::OneCore => VARIANT_ONECORE,
            Variant::Store => VARIANT_STORE,
            Variant::Spectre => VARIANT_SPECTRE,
        }
    }
}

/// Whether a set of variant bits holds the given variant.
pub open spec fn has_variant(set: u32, v: Variant) -> bool {
    set & v.bit_spec() != 0
}

pub open spec fn arch_bit(a: Arch) -> u32 {
    match a {
        Arch::X86 => ARCH_X86,
        Arch::X86_64 => ARCH_X86_64,
        Arch::Aarch => ARCH_AARCH,
        Arch::Aarch64 => ARCH_AARCH64,
    }
}

/// The vendor's token for an architecture.
pub open spec fn ms_name(a: Arch) -> Seq<u8> {
    match a {
        Arch::X86 => seq![120u8, 56u8, 54u8],
        Arch::X86_64 => seq![120u8, 54u8, 52u8],
        Arch::Aarch => seq![97u8, 114u8, 109u8],
        Arch::Aarch64 => seq![97u8, 114u8, 109u8, 54u8, 52u8],
    }
}

/// The normalized token for an architecture.
pub open spec fn plain_name(a: Arch) -> Seq<u8> {
    match a {
        Arch::X86 => seq![120u8, 56u8, 54u8],
        Arch::X86_64 => seq![120u8, 56u8, 54u8, 95u8, 54u8, 52u8],
        Arch::Aarch => seq![97u8, 97u8, 114u8, 99u8, 104u8],
        Arch::Aarch64 => seq![97u8, 97u8, 114u8, 99u8, 104u8, 54u8, 52u8],
    }
}

/// All architectures, in the order in which a request's set is walked.
pub open spec fn all_arches() -> Seq<Arch> {
    seq![Arch::X86, Arch::X86_64, Arch::Aarch, Arch::Aarch64]
}

/// The architectures of a request's set, in the order of `all_arches`.
pub open spec fn arches_in(set: u32) -> Seq<Arch> {
    all_arches().filter(|a: Arch| set & arch_bit(a) != 0)
}

fn push3(a: u8, b: u8, c: u8) -> (r: Vec<u8>)
    ensures
        r@ == seq![a, b, c],
{
    let mut r: Vec<u8> = Vec::new();
    r.push(a);
    r.push(b);
    r.push(c);
    assert(r@ =~= seq![a, b, c]);
    r
}

impl Arch {
    /// The vendor's token: `x86`, `x64`, `arm`, `arm64`.
    pub fn as_ms_str(self) -> (r: Vec<u8>)
        ensures
            r@ == ms_name(self),
    {
        match self {
            Arch::X86 => push3(120u8, 56u8, 54u8),
            Arch::X86_64 => push3(120u8, 54u8, 52u8),
            Arch::Aarch => push3(97u8, 114u8, 109u8),
            Arch::Aarch64 => {
                let mut r = push3(97u8, 114u8, 109u8);
                r.push(54u8);
                r.push(52u8);
                assert(r@ =~= ms_name(self));
                r
            },
        }
    }

    /// The normalized token: `x86`, `x86_64`, `aarch`, `aarch64`.
    pub fn as_str(self) -> (r: Vec<u8>)
        ensures
            r@ == plain_name(self),
    {
        match self {
            Arch::X86 => push3(120u8, 56u8, 54u8),
            Arch::X86_64 => {
                let mut r = push3(120u8, 56u8, 54u8);
                r.push(95u8);
                r.push(54u8);
                r.push(52u8);
                assert(r@ =~= plain_name(self));
                r
            },
            Arch::Aarch => {
                let mut r = push3(97u8, 97u8, 114u8);
                r.push(99u8);
                r.push(104u8);
                assert(r@ =~= plain_name(self));
                r
            },
            Arch::Aarch64 => {
                let mut r = push3(97u8, 97u8, 114u8);
                r.push(99u8);
                r.push(104u8);
                r.push(54u8);
                r.push(52u8);
                assert(r@ =~= plain_name(self));
                r
            },
        }
    }

    /// The architectures of a request's set, in a fixed order.
    pub fn iter(set: u32) -> (r: Vec<Arch>)
        ensures
            r@ == arches_in(set),
    {
        let all: [Arch; 4] = [Arch::X86, Arch::X86_64, Arch::Aarch, Arch::Aarch64];
        let mut r: Vec<Arch> = Vec::new();
        let mut i: usize = 0;
        assert(all@ == all_arches());
        while i < 4
            invariant
                i <= 4,
                all@ == all_arches(),
                r@ == all_arches().subrange(0, i as int).filter(
                    |a: Arch| set & arch_bit(a) != 0,
                ),
            decreases 4 - i,
        {
            let a = all[i];
            let bit: u32 = match a {
                Arch::X86 => ARCH_X86,
                Arch::X86_64 => ARCH_X86_64,
                Arch::Aarch => ARCH_AARCH,
                Arch::Aarch64 => ARCH_AARCH64,
            };
            proof {
                assert(all_arches().subrange(0, i + 1).drop_last() =~= all_arches().subrange(
                    0,
                    i as int,
                ));
                reveal(Seq::filter);
            }
            if set & bit != 0 {
                r.push(a);
            }
            i = i + 1;
        }
        assert(all_arches().subrange(0, 4) =~= all_arches());
        r
    }
}

/// The options of one run.
pub struct SplatConfig {
    pub include_debug_libs: bool,
    pub include_debug_symbols: bool,
    pub disable_symlinks: bool,
    pub preserve_ms_arch_notation: bool,
    pub output: String,
    pub copy: bool,
}

} // verus!
