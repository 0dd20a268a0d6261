//! The platform (operating system and architecture) that OCI images are
//! selected for.
use vstd::prelude::*;

verus! {

/// An operating system as OCI image indexes name it.
#[derive(Clone, Debug, PartialEq, Eq)]
#[allow(non_camel_case_types)]
pub enum Os {
    AIX,
    Android,
    Darwin,
    DragonFlyBSD,
    FreeBSD,
    Hurd,
    Illumos,
    iOS,
    Js,
    Linux,
    Nacl,
    NetBSD,
    OpenBSD,
    Plan9,
    Solaris,
    Windows,
    zOS,
    Other(String),
}

/// The CPU architecture type of the OCI image specification crate.
#[verifier::external_type_specification]
#[verifier::external_body]
pub struct ExArch(oci_spec::image::Arch);

/// `oci_spec::image::Arch::default`: the architecture this program was
/// built for, in OCI naming (`x86_64` is `amd64`, `aarch64` is `arm64`).
/// It depends on the machine, so nothing is stated of it.
#[verifier::external_body]
fn host_arch() -> oci_spec::image::Arch {
    oci_spec::image::Arch::default()
}

/// The operating system and architecture to select images for.
#[derive(Debug)]
pub struct OciPlatform {
    pub os: Os,
    pub arch: oci_spec::image::Arch,
}

impl OciPlatform {
    /// A platform of the given system and architecture.
    pub fn new(os: Os, arch: oci_spec::image::Arch) -> (p: OciPlatform)
        ensures
            p.os == os,
            p.arch == arch,
    {
        OciPlatform { os, arch }
    }

    /// The platform of this host: Linux on the architecture the program was
    /// built for.
    pub fn current() -> (p: OciPlatform)
        ensures
            p.os == Os::Linux,
    {
        OciPlatform { os: Os::Linux, arch: host_arch() }
    }
}

} // verus!
