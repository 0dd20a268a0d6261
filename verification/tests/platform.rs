use krata::platform::{OciPlatform, Os};
use oci_spec::image::Arch;

#[test]
fn platform_holds_what_it_was_given() {
    let p = OciPlatform::new(Os::Windows, Arch::ARM64);
    assert_eq!(p.os, Os::Windows);
    assert_eq!(p.arch, Arch::ARM64);
}

#[test]
fn current_platform_is_linux_on_this_arch() {
    let p = OciPlatform::current();
    assert_eq!(p.os, Os::Linux);
    assert_eq!(p.arch, Arch::default());
}
