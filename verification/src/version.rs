use vstd::prelude::*;

verus! {

/// The packed Vulkan API version number that `VK_MAKE_API_VERSION` builds:
/// variant in bits 29.., major in bits 22.., minor in bits 12.., patch below.
pub open spec fn spec_api_version(variant: u32, major: u32, minor: u32, patch: u32) -> u32 {
    (variant << 29u32) | (major << 22u32) | (minor << 12u32) | patch
}

/// Calls `ash::vk::make_api_version`, whose body is the shift-and-or
/// expression of `spec_api_version` on `u32` (shifted-out bits are dropped).
#[verifier::external_body]
fn ash_make_api_version(variant: u32, major: u32, minor: u32, patch: u32) -> (r: u32)
    ensures
        r == spec_api_version(variant, major, minor, patch),
{
    ash::vk::make_api_version(variant, major, minor, patch)
}

/// A Vulkan API version, kept unpacked.
#[derive(Debug, Clone, Copy)]
pub struct Version {
    pub variant: u32,
    pub major: u32,
    pub minor: u32,
    pub patch: u32,
}

impl Version {
    pub fn new(variant: u32, major: u32, minor: u32, patch: u32) -> (v: Self)
        ensures
            v.variant == variant,
            v.major == major,
            v.minor == minor,
            v.patch == patch,
    {
        Self { variant, major, minor, patch }
    }

    /// Version `major.0.0`, variant 0.
    pub fn from_major(major: u32) -> (v: Self)
        ensures
            v.variant == 0,
            v.major == major,
            v.minor == 0,
            v.patch == 0,
    {
        Self { major, ..Self::default() }
    }

    /// Version `major.minor.0`, variant 0.
    pub fn from_major_minor(major: u32, minor: u32) -> (v: Self)
        ensures
            v.variant == 0,
            v.major == major,
            v.minor == minor,
            v.patch == 0,
    {
        Self { major, minor, ..Self::default() }
    }

    fn default() -> (v: Self)
        ensures
            v.variant == 0,
            v.major == 0,
            v.minor == 0,
            v.patch == 0,
    {
        Self { variant: 0, major: 0, minor: 0, patch: 0 }
    }

    /// The packed form that Vulkan's `apiVersion` fields expect.
    pub fn make_api_version(&self) -> (r: u32)
        ensures
            r == spec_api_version(self.variant, self.major, self.minor, self.patch),
    {
        ash_make_api_version(self.variant, self.major, self.minor, self.patch)
    }
}

} // verus!
