use vstd::prelude::*;

verus! {

/// Everything that can stop a boot attempt. None of these is recovered from:
/// the caller halts.
#[derive(Clone, Copy, Debug, PartialEq, Eq, Structural)]
pub enum BootError {
    /// The kernel image is malformed or built for another machine.
    ImageFormat,
    /// The physical range the image was linked for could not be reserved.
    Allocation,
    /// The firmware lists no platform description table.
    PlatformTableNotFound,
    /// The platform description table does not start with its signature.
    PlatformTableInvalid,
    /// The graphics mode stores pixels in neither RGB nor BGR order.
    UnsupportedPixelFormat,
}

impl BootError {
    /// A short description for diagnostics.
    pub fn message(&self) -> (text: &'static str)
        ensures
            text@ == match *self {
                BootError::ImageFormat => "malformed or unsupported kernel image"@,
                BootError::Allocation => "physical range unavailable"@,
                BootError::PlatformTableNotFound => "platform table not found"@,
                BootError::PlatformTableInvalid => "platform table signature mismatch"@,
                BootError::UnsupportedPixelFormat => "unsupported pixel format"@,
            },
    {
        match self {
            BootError::ImageFormat => "malformed or unsupported kernel image",
            BootError::Allocation => "physical range unavailable",
            BootError::PlatformTableNotFound => "platform table not found",
            BootError::PlatformTableInvalid => "platform table signature mismatch",
            BootError::UnsupportedPixelFormat => "unsupported pixel format",
        }
    }
}

} // verus!
