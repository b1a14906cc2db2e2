use crate::error::BootError;
use crate::framebuffer::{FrameBuffer, PixelFormat};
use vstd::prelude::*;

verus! {

/// A globally unique identifier, in the four groups of its usual notation; the
/// last two printed groups make up `data4`, most significant byte first.
#[derive(Clone, Copy, Debug, PartialEq, Eq, Structural)]
pub struct Guid {
    pub data1: u32,
    pub data2: u16,
    pub data3: u16,
    pub data4: u64,
}

/// Identifier of the platform description table in its first version:
/// `eb9d2d30-2d88-11d3-9a16-0090273fc14d`.
pub open spec fn acpi1_guid() -> Guid {
    Guid { data1: 0xeb9d_2d30, data2: 0x2d88, data3: 0x11d3, data4: 0x9a16_0090_273f_c14d }
}

/// Identifier of the platform description table from its second version on:
/// `8868e871-e4f1-11d3-bc22-0080c73c8881`.
pub open spec fn acpi2_guid() -> Guid {
    Guid { data1: 0x8868_e871, data2: 0xe4f1, data3: 0x11d3, data4: 0xbc22_0080_c73c_8881 }
}

impl Guid {
    /// The identifier of the first table version.
    pub fn acpi1() -> (guid: Guid)
        ensures
            guid == acpi1_guid(),
    {
        Guid { data1: 0xeb9d_2d30, data2: 0x2d88, data3: 0x11d3, data4: 0x9a16_0090_273f_c14d }
    }

    /// The identifier of the later table versions.
    pub fn acpi2() -> (guid: Guid)
        ensures
            guid == acpi2_guid(),
    {
        Guid { data1: 0x8868_e871, data2: 0xe4f1, data3: 0x11d3, data4: 0xbc22_0080_c73c_8881 }
    }
}

/// One entry of the firmware's configuration table.
#[derive(Clone, Copy, Debug, PartialEq, Eq, Structural)]
pub struct ConfigEntry {
    pub guid: Guid,
    pub address: u64,
}

/// `entries[i]` is the first entry tagged `guid`.
pub open spec fn first_tagged(entries: Seq<ConfigEntry>, guid: Guid, i: int) -> bool {
    &&& 0 <= i < entries.len()
    &&& entries[i].guid == guid
    &&& forall|j: int| 0 <= j < i ==> (#[trigger] entries[j]).guid != guid
}

/// No entry is tagged `guid`.
pub open spec fn untagged(entries: Seq<ConfigEntry>, guid: Guid) -> bool {
    forall|j: int| 0 <= j < entries.len() ==> (#[trigger] entries[j]).guid != guid
}

/// `entries[i]` is the entry that names the platform table: the first one of
/// the later version, or, where there is none of those, the first one of the
/// first version.
pub open spec fn names_platform_table(entries: Seq<ConfigEntry>, i: int) -> bool {
    ||| first_tagged(entries, acpi2_guid(), i)
    ||| (untagged(entries, acpi2_guid()) && first_tagged(entries, acpi1_guid(), i))
}

/// Index of the first entry tagged `guid`, if there is one.
fn find_tagged(entries: &[ConfigEntry], guid: Guid) -> (found: Option<usize>)
    ensures
        match found {
            Some(i) => first_tagged(entries@, guid, i as int),
            None => untagged(entries@, guid),
        },
{
    let mut i: usize = 0;
    while i < entries.len()
        invariant
            i <= entries@.len(),
            forall|j: int| 0 <= j < i ==> (#[trigger] entries@[j]).guid != guid,
        decreases entries@.len() - i,
    {
        if entries[i].guid == guid {
            return Some(i);
        }
        i += 1;
    }
    None
}

/// Finds the address of the platform description table among the firmware's
/// configuration entries, preferring the later table version.
///
/// Fails with `PlatformTableNotFound` exactly when no entry carries either
/// identifier.
pub fn find_platform_table(entries: &[ConfigEntry]) -> (address: Result<u64, BootError>)
    ensures
        match address {
            Ok(a) => exists|i: int| names_platform_table(entries@, i) && entries@[i].address == a,
            Err(e) => {
                &&& e == BootError::PlatformTableNotFound
                &&& untagged(entries@, acpi2_guid())
                &&& untagged(entries@, acpi1_guid())
            },
        },
{
    match find_tagged(entries, Guid::acpi2()) {
        Some(i) => {
            assert(names_platform_table(entries@, i as int));
            Ok(entries[i].address)
        },
        None => match find_tagged(entries, Guid::acpi1()) {
            Some(i) => {
                assert(names_platform_table(entries@, i as int));
                Ok(entries[i].address)
            },
            None => Err(BootError::PlatformTableNotFound),
        },
    }
}

/// The bytes every platform description table starts with: `RSD PTR`.
pub open spec fn table_signature() -> Seq<u8> {
    seq![0x52u8, 0x53u8, 0x44u8, 0x20u8, 0x50u8, 0x54u8, 0x52u8]
}

/// Whether `leading`, the first bytes found at a table's address, begin with
/// the signature.
pub open spec fn is_signed(leading: Seq<u8>) -> bool {
    leading.len() >= 7 && leading.subrange(0, 7) == table_signature()
}

/// Whether the first bytes found at a table's address begin with the
/// signature.
pub fn has_table_signature(leading: &[u8]) -> (signed: bool)
    ensures
        signed == is_signed(leading@),
{
    if leading.len() < 7 {
        return false;
    }
    let signed = leading[0] == 0x52 && leading[1] == 0x53 && leading[2] == 0x44 && leading[3] == 0x20
        && leading[4] == 0x50 && leading[5] == 0x54 && leading[6] == 0x52;
    proof {
        let head = leading@.subrange(0, 7);
        if signed {
            assert(head =~= table_signature());
        } else {
            assert(head[0] == leading@[0] && head[1] == leading@[1] && head[2] == leading@[2]
                && head[3] == leading@[3] && head[4] == leading@[4] && head[5] == leading@[5]
                && head[6] == leading@[6]);
        }
    }
    signed
}

/// Pixel layouts a firmware graphics mode can report.
#[derive(Clone, Copy, Debug, PartialEq, Eq, Structural)]
pub enum GraphicsPixelFormat {
    Rgb,
    Bgr,
    Bitmask,
    BltOnly,
}

/// The active graphics mode as the firmware reports it.
#[derive(Clone, Copy, Debug, PartialEq, Eq, Structural)]
pub struct GraphicsMode {
    /// Physical address of the linear framebuffer.
    pub base: u64,
    /// Pixels per row of memory.
    pub stride: u32,
    pub width: u32,
    pub height: u32,
    pub format: GraphicsPixelFormat,
}

/// The channel order a reported pixel layout stands for, if it is one of the
/// two that can be drawn to directly.
pub open spec fn channel_order(format: GraphicsPixelFormat) -> Option<PixelFormat> {
    match format {
        GraphicsPixelFormat::Rgb => Some(PixelFormat::Rgb),
        GraphicsPixelFormat::Bgr => Some(PixelFormat::Bgr),
        _ => None,
    }
}

/// Describes the framebuffer of a graphics mode.
///
/// Fails with `UnsupportedPixelFormat` exactly when the mode stores pixels in
/// neither RGB nor BGR order.
pub fn describe_frame_buffer(mode: &GraphicsMode) -> (described: Result<FrameBuffer, BootError>)
    ensures
        match described {
            Ok(fb) => fb == (FrameBuffer {
                framebuffer: mode.base,
                stride: mode.stride,
                resolution: (mode.width, mode.height),
                format: channel_order(mode.format)->0,
            }) && channel_order(mode.format) is Some,
            Err(e) => e == BootError::UnsupportedPixelFormat && channel_order(mode.format) is None,
        },
{
    let format = match mode.format {
        GraphicsPixelFormat::Rgb => PixelFormat::Rgb,
        GraphicsPixelFormat::Bgr => PixelFormat::Bgr,
        _ => {
            return Err(BootError::UnsupportedPixelFormat);
        },
    };
    Ok(
        FrameBuffer {
            framebuffer: mode.base,
            stride: mode.stride,
            resolution: (mode.width, mode.height),
            format,
        },
    )
}

/// Everything the jump to the kernel needs: where to jump and the two
/// arguments the entry point takes.
#[derive(Clone, Copy, Debug, PartialEq, Eq)]
pub struct Handoff {
    /// Address of the kernel's entry point.
    pub entry: u64,
    /// First argument, passed by reference.
    pub frame_buffer: FrameBuffer,
    /// Second argument: address of the platform description table.
    pub platform_table: u64,
}

/// Decides whether control may pass to the kernel and with which arguments.
///
/// `leading` holds the first bytes found at the address that
/// [`find_platform_table`] gives for `entries`; it is not looked at where that
/// fails. The checks are made in this order, and the first that fails decides
/// the error: the pixel layout must be RGB or BGR
/// (`UnsupportedPixelFormat`), an entry must name the platform table
/// (`PlatformTableNotFound`), and the table must begin with its signature
/// (`PlatformTableInvalid`).
pub fn prepare_handoff(
    entry: u64,
    mode: &GraphicsMode,
    entries: &[ConfigEntry],
    leading: &[u8],
) -> (handoff: Result<Handoff, BootError>)
    ensures
        match handoff {
            Ok(h) => {
                &&& channel_order(mode.format) is Some
                &&& is_signed(leading@)
                &&& h.entry == entry
                &&& h.frame_buffer == (FrameBuffer {
                    framebuffer: mode.base,
                    stride: mode.stride,
                    resolution: (mode.width, mode.height),
                    format: channel_order(mode.format)->0,
                })
                &&& exists|i: int|
                    names_platform_table(entries@, i) && entries@[i].address == h.platform_table
            },
            Err(BootError::UnsupportedPixelFormat) => channel_order(mode.format) is None,
            Err(BootError::PlatformTableNotFound) => {
                &&& channel_order(mode.format) is Some
                &&& untagged(entries@, acpi2_guid())
                &&& untagged(entries@, acpi1_guid())
            },
            Err(BootError::PlatformTableInvalid) => {
                &&& channel_order(mode.format) is Some
                &&& exists|i: int| names_platform_table(entries@, i)
                &&& !is_signed(leading@)
            },
            Err(_) => false,
        },
{
    let frame_buffer = match describe_frame_buffer(mode) {
        Ok(fb) => fb,
        Err(e) => {
            return Err(e);
        },
    };
    let platform_table = match find_platform_table(entries) {
        Ok(address) => address,
        Err(e) => {
            return Err(e);
        },
    };
    if !has_table_signature(leading) {
        return Err(BootError::PlatformTableInvalid);
    }
    Ok(Handoff { entry, frame_buffer, platform_table })
}

/// At most one entry names the platform table, so the address that
/// [`find_platform_table`] returns is determined by the entries.
pub proof fn lemma_platform_table_unique(entries: Seq<ConfigEntry>, i: int, j: int)
    requires
        names_platform_table(entries, i),
        names_platform_table(entries, j),
    ensures
        i == j,
{
}

} // verus!
