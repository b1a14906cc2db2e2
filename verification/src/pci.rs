//! Addressing of the PCI configuration space: which word to write to the
//! address port to select a register of a device, and how to read the
//! identifiers out of the word that then comes back from the data port.

use bit_field::BitField;
use vstd::prelude::*;

verus! {

/// Name of the vendor with the given PCI vendor identifier.
pub fn vendor_id_to_str(vendor_id: u16) -> (name: &'static str)
    ensures
        name@ == if vendor_id == 0x8086 {
            "Intel"@
        } else if vendor_id == 0x1022 {
            "AMD"@
        } else if vendor_id == 0x10DE {
            "NVIDIA Corporation"@
        } else {
            "Unknown"@
        },
{
    if vendor_id == 0x8086 {
        "Intel"
    } else if vendor_id == 0x1022 {
        "AMD"
    } else if vendor_id == 0x10DE {
        "NVIDIA Corporation"
    } else {
        "Unknown"
    }
}

/// The bits `lo` up to but excluding `hi` of a word, all set.
pub open spec fn field_mask(lo: usize, hi: usize) -> u32 {
    (((!0u32) << ((32 - hi) as u32)) >> ((32 - hi) as u32)) >> (lo as u32) << (lo as u32)
}

/// Whether `value` has no bit set beyond its `hi - lo` lowest.
pub open spec fn fits_field(lo: usize, hi: usize, value: u32) -> bool {
    (value << ((32 - (hi - lo)) as u32)) >> ((32 - (hi - lo)) as u32) == value
}

/// `word` with its bits `lo` up to but excluding `hi` replaced by `value`.
pub open spec fn with_bits(word: u32, lo: usize, hi: usize, value: u32) -> u32 {
    (word & !field_mask(lo, hi)) | (value << (lo as u32))
}

/// Calls `BitField::set_bits` of the crate `bit_field` on a `u32`, with the
/// range `lo..hi`. Inside its bounds, and for a value that fits the range, the
/// method replaces those bits of the word by the value and leaves the others.
#[verifier::external_body]
fn set_bits(word: &mut u32, lo: usize, hi: usize, value: u32)
    requires
        lo < hi <= 32,
        fits_field(lo, hi, value),
    ensures
        *final(word) == with_bits(*old(word), lo, hi, value),
{
    word.set_bits(lo..hi, value);
}

/// Calls `BitField::set_bit` of the crate `bit_field` on a `u32`. For a bit
/// inside the word the method sets or clears that bit and leaves the others.
#[verifier::external_body]
fn set_bit(word: &mut u32, bit: usize, value: bool)
    requires
        bit < 32,
    ensures
        *final(word) == if value {
            *old(word) | (1u32 << (bit as u32))
        } else {
            *old(word) & !(1u32 << (bit as u32))
        },
{
    word.set_bit(bit, value);
}

/// The word that selects a register: the enable bit, then the bus in bits 16
/// to 23, the device in bits 11 to 15, the function in bits 8 to 10 and the
/// register offset in bits 0 to 7.
pub open spec fn config_word(bus: u8, device: u8, function: u8, reg: u8) -> u32 {
    0x8000_0000u32 | ((bus as u32) << 16) | ((device as u32) << 11) | ((function as u32) << 8) | (
    reg as u32)
}

/// A word for the configuration address port.
#[derive(Debug, Clone, Copy)]
pub struct ConfigAddress(pub u32);

impl ConfigAddress {
    /// The word that selects register `reg` of a function of a device on a
    /// bus. A bus has 32 devices and a device 8 functions.
    pub fn new(bus: u8, device: u8, function: u8, reg: u8) -> (address: Self)
        requires
            device < 32,
            function < 8,
        ensures
            address.0 == config_word(bus, device, function, reg),
    {
        let mut value: u32 = 0;
        let r: u32 = reg as u32;
        let f: u32 = function as u32;
        let d: u32 = device as u32;
        let b: u32 = bus as u32;
        assert(fits_field(0, 8, r)) by {
            assert((r << 24u32) >> 24u32 == r) by (bit_vector)
                requires
                    r < 256,
            ;
        }
        set_bits(&mut value, 0, 8, r);
        let ghost v1 = value;
        assert(fits_field(8, 11, f)) by {
            assert((f << 29u32) >> 29u32 == f) by (bit_vector)
                requires
                    f < 8,
            ;
        }
        set_bits(&mut value, 8, 11, f);
        let ghost v2 = value;
        assert(fits_field(11, 16, d)) by {
            assert((d << 27u32) >> 27u32 == d) by (bit_vector)
                requires
                    d < 32,
            ;
        }
        set_bits(&mut value, 11, 16, d);
        let ghost v3 = value;
        assert(fits_field(16, 24, b)) by {
            assert((b << 24u32) >> 24u32 == b) by (bit_vector)
                requires
                    b < 256,
            ;
        }
        set_bits(&mut value, 16, 24, b);
        let ghost v4 = value;
        set_bit(&mut value, 31, true);
        proof {
            assert(v1 == (0u32 & !((((!0u32) << 24u32) >> 24u32) >> 0u32 << 0u32)) | (r << 0u32));
            assert(v2 == (v1 & !((((!0u32) << 21u32) >> 21u32) >> 8u32 << 8u32)) | (f << 8u32));
            assert(v3 == (v2 & !((((!0u32) << 16u32) >> 16u32) >> 11u32 << 11u32)) | (d << 11u32));
            assert(v4 == (v3 & !((((!0u32) << 8u32) >> 8u32) >> 16u32 << 16u32)) | (b << 16u32));
            assert(value == v4 | (1u32 << 31u32));
            assert(value == 0x8000_0000u32 | (b << 16u32) | (d << 11u32) | (f << 8u32) | r)
                by (bit_vector)
                requires
                    r < 256,
                    f < 8,
                    d < 32,
                    b < 256,
                    v1 == (0u32 & !((((!0u32) << 24u32) >> 24u32) >> 0u32 << 0u32)) | (r << 0u32),
                    v2 == (v1 & !((((!0u32) << 21u32) >> 21u32) >> 8u32 << 8u32)) | (f << 8u32),
                    v3 == (v2 & !((((!0u32) << 16u32) >> 16u32) >> 11u32 << 11u32)) | (d << 11u32),
                    v4 == (v3 & !((((!0u32) << 8u32) >> 8u32) >> 16u32 << 16u32)) | (b << 16u32),
                    value == v4 | (1u32 << 31u32),
            ;
        }
        Self(value)
    }
}

/// A function of a device on a PCI bus.
#[derive(Debug, Clone, Copy)]
pub struct Device {
    pub bus: u8,
    pub device: u8,
    pub function: u8,
}

impl Device {
    /// The function numbered `function` of device `device` on bus `bus`.
    pub fn new(bus: u8, device: u8, function: u8) -> (made: Self)
        ensures
            made.bus == bus,
            made.device == device,
            made.function == function,
    {
        Device { bus, device, function }
    }

    /// Whether the device and function numbers are ones a bus can have.
    pub fn is_addressable(&self) -> (addressable: bool)
        ensures
            addressable == (self.device < 32 && self.function < 8),
    {
        self.device < 32 && self.function < 8
    }

    /// The word to write to the address port before register `reg` of this
    /// function is read or written through the data port.
    pub fn address(&self, reg: u8) -> (address: ConfigAddress)
        requires
            self.device < 32,
            self.function < 8,
        ensures
            address.0 == config_word(self.bus, self.device, self.function, reg),
    {
        ConfigAddress::new(self.bus, self.device, self.function, reg)
    }
}

/// The vendor identifier in the word read from register 0 of a function: its
/// low half.
pub fn vendor_id_of(id_register: u32) -> (vendor: u16)
    ensures
        vendor == id_register % 0x1_0000,
{
    assert(id_register & 0xffff == id_register % 0x1_0000) by (bit_vector);
    (id_register & 0xffff) as u16
}

/// The device identifier in the word read from register 0 of a function: its
/// high half.
pub fn device_id_of(id_register: u32) -> (device: u16)
    ensures
        device == id_register / 0x1_0000,
{
    assert(id_register >> 16 == id_register / 0x1_0000) by (bit_vector);
    (id_register >> 16) as u16
}

} // verus!
