use boot_core::pci::{device_id_of, vendor_id_of, vendor_id_to_str, ConfigAddress, Device};

#[test]
fn known_vendors_have_names() {
    assert_eq!(vendor_id_to_str(0x8086), "Intel");
    assert_eq!(vendor_id_to_str(0x1022), "AMD");
    assert_eq!(vendor_id_to_str(0x10DE), "NVIDIA Corporation");
    assert_eq!(vendor_id_to_str(0x1234), "Unknown");
    assert_eq!(vendor_id_to_str(0), "Unknown");
    assert_eq!(vendor_id_to_str(0xFFFF), "Unknown");
}

#[test]
fn address_word_has_the_enable_bit() {
    assert_eq!(ConfigAddress::new(0, 0, 0, 0).0, 0x8000_0000);
}

#[test]
fn address_word_packs_its_fields() {
    assert_eq!(ConfigAddress::new(1, 2, 3, 4).0, 0x8001_1304);
    assert_eq!(ConfigAddress::new(0, 0, 0, 0xFF).0, 0x8000_00FF);
    assert_eq!(ConfigAddress::new(0, 0, 7, 0).0, 0x8000_0700);
    assert_eq!(ConfigAddress::new(0, 31, 0, 0).0, 0x8000_F800);
    assert_eq!(ConfigAddress::new(0xFF, 0, 0, 0).0, 0x80FF_0000);
    assert_eq!(ConfigAddress::new(0xFF, 31, 7, 0xFF).0, 0x80FF_FFFF);
    assert_eq!(ConfigAddress::new(0xAB, 0x15, 0x5, 0x3C).0, 0x80AB_AD3C);
}

#[test]
fn device_selects_its_registers() {
    let device = Device::new(3, 4, 5);
    assert_eq!(device.bus, 3);
    assert_eq!(device.device, 4);
    assert_eq!(device.function, 5);
    assert!(device.is_addressable());
    assert_eq!(device.address(0).0, 0x8003_2500);
    assert_eq!(device.address(0x10).0, 0x8003_2510);
}

#[test]
fn device_numbers_have_limits() {
    assert!(Device::new(255, 31, 7).is_addressable());
    assert!(!Device::new(0, 32, 0).is_addressable());
    assert!(!Device::new(0, 0, 8).is_addressable());
    assert!(!Device::new(0, 255, 255).is_addressable());
}

#[test]
fn identifiers_are_the_halves_of_the_first_register() {
    assert_eq!(vendor_id_of(0x1234_8086), 0x8086);
    assert_eq!(device_id_of(0x1234_8086), 0x1234);
    assert_eq!(vendor_id_of(0xFFFF_FFFF), 0xFFFF);
    assert_eq!(device_id_of(0xFFFF_FFFF), 0xFFFF);
    assert_eq!(vendor_id_of(0x0001_0000), 0);
    assert_eq!(device_id_of(0x0000_FFFF), 0);
    assert_eq!(vendor_id_to_str(vendor_id_of(0x7010_10DE)), "NVIDIA Corporation");
}
