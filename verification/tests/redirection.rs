use bitfield::error::Error;
use bitfield::redirection::DeliveryMode;
use bitfield::redirection::RedirectionTableEntry;
use bitfield::redirection::TriggerMode;
use bitfield::specifier::Specifier;

#[test]
fn redirection_entry_packs_one_byte() {
    let mut entry = RedirectionTableEntry::new();
    assert_eq!(entry.bytes(), [0u8]);
    entry.set_trigger_mode(TriggerMode::Level);
    entry.set_delivery_mode(DeliveryMode::SMI);
    entry.set_reserved(0b1001);
    assert_eq!(entry.bytes(), [0b1001_010_1]);
    assert_eq!(entry.get_trigger_mode(), TriggerMode::Level);
    assert_eq!(entry.get_delivery_mode(), DeliveryMode::SMI);
    assert_eq!(entry.get_reserved(), 0b1001);
}

#[test]
fn modes_have_their_discriminants() {
    assert_eq!(TriggerMode::from_interface(TriggerMode::Edge), 0);
    assert_eq!(TriggerMode::from_interface(TriggerMode::Level), 1);
    assert_eq!(TriggerMode::to_interface(0), Ok(TriggerMode::Edge));
    assert_eq!(TriggerMode::to_interface(1), Ok(TriggerMode::Level));
    assert_eq!(TriggerMode::to_interface(2), Err(Error::UnknownDiscriminant));
    let modes = [
        DeliveryMode::Fixed,
        DeliveryMode::Lowest,
        DeliveryMode::SMI,
        DeliveryMode::RemoteRead,
        DeliveryMode::NMI,
        DeliveryMode::Init,
        DeliveryMode::Startup,
        DeliveryMode::External,
    ];
    for (raw, mode) in modes.iter().enumerate() {
        assert_eq!(DeliveryMode::from_interface(*mode), raw as u128);
        assert_eq!(DeliveryMode::to_interface(raw as u128), Ok(*mode));
    }
    assert_eq!(DeliveryMode::to_interface(8), Err(Error::UnknownDiscriminant));
    assert_eq!(<TriggerMode as Specifier>::BITS, 1);
    assert_eq!(<DeliveryMode as Specifier>::BITS, 3);
}

#[test]
fn every_setting_of_the_entry_reads_back() {
    let triggers = [TriggerMode::Edge, TriggerMode::Level];
    let deliveries = [
        DeliveryMode::Fixed,
        DeliveryMode::Lowest,
        DeliveryMode::SMI,
        DeliveryMode::RemoteRead,
        DeliveryMode::NMI,
        DeliveryMode::Init,
        DeliveryMode::Startup,
        DeliveryMode::External,
    ];
    for (t, trigger) in triggers.iter().enumerate() {
        for (d, delivery) in deliveries.iter().enumerate() {
            for reserved in 0..16u8 {
                let mut entry = RedirectionTableEntry::new();
                entry.set_reserved(reserved);
                entry.set_delivery_mode(*delivery);
                entry.set_trigger_mode(*trigger);
                assert_eq!(entry.bytes(), [(reserved << 4) | ((d as u8) << 1) | t as u8]);
                assert_eq!(entry.get_trigger_mode(), *trigger);
                assert_eq!(entry.get_delivery_mode(), *delivery);
                assert_eq!(entry.get_reserved(), reserved);
            }
        }
    }
}

#[test]
fn reserved_keeps_four_bits() {
    let mut entry = RedirectionTableEntry::new();
    entry.set_trigger_mode(TriggerMode::Level);
    entry.set_reserved(0xff);
    assert_eq!(entry.get_reserved(), 0x0f);
    assert_eq!(entry.get_trigger_mode(), TriggerMode::Level);
    assert_eq!(entry.get_delivery_mode(), DeliveryMode::Fixed);
    assert_eq!(entry.bytes(), [0xf1]);
}
