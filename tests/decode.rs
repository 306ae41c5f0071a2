use ecp5::ksz8463::{
    masked_value, mib_counter, mib_counter_request, read_request, read_response_value,
    register_offset, switch_enabled, write_request, MIBCounter, Register,
};
use ecp5::paths::XTaskPaths;
use ecp5::sprockets::SprocketsError;
use ecp5::{BitstreamError, Command, Device, Status};

#[test]
fn known_ids_name_their_parts() {
    let table = [
        (0x2111_1043, Device::Lfe5u12),
        (0x4111_1043, Device::Lfe5u25),
        (0x4111_2043, Device::Lfe5u45),
        (0x4111_3043, Device::Lfe5u85),
        (0x0111_1043, Device::Lfe5um25),
        (0x0111_2043, Device::Lfe5um45),
        (0x0111_3043, Device::Lfe5um85),
        (0x8111_1043, Device::Lfe5um5g25),
        (0x8111_2043, Device::Lfe5um5g45),
        (0x8111_3043, Device::Lfe5um5g85),
    ];
    for (id, d) in table {
        assert_eq!(Device::from(id), d);
    }
}

#[test]
fn other_ids_are_invalid() {
    for id in [0xdead_beef, 0, 0xffff_ffff, 0x4111_1042, 0x4111_1044] {
        assert_eq!(Device::from(id), Device::Invalid);
    }
}

#[test]
fn error_codes_map_onto_the_eight_errors() {
    let expected = [
        BitstreamError::NoError,
        BitstreamError::InvalidId,
        BitstreamError::IllegalCommand,
        BitstreamError::CrcMismatch,
        BitstreamError::InvalidPreamble,
        BitstreamError::UserAbort,
        BitstreamError::DataOverflow,
        BitstreamError::SramDataOverflow,
    ];
    for (code, e) in expected.iter().enumerate() {
        let s = Status((code as u32) << 23);
        assert_eq!(s.bse_error_code(), code as u32);
        assert_eq!(s.bitstream_error(), *e);
    }
}

#[test]
fn zero_status_is_idle_without_error() {
    let s = Status(0);
    assert!(!s.busy());
    assert!(!s.done());
    assert_eq!(s.bse_error_code(), 0);
    assert_eq!(s.bitstream_error(), BitstreamError::NoError);
}

#[test]
fn crc_mismatch_code() {
    let s = Status(0b011 << 23);
    assert_eq!(s.bitstream_error(), BitstreamError::CrcMismatch);
    let s = Status((0b011 << 23) | 0xff);
    assert_eq!(s.bitstream_error(), BitstreamError::CrcMismatch);
}

#[test]
fn status_flags_sit_at_their_bits() {
    let flags: [(u32, fn(&Status) -> bool); 22] = [
        (0, Status::transparent_mode),
        (4, Status::jtag_active),
        (5, Status::pwd_protection),
        (7, Status::decrypt_enable),
        (8, Status::done),
        (9, Status::isc_enabled),
        (10, Status::write_enabled),
        (11, Status::read_enabled),
        (12, Status::busy),
        (13, Status::fail),
        (14, Status::fea_otp),
        (15, Status::decrypt_only),
        (16, Status::pwd_enabled),
        (20, Status::encrypt_preamble_detected),
        (21, Status::standard_preamble_detected),
        (22, Status::spim_fail1),
        (26, Status::execution_error),
        (27, Status::id_error),
        (28, Status::invalid_command),
        (29, Status::sed_error),
        (30, Status::bypass_mode),
        (31, Status::flow_through_mode),
    ];
    for (bit, get) in flags {
        assert!(get(&Status(1 << bit)));
        assert!(!get(&Status(!(1 << bit))));
    }
    assert_eq!(Status(0b1010).config_target_selection(), 0b101);
    assert_eq!(Status(0xffff_ffff).config_target_selection(), 7);
    assert_eq!(Status(0xffff_ffff).bse_error_code(), 7);
}

#[test]
fn command_opcodes() {
    assert_eq!(Command::Noop.opcode(), 0xff);
    assert_eq!(Command::ReadId.opcode(), 0xe0);
    assert_eq!(Command::ReadUserCode.opcode(), 0xc0);
    assert_eq!(Command::ReadStatus.opcode(), 0x3c);
    assert_eq!(Command::CheckBusy.opcode(), 0xf0);
    assert_eq!(Command::Refresh.opcode(), 0x79);
    assert_eq!(Command::EnableConfigurationMode.opcode(), 0xc6);
    assert_eq!(Command::EnableTransparentConfigurationMode.opcode(), 0x74);
    assert_eq!(Command::DisableConfigurationMode.opcode(), 0x26);
    assert_eq!(Command::Erase.opcode(), 0x0e);
    assert_eq!(Command::BitstreamBurst.opcode(), 0x7a);
}

#[test]
fn register_offsets() {
    assert_eq!(register_offset(0x000), 0x000c);
    assert_eq!(register_offset(0x002), 0x0030);
    assert_eq!(register_offset(0x030), 0x030c);
    assert_eq!(register_offset(0x02e), 0x02f0);
    assert_eq!(register_offset(0x734), 0x734c);
    assert_eq!(Register::CIDER.offset(), 0x000c);
    assert_eq!(Register::IACR.address(), 0x030);
    assert_eq!(Register::DSP_CNTRL_6.offset(), 0x734c);
}

#[test]
fn request_framing() {
    assert_eq!(read_request(Register::IACR), [0x03, 0x0c]);
    assert_eq!(write_request(Register::IACR, 0x1c05), [0x83, 0x0c, 0x05, 0x1c]);
    assert_eq!(read_response_value(&[0xaa, 0xbb, 0x52, 0x84]), 0x8452);
}

#[test]
fn masked_writes_keep_other_bits() {
    assert_eq!(masked_value(0xffff, 0x0000, 0x00c0), 0xff3f);
    assert_eq!(masked_value(0x0000, 0x0002, 0x0002), 0x0002);
    assert_eq!(masked_value(0x1234, 0xffff, 0x0000), 0x1234);
}

#[test]
fn switch_enable_bit() {
    assert!(switch_enabled(0x8453));
    assert!(!switch_enabled(0x8452));
}

#[test]
fn mib_counters() {
    assert_eq!(mib_counter_request(0x0f), 0x1c0f);
    assert_eq!(mib_counter(0x4000, 0x1234), MIBCounter::Invalid);
    assert_eq!(mib_counter(0x0000, 0x1234), MIBCounter::Count(0));
    assert_eq!(mib_counter(0x3fff, 0xffff), MIBCounter::Count(0));
    assert_eq!(mib_counter(0x8000, 0x0001), MIBCounter::CountOverflow(0x8000_0000));
}

#[test]
fn sprockets_codes() {
    assert_eq!(u32::from(SprocketsError::FailedToReadSource), 1);
    assert_eq!(u16::from(SprocketsError::FailedToHandleRequest), 2);
    assert_eq!(SprocketsError::FailedToWriteResponse.code(), 3);
    assert_eq!(SprocketsError::from_code(2), Some(SprocketsError::FailedToHandleRequest));
    assert_eq!(SprocketsError::from_code(0), None);
    assert_eq!(SprocketsError::from_code(4), None);
}

#[test]
fn paths_hold_their_directories() {
    let p = XTaskPaths {
        cargo_home: "/home/u/.cargo".into(),
        hubris_root: "/src/hubris".into(),
        output_dir: "/src/hubris/target".into(),
    };
    assert_eq!(p.cargo_home.to_str(), Some("/home/u/.cargo"));
    assert_eq!(p.hubris_root.to_str(), Some("/src/hubris"));
    assert_eq!(p.output_dir.to_str(), Some("/src/hubris/target"));
}
