use vstd::prelude::*;

verus! {

/// The known ECP5 part numbers, and `Invalid` for any other silicon ID.
#[derive(Copy, Clone, Debug, PartialEq, Eq, Structural)]
pub enum Device {
    Invalid,
    Lfe5u12,
    Lfe5u25,
    Lfe5u45,
    Lfe5u85,
    Lfe5um25,
    Lfe5um45,
    Lfe5um85,
    Lfe5um5g25,
    Lfe5um5g45,
    Lfe5um5g85,
}

/// The silicon ID of each known part; `None` for `Invalid`.
pub open spec fn silicon_id(d: Device) -> Option<u32> {
    match d {
        Device::Invalid => None,
        Device::Lfe5u12 => Some(0x21111043u32),
        Device::Lfe5u25 => Some(0x41111043u32),
        Device::Lfe5u45 => Some(0x41112043u32),
        Device::Lfe5u85 => Some(0x41113043u32),
        Device::Lfe5um25 => Some(0x01111043u32),
        Device::Lfe5um45 => Some(0x01112043u32),
        Device::Lfe5um85 => Some(0x01113043u32),
        Device::Lfe5um5g25 => Some(0x81111043u32),
        Device::Lfe5um5g45 => Some(0x81112043u32),
        Device::Lfe5um5g85 => Some(0x81113043u32),
    }
}

/// The part whose silicon ID is `id`, or `Invalid` where no known part has it.
pub open spec fn device_of(id: u32) -> Device {
    if id == 0x21111043 {
        Device::Lfe5u12
    } else if id == 0x41111043 {
        Device::Lfe5u25
    } else if id == 0x41112043 {
        Device::Lfe5u45
    } else if id == 0x41113043 {
        Device::Lfe5u85
    } else if id == 0x01111043 {
        Device::Lfe5um25
    } else if id == 0x01112043 {
        Device::Lfe5um45
    } else if id == 0x01113043 {
        Device::Lfe5um85
    } else if id == 0x81111043 {
        Device::Lfe5um5g25
    } else if id == 0x81112043 {
        Device::Lfe5um5g45
    } else if id == 0x81113043 {
        Device::Lfe5um5g85
    } else {
        Device::Invalid
    }
}

impl From<u32> for Device {
    fn from(id: u32) -> (d: Device)
        ensures
            d == device_of(id),
    {
        match id {
            0x21111043 => Device::Lfe5u12,
            0x41111043 => Device::Lfe5u25,
            0x41112043 => Device::Lfe5u45,
            0x41113043 => Device::Lfe5u85,
            0x01111043 => Device::Lfe5um25,
            0x01112043 => Device::Lfe5um45,
            0x01113043 => Device::Lfe5um85,
            0x81111043 => Device::Lfe5um5g25,
            0x81112043 => Device::Lfe5um5g45,
            0x81113043 => Device::Lfe5um5g85,
            _ => Device::Invalid,
        }
    }
}

impl vstd::std_specs::convert::FromSpecImpl<u32> for Device {
    open spec fn obeys_from_spec() -> bool {
        true
    }

    open spec fn from_spec(id: u32) -> Device {
        device_of(id)
    }
}

/// Exactly the IDs of the table name a part: each known part is found by its own ID, and
/// every other 32-bit value gives `Invalid`.
pub proof fn lemma_device_lookup(id: u32, d: Device)
    ensures
        d != Device::Invalid ==> device_of(silicon_id(d).unwrap()) == d,
        device_of(id) == Device::Invalid <==> (forall|k: Device| silicon_id(k) != Some(id)),
        device_of(id) != Device::Invalid ==> silicon_id(device_of(id)) == Some(id),
{
    if device_of(id) == Device::Invalid {
        assert forall|k: Device| silicon_id(k) != Some(id) by {
            match k {
                Device::Invalid => {},
                _ => {},
            }
        }
    } else {
        assert(silicon_id(device_of(id)) == Some(id));
    }
}

/// A raw silicon ID together with the part it names.
#[derive(Copy, Clone, Debug, PartialEq, Eq, Structural)]
pub struct Id(pub u32, pub Device);

/// The state of the device as its control pins show it.
#[derive(Copy, Clone, Debug, PartialEq, Eq, Structural)]
pub enum DeviceState {
    Unknown,
    Disabled,
    Configuration,
    InitializationOrConfigurationError,
    UserMode,
}

/// Why the device rejected a bitstream, as its status register reports it.
#[derive(Copy, Clone, Debug, PartialEq, Eq, Structural)]
pub enum BitstreamError {
    NoError,
    InvalidId,
    IllegalCommand,
    CrcMismatch,
    InvalidPreamble,
    UserAbort,
    DataOverflow,
    SramDataOverflow,
}

/// The error named by a 3-bit error code.
pub open spec fn bitstream_error_of(code: u32) -> BitstreamError {
    if code == 1 {
        BitstreamError::InvalidId
    } else if code == 2 {
        BitstreamError::IllegalCommand
    } else if code == 3 {
        BitstreamError::CrcMismatch
    } else if code == 4 {
        BitstreamError::InvalidPreamble
    } else if code == 5 {
        BitstreamError::UserAbort
    } else if code == 6 {
        BitstreamError::DataOverflow
    } else if code == 7 {
        BitstreamError::SramDataOverflow
    } else {
        BitstreamError::NoError
    }
}

/// The 3-bit code that names an error.
pub open spec fn bitstream_error_code(e: BitstreamError) -> u32 {
    match e {
        BitstreamError::NoError => 0,
        BitstreamError::InvalidId => 1,
        BitstreamError::IllegalCommand => 2,
        BitstreamError::CrcMismatch => 3,
        BitstreamError::InvalidPreamble => 4,
        BitstreamError::UserAbort => 5,
        BitstreamError::DataOverflow => 6,
        BitstreamError::SramDataOverflow => 7,
    }
}

/// The codes 0 to 7 and the eight errors correspond one to one: every 3-bit code names an
/// error, distinct codes name distinct errors, and every error has a code.
pub proof fn lemma_bitstream_error_codes(code: u32, other: u32, e: BitstreamError)
    requires
        code < 8,
        other < 8,
    ensures
        bitstream_error_code(bitstream_error_of(code)) == code,
        bitstream_error_code(e) < 8,
        bitstream_error_of(bitstream_error_code(e)) == e,
        bitstream_error_of(code) == bitstream_error_of(other) ==> code == other,
{
}

/// Bit `n` of `v`.
pub open spec fn bit(v: u32, n: u32) -> bool {
    (v >> n) & 1 == 1
}

/// The three bits of `v` starting at bit `lo`.
pub open spec fn bits3(v: u32, lo: u32) -> u32 {
    (v >> lo) & 7
}

proof fn lemma_bits3_bound(v: u32, lo: u32)
    ensures
        bits3(v, lo) < 8,
{
    assert((v >> lo) & 7 < 8) by (bit_vector);
}

/// A snapshot of the 32-bit configuration status register.
#[derive(Copy, Clone, Debug, PartialEq, Eq, Structural)]
pub struct Status(pub u32);

impl Status {
    pub fn transparent_mode(&self) -> (r: bool)
        ensures
            r == bit(self.0, 0),
    {
        (self.0 >> 0u32) & 1 == 1
    }

    pub fn config_target_selection(&self) -> (r: u32)
        ensures
            r == bits3(self.0, 1),
            r < 8,
    {
        proof {
            lemma_bits3_bound(self.0, 1);
        }
        (self.0 >> 1u32) & 7
    }

    pub fn jtag_active(&self) -> (r: bool)
        ensures
            r == bit(self.0, 4),
    {
        (self.0 >> 4u32) & 1 == 1
    }

    pub fn pwd_protection(&self) -> (r: bool)
        ensures
            r == bit(self.0, 5),
    {
        (self.0 >> 5u32) & 1 == 1
    }

    pub fn decrypt_enable(&self) -> (r: bool)
        ensures
            r == bit(self.0, 7),
    {
        (self.0 >> 7u32) & 1 == 1
    }

    pub fn done(&self) -> (r: bool)
        ensures
            r == bit(self.0, 8),
    {
        (self.0 >> 8u32) & 1 == 1
    }

    pub fn isc_enabled(&self) -> (r: bool)
        ensures
            r == bit(self.0, 9),
    {
        (self.0 >> 9u32) & 1 == 1
    }

    pub fn write_enabled(&self) -> (r: bool)
        ensures
            r == bit(self.0, 10),
    {
        (self.0 >> 10u32) & 1 == 1
    }

    pub fn read_enabled(&self) -> (r: bool)
        ensures
            r == bit(self.0, 11),
    {
        (self.0 >> 11u32) & 1 == 1
    }

    pub fn busy(&self) -> (r: bool)
        ensures
            r == bit(self.0, 12),
    {
        (self.0 >> 12u32) & 1 == 1
    }

    pub fn fail(&self) -> (r: bool)
        ensures
            r == bit(self.0, 13),
    {
        (self.0 >> 13u32) & 1 == 1
    }

    pub fn fea_otp(&self) -> (r: bool)
        ensures
            r == bit(self.0, 14),
    {
        (self.0 >> 14u32) & 1 == 1
    }

    pub fn decrypt_only(&self) -> (r: bool)
        ensures
            r == bit(self.0, 15),
    {
        (self.0 >> 15u32) & 1 == 1
    }

    pub fn pwd_enabled(&self) -> (r: bool)
        ensures
            r == bit(self.0, 16),
    {
        (self.0 >> 16u32) & 1 == 1
    }

    pub fn encrypt_preamble_detected(&self) -> (r: bool)
        ensures
            r == bit(self.0, 20),
    {
        (self.0 >> 20u32) & 1 == 1
    }

    pub fn standard_preamble_detected(&self) -> (r: bool)
        ensures
            r == bit(self.0, 21),
    {
        (self.0 >> 21u32) & 1 == 1
    }

    pub fn spim_fail1(&self) -> (r: bool)
        ensures
            r == bit(self.0, 22),
    {
        (self.0 >> 22u32) & 1 == 1
    }

    pub fn bse_error_code(&self) -> (r: u32)
        ensures
            r == bits3(self.0, 23),
            r < 8,
    {
        proof {
            lemma_bits3_bound(self.0, 23);
        }
        (self.0 >> 23u32) & 7
    }

    pub fn execution_error(&self) -> (r: bool)
        ensures
            r == bit(self.0, 26),
    {
        (self.0 >> 26u32) & 1 == 1
    }

    pub fn id_error(&self) -> (r: bool)
        ensures
            r == bit(self.0, 27),
    {
        (self.0 >> 27u32) & 1 == 1
    }

    pub fn invalid_command(&self) -> (r: bool)
        ensures
            r == bit(self.0, 28),
    {
        (self.0 >> 28u32) & 1 == 1
    }

    pub fn sed_error(&self) -> (r: bool)
        ensures
            r == bit(self.0, 29),
    {
        (self.0 >> 29u32) & 1 == 1
    }

    pub fn bypass_mode(&self) -> (r: bool)
        ensures
            r == bit(self.0, 30),
    {
        (self.0 >> 30u32) & 1 == 1
    }

    pub fn flow_through_mode(&self) -> (r: bool)
        ensures
            r == bit(self.0, 31),
    {
        (self.0 >> 31u32) & 1 == 1
    }

    /// The bitstream error that the error code field reports.
    pub fn bitstream_error(&self) -> (r: BitstreamError)
        ensures
            r == bitstream_error_of(bits3(self.0, 23)),
    {
        match self.bse_error_code() {
            1 => BitstreamError::InvalidId,
            2 => BitstreamError::IllegalCommand,
            3 => BitstreamError::CrcMismatch,
            4 => BitstreamError::InvalidPreamble,
            5 => BitstreamError::UserAbort,
            6 => BitstreamError::DataOverflow,
            7 => BitstreamError::SramDataOverflow,
            _ => BitstreamError::NoError,
        }
    }
}

/// The commands of the configuration port.
#[derive(Copy, Clone, Debug, PartialEq, Eq, Structural)]
pub enum Command {
    Noop,
    ReadId,
    ReadUserCode,
    ReadStatus,
    CheckBusy,
    Refresh,
    EnableConfigurationMode,
    EnableTransparentConfigurationMode,
    DisableConfigurationMode,
    Erase,
    BitstreamBurst,
}

/// The opcode byte that is sent on the wire for a command.
pub open spec fn opcode_of(c: Command) -> u8 {
    match c {
        Command::Noop => 0xff,
        Command::ReadId => 0xe0,
        Command::ReadUserCode => 0xc0,
        Command::ReadStatus => 0x3c,
        Command::CheckBusy => 0xf0,
        Command::Refresh => 0x79,
        Command::EnableConfigurationMode => 0xc6,
        Command::EnableTransparentConfigurationMode => 0x74,
        Command::DisableConfigurationMode => 0x26,
        Command::Erase => 0x0e,
        Command::BitstreamBurst => 0x7a,
    }
}

impl Command {
    /// The opcode byte of this command.
    pub fn opcode(&self) -> (r: u8)
        ensures
            r == opcode_of(*self),
    {
        match self {
            Command::Noop => 0xff,
            Command::ReadId => 0xe0,
            Command::ReadUserCode => 0xc0,
            Command::ReadStatus => 0x3c,
            Command::CheckBusy => 0xf0,
            Command::Refresh => 0x79,
            Command::EnableConfigurationMode => 0xc6,
            Command::EnableTransparentConfigurationMode => 0x74,
            Command::DisableConfigurationMode => 0x26,
            Command::Erase => 0x0e,
            Command::BitstreamBurst => 0x7a,
        }
    }
}

} // verus!
