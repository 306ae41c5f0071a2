use vstd::prelude::*;

verus! {

/// The state of a MIB counter as the switch reports it.
#[derive(Copy, Clone, Debug, PartialEq, Eq, Structural)]
pub enum MIBCounter {
    Invalid,
    Count(u32),
    CountOverflow(u32),
}

/// The SPI command word for the 16-bit register at byte `address`: the word address above bit
/// 6 and a byte-enable mask for the half of the word that is meant.
pub open spec fn register_offset_of(address: u16) -> u16 {
    ((address >> 2u16) << 6u16) | (3u16 << (2u16 + 2u16 * ((address >> 1u16) & 1u16)))
}

pub fn register_offset(address: u16) -> (r: u16)
    ensures
        r == register_offset_of(address),
{
    let addr10_2 = address >> 2u16;
    let half: u16 = (address >> 1u16) & 1u16;
    assert(half <= 1) by (bit_vector)
        requires
            half == (address >> 1u16) & 1u16,
    ;
    let mask_shift: u16 = 2 + 2 * half;
    (addr10_2 << 6u16) | (3u16 << mask_shift)
}

/// The registers of the switch that this driver uses.
#[allow(non_camel_case_types)]
#[derive(Copy, Clone, Debug, PartialEq, Eq, Structural)]
pub enum Register {
    CIDER,
    SGCR1,
    SGCR2,
    SGCR3,
    SGCR6,
    SGCR7,
    MACAR1,
    MACAR2,
    MACAR3,
    IADR4,
    IADR5,
    IACR,
    P1MBCR,
    P1MBSR,
    P2MBCR,
    P2MBSR,
    P1PHYCTRL,
    P2PHYCTRL,
    CFGR,
    DSP_CNTRL_6,
}

/// The byte address of each register.
pub open spec fn register_address(r: Register) -> u16 {
    match r {
        Register::CIDER => 0x000,
        Register::SGCR1 => 0x002,
        Register::SGCR2 => 0x004,
        Register::SGCR3 => 0x006,
        Register::SGCR6 => 0x00c,
        Register::SGCR7 => 0x00e,
        Register::MACAR1 => 0x010,
        Register::MACAR2 => 0x012,
        Register::MACAR3 => 0x014,
        Register::IADR4 => 0x02c,
        Register::IADR5 => 0x02e,
        Register::IACR => 0x030,
        Register::P1MBCR => 0x04c,
        Register::P1MBSR => 0x04e,
        Register::P2MBCR => 0x058,
        Register::P2MBSR => 0x05a,
        Register::P1PHYCTRL => 0x066,
        Register::P2PHYCTRL => 0x06a,
        Register::CFGR => 0x0d8,
        Register::DSP_CNTRL_6 => 0x734,
    }
}

impl Register {
    /// The byte address of the register.
    pub fn address(&self) -> (r: u16)
        ensures
            r == register_address(*self),
    {
        match self {
            Register::CIDER => 0x000,
            Register::SGCR1 => 0x002,
            Register::SGCR2 => 0x004,
            Register::SGCR3 => 0x006,
            Register::SGCR6 => 0x00c,
            Register::SGCR7 => 0x00e,
            Register::MACAR1 => 0x010,
            Register::MACAR2 => 0x012,
            Register::MACAR3 => 0x014,
            Register::IADR4 => 0x02c,
            Register::IADR5 => 0x02e,
            Register::IACR => 0x030,
            Register::P1MBCR => 0x04c,
            Register::P1MBSR => 0x04e,
            Register::P2MBCR => 0x058,
            Register::P2MBSR => 0x05a,
            Register::P1PHYCTRL => 0x066,
            Register::P2PHYCTRL => 0x06a,
            Register::CFGR => 0x0d8,
            Register::DSP_CNTRL_6 => 0x734,
        }
    }

    /// The SPI command word that selects the register.
    pub fn offset(&self) -> (r: u16)
        ensures
            r == register_offset_of(register_address(*self)),
    {
        register_offset(self.address())
    }
}

/// The two bytes of `v`, most significant first.
pub open spec fn be_bytes(v: u16) -> Seq<u8> {
    seq![(v >> 8u16) as u8, (v & 0xffu16) as u8]
}

/// The two bytes of `v`, least significant first.
pub open spec fn le_bytes(v: u16) -> Seq<u8> {
    seq![(v & 0xffu16) as u8, (v >> 8u16) as u8]
}

/// The request that reads a register: its command word, most significant byte first.
pub fn read_request(r: Register) -> (req: [u8; 2])
    ensures
        req@ == be_bytes(register_offset_of(register_address(r))),
{
    let cmd = r.offset();
    assert((cmd >> 8u16) < 256) by (bit_vector);
    let req = [(cmd >> 8u16) as u8, (cmd & 0xffu16) as u8];
    assert(req@ =~= be_bytes(cmd));
    req
}

/// The value in the response to a read: its last two bytes, least significant first.
pub fn read_response_value(response: &[u8; 4]) -> (v: u16)
    ensures
        v == (response@[2] as u16) | ((response@[3] as u16) << 8u16),
{
    (response[2] as u16) | ((response[3] as u16) << 8u16)
}

/// The request that writes `v` to a register: the command word with its top bit set, most
/// significant byte first, then the value, least significant byte first.
pub fn write_request(r: Register, v: u16) -> (req: [u8; 4])
    ensures
        req@ == be_bytes(register_offset_of(register_address(r)) | 0x8000u16) + le_bytes(v),
{
    let cmd = r.offset() | 0x8000u16;
    assert((cmd >> 8u16) < 256) by (bit_vector);
    assert((v >> 8u16) < 256) by (bit_vector);
    let req = [(cmd >> 8u16) as u8, (cmd & 0xffu16) as u8, (v & 0xffu16) as u8, (v >> 8u16) as u8];
    assert(req@ =~= be_bytes(cmd) + le_bytes(v));
    req
}

/// `current` with the bits under `mask` replaced by those of `v`.
pub fn masked_value(current: u16, v: u16, mask: u16) -> (r: u16)
    ensures
        r == (current & !mask) | (v & mask),
{
    (current & !mask) | (v & mask)
}

/// Whether the chip ID and enable register has the switch enabled.
pub fn switch_enabled(cider: u16) -> (r: bool)
    ensures
        r == (cider & 1u16 != 0),
{
    cider & 1u16 != 0
}

/// The value written to the indirect access control register to read MIB counter `offset`.
pub fn mib_counter_request(offset: u8) -> (r: u16)
    ensures
        r == 0x1c00u16 | (offset as u16),
{
    0x1c00u16 | (offset as u16)
}

/// The counter that the two halves of an indirect read give: invalid where bit 14 of the high
/// half is set, else a count that overflowed where bit 15 is set, else a plain count.
pub open spec fn mib_counter_of(hi: u16, lo: u16) -> MIBCounter {
    let value = (((hi as u32) << 16u32) | (lo as u32)) & (3u32 << 30u32);
    if (1u16 << 14u16) & hi != 0 {
        MIBCounter::Invalid
    } else if (1u16 << 15u16) & hi == 0 {
        MIBCounter::Count(value)
    } else {
        MIBCounter::CountOverflow(value)
    }
}

pub fn mib_counter(hi: u16, lo: u16) -> (r: MIBCounter)
    ensures
        r == mib_counter_of(hi, lo),
{
    let valid = ((1u16 << 14u16) & hi) == 0;
    let overflow = ((1u16 << 15u16) & hi) != 0;
    let value: u32 = (((hi as u32) << 16u32) | (lo as u32)) & (3u32 << 30u32);
    if !valid {
        MIBCounter::Invalid
    } else if !overflow {
        MIBCounter::Count(value)
    } else {
        MIBCounter::CountOverflow(value)
    }
}

} // verus!
