use std::cell::{Cell, RefCell};
use std::collections::VecDeque;

use ecp5::{
    load_compressed_bitstream, BitstreamError, BitstreamSource, Command, Device, DeviceState,
    Ecp5, Ecp5Error, Ecp5Impl, Id, RawBitstream, Status,
};

#[derive(Clone, Debug, PartialEq)]
enum Call {
    ProgramN,
    SetProgramN(bool),
    InitN,
    SetInitN(bool),
    Done,
    SetDone(bool),
    Command(Command),
    Read(usize),
    Write(Vec<u8>),
    Lock,
    Release,
    Sleep(u64),
}

#[derive(Clone, Copy, Debug, PartialEq)]
struct BusFault;

struct FakePort {
    program_n: Cell<bool>,
    init_n: Cell<bool>,
    done: Cell<bool>,
    responses: RefCell<VecDeque<Vec<u8>>>,
    calls: RefCell<Vec<Call>>,
    fail_reads: Cell<bool>,
    fail_at: Cell<Option<usize>>,
}

impl FakePort {
    fn new() -> Self {
        FakePort {
            program_n: Cell::new(true),
            init_n: Cell::new(true),
            done: Cell::new(false),
            responses: RefCell::new(VecDeque::new()),
            calls: RefCell::new(Vec::new()),
            fail_reads: Cell::new(false),
            fail_at: Cell::new(None),
        }
    }

    fn pins(program_n: bool, done: bool, init_n: bool) -> Self {
        let p = FakePort::new();
        p.program_n.set(program_n);
        p.done.set(done);
        p.init_n.set(init_n);
        p
    }

    fn respond32(&self, v: u32) {
        self.responses.borrow_mut().push_back(v.to_be_bytes().to_vec());
    }

    fn calls(&self) -> Vec<Call> {
        self.calls.borrow().clone()
    }

    /// Records a call; the one at position `fail_at` fails.
    fn call(&self, c: Call) -> Result<(), BusFault> {
        let n = self.calls.borrow().len();
        self.calls.borrow_mut().push(c);
        if self.fail_at.get() == Some(n) {
            Err(BusFault)
        } else {
            Ok(())
        }
    }
}

impl Ecp5Impl for FakePort {
    type Error = BusFault;

    fn program_n(&self) -> Result<bool, BusFault> {
        self.call(Call::ProgramN)?;
        Ok(self.program_n.get())
    }

    fn set_program_n(&self, asserted: bool) -> Result<(), BusFault> {
        self.call(Call::SetProgramN(asserted))?;
        self.program_n.set(asserted);
        Ok(())
    }

    fn init_n(&self) -> Result<bool, BusFault> {
        self.call(Call::InitN)?;
        Ok(self.init_n.get())
    }

    fn set_init_n(&self, asserted: bool) -> Result<(), BusFault> {
        self.call(Call::SetInitN(asserted))?;
        self.init_n.set(asserted);
        Ok(())
    }

    fn done(&self) -> Result<bool, BusFault> {
        self.call(Call::Done)?;
        Ok(self.done.get())
    }

    fn set_done(&self, asserted: bool) -> Result<(), BusFault> {
        self.call(Call::SetDone(asserted))?;
        self.done.set(asserted);
        Ok(())
    }

    fn write_command(&self, c: Command) -> Result<(), BusFault> {
        self.call(Call::Command(c))
    }

    fn read(&self, buf: &mut [u8]) -> Result<(), BusFault> {
        assert!(buf.iter().all(|b| *b == 0), "read buffer is not zeroed");
        self.call(Call::Read(buf.len()))?;
        if self.fail_reads.get() {
            return Err(BusFault);
        }
        let data = self.responses.borrow_mut().pop_front().expect("no response queued");
        buf.copy_from_slice(&data[..buf.len()]);
        Ok(())
    }

    fn write(&self, buf: &[u8]) -> Result<(), BusFault> {
        self.call(Call::Write(buf.to_vec()))
    }

    fn lock(&self) -> Result<(), BusFault> {
        self.call(Call::Lock)
    }

    fn release(&self) -> Result<(), BusFault> {
        self.call(Call::Release)
    }

    fn sleep_for(&self, ms: u64) {
        self.calls.borrow_mut().push(Call::Sleep(ms));
    }
}

fn status_read() -> Vec<Call> {
    vec![Call::Lock, Call::Command(Command::ReadStatus), Call::Read(4), Call::Release]
}

const WRITE_ENABLED: u32 = 1 << 10;
const BUSY: u32 = 1 << 12;
const DONE: u32 = 1 << 8;

#[test]
fn state_disabled_whatever_done_and_init_show() {
    for (done, init_n) in [(false, false), (false, true), (true, false), (true, true)] {
        let port = FakePort::pins(false, done, init_n);
        let mut ecp5 = Ecp5::new(&port);
        assert_eq!(ecp5.state(), Ok(DeviceState::Disabled));
        assert_eq!(port.calls(), vec![Call::ProgramN]);
    }
}

#[test]
fn state_user_mode_when_done() {
    let port = FakePort::pins(true, true, false);
    let mut ecp5 = Ecp5::new(&port);
    assert_eq!(ecp5.state(), Ok(DeviceState::UserMode));
    assert_eq!(port.calls(), vec![Call::ProgramN, Call::Done]);
}

#[test]
fn state_configuration_or_error_by_init() {
    let port = FakePort::pins(true, false, true);
    let mut ecp5 = Ecp5::new(&port);
    assert_eq!(ecp5.state(), Ok(DeviceState::Configuration));
    assert_eq!(port.calls(), vec![Call::ProgramN, Call::Done, Call::InitN]);

    let port = FakePort::pins(true, false, false);
    let mut ecp5 = Ecp5::new(&port);
    assert_eq!(ecp5.state(), Ok(DeviceState::InitializationOrConfigurationError));
}

#[test]
fn enable_disable_and_reset_drive_program_n() {
    let port = FakePort::new();
    let mut ecp5 = Ecp5::new(&port);
    assert_eq!(ecp5.disable(), Ok(()));
    assert_eq!(ecp5.enable(), Ok(()));
    assert_eq!(
        port.calls(),
        vec![Call::SetProgramN(false), Call::SetProgramN(true), Call::Sleep(50)]
    );

    let port = FakePort::new();
    let mut ecp5 = Ecp5::new(&port);
    assert_eq!(ecp5.reset(), Ok(()));
    assert_eq!(
        port.calls(),
        vec![
            Call::SetProgramN(false),
            Call::Sleep(50),
            Call::SetProgramN(true),
            Call::Sleep(50)
        ]
    );
}

#[test]
fn send_command_is_locked() {
    let port = FakePort::new();
    let mut ecp5 = Ecp5::new(&port);
    assert_eq!(ecp5.send_command(Command::Refresh), Ok(()));
    assert_eq!(
        port.calls(),
        vec![Call::Lock, Call::Command(Command::Refresh), Call::Release]
    );
}

#[test]
fn read_returns_bytes_in_wire_order() {
    let port = FakePort::new();
    port.responses.borrow_mut().push_back(vec![1, 2, 3]);
    let mut ecp5 = Ecp5::new(&port);
    assert_eq!(ecp5.read(Command::ReadUserCode, 3), Ok(vec![1, 2, 3]));
    assert_eq!(
        port.calls(),
        vec![
            Call::Lock,
            Call::Command(Command::ReadUserCode),
            Call::Read(3),
            Call::Release
        ]
    );
}

#[test]
fn read16_and_read32_are_big_endian() {
    let port = FakePort::new();
    port.responses.borrow_mut().push_back(vec![0x12, 0x34]);
    port.respond32(0x0102_0304);
    let mut ecp5 = Ecp5::new(&port);
    assert_eq!(ecp5.read16(Command::ReadUserCode), Ok(0x1234));
    assert_eq!(ecp5.read32(Command::ReadUserCode), Ok(0x0102_0304));
}

#[test]
fn all_ones_from_status_or_id_is_port_disabled() {
    let port = FakePort::new();
    port.respond32(0xffff_ffff);
    port.respond32(0xffff_ffff);
    port.respond32(0xffff_ffff);
    port.respond32(0xffff_ffff);
    port.respond32(0xffff_ffff);
    let mut ecp5 = Ecp5::new(&port);
    assert_eq!(ecp5.read32(Command::ReadStatus), Err(Ecp5Error::PortDisabled));
    assert_eq!(ecp5.read32(Command::ReadId), Err(Ecp5Error::PortDisabled));
    assert_eq!(ecp5.status(), Err(Ecp5Error::PortDisabled));
    assert_eq!(ecp5.id(), Err(Ecp5Error::PortDisabled));
    assert_eq!(ecp5.read32(Command::ReadUserCode), Ok(0xffff_ffff));
}

#[test]
fn id_decodes_the_part() {
    let port = FakePort::new();
    port.respond32(0x4111_1043);
    port.respond32(0xdead_beef);
    let mut ecp5 = Ecp5::new(&port);
    assert_eq!(ecp5.id(), Ok(Id(0x4111_1043, Device::Lfe5u25)));
    assert_eq!(ecp5.id(), Ok(Id(0xdead_beef, Device::Invalid)));
}

#[test]
fn user_code_and_status_read_their_registers() {
    let port = FakePort::new();
    port.respond32(0xcafe_f00d);
    port.respond32(BUSY | DONE);
    let mut ecp5 = Ecp5::new(&port);
    assert_eq!(ecp5.user_code(), Ok(0xcafe_f00d));
    let s = ecp5.status().unwrap();
    assert_eq!(s, Status(BUSY | DONE));
    assert!(s.busy() && s.done());
}

#[test]
fn transport_errors_pass_through() {
    let port = FakePort::new();
    port.fail_reads.set(true);
    let mut ecp5 = Ecp5::new(&port);
    assert_eq!(ecp5.status(), Err(Ecp5Error::Ecp5ImplError(BusFault)));
    assert_eq!(Ecp5Error::from(BusFault), Ecp5Error::Ecp5ImplError(BusFault));
}

#[test]
fn configuration_mode_commands() {
    let port = FakePort::new();
    let mut ecp5 = Ecp5::new(&port);
    assert_eq!(ecp5.enable_configuration_mode(), Ok(()));
    assert_eq!(ecp5.disable_configuration_mode(), Ok(()));
    assert_eq!(
        port.calls(),
        vec![
            Call::Lock,
            Call::Command(Command::EnableConfigurationMode),
            Call::Release,
            Call::Lock,
            Call::Command(Command::DisableConfigurationMode),
            Call::Release
        ]
    );
}

#[test]
fn await_not_busy_polls_until_clear() {
    let port = FakePort::new();
    port.respond32(BUSY);
    port.respond32(BUSY);
    port.respond32(0);
    let mut ecp5 = Ecp5::new(&port);
    assert_eq!(ecp5.await_not_busy(7, 10), Ok(()));
    let mut expected = status_read();
    expected.push(Call::Sleep(7));
    expected.extend(status_read());
    expected.push(Call::Sleep(7));
    expected.extend(status_read());
    assert_eq!(port.calls(), expected);
}

#[test]
fn await_not_busy_gives_up_after_the_bound() {
    let port = FakePort::new();
    port.respond32(BUSY);
    port.respond32(BUSY);
    let mut ecp5 = Ecp5::new(&port);
    assert_eq!(ecp5.await_not_busy(1, 2), Err(Ecp5Error::Timeout));
    assert_eq!(port.calls().len(), 9);
}

#[test]
fn await_done_polls_until_done() {
    let port = FakePort::new();
    port.respond32(0);
    port.respond32(DONE);
    let mut ecp5 = Ecp5::new(&port);
    assert_eq!(ecp5.await_done(3, 5), Ok(()));
    assert_eq!(port.calls().iter().filter(|c| **c == Call::Sleep(3)).count(), 1);
}

#[test]
fn initiate_when_write_enabled_skips_configuration_mode() {
    let port = FakePort::new();
    port.respond32(WRITE_ENABLED);
    port.respond32(WRITE_ENABLED);
    let mut ecp5 = Ecp5::new(&port);
    assert_eq!(ecp5.initiate_bitstream_load(), Ok(()));
    let calls = port.calls();
    assert!(!calls.contains(&Call::Command(Command::EnableConfigurationMode)));
    let mut expected = status_read();
    expected.extend(status_read());
    expected.push(Call::Lock);
    expected.push(Call::Command(Command::BitstreamBurst));
    assert_eq!(calls, expected);
}

#[test]
fn initiate_enters_configuration_mode_when_needed() {
    let port = FakePort::new();
    port.respond32(0);
    port.respond32(WRITE_ENABLED);
    let mut ecp5 = Ecp5::new(&port);
    assert_eq!(ecp5.initiate_bitstream_load(), Ok(()));
    let calls = port.calls();
    assert_eq!(calls[5], Call::Command(Command::EnableConfigurationMode));
    assert_eq!(calls.last(), Some(&Call::Command(Command::BitstreamBurst)));
}

#[test]
fn initiate_fails_when_writes_stay_disabled() {
    let port = FakePort::new();
    port.respond32(0);
    port.respond32(0);
    let mut ecp5 = Ecp5::new(&port);
    assert_eq!(ecp5.initiate_bitstream_load(), Err(Ecp5Error::InvalidMode));
    assert!(!port.calls().contains(&Call::Command(Command::BitstreamBurst)));
}

#[test]
fn finalize_accepted_disables_configuration_mode_once() {
    let port = FakePort::new();
    port.respond32(BUSY);
    port.respond32(0);
    port.respond32(1 << 21);
    let mut ecp5 = Ecp5::new(&port);
    assert_eq!(ecp5.finalize_bitstream_load(100), Ok(()));
    let calls = port.calls();
    let disables = calls
        .iter()
        .filter(|c| **c == Call::Command(Command::DisableConfigurationMode))
        .count();
    assert_eq!(disables, 1);
    let n = calls.len();
    assert_eq!(
        calls[n - 3..].to_vec(),
        vec![
            Call::Lock,
            Call::Command(Command::DisableConfigurationMode),
            Call::Release
        ]
    );
    assert_eq!(calls[0], Call::Release);
    assert_eq!(calls.iter().filter(|c| matches!(c, Call::Read(_))).count(), 3);
}

#[test]
fn finalize_rejected_reports_error_and_stays_in_configuration() {
    let port = FakePort::new();
    port.respond32(0);
    port.respond32(0b011 << 23);
    let mut ecp5 = Ecp5::new(&port);
    assert_eq!(
        ecp5.finalize_bitstream_load(100),
        Err(Ecp5Error::BitstreamError(BitstreamError::CrcMismatch))
    );
    assert!(!port
        .calls()
        .contains(&Call::Command(Command::DisableConfigurationMode)));
}

#[test]
fn write_passes_bytes_unchanged() {
    let port = FakePort::new();
    let mut ecp5 = Ecp5::new(&port);
    assert_eq!(ecp5.write(&[3, 1, 4]), Ok(()));
    assert_eq!(port.calls(), vec![Call::Write(vec![3, 1, 4])]);
}

#[test]
fn streaming_writes_every_byte_in_chunks() {
    let image: Vec<u8> = (0..512u32).map(|i| (i * 7 % 251) as u8).collect();

    let port = FakePort::new();
    port.respond32(WRITE_ENABLED);
    port.respond32(WRITE_ENABLED);
    port.respond32(0);
    port.respond32(0);
    let mut ecp5 = Ecp5::new(&port);
    let mut source = RawBitstream::new(image.clone());
    assert_eq!(load_compressed_bitstream(&mut ecp5, &mut source, 10), Ok(()));
    assert!(source.is_drained());

    let calls = port.calls();
    let writes: Vec<Vec<u8>> = calls
        .iter()
        .filter_map(|c| match c {
            Call::Write(b) => Some(b.clone()),
            _ => None,
        })
        .collect();
    assert_eq!(writes.len(), 2);
    assert!(writes.iter().all(|w| w.len() == 256));
    assert_eq!(writes.concat(), image);
    let burst = calls
        .iter()
        .position(|c| *c == Call::Command(Command::BitstreamBurst))
        .unwrap();
    assert_eq!(calls[burst + 1], Call::Write(image[..256].to_vec()));
    assert_eq!(calls[burst + 3], Call::Release);
    assert_eq!(
        calls[calls.len() - 3..].to_vec(),
        vec![
            Call::Lock,
            Call::Command(Command::DisableConfigurationMode),
            Call::Release
        ]
    );
}

#[test]
fn streaming_leaves_the_source_alone_when_opening_fails() {
    let port = FakePort::new();
    port.respond32(0);
    port.respond32(0);
    let mut ecp5 = Ecp5::new(&port);
    let mut source = RawBitstream::new(vec![1, 2, 3]);
    assert_eq!(
        load_compressed_bitstream(&mut ecp5, &mut source, 10),
        Err(Ecp5Error::InvalidMode)
    );
    assert!(!source.is_drained());
    assert_eq!(source.next_chunk(8), vec![1, 2, 3]);
    assert!(!port.calls().iter().any(|c| matches!(c, Call::Write(_))));
}

#[test]
fn streaming_stops_at_a_failed_write() {
    let port = FakePort::new();
    port.respond32(WRITE_ENABLED);
    port.respond32(WRITE_ENABLED);
    // Two status reads and the burst command come first: lock, command, read, release twice,
    // then lock and the burst command; the first write is call 10.
    port.fail_at.set(Some(10));
    let mut ecp5 = Ecp5::new(&port);
    let mut source = RawBitstream::new(vec![9; 300]);
    assert_eq!(
        load_compressed_bitstream(&mut ecp5, &mut source, 10),
        Err(Ecp5Error::Ecp5ImplError(BusFault))
    );
    assert_eq!(port.calls().len(), 11);
    assert_eq!(source.next_chunk(1000).len(), 44);
}

#[test]
fn raw_bitstream_hands_out_bounded_chunks() {
    let mut source = RawBitstream::new(vec![5; 10]);
    assert_eq!(source.next_chunk(4), vec![5; 4]);
    assert_eq!(source.next_chunk(4), vec![5; 4]);
    assert!(!source.is_drained());
    assert_eq!(source.next_chunk(4), vec![5; 2]);
    assert!(source.is_drained());
    assert_eq!(source.next_chunk(4), Vec::<u8>::new());
}

#[test]
fn failed_pin_write_stops_enable_and_reset() {
    let port = FakePort::new();
    port.fail_at.set(Some(0));
    let mut ecp5 = Ecp5::new(&port);
    assert_eq!(ecp5.enable(), Err(Ecp5Error::Ecp5ImplError(BusFault)));
    assert_eq!(port.calls(), vec![Call::SetProgramN(true)]);

    let port = FakePort::new();
    port.fail_at.set(Some(0));
    let mut ecp5 = Ecp5::new(&port);
    assert_eq!(ecp5.reset(), Err(Ecp5Error::Ecp5ImplError(BusFault)));
    assert_eq!(port.calls(), vec![Call::SetProgramN(false)]);

    let port = FakePort::new();
    port.fail_at.set(Some(0));
    let mut ecp5 = Ecp5::new(&port);
    assert_eq!(ecp5.disable(), Err(Ecp5Error::Ecp5ImplError(BusFault)));
}

#[test]
fn failed_lock_stops_a_command() {
    let port = FakePort::new();
    port.fail_at.set(Some(0));
    let mut ecp5 = Ecp5::new(&port);
    assert_eq!(
        ecp5.send_command(Command::Refresh),
        Err(Ecp5Error::Ecp5ImplError(BusFault))
    );
    assert_eq!(port.calls(), vec![Call::Lock]);
}

#[test]
fn failed_pin_read_stops_state() {
    let port = FakePort::pins(true, false, true);
    port.fail_at.set(Some(1));
    let mut ecp5 = Ecp5::new(&port);
    assert_eq!(ecp5.state(), Err(Ecp5Error::Ecp5ImplError(BusFault)));
    assert_eq!(port.calls(), vec![Call::ProgramN, Call::Done]);
}

#[test]
fn failed_write_is_reported() {
    let port = FakePort::new();
    port.fail_at.set(Some(0));
    let mut ecp5 = Ecp5::new(&port);
    assert_eq!(ecp5.write(&[1]), Err(Ecp5Error::Ecp5ImplError(BusFault)));
}

#[test]
fn initiate_failing_late_never_asks_for_configuration_mode() {
    let port = FakePort::new();
    port.respond32(WRITE_ENABLED);
    port.respond32(WRITE_ENABLED);
    // The lock before the burst command is call 8.
    port.fail_at.set(Some(8));
    let mut ecp5 = Ecp5::new(&port);
    assert_eq!(
        ecp5.initiate_bitstream_load(),
        Err(Ecp5Error::Ecp5ImplError(BusFault))
    );
    let calls = port.calls();
    assert!(!calls.contains(&Call::Command(Command::EnableConfigurationMode)));
    assert!(!calls.contains(&Call::Command(Command::BitstreamBurst)));
}

#[test]
fn finalize_failing_release_reads_nothing() {
    let port = FakePort::new();
    port.fail_at.set(Some(0));
    let mut ecp5 = Ecp5::new(&port);
    assert_eq!(
        ecp5.finalize_bitstream_load(5),
        Err(Ecp5Error::Ecp5ImplError(BusFault))
    );
    assert_eq!(port.calls(), vec![Call::Release]);
}

#[test]
fn streaming_leaves_the_source_alone_when_opening_fails_on_the_bus() {
    let port = FakePort::new();
    port.fail_at.set(Some(0));
    let mut ecp5 = Ecp5::new(&port);
    let mut source = RawBitstream::new(vec![4; 20]);
    assert_eq!(
        load_compressed_bitstream(&mut ecp5, &mut source, 10),
        Err(Ecp5Error::Ecp5ImplError(BusFault))
    );
    assert_eq!(port.calls(), vec![Call::Lock]);
    assert_eq!(source.next_chunk(100), vec![4; 20]);
}
