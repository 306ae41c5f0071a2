use vstd::prelude::*;

use crate::port::Port;
use crate::types::{
    bit, bits3, bitstream_error_of, device_of, BitstreamError, Command, Device, DeviceState, Id,
    Status,
};

verus! {

/// What can go wrong when talking to the device.
#[derive(Copy, Clone, Debug, PartialEq)]
pub enum Ecp5Error<Ecp5ImplError> {
    /// The transport failed; its own error is passed on unchanged.
    Ecp5ImplError(Ecp5ImplError),
    /// The device rejected the bitstream.
    BitstreamError(BitstreamError),
    /// A register read back as all ones: the configuration port is not enabled.
    PortDisabled,
    /// The device did not accept writes after it was asked to.
    InvalidMode,
    /// The status register did not settle within the allowed number of polls.
    Timeout,
}

impl<Ecp5ImplError> From<Ecp5ImplError> for Ecp5Error<Ecp5ImplError> {
    fn from(e: Ecp5ImplError) -> (r: Self)
        ensures
            r == Ecp5Error::Ecp5ImplError(e),
    {
        Ecp5Error::Ecp5ImplError(e)
    }
}

impl<Ecp5ImplError> vstd::std_specs::convert::FromSpecImpl<Ecp5ImplError> for Ecp5Error<Ecp5ImplError> {
    open spec fn obeys_from_spec() -> bool {
        true
    }

    open spec fn from_spec(e: Ecp5ImplError) -> Self {
        Ecp5Error::Ecp5ImplError(e)
    }
}

/// The transport to one device: its three control pins, a command port, and a lock over the
/// medium that the port may share with other users.
pub trait Ecp5Impl {
    type Error;

    /// Reads PROGRAM_N; while it is low the device is held in reset.
    fn program_n(&self) -> Result<bool, Self::Error>;

    fn set_program_n(&self, asserted: bool) -> Result<(), Self::Error>;

    /// Reads INIT_N, which signals that initialization completed, or that loading failed.
    fn init_n(&self) -> Result<bool, Self::Error>;

    fn set_init_n(&self, asserted: bool) -> Result<(), Self::Error>;

    /// Reads DONE, which signals that the device is in user mode.
    fn done(&self) -> Result<bool, Self::Error>;

    fn set_done(&self, asserted: bool) -> Result<(), Self::Error>;

    /// Sends one command opcode.
    fn write_command(&self, c: Command) -> Result<(), Self::Error>;

    /// Reads as many bytes as `buf` holds.
    fn read(&self, buf: &mut [u8]) -> (r: Result<(), Self::Error>)
        ensures
            final(buf)@.len() == old(buf)@.len(),
    ;

    /// Writes the bytes of `buf` as they are.
    fn write(&self, buf: &[u8]) -> Result<(), Self::Error>;

    /// Takes the medium for a sequence that must not be interleaved; a no-op where nothing
    /// else uses it.
    fn lock(&self) -> Result<(), Self::Error>;

    fn release(&self) -> Result<(), Self::Error>;

    /// Suspends the caller for `ms` milliseconds.
    fn sleep_for(&self, ms: u64);
}

/// The size of the chunks in which a bitstream is written.
pub const CHUNK_SIZE: usize = 256;

/// Produces a bitstream chunk by chunk, such as a decompressor that feeds on a compressed
/// image and may hold output back after its input has run out.
pub trait BitstreamSource {
    /// The bytes that are still to be produced, output held back included.
    spec fn rest(&self) -> Seq<u8>;

    /// Whether everything has been produced.
    fn is_drained(&self) -> (r: bool)
        ensures
            r == (self.rest().len() == 0),
    ;

    /// Produces the next chunk, at most `max` bytes of what is left, and at least one byte
    /// where something is left and `max` allows it.
    fn next_chunk(&mut self, max: usize) -> (r: Vec<u8>)
        ensures
            r@.len() <= max,
            old(self).rest() == r@ + final(self).rest(),
            old(self).rest().len() > 0 && max > 0 ==> r@.len() > 0,
    ;
}

/// A bitstream held whole in memory, handed out as it is.
pub struct RawBitstream {
    data: Vec<u8>,
    pos: usize,
}

impl RawBitstream {
    pub fn new(data: Vec<u8>) -> (r: Self)
        ensures
            r.rest() == data@,
    {
        let r = RawBitstream { data, pos: 0 };
        assert(r.data@.skip(0) =~= r.data@);
        r
    }
}

impl BitstreamSource for RawBitstream {
    closed spec fn rest(&self) -> Seq<u8> {
        if self.pos <= self.data@.len() {
            self.data@.skip(self.pos as int)
        } else {
            Seq::empty()
        }
    }

    fn is_drained(&self) -> (r: bool) {
        self.pos >= self.data.len()
    }

    fn next_chunk(&mut self, max: usize) -> (r: Vec<u8>) {
        let mut chunk: Vec<u8> = Vec::new();
        if self.pos >= self.data.len() {
            assert(old(self).rest() =~= chunk@ + self.rest());
            return chunk;
        }
        let end: usize = if self.data.len() - self.pos <= max {
            self.data.len()
        } else {
            self.pos + max
        };
        let mut i: usize = self.pos;
        while i < end
            invariant
                self.pos <= i <= end <= self.data.len(),
                chunk@ == self.data@.subrange(self.pos as int, i as int),
            decreases end - i,
        {
            chunk.push(self.data[i]);
            i = i + 1;
            assert(chunk@ =~= self.data@.subrange(self.pos as int, i as int));
        }
        assert(self.data@.skip(self.pos as int) =~= chunk@ + self.data@.skip(end as int));
        self.pos = end;
        chunk
    }
}

/// One call that the controller made on its transport, with the value read where the call
/// reads one.
pub enum Op<E> {
    ProgramN(bool),
    SetProgramN(bool),
    InitN(bool),
    Done(bool),
    WriteCommand(Command),
    /// A read, with the buffer handed to the transport and the bytes it came back with.
    Read(Seq<u8>, Seq<u8>),
    Write(Seq<u8>),
    Lock,
    Release,
    Sleep(u64),
    /// A call that returned the error `E` of the transport.
    Failed(E),
}

/// The calls made between `before` and `after` are those of `trace` up to one that failed
/// with `e`, and nothing follows that one.
pub open spec fn failed_during<E>(before: Seq<Op<E>>, after: Seq<Op<E>>, trace: Seq<Op<E>>, e: E) -> bool {
    exists|k: int| 0 <= k < trace.len() && after == before + trace.take(k).push(Op::Failed(e))
}

/// A result that carries an error of the transport.
pub open spec fn transport_failed<T, E>(r: Result<T, Ecp5Error<E>>) -> bool {
    r matches Err(Ecp5Error::Ecp5ImplError(_))
}

/// The state that the pins show: held in reset, else done, else initialized or failed.
pub open spec fn device_state(program_n: bool, done: bool, init_n: bool) -> DeviceState {
    if !program_n {
        DeviceState::Disabled
    } else if done {
        DeviceState::UserMode
    } else if init_n {
        DeviceState::Configuration
    } else {
        DeviceState::InitializationOrConfigurationError
    }
}

/// The pin reads that find the state: a pin is read only where the ones before it leave the
/// state open.
pub open spec fn state_ops<E>(program_n: bool, done: bool, init_n: bool) -> Seq<Op<E>> {
    if !program_n {
        seq![Op::ProgramN(false)]
    } else if done {
        seq![Op::ProgramN(true), Op::Done(true)]
    } else {
        seq![Op::ProgramN(true), Op::Done(false), Op::InitN(init_n)]
    }
}

/// A command that returns nothing, sent under the lock.
pub open spec fn command_ops<E>(c: Command) -> Seq<Op<E>> {
    seq![Op::Lock, Op::WriteCommand(c), Op::Release]
}

/// `n` zero bytes.
pub open spec fn zeros(n: nat) -> Seq<u8> {
    Seq::new(n, |i: int| 0u8)
}

/// A command followed by a read into a zeroed buffer, which comes back holding `bytes`, under
/// the lock.
pub open spec fn read_ops<E>(c: Command, bytes: Seq<u8>) -> Seq<Op<E>> {
    seq![Op::Lock, Op::WriteCommand(c), Op::Read(zeros(bytes.len()), bytes), Op::Release]
}

/// Two bytes as a big-endian integer.
pub open spec fn be_u16(b: Seq<u8>) -> u16 {
    ((b[0] as u16) << 8u16) | (b[1] as u16)
}

/// Four bytes as a big-endian integer.
pub open spec fn be_u32(b: Seq<u8>) -> u32 {
    ((b[0] as u32) << 24u32) | ((b[1] as u32) << 16u32) | ((b[2] as u32) << 8u32) | (b[3] as u32)
}

/// The value read by a register command: all ones from `ReadStatus` or `ReadId` means that
/// the configuration port is disabled.
pub open spec fn register_result<E>(c: Command, v: u32) -> Result<u32, Ecp5Error<E>> {
    if (c == Command::ReadStatus || c == Command::ReadId) && v == 0xffff_ffffu32 {
        Err(Ecp5Error::PortDisabled)
    } else {
        Ok(v)
    }
}

/// The identity that the ID register's bytes give.
pub open spec fn id_result<E>(b: Seq<u8>) -> Result<Id, Ecp5Error<E>> {
    if be_u32(b) == 0xffff_ffffu32 {
        Err(Ecp5Error::PortDisabled)
    } else {
        Ok(Id(be_u32(b), device_of(be_u32(b))))
    }
}

/// The status that the status register's bytes give.
pub open spec fn status_result<E>(b: Seq<u8>) -> Result<Status, Ecp5Error<E>> {
    if be_u32(b) == 0xffff_ffffu32 {
        Err(Ecp5Error::PortDisabled)
    } else {
        Ok(Status(be_u32(b)))
    }
}

/// Whether a status value ends a wait: done where `until_done`, else no longer busy.
pub open spec fn settled(v: u32, until_done: bool) -> bool {
    if until_done {
        bit(v, 8)
    } else {
        !bit(v, 12)
    }
}

/// Status reads, one for each element of `polls`, with a pause between each two.
pub open spec fn poll_ops<E>(polls: Seq<Seq<u8>>, interval: u64) -> Seq<Op<E>>
    decreases polls.len(),
{
    if polls.len() == 0 {
        Seq::empty()
    } else if polls.len() == 1 {
        read_ops(Command::ReadStatus, polls[0])
    } else {
        poll_ops(polls.drop_last(), interval) + seq![Op::Sleep(interval)] + read_ops(
            Command::ReadStatus,
            polls.last(),
        )
    }
}

/// The status reads of a wait, as far as it went: at least one and at most `max_polls` (or
/// one), each but the last a status that had not settled.
pub open spec fn polled(polls: Seq<Seq<u8>>, until_done: bool, max_polls: u32) -> bool {
    &&& polls.len() >= 1
    &&& polls.len() == 1 || polls.len() <= max_polls
    &&& forall|i: int| 0 <= i < polls.len() ==> (#[trigger] polls[i]).len() == 4
    &&& forall|i: int|
        0 <= i < polls.len() - 1 ==> be_u32(#[trigger] polls[i]) != 0xffff_ffffu32 && !settled(
            be_u32(polls[i]),
            until_done,
        )
}

/// The status reads of a whole wait: it stopped at a status that settled or read back as all
/// ones, or else after `max_polls` reads.
pub open spec fn waited(polls: Seq<Seq<u8>>, until_done: bool, max_polls: u32) -> bool {
    &&& polled(polls, until_done, max_polls)
    &&& be_u32(polls.last()) != 0xffff_ffffu32 && !settled(be_u32(polls.last()), until_done)
        ==> polls.len() >= max_polls
}

/// Whether a status read ends a wait with success.
pub open spec fn poll_settled(b: Seq<u8>, until_done: bool) -> bool {
    be_u32(b) != 0xffff_ffffu32 && settled(be_u32(b), until_done)
}

/// How a wait ends, by its last status read.
pub open spec fn wait_result<E>(polls: Seq<Seq<u8>>, until_done: bool) -> Result<(), Ecp5Error<E>> {
    if be_u32(polls.last()) == 0xffff_ffffu32 {
        Err(Ecp5Error::PortDisabled)
    } else if settled(be_u32(polls.last()), until_done) {
        Ok(())
    } else {
        Err(Ecp5Error::Timeout)
    }
}

/// Whether the status value has writes enabled.
pub open spec fn write_enabled(v: u32) -> bool {
    bit(v, 10)
}

/// The calls that open a bitstream load, given the bytes of the two status reads: configuration
/// mode is asked for only where the first read shows writes disabled, and the burst starts only
/// where the second shows them enabled.
pub open spec fn initiate_ops<E>(b1: Seq<u8>, b2: Seq<u8>) -> Seq<Op<E>> {
    if be_u32(b1) == 0xffff_ffffu32 {
        read_ops(Command::ReadStatus, b1)
    } else {
        let asked = read_ops(Command::ReadStatus, b1) + if write_enabled(be_u32(b1)) {
            Seq::empty()
        } else {
            command_ops(Command::EnableConfigurationMode)
        } + read_ops(Command::ReadStatus, b2);
        if be_u32(b2) != 0xffff_ffffu32 && write_enabled(be_u32(b2)) {
            asked + seq![Op::Lock, Op::WriteCommand(Command::BitstreamBurst)]
        } else {
            asked
        }
    }
}

/// How opening a bitstream load ends, given the bytes of the two status reads.
pub open spec fn initiate_result<E>(b1: Seq<u8>, b2: Seq<u8>) -> Result<(), Ecp5Error<E>> {
    if be_u32(b1) == 0xffff_ffffu32 || be_u32(b2) == 0xffff_ffffu32 {
        Err(Ecp5Error::PortDisabled)
    } else if !write_enabled(be_u32(b2)) {
        Err(Ecp5Error::InvalidMode)
    } else {
        Ok(())
    }
}

/// The bitstream error that a status value reports.
pub open spec fn reported_error(v: u32) -> BitstreamError {
    bitstream_error_of(bits3(v, 23))
}

/// Whether the final status read of a load shows the bitstream accepted.
pub open spec fn accepted(b: Seq<u8>) -> bool {
    be_u32(b) != 0xffff_ffffu32 && reported_error(be_u32(b)) == BitstreamError::NoError
}

/// The calls that close a bitstream load, given the status reads of the wait and the final
/// status read: the device leaves configuration mode only where it accepted the bitstream.
pub open spec fn finalize_ops<E>(polls: Seq<Seq<u8>>, b: Seq<u8>) -> Seq<Op<E>> {
    let waiting = seq![Op::Release] + poll_ops(polls, 10);
    if poll_settled(polls.last(), false) {
        if accepted(b) {
            waiting + read_ops(Command::ReadStatus, b) + command_ops(
                Command::DisableConfigurationMode,
            )
        } else {
            waiting + read_ops(Command::ReadStatus, b)
        }
    } else {
        waiting
    }
}

/// How closing a bitstream load ends.
pub open spec fn finalize_result<E>(polls: Seq<Seq<u8>>, b: Seq<u8>) -> Result<(), Ecp5Error<E>> {
    if !poll_settled(polls.last(), false) {
        wait_result::<E>(polls, false)
    } else if be_u32(b) == 0xffff_ffffu32 {
        Err(Ecp5Error::PortDisabled)
    } else if reported_error(be_u32(b)) != BitstreamError::NoError {
        Err(Ecp5Error::BitstreamError(reported_error(be_u32(b))))
    } else {
        Ok(())
    }
}

/// Raw writes, one for each chunk, in order.
pub open spec fn write_ops<E>(chunks: Seq<Seq<u8>>) -> Seq<Op<E>>
    decreases chunks.len(),
{
    if chunks.len() == 0 {
        Seq::empty()
    } else {
        write_ops(chunks.drop_last()).push(Op::Write(chunks.last()))
    }
}

/// The bytes of the raw writes among `ops`, concatenated in order.
pub open spec fn written_bytes<E>(ops: Seq<Op<E>>) -> Seq<u8>
    decreases ops.len(),
{
    if ops.len() == 0 {
        Seq::empty()
    } else {
        written_bytes(ops.drop_last()) + match ops.last() {
            Op::Write(b) => b,
            _ => Seq::empty(),
        }
    }
}

/// The calls of a whole bitstream load: it is opened (given the two status reads `b1` and
/// `b2`), each chunk is written, and it is closed (given the status reads `polls` of the wait
/// and the final status read `b`).
pub open spec fn load_ops<E>(
    b1: Seq<u8>,
    b2: Seq<u8>,
    chunks: Seq<Seq<u8>>,
    polls: Seq<Seq<u8>>,
    b: Seq<u8>,
) -> Seq<Op<E>> {
    initiate_ops(b1, b2) + write_ops(chunks) + finalize_ops(polls, b)
}

/// The calls and the result of a whole bitstream load. `chunks` are what the source produced,
/// at most `CHUNK_SIZE` bytes each, and taken from the front of what it held. Where opening
/// fails, nothing is taken from the source; else the source is drained, every chunk written
/// in order, and the load closed. A failed transport call stops the load where it happens: a
/// chunk is taken only once the load is open, and its write is the next call; the load is
/// closed only once the source is drained.
pub open spec fn loaded<E>(
    before: Seq<Op<E>>,
    after: Seq<Op<E>>,
    r: Result<(), Ecp5Error<E>>,
    source_before: Seq<u8>,
    source_after: Seq<u8>,
    b1: Seq<u8>,
    b2: Seq<u8>,
    chunks: Seq<Seq<u8>>,
    polls: Seq<Seq<u8>>,
    b: Seq<u8>,
    max_polls: u32,
) -> bool {
    &&& b1.len() == 4 && b2.len() == 4 && b.len() == 4
    &&& polled(polls, false, max_polls)
    &&& forall|i: int| 0 <= i < chunks.len() ==> (#[trigger] chunks[i]).len() <= CHUNK_SIZE
    &&& source_before == chunks.flatten() + source_after
    &&& match r {
        Err(Ecp5Error::Ecp5ImplError(e)) => {
            &&& failed_during(before, after, load_ops(b1, b2, chunks, polls, b), e)
            &&& chunks.len() > 0 ==> after.len() >= before.len() + initiate_ops::<E>(b1, b2).len()
                + write_ops::<E>(chunks).len()
            &&& after.len() > before.len() + initiate_ops::<E>(b1, b2).len() + write_ops::<E>(
                chunks,
            ).len() ==> source_after.len() == 0
        },
        _ => if initiate_result::<E>(b1, b2) is Err {
            &&& chunks.len() == 0
            &&& after == before + initiate_ops(b1, b2)
            &&& r == initiate_result::<E>(b1, b2)
        } else {
            &&& source_after.len() == 0
            &&& waited(polls, false, max_polls)
            &&& after == before + load_ops(b1, b2, chunks, polls, b)
            &&& r == finalize_result::<E>(polls, b)
        },
    }
}

proof fn lemma_fail_at<E>(
    before: Seq<Op<E>>,
    after: Seq<Op<E>>,
    pre: Seq<Op<E>>,
    op: Op<E>,
    trace: Seq<Op<E>>,
    e: E,
)
    requires
        after =~= (before + pre).push(Op::Failed(e)),
        pre.len() < trace.len(),
        trace.take(pre.len() + 1int) =~= pre.push(op),
    ensures
        failed_during(before, after, trace, e),
{
    let k = pre.len() as int;
    assert(trace.take(k) =~= trace.take(k + 1).take(k));
    assert(trace.take(k) =~= pre);
    assert(after =~= before + trace.take(k).push(Op::Failed(e)));
}

proof fn lemma_fail_inside<E>(
    before: Seq<Op<E>>,
    pre: Seq<Op<E>>,
    after: Seq<Op<E>>,
    inner: Seq<Op<E>>,
    trace: Seq<Op<E>>,
    e: E,
)
    requires
        failed_during(before + pre, after, inner, e),
        pre.len() + inner.len() <= trace.len(),
        trace.take((pre.len() + inner.len()) as int) =~= pre + inner,
    ensures
        failed_during(before, after, trace, e),
{
    let k = choose|k: int|
        0 <= k < inner.len() && after == (before + pre) + inner.take(k).push(Op::Failed(e));
    let n = pre.len() + k;
    assert(trace.take(n) =~= trace.take((pre.len() + inner.len()) as int).take(n));
    assert(trace.take(n) =~= pre + inner.take(k));
    assert(after =~= before + trace.take(n).push(Op::Failed(e)));
}

/// What a failed sequence of calls made: the calls of the trace, in order, then the failed one.
proof fn lemma_failed_calls<E>(before: Seq<Op<E>>, after: Seq<Op<E>>, trace: Seq<Op<E>>, e: E)
    requires
        failed_during(before, after, trace, e),
    ensures
        before.len() < after.len() <= before.len() + trace.len(),
        after.last() == Op::Failed(e),
        forall|i: int|
            before.len() <= i < after.len() - 1 ==> after[i] == trace[i - before.len()],
{
    let k = choose|k: int|
        0 <= k < trace.len() && after == before + trace.take(k).push(Op::Failed(e));
    assert forall|i: int| before.len() <= i < after.len() - 1 implies after[i] == trace[i
        - before.len()] by {
        assert(after[i] == trace.take(k)[i - before.len()]);
    }
}

proof fn lemma_poll_ops_push<E>(polls: Seq<Seq<u8>>, b: Seq<u8>, interval: u64)
    ensures
        polls.len() == 0 ==> poll_ops::<E>(polls.push(b), interval) == read_ops::<E>(
            Command::ReadStatus,
            b,
        ),
        polls.len() > 0 ==> poll_ops::<E>(polls.push(b), interval) == poll_ops::<E>(
            polls,
            interval,
        ) + seq![Op::Sleep(interval)] + read_ops::<E>(Command::ReadStatus, b),
{
    assert(polls.push(b).drop_last() =~= polls);
    assert(polls.push(b).last() == b);
    if polls.len() == 0 {
        assert(polls.push(b)[0] == b);
    }
}

/// The writes that a load makes for its chunks carry the chunks' bytes, concatenated in the
/// order the source produced them.
pub proof fn lemma_chunk_writes_concatenate<E>(chunks: Seq<Seq<u8>>)
    ensures
        written_bytes(write_ops::<E>(chunks)) == chunks.flatten(),
    decreases chunks.len(),
{
    if chunks.len() == 0 {
        assert(write_ops::<E>(chunks) =~= Seq::<Op<E>>::empty());
    } else {
        let front = chunks.drop_last();
        lemma_chunk_writes_concatenate::<E>(front);
        front.lemma_flatten_push(chunks.last());
        assert(front.push(chunks.last()) =~= chunks);
        assert(write_ops::<E>(chunks).drop_last() =~= write_ops::<E>(front));
    }
}

/// A load that succeeds has drained its source, and the chunks it wrote carry exactly the
/// bytes the source held, in order.
pub proof fn lemma_load_writes_the_source<E>(
    before: Seq<Op<E>>,
    after: Seq<Op<E>>,
    r: Result<(), Ecp5Error<E>>,
    source_before: Seq<u8>,
    source_after: Seq<u8>,
    b1: Seq<u8>,
    b2: Seq<u8>,
    chunks: Seq<Seq<u8>>,
    polls: Seq<Seq<u8>>,
    b: Seq<u8>,
    max_polls: u32,
)
    requires
        loaded::<E>(
            before,
            after,
            r,
            source_before,
            source_after,
            b1,
            b2,
            chunks,
            polls,
            b,
            max_polls,
        ),
        r is Ok,
    ensures
        source_after.len() == 0,
        written_bytes(write_ops::<E>(chunks)) == source_before,
        after == before + initiate_ops::<E>(b1, b2) + write_ops::<E>(chunks) + finalize_ops::<E>(
            polls,
            b,
        ),
{
    lemma_chunk_writes_concatenate::<E>(chunks);
    assert(source_after =~= Seq::<u8>::empty());
    assert(source_before =~= chunks.flatten());
}

proof fn lemma_initiate_writes_nothing<E>(b1: Seq<u8>, b2: Seq<u8>)
    ensures
        forall|i: int|
            0 <= i < initiate_ops::<E>(b1, b2).len() ==> !(initiate_ops::<E>(b1, b2)[i] is Write),
{
    let ops = initiate_ops::<E>(b1, b2);
    let r1 = read_ops::<E>(Command::ReadStatus, b1);
    let r2 = read_ops::<E>(Command::ReadStatus, b2);
    let mid = if write_enabled(be_u32(b1)) {
        Seq::<Op<E>>::empty()
    } else {
        command_ops::<E>(Command::EnableConfigurationMode)
    };
    let tail = if be_u32(b2) != 0xffff_ffffu32 && write_enabled(be_u32(b2)) {
        seq![Op::<E>::Lock, Op::WriteCommand(Command::BitstreamBurst)]
    } else {
        Seq::<Op<E>>::empty()
    };
    assert forall|i: int| 0 <= i < ops.len() implies !(ops[i] is Write) by {
        if be_u32(b1) == 0xffff_ffffu32 {
            assert(ops[i] == r1[i]);
        } else {
            let full = r1 + mid + r2 + tail;
            assert(ops =~= full);
            if i < 4 {
                assert(ops[i] == r1[i]);
            } else if i < 4 + mid.len() {
                assert(ops[i] == mid[i - 4]);
            } else if i < 8 + mid.len() {
                assert(ops[i] == r2[i - 4 - mid.len()]);
            } else {
                assert(ops[i] == tail[i - 8 - mid.len()]);
            }
        }
    }
}

/// A load that stops while opening, on the device's refusal or on a failed transport call,
/// takes nothing from its source and writes nothing.
pub proof fn lemma_load_open_failure_keeps_source<E>(
    before: Seq<Op<E>>,
    after: Seq<Op<E>>,
    r: Result<(), Ecp5Error<E>>,
    source_before: Seq<u8>,
    source_after: Seq<u8>,
    b1: Seq<u8>,
    b2: Seq<u8>,
    chunks: Seq<Seq<u8>>,
    polls: Seq<Seq<u8>>,
    b: Seq<u8>,
    max_polls: u32,
)
    requires
        loaded::<E>(
            before,
            after,
            r,
            source_before,
            source_after,
            b1,
            b2,
            chunks,
            polls,
            b,
            max_polls,
        ),
        r is Err,
        !transport_failed(r) ==> initiate_result::<E>(b1, b2) is Err,
        transport_failed(r) ==> after.len() <= before.len() + initiate_ops::<E>(b1, b2).len(),
    ensures
        chunks.len() == 0,
        source_after == source_before,
        forall|i: int| before.len() <= i < after.len() ==> !(after[i] is Write),
{
    let opening = initiate_ops::<E>(b1, b2);
    lemma_initiate_writes_nothing::<E>(b1, b2);
    if transport_failed(r) {
        let e = r->Err_0->Ecp5ImplError_0;
        if chunks.len() > 0 {
            assert(write_ops::<E>(chunks) == write_ops::<E>(chunks.drop_last()).push(
                Op::Write(chunks.last()),
            ));
        }
        let t = load_ops::<E>(b1, b2, chunks, polls, b);
        lemma_failed_calls(before, after, t, e);
        assert forall|i: int| before.len() <= i < after.len() implies !(after[i] is Write) by {
            if i < after.len() - 1 {
                assert(after[i] == t[i - before.len()]);
                assert(t[i - before.len()] == opening[i - before.len()]);
            }
        }
    } else {
        assert forall|i: int| before.len() <= i < after.len() implies !(after[i] is Write) by {
            assert(after[i] == opening[i - before.len()]);
        }
    }
    assert(chunks =~= Seq::<Seq<u8>>::empty());
    assert(chunks.flatten() =~= Seq::<u8>::empty());
    assert(source_before =~= source_after);
}

/// While PROGRAM_N is low the device is `Disabled`, whatever DONE and INIT_N show, and
/// neither of them is read.
pub proof fn lemma_held_in_reset_is_disabled<E>(done: bool, init_n: bool)
    ensures
        device_state(false, done, init_n) == DeviceState::Disabled,
        state_ops::<E>(false, done, init_n) == seq![Op::<E>::ProgramN(false)],
{
}

/// A status or ID register that reads back as all ones gives `PortDisabled`, never a value.
pub proof fn lemma_all_ones_is_port_disabled<E>(c: Command, b: Seq<u8>)
    requires
        c == Command::ReadStatus || c == Command::ReadId,
        be_u32(b) == 0xffff_ffffu32,
    ensures
        register_result::<E>(c, be_u32(b)) == Err::<u32, Ecp5Error<E>>(Ecp5Error::PortDisabled),
        id_result::<E>(b) == Err::<Id, Ecp5Error<E>>(Ecp5Error::PortDisabled),
        status_result::<E>(b) == Err::<Status, Ecp5Error<E>>(Ecp5Error::PortDisabled),
{
}

/// Opening a load while the first status read shows writes enabled never asks for
/// configuration mode, whether the load then opens, fails, or stops at a failed call.
pub proof fn lemma_initiate_keeps_write_enabled<E>(
    before: Seq<Op<E>>,
    after: Seq<Op<E>>,
    b1: Seq<u8>,
    b2: Seq<u8>,
    e: E,
)
    requires
        be_u32(b1) != 0xffff_ffffu32,
        write_enabled(be_u32(b1)),
    ensures
        forall|i: int|
            0 <= i < initiate_ops::<E>(b1, b2).len() ==> initiate_ops::<E>(b1, b2)[i]
                != Op::<E>::WriteCommand(Command::EnableConfigurationMode),
        failed_during(before, after, initiate_ops::<E>(b1, b2), e) ==> forall|i: int|
            before.len() <= i < after.len() ==> after[i] != Op::<E>::WriteCommand(
                Command::EnableConfigurationMode,
            ),
{
    let ops = initiate_ops::<E>(b1, b2);
    assert forall|i: int| 0 <= i < ops.len() implies ops[i] != Op::<E>::WriteCommand(
        Command::EnableConfigurationMode,
    ) by {
        let asked = read_ops::<E>(Command::ReadStatus, b1) + Seq::<Op<E>>::empty() + read_ops::<
            E,
        >(Command::ReadStatus, b2);
        if be_u32(b2) != 0xffff_ffffu32 && write_enabled(be_u32(b2)) {
            assert(ops =~= asked + seq![Op::Lock, Op::WriteCommand(Command::BitstreamBurst)]);
        } else {
            assert(ops =~= asked);
        }
        if i < 4 {
            assert(ops[i] == read_ops::<E>(Command::ReadStatus, b1)[i]);
        } else if i < 8 {
            assert(ops[i] == read_ops::<E>(Command::ReadStatus, b2)[i - 4]);
        }
    }
    if failed_during(before, after, ops, e) {
        lemma_failed_calls(before, after, ops, e);
        assert forall|i: int| before.len() <= i < after.len() implies after[i]
            != Op::<E>::WriteCommand(Command::EnableConfigurationMode) by {
            if i < after.len() - 1 {
                assert(after[i] == ops[i - before.len()]);
            }
        }
    }
}

/// Whether a call belongs to a status poll.
pub open spec fn polling_op<E>(op: Op<E>, interval: u64) -> bool {
    ||| op is Lock
    ||| op == Op::<E>::WriteCommand(Command::ReadStatus)
    ||| op is Read
    ||| op is Release
    ||| op == Op::<E>::Sleep(interval)
}

proof fn lemma_poll_ops_only_poll<E>(polls: Seq<Seq<u8>>, interval: u64)
    ensures
        forall|i: int|
            0 <= i < poll_ops::<E>(polls, interval).len() ==> polling_op(
                #[trigger] poll_ops::<E>(polls, interval)[i],
                interval,
            ),
    decreases polls.len(),
{
    let ops = poll_ops::<E>(polls, interval);
    if polls.len() == 1 {
        assert forall|i: int| 0 <= i < ops.len() implies polling_op(#[trigger] ops[i], interval) by {
            assert(ops[i] == read_ops::<E>(Command::ReadStatus, polls[0])[i]);
        }
    } else if polls.len() > 1 {
        lemma_poll_ops_only_poll::<E>(polls.drop_last(), interval);
        let front = poll_ops::<E>(polls.drop_last(), interval);
        assert forall|i: int| 0 <= i < ops.len() implies polling_op(#[trigger] ops[i], interval) by {
            if i < front.len() {
                assert(ops[i] == front[i]);
            } else if i > front.len() {
                assert(ops[i] == read_ops::<E>(Command::ReadStatus, polls.last())[i - front.len()
                    - 1]);
            }
        }
    }
}

/// Closing a load sends `DisableConfigurationMode` only where the device accepted the
/// bitstream, and then exactly once, as its last command, with nothing read after it. A load
/// whose bitstream was rejected never sends it, whatever later calls return.
pub proof fn lemma_finalize_disables_once<E>(
    before: Seq<Op<E>>,
    after: Seq<Op<E>>,
    polls: Seq<Seq<u8>>,
    b: Seq<u8>,
    e: E,
)
    ensures
        finalize_result::<E>(polls, b) is Ok ==> {
            let ops = finalize_ops::<E>(polls, b);
            &&& ops.len() >= 3
            &&& ops.skip(ops.len() - 3) == command_ops::<E>(Command::DisableConfigurationMode)
            &&& forall|i: int|
                0 <= i < ops.len() - 3 ==> ops[i] != Op::<E>::WriteCommand(
                    Command::DisableConfigurationMode,
                )
        },
        !accepted(b) ==> forall|i: int|
            0 <= i < finalize_ops::<E>(polls, b).len() ==> finalize_ops::<E>(polls, b)[i]
                != Op::<E>::WriteCommand(Command::DisableConfigurationMode),
        !accepted(b) && failed_during(before, after, finalize_ops::<E>(polls, b), e) ==> forall|
            i: int,
        |
            before.len() <= i < after.len() ==> after[i] != Op::<E>::WriteCommand(
                Command::DisableConfigurationMode,
            ),
{
    let ops = finalize_ops::<E>(polls, b);
    let waiting = seq![Op::<E>::Release] + poll_ops::<E>(polls, 10);
    let front = waiting + read_ops::<E>(Command::ReadStatus, b);
    lemma_poll_ops_only_poll::<E>(polls, 10);
    assert forall|i: int| 0 <= i < front.len() implies front[i] != Op::<E>::WriteCommand(
        Command::DisableConfigurationMode,
    ) by {
        if 0 < i < waiting.len() {
            assert(front[i] == poll_ops::<E>(polls, 10)[i - 1]);
            assert(polling_op(poll_ops::<E>(polls, 10)[i - 1], 10));
        } else if i >= waiting.len() {
            assert(front[i] == read_ops::<E>(Command::ReadStatus, b)[i - waiting.len()]);
        }
    }
    if finalize_result::<E>(polls, b) is Ok {
        assert(ops == front + command_ops::<E>(Command::DisableConfigurationMode));
        assert(ops.skip(ops.len() - 3) =~= command_ops::<E>(Command::DisableConfigurationMode));
        assert forall|i: int| 0 <= i < ops.len() - 3 implies ops[i] != Op::<E>::WriteCommand(
            Command::DisableConfigurationMode,
        ) by {
            assert(ops[i] == front[i]);
        }
    }
    if !accepted(b) {
        assert forall|i: int| 0 <= i < ops.len() implies ops[i] != Op::<E>::WriteCommand(
            Command::DisableConfigurationMode,
        ) by {
            if poll_settled(polls.last(), false) {
                assert(ops == front);
            } else {
                assert(ops[i] == front[i]);
            }
        }
        if failed_during(before, after, ops, e) {
            lemma_failed_calls(before, after, ops, e);
            assert forall|i: int| before.len() <= i < after.len() implies after[i]
                != Op::<E>::WriteCommand(Command::DisableConfigurationMode) by {
                if i < after.len() - 1 {
                    assert(after[i] == ops[i - before.len()]);
                }
            }
        }
    }
}

/// The controller of one ECP5 device, driving it through a borrowed transport.
pub struct Ecp5<'a, D: Ecp5Impl> {
    port: Port<'a, D>,
}

impl<'a, D: Ecp5Impl> Ecp5<'a, D> {
    /// Every call made on the transport so far, in order; one that returned an error is
    /// recorded as `Failed` with that error.
    pub closed spec fn ops(&self) -> Seq<Op<D::Error>> {
        self.port.ops()
    }

    pub fn new(device: &'a D) -> (r: Self)
        ensures
            r.ops() == Seq::<Op<D::Error>>::empty(),
    {
        Ecp5 { port: Port::new(device) }
    }

    /// The state of the device as its control pins show it now.
    pub fn state(&mut self) -> (r: Result<DeviceState, Ecp5Error<D::Error>>)
        ensures
            r is Err ==> transport_failed(r),
            r is Ok ==> exists|p: bool, d: bool, i: bool|
                final(self).ops() == old(self).ops() + state_ops(p, d, i) && r->Ok_0
                    == device_state(p, d, i),
            r matches Err(Ecp5Error::Ecp5ImplError(e)) ==> exists|p: bool, d: bool, i: bool|
                failed_during(old(self).ops(), final(self).ops(), state_ops(p, d, i), e),
    {
        let ghost start = self.ops();
        let p = match self.port.get_program_n() {
            Ok(p) => p,
            Err(x) => {
                proof {
                    lemma_fail_at(start, self.ops(), Seq::empty(), Op::ProgramN(true), state_ops(true, false, false), x->Ecp5ImplError_0);
                }
                return Err(x);
            },
        };
        if !p {
            assert(self.ops() == start + state_ops::<D::Error>(false, false, false));
            assert(device_state(false, false, false) == DeviceState::Disabled);
            return Ok(DeviceState::Disabled);
        }
        let d = match self.port.get_done() {
            Ok(d) => d,
            Err(x) => {
                proof {
                    lemma_fail_at(start, self.ops(), seq![Op::ProgramN(true)], Op::Done(false), state_ops(true, false, false), x->Ecp5ImplError_0);
                }
                return Err(x);
            },
        };
        if d {
            assert(self.ops() == start + state_ops::<D::Error>(true, true, false));
            assert(device_state(true, true, false) == DeviceState::UserMode);
            return Ok(DeviceState::UserMode);
        }
        let i = match self.port.get_init_n() {
            Ok(i) => i,
            Err(x) => {
                proof {
                    lemma_fail_at(start, self.ops(), seq![Op::ProgramN(true), Op::Done(false)], Op::InitN(false), state_ops(true, false, false), x->Ecp5ImplError_0);
                }
                return Err(x);
            },
        };
        assert(self.ops() == start + state_ops::<D::Error>(true, false, i));
        if i {
            assert(device_state(true, false, i) == DeviceState::Configuration);
            Ok(DeviceState::Configuration)
        } else {
            assert(device_state(true, false, i) == DeviceState::InitializationOrConfigurationError);
            Ok(DeviceState::InitializationOrConfigurationError)
        }
    }

    /// Holds the device in reset.
    pub fn disable(&mut self) -> (r: Result<(), Ecp5Error<D::Error>>)
        ensures
            r is Err ==> transport_failed(r),
            r is Ok ==> final(self).ops() == old(self).ops() + seq![Op::SetProgramN(false)],
            r matches Err(Ecp5Error::Ecp5ImplError(e)) ==> final(self).ops() == old(self).ops()
                + seq![Op::Failed(e)],
    {
        let ghost start = self.ops();
        let r = self.port.put_program_n(false);
        assert(r is Ok ==> self.ops() == start + seq![Op::SetProgramN(false)]);
        assert(r is Err ==> self.ops() == start + seq![Op::Failed(r->Err_0->Ecp5ImplError_0)]);
        r
    }

    /// Releases the device from reset and waits for it to settle.
    pub fn enable(&mut self) -> (r: Result<(), Ecp5Error<D::Error>>)
        ensures
            r is Err ==> transport_failed(r),
            r is Ok ==> final(self).ops() == old(self).ops() + seq![
                Op::SetProgramN(true),
                Op::Sleep(50),
            ],
            r matches Err(Ecp5Error::Ecp5ImplError(e)) ==> final(self).ops() == old(self).ops()
                + seq![Op::Failed(e)],
    {
        let ghost start = self.ops();
        match self.port.put_program_n(true) {
            Ok(()) => {},
            Err(x) => {
                assert(self.ops() == start + seq![Op::Failed(x->Ecp5ImplError_0)]);
                return Err(x);
            },
        }
        self.port.pause(50);
        assert(self.ops() == start + seq![Op::SetProgramN(true), Op::Sleep(50)]);
        Ok(())
    }

    /// Holds the device in reset, then releases it.
    pub fn reset(&mut self) -> (r: Result<(), Ecp5Error<D::Error>>)
        ensures
            r is Err ==> transport_failed(r),
            r is Ok ==> final(self).ops() == old(self).ops() + seq![
                Op::SetProgramN(false),
                Op::Sleep(50),
                Op::SetProgramN(true),
                Op::Sleep(50),
            ],
            r matches Err(Ecp5Error::Ecp5ImplError(e)) ==> final(self).ops() == old(self).ops()
                + seq![Op::Failed(e)] || final(self).ops() == old(self).ops() + seq![
                Op::SetProgramN(false),
                Op::Sleep(50),
                Op::Failed(e),
            ],
    {
        let ghost start = self.ops();
        match self.disable() {
            Ok(()) => {},
            Err(x) => {
                return Err(x);
            },
        }
        self.port.pause(50);
        let ghost mid = self.ops();
        let r = self.enable();
        assert(r is Ok ==> self.ops() == start + seq![
            Op::SetProgramN(false),
            Op::Sleep(50),
            Op::SetProgramN(true),
            Op::Sleep(50),
        ]);
        assert(r is Err ==> self.ops() == start + seq![
            Op::SetProgramN(false),
            Op::Sleep(50),
            Op::Failed(r->Err_0->Ecp5ImplError_0),
        ]);
        r
    }

    /// Sends a command that neither returns nor takes data.
    pub fn send_command(&mut self, c: Command) -> (r: Result<(), Ecp5Error<D::Error>>)
        ensures
            r is Err ==> transport_failed(r),
            r is Ok ==> final(self).ops() == old(self).ops() + command_ops(c),
            r matches Err(Ecp5Error::Ecp5ImplError(e)) ==> failed_during(
                old(self).ops(),
                final(self).ops(),
                command_ops(c),
                e,
            ),
    {
        let ghost start = self.ops();
        let ghost t = command_ops::<D::Error>(c);
        match self.port.take_lock() {
            Ok(()) => {},
            Err(x) => {
                proof {
                    lemma_fail_at(start, self.ops(), Seq::empty(), Op::Lock, t, x->Ecp5ImplError_0);
                }
                return Err(x);
            },
        }
        match self.port.put_command(c) {
            Ok(()) => {},
            Err(x) => {
                proof {
                    lemma_fail_at(start, self.ops(), seq![Op::Lock], Op::WriteCommand(c), t, x->Ecp5ImplError_0);
                }
                return Err(x);
            },
        }
        match self.port.give_lock() {
            Ok(()) => {},
            Err(x) => {
                proof {
                    lemma_fail_at(start, self.ops(), seq![Op::Lock, Op::WriteCommand(c)], Op::Release, t, x->Ecp5ImplError_0);
                }
                return Err(x);
            },
        }
        assert(self.ops() == start + t);
        Ok(())
    }

    /// Sends a command and reads back `len` bytes into a zeroed buffer, in the order the
    /// device sends them.
    pub fn read(&mut self, c: Command, len: usize) -> (r: Result<Vec<u8>, Ecp5Error<D::Error>>)
        ensures
            r is Err ==> transport_failed(r),
            r is Ok ==> r->Ok_0@.len() == len && final(self).ops() == old(self).ops() + read_ops(
                c,
                r->Ok_0@,
            ),
            r matches Err(Ecp5Error::Ecp5ImplError(e)) ==> exists|b: Seq<u8>|
                b.len() == len && failed_during(old(self).ops(), final(self).ops(), read_ops(c, b), e),
    {
        let ghost start = self.ops();
        let mut buf: Vec<u8> = Vec::new();
        while buf.len() < len
            invariant
                buf@ == zeros(buf@.len()),
                buf@.len() <= len,
            decreases len - buf@.len(),
        {
            buf.push(0u8);
            assert(buf@ =~= zeros(buf@.len()));
        }
        let ghost z = buf@;
        assert(z == zeros(len as nat));
        match self.port.take_lock() {
            Ok(()) => {},
            Err(x) => {
                proof {
                    lemma_fail_at(start, self.ops(), Seq::empty(), Op::Lock, read_ops(c, z), x->Ecp5ImplError_0);
                }
                return Err(x);
            },
        }
        match self.port.put_command(c) {
            Ok(()) => {},
            Err(x) => {
                proof {
                    lemma_fail_at(start, self.ops(), seq![Op::Lock], Op::WriteCommand(c), read_ops(c, z), x->Ecp5ImplError_0);
                }
                return Err(x);
            },
        }
        match self.port.fill(&mut buf) {
            Ok(()) => {},
            Err(x) => {
                proof {
                    lemma_fail_at(start, self.ops(), seq![Op::Lock, Op::WriteCommand(c)], Op::Read(z, z), read_ops(c, z), x->Ecp5ImplError_0);
                }
                return Err(x);
            },
        }
        match self.port.give_lock() {
            Ok(()) => {},
            Err(x) => {
                proof {
                    lemma_fail_at(start, self.ops(), seq![Op::Lock, Op::WriteCommand(c), Op::Read(z, buf@)], Op::Release, read_ops(c, buf@), x->Ecp5ImplError_0);
                }
                return Err(x);
            },
        }
        assert(self.ops() == start + read_ops::<D::Error>(c, buf@));
        Ok(buf)
    }

    /// Reads a 16-bit register, sent big-endian.
    pub fn read16(&mut self, c: Command) -> (r: Result<u16, Ecp5Error<D::Error>>)
        ensures
            r is Err ==> transport_failed(r),
            r is Ok ==> exists|b: Seq<u8>|
                b.len() == 2 && final(self).ops() == old(self).ops() + read_ops(c, b) && r->Ok_0
                    == be_u16(b),
            r matches Err(Ecp5Error::Ecp5ImplError(e)) ==> exists|b: Seq<u8>|
                b.len() == 2 && failed_during(old(self).ops(), final(self).ops(), read_ops(c, b), e),
    {
        let b = match self.read(c, 2) {
            Ok(b) => b,
            Err(x) => {
                return Err(x);
            },
        };
        let v: u16 = ((b[0] as u16) << 8u16) | (b[1] as u16);
        assert(v == be_u16(b@));
        Ok(v)
    }

    /// Reads a 32-bit register, sent big-endian. All ones from `ReadStatus` or `ReadId` is
    /// refused as `PortDisabled`.
    pub fn read32(&mut self, c: Command) -> (r: Result<u32, Ecp5Error<D::Error>>)
        ensures
            !transport_failed(r) ==> exists|b: Seq<u8>|
                b.len() == 4 && final(self).ops() == old(self).ops() + read_ops(c, b) && r
                    == register_result::<D::Error>(c, be_u32(b)),
            r matches Err(Ecp5Error::Ecp5ImplError(e)) ==> exists|b: Seq<u8>|
                b.len() == 4 && failed_during(old(self).ops(), final(self).ops(), read_ops(c, b), e),
    {
        let b = match self.read(c, 4) {
            Ok(b) => b,
            Err(x) => {
                return Err(x);
            },
        };
        let v: u32 = ((b[0] as u32) << 24u32) | ((b[1] as u32) << 16u32) | ((b[2] as u32) << 8u32)
            | (b[3] as u32);
        assert(v == be_u32(b@));
        if (c == Command::ReadStatus || c == Command::ReadId) && v == 0xffff_ffffu32 {
            return Err(Ecp5Error::PortDisabled);
        }
        Ok(v)
    }

    /// Writes raw bytes without taking the lock: for use inside a bitstream load, which holds it.
    pub fn write(&mut self, buf: &[u8]) -> (r: Result<(), Ecp5Error<D::Error>>)
        ensures
            r is Err ==> transport_failed(r),
            r is Ok ==> final(self).ops() == old(self).ops().push(Op::Write(buf@)),
            r matches Err(Ecp5Error::Ecp5ImplError(e)) ==> final(self).ops() == old(
                self,
            ).ops().push(Op::Failed(e)),
    {
        self.port.put_bytes(buf)
    }

    /// Reads the device's identity.
    pub fn id(&mut self) -> (r: Result<Id, Ecp5Error<D::Error>>)
        ensures
            !transport_failed(r) ==> exists|b: Seq<u8>|
                b.len() == 4 && final(self).ops() == old(self).ops() + read_ops(Command::ReadId, b)
                    && r == id_result::<D::Error>(b),
            r matches Err(Ecp5Error::Ecp5ImplError(e)) ==> exists|b: Seq<u8>|
                b.len() == 4 && failed_during(
                    old(self).ops(),
                    final(self).ops(),
                    read_ops(Command::ReadId, b),
                    e,
                ),
    {
        let id = match self.read32(Command::ReadId) {
            Ok(id) => id,
            Err(x) => {
                return Err(x);
            },
        };
        Ok(Id(id, Device::from(id)))
    }

    /// Reads the user code register.
    pub fn user_code(&mut self) -> (r: Result<u32, Ecp5Error<D::Error>>)
        ensures
            !transport_failed(r) ==> exists|b: Seq<u8>|
                b.len() == 4 && final(self).ops() == old(self).ops() + read_ops(
                    Command::ReadUserCode,
                    b,
                ) && r == Ok::<u32, Ecp5Error<D::Error>>(be_u32(b)),
            r matches Err(Ecp5Error::Ecp5ImplError(e)) ==> exists|b: Seq<u8>|
                b.len() == 4 && failed_during(
                    old(self).ops(),
                    final(self).ops(),
                    read_ops(Command::ReadUserCode, b),
                    e,
                ),
    {
        self.read32(Command::ReadUserCode)
    }

    /// Reads the status register.
    pub fn status(&mut self) -> (r: Result<Status, Ecp5Error<D::Error>>)
        ensures
            !transport_failed(r) ==> exists|b: Seq<u8>|
                b.len() == 4 && final(self).ops() == old(self).ops() + read_ops(
                    Command::ReadStatus,
                    b,
                ) && r == status_result::<D::Error>(b),
            r matches Err(Ecp5Error::Ecp5ImplError(e)) ==> exists|b: Seq<u8>|
                b.len() == 4 && failed_during(
                    old(self).ops(),
                    final(self).ops(),
                    read_ops(Command::ReadStatus, b),
                    e,
                ),
    {
        match self.read32(Command::ReadStatus) {
            Ok(v) => Ok(Status(v)),
            Err(x) => Err(x),
        }
    }

    pub fn enable_configuration_mode(&mut self) -> (r: Result<(), Ecp5Error<D::Error>>)
        ensures
            r is Err ==> transport_failed(r),
            r is Ok ==> final(self).ops() == old(self).ops() + command_ops(
                Command::EnableConfigurationMode,
            ),
            r matches Err(Ecp5Error::Ecp5ImplError(e)) ==> failed_during(
                old(self).ops(),
                final(self).ops(),
                command_ops(Command::EnableConfigurationMode),
                e,
            ),
    {
        self.send_command(Command::EnableConfigurationMode)
    }

    pub fn disable_configuration_mode(&mut self) -> (r: Result<(), Ecp5Error<D::Error>>)
        ensures
            r is Err ==> transport_failed(r),
            r is Ok ==> final(self).ops() == old(self).ops() + command_ops(
                Command::DisableConfigurationMode,
            ),
            r matches Err(Ecp5Error::Ecp5ImplError(e)) ==> failed_during(
                old(self).ops(),
                final(self).ops(),
                command_ops(Command::DisableConfigurationMode),
                e,
            ),
    {
        self.send_command(Command::DisableConfigurationMode)
    }

    /// Polls the status register until it settles, pausing `sleep_interval` between two polls,
    /// and gives up after `max_polls` polls (one at least).
    fn await_status(&mut self, sleep_interval: u64, max_polls: u32, until_done: bool) -> (r: Result<
        (),
        Ecp5Error<D::Error>,
    >)
        ensures
            !transport_failed(r) ==> exists|polls: Seq<Seq<u8>>|
                waited(polls, until_done, max_polls) && final(self).ops() == old(self).ops()
                    + poll_ops(polls, sleep_interval) && r == wait_result::<D::Error>(
                    polls,
                    until_done,
                ),
            r matches Err(Ecp5Error::Ecp5ImplError(e)) ==> exists|polls: Seq<Seq<u8>>|
                polled(polls, until_done, max_polls) && failed_during(
                    old(self).ops(),
                    final(self).ops(),
                    poll_ops(polls, sleep_interval),
                    e,
                ),
    {
        let ghost start = self.ops();
        let ghost mut polls: Seq<Seq<u8>> = Seq::empty();
        let mut taken: u32 = 0;
        loop
            invariant
                start == old(self).ops(),
                polls.len() == taken as int,
                taken == 0 || taken < max_polls,
                forall|i: int|
                    0 <= i < polls.len() ==> (#[trigger] polls[i]).len() == 4 && be_u32(polls[i])
                        != 0xffff_ffffu32 && !settled(be_u32(polls[i]), until_done),
                taken == 0 ==> self.ops() == start,
                taken > 0 ==> self.ops() == start + poll_ops(polls, sleep_interval) + seq![
                    Op::Sleep(sleep_interval),
                ],
            decreases max_polls - taken,
        {
            let ghost before = self.ops();
            let ghost pre = if taken == 0 {
                Seq::<Op<D::Error>>::empty()
            } else {
                poll_ops(polls, sleep_interval) + seq![Op::Sleep(sleep_interval)]
            };
            assert(before =~= start + pre);
            let read = self.status();
            let ghost b = if transport_failed(read) {
                choose|b: Seq<u8>|
                    b.len() == 4 && failed_during(
                        before,
                        self.ops(),
                        read_ops(Command::ReadStatus, b),
                        read->Err_0->Ecp5ImplError_0,
                    )
            } else {
                choose|b: Seq<u8>|
                    b.len() == 4 && self.ops() == before + read_ops(Command::ReadStatus, b) && read
                        == status_result::<D::Error>(b)
            };
            let ghost next = polls.push(b);
            proof {
                lemma_poll_ops_push::<D::Error>(polls, b, sleep_interval);
                assert(poll_ops::<D::Error>(next, sleep_interval) =~= pre + read_ops(
                    Command::ReadStatus,
                    b,
                ));
                assert(next.last() == b);
                assert forall|i: int| 0 <= i < next.len() - 1 implies be_u32(#[trigger] next[i])
                    != 0xffff_ffffu32 && !settled(be_u32(next[i]), until_done) by {
                    assert(next[i] == polls[i]);
                }
                assert forall|i: int| 0 <= i < next.len() implies (#[trigger] next[i]).len()
                    == 4 by {
                    if i < polls.len() {
                        assert(next[i] == polls[i]);
                    }
                }
                assert(polled(next, until_done, max_polls));
                if transport_failed(read) {
                    lemma_fail_inside(
                        start,
                        pre,
                        self.ops(),
                        read_ops(Command::ReadStatus, b),
                        poll_ops(next, sleep_interval),
                        read->Err_0->Ecp5ImplError_0,
                    );
                } else {
                    assert(self.ops() == start + poll_ops(next, sleep_interval));
                }
            }
            let status = match read {
                Ok(s) => s,
                Err(e) => {
                    proof {
                        if !transport_failed(read) {
                            assert(waited(next, until_done, max_polls));
                            assert(Err::<(), Ecp5Error<D::Error>>(e) == wait_result::<D::Error>(
                                next,
                                until_done,
                            ));
                        }
                    }
                    return Err(e);
                },
            };
            taken = taken + 1;
            let done = if until_done {
                status.done()
            } else {
                !status.busy()
            };
            if done {
                return Ok(());
            }
            if taken >= max_polls {
                assert(waited(next, until_done, max_polls));
                assert(wait_result::<D::Error>(next, until_done) == Err::<(), Ecp5Error<D::Error>>(
                    Ecp5Error::Timeout,
                ));
                return Err(Ecp5Error::Timeout);
            }
            self.port.pause(sleep_interval);
            proof {
                polls = next;
            }
        }
    }

    /// Polls the status register until the device is no longer busy.
    pub fn await_not_busy(&mut self, sleep_interval: u64, max_polls: u32) -> (r: Result<
        (),
        Ecp5Error<D::Error>,
    >)
        ensures
            !transport_failed(r) ==> exists|polls: Seq<Seq<u8>>|
                waited(polls, false, max_polls) && final(self).ops() == old(self).ops() + poll_ops(
                    polls,
                    sleep_interval,
                ) && r == wait_result::<D::Error>(polls, false),
            r matches Err(Ecp5Error::Ecp5ImplError(e)) ==> exists|polls: Seq<Seq<u8>>|
                polled(polls, false, max_polls) && failed_during(
                    old(self).ops(),
                    final(self).ops(),
                    poll_ops(polls, sleep_interval),
                    e,
                ),
    {
        self.await_status(sleep_interval, max_polls, false)
    }

    /// Polls the status register until the device reports done.
    pub fn await_done(&mut self, sleep_interval: u64, max_polls: u32) -> (r: Result<
        (),
        Ecp5Error<D::Error>,
    >)
        ensures
            !transport_failed(r) ==> exists|polls: Seq<Seq<u8>>|
                waited(polls, true, max_polls) && final(self).ops() == old(self).ops() + poll_ops(
                    polls,
                    sleep_interval,
                ) && r == wait_result::<D::Error>(polls, true),
            r matches Err(Ecp5Error::Ecp5ImplError(e)) ==> exists|polls: Seq<Seq<u8>>|
                polled(polls, true, max_polls) && failed_during(
                    old(self).ops(),
                    final(self).ops(),
                    poll_ops(polls, sleep_interval),
                    e,
                ),
    {
        self.await_status(sleep_interval, max_polls, true)
    }

    /// Opens a bitstream load: enters configuration mode where writes are not yet enabled, then
    /// sends the burst command and keeps the lock, so that the bitstream can follow with
    /// `write` and nothing else reaches the medium before `finalize_bitstream_load`.
    pub fn initiate_bitstream_load(&mut self) -> (r: Result<(), Ecp5Error<D::Error>>)
        ensures
            !transport_failed(r) ==> exists|b1: Seq<u8>, b2: Seq<u8>|
                b1.len() == 4 && b2.len() == 4 && final(self).ops() == old(self).ops()
                    + initiate_ops(b1, b2) && r == initiate_result::<D::Error>(b1, b2),
            r matches Err(Ecp5Error::Ecp5ImplError(e)) ==> exists|b1: Seq<u8>, b2: Seq<u8>|
                b1.len() == 4 && b2.len() == 4 && failed_during(
                    old(self).ops(),
                    final(self).ops(),
                    initiate_ops(b1, b2),
                    e,
                ),
    {
        let ghost start = self.ops();
        let first = self.status();
        let ghost b1 = if transport_failed(first) {
            choose|b: Seq<u8>|
                b.len() == 4 && failed_during(
                    start,
                    self.ops(),
                    read_ops(Command::ReadStatus, b),
                    first->Err_0->Ecp5ImplError_0,
                )
        } else {
            choose|b: Seq<u8>|
                b.len() == 4 && self.ops() == start + read_ops(Command::ReadStatus, b) && first
                    == status_result::<D::Error>(b)
        };
        let first = match first {
            Ok(s) => s,
            Err(x) => {
                proof {
                    let t = initiate_ops::<D::Error>(b1, b1);
                    assert(t.take(4) =~= Seq::<Op<D::Error>>::empty() + read_ops(
                        Command::ReadStatus,
                        b1,
                    ));
                    if x is Ecp5ImplError {
                        lemma_fail_inside(
                            start,
                            Seq::empty(),
                            self.ops(),
                            read_ops(Command::ReadStatus, b1),
                            t,
                            x->Ecp5ImplError_0,
                        );
                    } else {
                        assert(t == read_ops::<D::Error>(Command::ReadStatus, b1));
                        assert(Err::<(), Ecp5Error<D::Error>>(x) == initiate_result::<D::Error>(
                            b1,
                            b1,
                        ));
                    }
                }
                return Err(x);
            },
        };
        let ghost read1 = read_ops::<D::Error>(Command::ReadStatus, b1);
        if !first.write_enabled() {
            match self.enable_configuration_mode() {
                Ok(()) => {},
                Err(x) => {
                    proof {
                        let t = initiate_ops::<D::Error>(b1, b1);
                        assert(t.take(7) =~= read1 + command_ops(
                            Command::EnableConfigurationMode,
                        ));
                        lemma_fail_inside(
                            start,
                            read1,
                            self.ops(),
                            command_ops(Command::EnableConfigurationMode),
                            t,
                            x->Ecp5ImplError_0,
                        );
                    }
                    return Err(x);
                },
            }
        }
        let ghost asked = self.ops();
        let ghost pre = read1 + if write_enabled(be_u32(b1)) {
            Seq::empty()
        } else {
            command_ops(Command::EnableConfigurationMode)
        };
        assert(asked == start + pre);
        let second = self.status();
        let ghost b2 = if transport_failed(second) {
            choose|b: Seq<u8>|
                b.len() == 4 && failed_during(
                    asked,
                    self.ops(),
                    read_ops(Command::ReadStatus, b),
                    second->Err_0->Ecp5ImplError_0,
                )
        } else {
            choose|b: Seq<u8>|
                b.len() == 4 && self.ops() == asked + read_ops(Command::ReadStatus, b) && second
                    == status_result::<D::Error>(b)
        };
        let ghost t = initiate_ops::<D::Error>(b1, b2);
        let ghost read2 = pre + read_ops::<D::Error>(Command::ReadStatus, b2);
        assert(t.take(read2.len() as int) =~= read2);
        let second = match second {
            Ok(s) => s,
            Err(x) => {
                proof {
                    if x is Ecp5ImplError {
                        lemma_fail_inside(
                            start,
                            pre,
                            self.ops(),
                            read_ops(Command::ReadStatus, b2),
                            t,
                            x->Ecp5ImplError_0,
                        );
                    } else {
                        assert(self.ops() == start + t);
                        assert(Err::<(), Ecp5Error<D::Error>>(x) == initiate_result::<D::Error>(
                            b1,
                            b2,
                        ));
                    }
                }
                return Err(x);
            },
        };
        if !second.write_enabled() {
            assert(self.ops() == start + t);
            return Err(Ecp5Error::InvalidMode);
        }
        assert(t =~= read2 + seq![Op::Lock, Op::WriteCommand(Command::BitstreamBurst)]);
        match self.port.take_lock() {
            Ok(()) => {},
            Err(x) => {
                proof {
                    lemma_fail_at(start, self.ops(), read2, Op::Lock, t, x->Ecp5ImplError_0);
                }
                return Err(x);
            },
        }
        match self.port.put_command(Command::BitstreamBurst) {
            Ok(()) => {},
            Err(x) => {
                proof {
                    lemma_fail_at(
                        start,
                        self.ops(),
                        read2.push(Op::Lock),
                        Op::WriteCommand(Command::BitstreamBurst),
                        t,
                        x->Ecp5ImplError_0,
                    );
                }
                return Err(x);
            },
        }
        assert(self.ops() == start + t);
        Ok(())
    }

    /// Closes a bitstream load: releases the lock, waits until the device is no longer busy
    /// (for at most `max_polls` polls), and reads the status once more. A rejected bitstream
    /// is reported and the device left in configuration mode, so that it can be refreshed and
    /// tried again; an accepted one makes the device leave configuration mode, which is not
    /// waited for.
    pub fn finalize_bitstream_load(&mut self, max_polls: u32) -> (r: Result<
        (),
        Ecp5Error<D::Error>,
    >)
        ensures
            !transport_failed(r) ==> exists|polls: Seq<Seq<u8>>, b: Seq<u8>|
                waited(polls, false, max_polls) && b.len() == 4 && final(self).ops() == old(
                    self,
                ).ops() + finalize_ops(polls, b) && r == finalize_result::<D::Error>(polls, b),
            r matches Err(Ecp5Error::Ecp5ImplError(e)) ==> exists|polls: Seq<Seq<u8>>, b: Seq<u8>|
                polled(polls, false, max_polls) && b.len() == 4 && failed_during(
                    old(self).ops(),
                    final(self).ops(),
                    finalize_ops(polls, b),
                    e,
                ),
    {
        let ghost start = self.ops();
        let ghost z = zeros(4);
        match self.port.give_lock() {
            Ok(()) => {},
            Err(x) => {
                proof {
                    let t = finalize_ops::<D::Error>(seq![z], z);
                    assert(polled(seq![z], false, max_polls));
                    lemma_fail_at(start, self.ops(), Seq::empty(), Op::Release, t, x->Ecp5ImplError_0);
                }
                return Err(x);
            },
        }
        let ghost released = self.ops();
        assert(released =~= start + seq![Op::Release]);
        let waited_r = self.await_not_busy(10, max_polls);
        let ghost polls = if transport_failed(waited_r) {
            choose|polls: Seq<Seq<u8>>|
                polled(polls, false, max_polls) && failed_during(
                    released,
                    self.ops(),
                    poll_ops(polls, 10),
                    waited_r->Err_0->Ecp5ImplError_0,
                )
        } else {
            choose|polls: Seq<Seq<u8>>|
                waited(polls, false, max_polls) && self.ops() == released + poll_ops(polls, 10)
                    && waited_r == wait_result::<D::Error>(polls, false)
        };
        let ghost waiting = seq![Op::<D::Error>::Release] + poll_ops(polls, 10);
        match waited_r {
            Ok(()) => {},
            Err(x) => {
                proof {
                    let t = finalize_ops::<D::Error>(polls, z);
                    assert(t.take(waiting.len() as int) =~= waiting);
                    if x is Ecp5ImplError {
                        lemma_fail_inside(
                            start,
                            seq![Op::Release],
                            self.ops(),
                            poll_ops(polls, 10),
                            t,
                            x->Ecp5ImplError_0,
                        );
                    } else {
                        assert(self.ops() == start + t);
                        assert(Err::<(), Ecp5Error<D::Error>>(x) == finalize_result::<D::Error>(
                            polls,
                            z,
                        ));
                    }
                }
                return Err(x);
            },
        }
        let ghost polled_ops = self.ops();
        assert(polled_ops == start + waiting);
        let status = self.status();
        let ghost b = if transport_failed(status) {
            choose|b: Seq<u8>|
                b.len() == 4 && failed_during(
                    polled_ops,
                    self.ops(),
                    read_ops(Command::ReadStatus, b),
                    status->Err_0->Ecp5ImplError_0,
                )
        } else {
            choose|b: Seq<u8>|
                b.len() == 4 && self.ops() == polled_ops + read_ops(Command::ReadStatus, b) && status
                    == status_result::<D::Error>(b)
        };
        let ghost t = finalize_ops::<D::Error>(polls, b);
        let ghost checked = waiting + read_ops::<D::Error>(Command::ReadStatus, b);
        assert(t.take(checked.len() as int) =~= checked);
        let status = match status {
            Ok(s) => s,
            Err(x) => {
                proof {
                    if x is Ecp5ImplError {
                        lemma_fail_inside(
                            start,
                            waiting,
                            self.ops(),
                            read_ops(Command::ReadStatus, b),
                            t,
                            x->Ecp5ImplError_0,
                        );
                    } else {
                        assert(self.ops() == start + t);
                        assert(Err::<(), Ecp5Error<D::Error>>(x) == finalize_result::<D::Error>(
                            polls,
                            b,
                        ));
                    }
                }
                return Err(x);
            },
        };
        let error = status.bitstream_error();
        if error != BitstreamError::NoError {
            assert(self.ops() == start + t);
            return Err(Ecp5Error::BitstreamError(error));
        }
        assert(t =~= checked + command_ops(Command::DisableConfigurationMode));
        assert(self.ops() =~= start + checked);
        match self.disable_configuration_mode() {
            Ok(()) => {},
            Err(x) => {
                proof {
                    lemma_fail_inside(
                        start,
                        checked,
                        self.ops(),
                        command_ops(Command::DisableConfigurationMode),
                        t,
                        x->Ecp5ImplError_0,
                    );
                }
                return Err(x);
            },
        }
        assert(self.ops() == start + t);
        Ok(())
    }
}

/// Loads a bitstream: opens the load, writes what `bitstream` produces in chunks of at most
/// `CHUNK_SIZE` bytes until it is drained, and closes the load, waiting at most `max_polls`
/// status polls for the device.
pub fn load_compressed_bitstream<D: Ecp5Impl, S: BitstreamSource>(
    ecp5: &mut Ecp5<D>,
    bitstream: &mut S,
    max_polls: u32,
) -> (r: Result<(), Ecp5Error<D::Error>>)
    ensures
        exists|
            b1: Seq<u8>,
            b2: Seq<u8>,
            chunks: Seq<Seq<u8>>,
            polls: Seq<Seq<u8>>,
            b: Seq<u8>,
        |
            loaded::<D::Error>(
                old(ecp5).ops(),
                final(ecp5).ops(),
                r,
                old(bitstream).rest(),
                final(bitstream).rest(),
                b1,
                b2,
                chunks,
                polls,
                b,
                max_polls,
            ),
{
    let ghost start = ecp5.ops();
    let ghost source = bitstream.rest();
    let opened = ecp5.initiate_bitstream_load();
    let ghost (b1, b2) = if transport_failed(opened) {
        choose|b1: Seq<u8>, b2: Seq<u8>|
            b1.len() == 4 && b2.len() == 4 && failed_during(
                start,
                ecp5.ops(),
                initiate_ops(b1, b2),
                opened->Err_0->Ecp5ImplError_0,
            )
    } else {
        choose|b1: Seq<u8>, b2: Seq<u8>|
            b1.len() == 4 && b2.len() == 4 && ecp5.ops() == start + initiate_ops(b1, b2) && opened
                == initiate_result::<D::Error>(b1, b2)
    };
    let ghost opening = initiate_ops::<D::Error>(b1, b2);
    let ghost no_chunks = Seq::<Seq<u8>>::empty();
    proof {
        assert(write_ops::<D::Error>(no_chunks) =~= Seq::<Op<D::Error>>::empty());
        assert(no_chunks.flatten() =~= Seq::<u8>::empty());
        assert(source =~= no_chunks.flatten() + source);
        assert(polled(seq![b1], false, max_polls));
    }
    match opened {
        Ok(()) => {},
        Err(x) => {
            proof {
                let t = load_ops::<D::Error>(b1, b2, no_chunks, seq![b1], b1);
                if x is Ecp5ImplError {
                    lemma_failed_calls(start, ecp5.ops(), opening, x->Ecp5ImplError_0);
                    assert(t.take(opening.len() as int) =~= Seq::<Op<D::Error>>::empty()
                        + opening);
                    lemma_fail_inside(
                        start,
                        Seq::empty(),
                        ecp5.ops(),
                        opening,
                        t,
                        x->Ecp5ImplError_0,
                    );
                }
                assert(loaded::<D::Error>(
                    start,
                    ecp5.ops(),
                    Err(x),
                    source,
                    bitstream.rest(),
                    b1,
                    b2,
                    no_chunks,
                    seq![b1],
                    b1,
                    max_polls,
                ));
            }
            return Err(x);
        },
    }
    let ghost mut chunks: Seq<Seq<u8>> = Seq::empty();
    while !bitstream.is_drained()
        invariant
            start == old(ecp5).ops(),
            source == old(bitstream).rest(),
            b1.len() == 4 && b2.len() == 4,
            opening == initiate_ops::<D::Error>(b1, b2),
            initiate_result::<D::Error>(b1, b2) is Ok,
            polled(seq![b1], false, max_polls),
            ecp5.ops() == start + opening + write_ops(chunks),
            source == chunks.flatten() + bitstream.rest(),
            forall|i: int| 0 <= i < chunks.len() ==> (#[trigger] chunks[i]).len() <= CHUNK_SIZE,
        decreases bitstream.rest().len(),
    {
        let ghost rest = bitstream.rest();
        let chunk = bitstream.next_chunk(CHUNK_SIZE);
        let ghost next = chunks.push(chunk@);
        proof {
            chunks.lemma_flatten_push(chunk@);
            assert(source =~= next.flatten() + bitstream.rest());
            assert(next.drop_last() =~= chunks);
            assert(write_ops::<D::Error>(next) == write_ops::<D::Error>(chunks).push(
                Op::Write(chunk@),
            ));
            assert forall|i: int| 0 <= i < next.len() implies (#[trigger] next[i]).len()
                <= CHUNK_SIZE by {
                if i < chunks.len() {
                    assert(next[i] == chunks[i]);
                }
            }
        }
        match ecp5.write(chunk.as_slice()) {
            Ok(()) => {},
            Err(x) => {
                proof {
                    let written = opening + write_ops::<D::Error>(chunks);
                    let t = load_ops::<D::Error>(b1, b2, next, seq![b1], b1);
                    assert(t.take(written.len() + 1int) =~= written.push(Op::Write(chunk@)));
                    lemma_fail_at(
                        start,
                        ecp5.ops(),
                        written,
                        Op::Write(chunk@),
                        t,
                        x->Ecp5ImplError_0,
                    );
                    assert(loaded::<D::Error>(
                        start,
                        ecp5.ops(),
                        Err(x),
                        source,
                        bitstream.rest(),
                        b1,
                        b2,
                        next,
                        seq![b1],
                        b1,
                        max_polls,
                    ));
                }
                return Err(x);
            },
        }
        proof {
            chunks = next;
        }
    }
    let ghost written = ecp5.ops();
    let ghost pre = opening + write_ops::<D::Error>(chunks);
    assert(written == start + pre);
    let closed = ecp5.finalize_bitstream_load(max_polls);
    let ghost (polls, b) = if transport_failed(closed) {
        choose|polls: Seq<Seq<u8>>, b: Seq<u8>|
            polled(polls, false, max_polls) && b.len() == 4 && failed_during(
                written,
                ecp5.ops(),
                finalize_ops(polls, b),
                closed->Err_0->Ecp5ImplError_0,
            )
    } else {
        choose|polls: Seq<Seq<u8>>, b: Seq<u8>|
            waited(polls, false, max_polls) && b.len() == 4 && ecp5.ops() == written
                + finalize_ops(polls, b) && closed == finalize_result::<D::Error>(polls, b)
    };
    proof {
        let t = load_ops::<D::Error>(b1, b2, chunks, polls, b);
        assert(t =~= pre + finalize_ops::<D::Error>(polls, b));
        if transport_failed(closed) {
            lemma_failed_calls(
                written,
                ecp5.ops(),
                finalize_ops(polls, b),
                closed->Err_0->Ecp5ImplError_0,
            );
            assert(t.take((pre.len() + finalize_ops::<D::Error>(polls, b).len()) as int) =~= pre
                + finalize_ops::<D::Error>(polls, b));
            lemma_fail_inside(
                start,
                pre,
                ecp5.ops(),
                finalize_ops(polls, b),
                t,
                closed->Err_0->Ecp5ImplError_0,
            );
        } else {
            assert(ecp5.ops() =~= start + t);
        }
        assert(loaded::<D::Error>(
            start,
            ecp5.ops(),
            closed,
            source,
            bitstream.rest(),
            b1,
            b2,
            chunks,
            polls,
            b,
            max_polls,
        ));
    }
    closed
}

} // verus!
