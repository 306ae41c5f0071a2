use vstd::prelude::*;

use crate::driver::{transport_failed, Ecp5Error, Ecp5Impl, Op};
use crate::types::Command;

verus! {

/// A borrowed transport together with the record of every call made on it through this port.
/// The record is private to this module: it grows only by the calls below, each of which makes
/// exactly the transport call it records.
pub(crate) struct Port<'a, D: Ecp5Impl> {
    device: &'a D,
    ops: Ghost<Seq<Op<D::Error>>>,
}

impl<'a, D: Ecp5Impl> Port<'a, D> {
    /// Every call made on the transport through this port, in order; one that returned an
    /// error is recorded as `Failed` with that error.
    pub closed spec fn ops(&self) -> Seq<Op<D::Error>> {
        self.ops@
    }

    pub(crate) fn new(device: &'a D) -> (r: Self)
        ensures
            r.ops() == Seq::<Op<D::Error>>::empty(),
    {
        Port { device, ops: Ghost(Seq::empty()) }
    }

    fn record<T>(&mut self, r: Result<T, D::Error>, op: Ghost<Op<D::Error>>) -> (res: Result<
        T,
        Ecp5Error<D::Error>,
    >)
        ensures
            r is Ok ==> res == Ok::<T, Ecp5Error<D::Error>>(r->Ok_0) && final(self).ops() == old(
                self,
            ).ops().push(op@),
            r is Err ==> res == Err::<T, Ecp5Error<D::Error>>(Ecp5Error::Ecp5ImplError(r->Err_0))
                && final(self).ops() == old(self).ops().push(Op::Failed(r->Err_0)),
    {
        match r {
            Ok(v) => {
                self.ops = Ghost(self.ops@.push(op@));
                Ok(v)
            },
            Err(e) => {
                self.ops = Ghost(self.ops@.push(Op::Failed(e)));
                Err(Ecp5Error::Ecp5ImplError(e))
            },
        }
    }

    pub(crate) fn get_program_n(&mut self) -> (r: Result<bool, Ecp5Error<D::Error>>)
        ensures
            r is Ok ==> final(self).ops() == old(self).ops().push(Op::ProgramN(r->Ok_0)),
            r is Err ==> transport_failed(r) && final(self).ops() == old(self).ops().push(
                Op::Failed(r->Err_0->Ecp5ImplError_0),
            ),
    {
        let v = self.device.program_n();
        self.record(v, Ghost(Op::ProgramN(v is Ok && v->Ok_0)))
    }

    pub(crate) fn get_init_n(&mut self) -> (r: Result<bool, Ecp5Error<D::Error>>)
        ensures
            r is Ok ==> final(self).ops() == old(self).ops().push(Op::InitN(r->Ok_0)),
            r is Err ==> transport_failed(r) && final(self).ops() == old(self).ops().push(
                Op::Failed(r->Err_0->Ecp5ImplError_0),
            ),
    {
        let v = self.device.init_n();
        self.record(v, Ghost(Op::InitN(v is Ok && v->Ok_0)))
    }

    pub(crate) fn get_done(&mut self) -> (r: Result<bool, Ecp5Error<D::Error>>)
        ensures
            r is Ok ==> final(self).ops() == old(self).ops().push(Op::Done(r->Ok_0)),
            r is Err ==> transport_failed(r) && final(self).ops() == old(self).ops().push(
                Op::Failed(r->Err_0->Ecp5ImplError_0),
            ),
    {
        let v = self.device.done();
        self.record(v, Ghost(Op::Done(v is Ok && v->Ok_0)))
    }

    pub(crate) fn put_program_n(&mut self, asserted: bool) -> (r: Result<(), Ecp5Error<D::Error>>)
        ensures
            r is Ok ==> final(self).ops() == old(self).ops().push(Op::SetProgramN(asserted)),
            r is Err ==> transport_failed(r) && final(self).ops() == old(self).ops().push(
                Op::Failed(r->Err_0->Ecp5ImplError_0),
            ),
    {
        let v = self.device.set_program_n(asserted);
        self.record(v, Ghost(Op::SetProgramN(asserted)))
    }

    pub(crate) fn put_command(&mut self, c: Command) -> (r: Result<(), Ecp5Error<D::Error>>)
        ensures
            r is Ok ==> final(self).ops() == old(self).ops().push(Op::WriteCommand(c)),
            r is Err ==> transport_failed(r) && final(self).ops() == old(self).ops().push(
                Op::Failed(r->Err_0->Ecp5ImplError_0),
            ),
    {
        let v = self.device.write_command(c);
        self.record(v, Ghost(Op::WriteCommand(c)))
    }

    pub(crate) fn take_lock(&mut self) -> (r: Result<(), Ecp5Error<D::Error>>)
        ensures
            r is Ok ==> final(self).ops() == old(self).ops().push(Op::Lock),
            r is Err ==> transport_failed(r) && final(self).ops() == old(self).ops().push(
                Op::Failed(r->Err_0->Ecp5ImplError_0),
            ),
    {
        let v = self.device.lock();
        self.record(v, Ghost(Op::Lock))
    }

    pub(crate) fn give_lock(&mut self) -> (r: Result<(), Ecp5Error<D::Error>>)
        ensures
            r is Ok ==> final(self).ops() == old(self).ops().push(Op::Release),
            r is Err ==> transport_failed(r) && final(self).ops() == old(self).ops().push(
                Op::Failed(r->Err_0->Ecp5ImplError_0),
            ),
    {
        let v = self.device.release();
        self.record(v, Ghost(Op::Release))
    }

    pub(crate) fn fill(&mut self, buf: &mut Vec<u8>) -> (r: Result<(), Ecp5Error<D::Error>>)
        ensures
            final(buf)@.len() == old(buf)@.len(),
            r is Ok ==> final(self).ops() == old(self).ops().push(
                Op::Read(old(buf)@, final(buf)@),
            ),
            r is Err ==> transport_failed(r) && final(self).ops() == old(self).ops().push(
                Op::Failed(r->Err_0->Ecp5ImplError_0),
            ),
    {
        let ghost given = buf@;
        let v = self.device.read(buf.as_mut_slice());
        self.record(v, Ghost(Op::Read(given, buf@)))
    }

    pub(crate) fn pause(&mut self, ms: u64)
        ensures
            final(self).ops() == old(self).ops().push(Op::Sleep(ms)),
    {
        self.device.sleep_for(ms);
        self.ops = Ghost(self.ops@.push(Op::Sleep(ms)));
    }

    pub(crate) fn put_bytes(&mut self, buf: &[u8]) -> (r: Result<(), Ecp5Error<D::Error>>)
        ensures
            r is Ok ==> final(self).ops() == old(self).ops().push(Op::Write(buf@)),
            r is Err ==> transport_failed(r) && final(self).ops() == old(self).ops().push(
                Op::Failed(r->Err_0->Ecp5ImplError_0),
            ),
    {
        let v = self.device.write(buf);
        self.record(v, Ghost(Op::Write(buf@)))
    }
}

} // verus!
