//! The shared resource: a reader/writer exclusion primitive.
//!
//! The resource keeps a ledger with one entry for every guard it has ever
//! handed out, and a guard is the index of its entry and nothing more. A
//! guard that is given back twice is therefore found out and refused, and so
//! is one whose index the ledger does not hold, or holds for a guard of the
//! other kind. A guard does not say which resource issued it: one that was
//! taken from another resource is accepted wherever its index names a guard
//! of its kind that is still held. Guards are to be given back to the
//! resource they came from.

use vstd::prelude::*;

verus! {

/// What the ledger records for one guard.
#[derive(Clone, Copy, Debug, PartialEq, Eq, Structural)]
pub enum Holder {
    /// A read guard that is still held.
    Reader,
    /// A write guard that is still held.
    Writer,
    /// A guard that was given back.
    Released,
}

/// The state of the resource as its users see it.
#[derive(Clone, Copy, Debug, PartialEq, Eq, Structural)]
pub enum LockState {
    Unlocked,
    Readers(usize),
    Writer,
}

/// Why a guard was refused when it was given back.
#[derive(Clone, Copy, Debug, PartialEq, Eq, Structural)]
pub enum ReleaseError {
    /// The ledger has no entry under the index of the guard, or the entry is
    /// that of a guard of the other kind.
    NotIssued,
    /// The guard was given back before.
    AlreadyReleased,
}

/// The number of read guards that are held according to `ledger`.
pub open spec fn readers_in(ledger: Seq<Holder>) -> nat
    decreases ledger.len(),
{
    if ledger.len() == 0 {
        0
    } else {
        readers_in(ledger.drop_last()) + if ledger.last() == Holder::Reader {
            1nat
        } else {
            0nat
        }
    }
}

/// Whether a write guard is held according to `ledger`.
pub open spec fn writer_in(ledger: Seq<Holder>) -> bool {
    exists|i: int| 0 <= i < ledger.len() && ledger[i] == Holder::Writer
}

/// A ledger that a resource can have: a writer excludes readers and any
/// other writer.
pub open spec fn ledger_wf(ledger: Seq<Holder>) -> bool {
    &&& writer_in(ledger) ==> readers_in(ledger) == 0
    &&& forall|i: int, j: int|
        0 <= i < ledger.len() && 0 <= j < ledger.len() && ledger[i] == Holder::Writer
            && ledger[j] == Holder::Writer ==> i == j
}

/// A reader is admitted whenever no writer holds the resource.
pub open spec fn can_read(ledger: Seq<Holder>) -> bool {
    !writer_in(ledger)
}

/// A writer is admitted only while nobody holds the resource.
pub open spec fn can_write(ledger: Seq<Holder>) -> bool {
    !writer_in(ledger) && readers_in(ledger) == 0
}

/// The ledger after `n` readers were admitted one after the other, none of
/// them having given its guard back.
pub open spec fn admit_readers(ledger: Seq<Holder>, n: nat) -> Seq<Holder>
    decreases n,
{
    if n == 0 {
        ledger
    } else {
        admit_readers(ledger, (n - 1) as nat).push(Holder::Reader)
    }
}

/// What giving back the guard `id` of kind `kind` does to the ledger.
pub open spec fn release(ledger: Seq<Holder>, id: nat, kind: Holder) -> Result<
    Seq<Holder>,
    ReleaseError,
> {
    if id >= ledger.len() {
        Err(ReleaseError::NotIssued)
    } else if ledger[id as int] == kind {
        Ok(ledger.update(id as int, Holder::Released))
    } else if ledger[id as int] == Holder::Released {
        Err(ReleaseError::AlreadyReleased)
    } else {
        Err(ReleaseError::NotIssued)
    }
}

/// The ledger after the guard `id` of kind `kind` was offered back: updated
/// if the guard was held, untouched if it was refused.
pub open spec fn after_release(ledger: Seq<Holder>, id: nat, kind: Holder) -> Seq<Holder> {
    match release(ledger, id, kind) {
        Ok(updated) => updated,
        Err(_) => ledger,
    }
}

pub proof fn lemma_readers_bounded(ledger: Seq<Holder>)
    ensures
        readers_in(ledger) <= ledger.len(),
    decreases ledger.len(),
{
    if ledger.len() > 0 {
        lemma_readers_bounded(ledger.drop_last());
    }
}

/// A new entry adds one reader if it is a reader's, and none otherwise.
pub proof fn lemma_readers_push(ledger: Seq<Holder>, holder: Holder)
    ensures
        readers_in(ledger.push(holder)) == readers_in(ledger) + if holder == Holder::Reader {
            1nat
        } else {
            0nat
        },
{
    assert(ledger.push(holder).drop_last() =~= ledger);
}

/// Rewriting one entry changes the number of readers by that entry alone.
pub proof fn lemma_readers_update(ledger: Seq<Holder>, i: int, holder: Holder)
    requires
        0 <= i < ledger.len(),
    ensures
        readers_in(ledger.update(i, holder)) + (if ledger[i] == Holder::Reader {
            1nat
        } else {
            0nat
        }) == readers_in(ledger) + (if holder == Holder::Reader {
            1nat
        } else {
            0nat
        }),
    decreases ledger.len(),
{
    let updated = ledger.update(i, holder);
    if i == ledger.len() - 1 {
        assert(updated.drop_last() =~= ledger.drop_last());
    } else {
        assert(updated.drop_last() =~= ledger.drop_last().update(i, holder));
        lemma_readers_update(ledger.drop_last(), i, holder);
    }
}

/// An entry of a reader that still holds its guard shows that no writer is
/// present.
pub proof fn lemma_reader_excludes_writer(ledger: Seq<Holder>, i: int)
    requires
        ledger_wf(ledger),
        0 <= i < ledger.len(),
        ledger[i] == Holder::Reader,
    ensures
        readers_in(ledger) >= 1,
        can_read(ledger),
{
    lemma_readers_update(ledger, i, Holder::Released);
}

/// Admitting a reader adds its entry and one reader, and leaves the resource
/// open to further readers.
pub proof fn lemma_admit_reader(ledger: Seq<Holder>)
    requires
        ledger_wf(ledger),
        can_read(ledger),
    ensures
        ledger_wf(ledger.push(Holder::Reader)),
        can_read(ledger.push(Holder::Reader)),
        readers_in(ledger.push(Holder::Reader)) == readers_in(ledger) + 1,
{
    lemma_readers_push(ledger, Holder::Reader);
    let after = ledger.push(Holder::Reader);
    if writer_in(after) {
        let i = choose|i: int| 0 <= i < after.len() && after[i] == Holder::Writer;
        assert(ledger[i] == Holder::Writer);
    }
}

/// A reader that gives its guard back leaves one reader fewer and changes
/// nothing else.
pub proof fn lemma_reader_leaves(ledger: Seq<Holder>, i: int)
    requires
        ledger_wf(ledger),
        0 <= i < ledger.len(),
        ledger[i] == Holder::Reader,
    ensures
        ledger_wf(ledger.update(i, Holder::Released)),
        can_read(ledger.update(i, Holder::Released)),
        can_read(ledger),
        readers_in(ledger.update(i, Holder::Released)) + 1 == readers_in(ledger),
{
    lemma_readers_update(ledger, i, Holder::Released);
    let after = ledger.update(i, Holder::Released);
    if writer_in(after) {
        let j = choose|j: int| 0 <= j < after.len() && after[j] == Holder::Writer;
        assert(ledger[j] == Holder::Writer);
    }
}

/// While no writer holds the resource, any number of readers is admitted
/// side by side: each of the `n` acquisitions finds the resource open to
/// readers although none of the earlier guards was given back, each gets an
/// entry of its own, and afterwards `n` more readers hold the resource.
pub proof fn lemma_readers_stack(ledger: Seq<Holder>, n: nat)
    requires
        ledger_wf(ledger),
        can_read(ledger),
    ensures
        forall|k: nat| k <= n ==> can_read(#[trigger] admit_readers(ledger, k)),
        ledger_wf(admit_readers(ledger, n)),
        admit_readers(ledger, n).len() == ledger.len() + n,
        readers_in(admit_readers(ledger, n)) == readers_in(ledger) + n,
        forall|i: int| 0 <= i < ledger.len() ==> admit_readers(ledger, n)[i] == ledger[i],
        forall|i: int|
            ledger.len() <= i < ledger.len() + n ==> admit_readers(ledger, n)[i] == Holder::Reader,
    decreases n,
{
    if n > 0 {
        let before = admit_readers(ledger, (n - 1) as nat);
        lemma_readers_stack(ledger, (n - 1) as nat);
        lemma_readers_push(before, Holder::Reader);
        assert forall|k: nat| k <= n implies can_read(#[trigger] admit_readers(ledger, k)) by {
            if k == n {
                assert(can_read(before));
            }
        }
    }
}

/// A guard is given back at most once: when a release succeeds, one holder
/// fewer of that kind is recorded, and offering the same guard again is
/// refused as already released and leaves the ledger as it is.
pub proof fn lemma_release_once(ledger: Seq<Holder>, id: nat, kind: Holder)
    requires
        kind != Holder::Released,
        release(ledger, id, kind) is Ok,
    ensures
        release(after_release(ledger, id, kind), id, kind) == Err::<Seq<Holder>, ReleaseError>(
            ReleaseError::AlreadyReleased,
        ),
        after_release(after_release(ledger, id, kind), id, kind) == after_release(
            ledger,
            id,
            kind,
        ),
        kind == Holder::Reader ==> readers_in(after_release(ledger, id, kind)) + 1 == readers_in(
            ledger,
        ),
{
    lemma_readers_update(ledger, id as int, Holder::Released);
}

/// A read guard: the index of its entry in the ledger of the resource.
#[derive(Clone, Copy, Debug, PartialEq, Eq, Structural)]
pub struct ReadGuard {
    id: usize,
}

impl View for ReadGuard {
    type V = nat;

    closed spec fn view(&self) -> nat {
        self.id as nat
    }
}

/// A write guard: the index of its entry in the ledger of the resource.
#[derive(Clone, Copy, Debug, PartialEq, Eq, Structural)]
pub struct WriteGuard {
    id: usize,
}

impl View for WriteGuard {
    type V = nat;

    closed spec fn view(&self) -> nat {
        self.id as nat
    }
}

/// A reader/writer lock that guards a unit resource.
#[derive(Debug)]
pub struct SharedResource {
    ledger: Vec<Holder>,
    readers: usize,
    writer: Option<usize>,
}

impl View for SharedResource {
    type V = Seq<Holder>;

    closed spec fn view(&self) -> Seq<Holder> {
        self.ledger@
    }
}

impl SharedResource {
    /// The invariant of every resource: the counters agree with the ledger and
    /// a writer is alone.
    pub closed spec fn wf(&self) -> bool {
        &&& self.readers == readers_in(self.ledger@)
        &&& match self.writer {
            Some(w) => w < self.ledger@.len() && self.ledger@[w as int] == Holder::Writer
                && self.readers == 0,
            None => true,
        }
        &&& forall|i: int|
            0 <= i < self.ledger@.len() && self.ledger@[i] == Holder::Writer ==> self.writer
                == Some(i as usize)
    }

    pub proof fn lemma_wf(&self)
        requires
            self.wf(),
        ensures
            ledger_wf(self@),
            self@.len() <= usize::MAX,
    {
        assert(self.ledger@.len() == self.ledger.len());
    }

    /// An unlocked resource that has issued no guard yet.
    pub fn new() -> (res: SharedResource)
        ensures
            res.wf(),
            res@ == Seq::<Holder>::empty(),
    {
        SharedResource { ledger: Vec::new(), readers: 0, writer: None }
    }

    /// The state of the resource.
    pub fn state(&self) -> (state: LockState)
        requires
            self.wf(),
        ensures
            state == (if writer_in(self@) {
                LockState::Writer
            } else if readers_in(self@) > 0 {
                LockState::Readers(readers_in(self@) as usize)
            } else {
                LockState::Unlocked
            }),
    {
        if self.writer.is_some() {
            LockState::Writer
        } else if self.readers > 0 {
            LockState::Readers(self.readers)
        } else {
            LockState::Unlocked
        }
    }

    /// The number of guards issued so far, held or given back.
    pub fn issued(&self) -> (n: usize)
        ensures
            n == self@.len(),
    {
        self.ledger.len()
    }

    /// One attempt to enter as a reader. It succeeds exactly when no writer
    /// holds the resource, however many readers do; `None` means that the
    /// caller has to suspend.
    pub fn acquire_read(&mut self) -> (guard: Option<ReadGuard>)
        requires
            old(self).wf(),
        ensures
            final(self).wf(),
            guard is Some <==> can_read(old(self)@),
            guard is Some ==> guard.unwrap()@ == old(self)@.len(),
            guard is Some ==> final(self)@ == old(self)@.push(Holder::Reader),
            guard is None ==> final(self)@ == old(self)@,
    {
        if self.writer.is_some() {
            return None;
        }
        let id = self.ledger.len();
        proof {
            lemma_readers_push(self.ledger@, Holder::Reader);
        }
        self.ledger.push(Holder::Reader);
        proof {
            lemma_readers_bounded(self.ledger@);
            assert(self.ledger@.len() == self.ledger.len());
        }
        self.readers = self.readers + 1;
        Some(ReadGuard { id })
    }

    /// Gives a read guard back. The guard is known by its index alone: it is
    /// accepted if the entry under that index is that of a reader that still
    /// holds its guard, and is then recorded as given back. Any other guard
    /// is refused and nothing changes.
    pub fn release_read(&mut self, guard: ReadGuard) -> (result: Result<(), ReleaseError>)
        requires
            old(self).wf(),
        ensures
            final(self).wf(),
            final(self)@ == after_release(old(self)@, guard@, Holder::Reader),
            match release(old(self)@, guard@, Holder::Reader) {
                Ok(_) => result is Ok,
                Err(e) => result == Err::<(), ReleaseError>(e),
            },
    {
        if guard.id >= self.ledger.len() {
            return Err(ReleaseError::NotIssued);
        }
        match self.ledger[guard.id] {
            Holder::Reader => {
                proof {
                    lemma_readers_update(self.ledger@, guard.id as int, Holder::Released);
                }
                self.ledger[guard.id] = Holder::Released;
                self.readers = self.readers - 1;
                Ok(())
            },
            Holder::Released => Err(ReleaseError::AlreadyReleased),
            Holder::Writer => Err(ReleaseError::NotIssued),
        }
    }

    /// One attempt to enter as the writer. It succeeds exactly when nobody
    /// holds the resource; `None` means that the caller has to suspend.
    pub fn acquire_write(&mut self) -> (guard: Option<WriteGuard>)
        requires
            old(self).wf(),
        ensures
            final(self).wf(),
            guard is Some <==> can_write(old(self)@),
            guard is Some ==> guard.unwrap()@ == old(self)@.len(),
            guard is Some ==> final(self)@ == old(self)@.push(Holder::Writer),
            guard is None ==> final(self)@ == old(self)@,
    {
        if self.writer.is_some() || self.readers > 0 {
            return None;
        }
        let id = self.ledger.len();
        proof {
            lemma_readers_push(self.ledger@, Holder::Writer);
        }
        self.ledger.push(Holder::Writer);
        self.writer = Some(id);
        Some(WriteGuard { id })
    }

    /// Gives the write guard back. The guard is known by its index alone: it
    /// is accepted if the entry under that index is that of the writer that
    /// holds the resource, and is then recorded as given back. Any other
    /// guard is refused and nothing changes.
    pub fn release_write(&mut self, guard: WriteGuard) -> (result: Result<(), ReleaseError>)
        requires
            old(self).wf(),
        ensures
            final(self).wf(),
            final(self)@ == after_release(old(self)@, guard@, Holder::Writer),
            match release(old(self)@, guard@, Holder::Writer) {
                Ok(_) => result is Ok,
                Err(e) => result == Err::<(), ReleaseError>(e),
            },
    {
        if guard.id >= self.ledger.len() {
            return Err(ReleaseError::NotIssued);
        }
        match self.ledger[guard.id] {
            Holder::Writer => {
                proof {
                    lemma_readers_update(self.ledger@, guard.id as int, Holder::Released);
                }
                self.ledger[guard.id] = Holder::Released;
                self.writer = None;
                Ok(())
            },
            Holder::Released => Err(ReleaseError::AlreadyReleased),
            Holder::Reader => Err(ReleaseError::NotIssued),
        }
    }
}

} // verus!
