//! Recent activity of the daemon, bounded.
use vstd::prelude::*;

use crate::clock::SystemTime;

verus! {

/// Something that happened.
#[derive(Debug, PartialEq, Eq)]
pub struct TimelineRecord {
    pub timestamp: SystemTime,
    pub kind: String,
    pub profile_id: String,
    pub message: String,
}

/// The latest records, oldest first.
#[derive(Debug)]
pub struct TimelineBuffer {
    records: Vec<TimelineRecord>,
    max_entries: usize,
}

/// The last `limit` of `records`.
pub open spec fn latest(records: Seq<TimelineRecord>, limit: nat) -> Seq<TimelineRecord> {
    if records.len() <= limit {
        records
    } else {
        records.skip(records.len() - limit)
    }
}

impl View for TimelineBuffer {
    type V = Seq<TimelineRecord>;

    closed spec fn view(&self) -> Seq<TimelineRecord> {
        self.records@
    }
}

impl TimelineBuffer {
    pub closed spec fn limit(&self) -> nat {
        self.max_entries as nat
    }

    pub open spec fn wf(&self) -> bool {
        self@.len() <= self.limit()
    }

    pub fn new(max_entries: usize) -> (r: TimelineBuffer)
        ensures
            r@ == Seq::<TimelineRecord>::empty(),
            r.limit() == max_entries,
            r.wf(),
    {
        let r = TimelineBuffer { records: Vec::new(), max_entries };
        assert(r@ =~= Seq::<TimelineRecord>::empty());
        r
    }

    fn forget_oldest(&mut self)
        ensures
            final(self)@ == latest(old(self)@, old(self).limit()),
            final(self).limit() == old(self).limit(),
            final(self).wf(),
    {
        let ghost before = self.records@;
        while self.records.len() > self.max_entries
            invariant
                self.max_entries == old(self).max_entries,
                before == old(self).records@,
                before.len() >= self.records@.len(),
                before.len() > self.max_entries ==> self.records@.len() >= self.max_entries,
                before.len() <= self.max_entries ==> self.records@ == before,
                self.records@ == before.skip(before.len() - self.records@.len()),
            decreases self.records@.len(),
        {
            let _ = self.records.remove(0);
            assert(self.records@ =~= before.skip(before.len() - self.records@.len()));
        }
    }

    /// Adds a record; the oldest make room.
    pub fn push(&mut self, record: TimelineRecord)
        ensures
            final(self)@ == latest(old(self)@.push(record), old(self).limit()),
            final(self).limit() == old(self).limit(),
            final(self).wf(),
    {
        self.records.push(record);
        self.forget_oldest();
    }

    /// Sets the bound; records over it are forgotten, the oldest first.
    pub fn set_max_entries(&mut self, max_entries: usize)
        ensures
            final(self)@ == latest(old(self)@, max_entries as nat),
            final(self).limit() == max_entries,
            final(self).wf(),
    {
        self.max_entries = max_entries;
        self.forget_oldest();
    }

    /// The records, oldest first.
    pub fn records(&self) -> (r: &Vec<TimelineRecord>)
        ensures
            r@ == self@,
    {
        &self.records
    }
}

/// The newest record is always kept, and of the others only the oldest go,
/// once there is no room.
pub proof fn law_the_oldest_records_go(buffer: &mut TimelineBuffer, record: TimelineRecord)
    requires
        call_ensures(TimelineBuffer::push, (buffer, record), ()),
        old(buffer).wf(),
        old(buffer).limit() > 0,
    ensures
        final(buffer)@.len() > 0 && final(buffer)@.last() == record,
        old(buffer)@.len() < old(buffer).limit() ==> final(buffer)@ == old(buffer)@.push(record),
        old(buffer)@.len() == old(buffer).limit() ==> final(buffer)@.len() == old(buffer)@.len()
            && final(buffer)@.drop_last() == old(buffer)@.skip(1),
        final(buffer).limit() == old(buffer).limit(),
{
    if old(buffer)@.len() == old(buffer).limit() {
        assert(final(buffer)@.drop_last() =~= old(buffer)@.skip(1));
    }
}

/// A smaller limit keeps the newest records, a larger one all.
pub proof fn law_a_limit_keeps_the_newest(buffer: &mut TimelineBuffer, limit: usize)
    requires
        call_ensures(TimelineBuffer::set_max_entries, (buffer, limit), ()),
    ensures
        final(buffer).limit() == limit,
        limit >= old(buffer)@.len() ==> final(buffer)@ == old(buffer)@,
        limit < old(buffer)@.len() ==> final(buffer)@.len() == limit && forall|i: int|
            0 <= i < limit ==> #[trigger] final(buffer)@[i] == old(buffer)@[i + old(buffer)@.len()
                - limit],
{
}

} // verus!
