//! The match record sink: the byte format of one match record, and an
//! append-only log of such records.
//!
//! Every lane reports its matches through one shared sink; the contract
//! here is that an append adds exactly one whole record at the end, so no
//! record is ever lost or interleaved.  The durable file behind the log,
//! and the mutual exclusion of the lanes around it, live outside the
//! library.

use vstd::prelude::*;

use vstd::string::StringSliceAdditionalSpecFns;

verus! {

/// The bytes of `Number: `.
pub open spec fn spec_number_label() -> Seq<u8> {
    seq![78u8, 117u8, 109u8, 98u8, 101u8, 114u8, 58u8, 32u8]
}

/// The bytes of a line feed followed by `Address: `.
pub open spec fn spec_address_label() -> Seq<u8> {
    seq![10u8, 65u8, 100u8, 100u8, 114u8, 101u8, 115u8, 115u8, 58u8, 32u8]
}

/// One match record: a `Number: ` line with the candidate, an `Address: `
/// line with the derived address, and a terminating blank separator line.
pub open spec fn record_of(number: Seq<u8>, address: Seq<u8>) -> Seq<u8> {
    spec_number_label() + number + spec_address_label() + address + seq![10u8, 10u8]
}

/// The concatenation of a sequence of records.
pub open spec fn concat_records(rs: Seq<Seq<u8>>) -> Seq<u8>
    decreases rs.len(),
{
    if rs.len() == 0 {
        Seq::empty()
    } else {
        concat_records(rs.drop_last()) + rs.last()
    }
}

/// Appends `src` to `dst` byte by byte.
fn extend_bytes(dst: &mut Vec<u8>, src: &[u8])
    ensures
        final(dst)@ =~= old(dst)@ + src@,
{
    let mut i: usize = 0;
    while i < src.len()
        invariant
            i <= src@.len(),
            dst@ =~= old(dst)@ + src@.subrange(0, i as int),
        decreases src@.len() - i,
    {
        let b = src[i];
        dst.push(b);
        proof {
            assert(old(dst)@ + src@.subrange(0, i as int) + seq![src@[i as int]] =~= old(dst)@
                + src@.subrange(0, i + 1));
        }
        i += 1;
    }
    proof {
        assert(src@.subrange(0, src@.len() as int) =~= src@);
    }
}

/// Formats one match record: `Number: ` and the candidate, `Address: ` and
/// the address, each on its own line, followed by a blank separator line.
pub fn format_record(number: &[u8], address: &str) -> (r: Vec<u8>)
    ensures
        r@ == record_of(number@, address.spec_bytes()),
{
    let mut r: Vec<u8> = Vec::new();
    r.push(78u8);
    r.push(117u8);
    r.push(109u8);
    r.push(98u8);
    r.push(101u8);
    r.push(114u8);
    r.push(58u8);
    r.push(32u8);
    proof {
        assert(r@ =~= spec_number_label());
    }
    extend_bytes(&mut r, number);
    let mut label: Vec<u8> = Vec::new();
    label.push(10u8);
    label.push(65u8);
    label.push(100u8);
    label.push(100u8);
    label.push(114u8);
    label.push(101u8);
    label.push(115u8);
    label.push(115u8);
    label.push(58u8);
    label.push(32u8);
    proof {
        assert(label@ =~= spec_address_label());
    }
    extend_bytes(&mut r, label.as_slice());
    extend_bytes(&mut r, address.as_bytes());
    r.push(10u8);
    r.push(10u8);
    proof {
        assert(r@ =~= record_of(number@, address.spec_bytes()));
    }
    r
}

/// An append-only in-memory log of match records.  The ghost record list
/// pins the byte content down: the log is exactly the concatenation of the
/// records appended so far, in order.
pub struct RecordSink {
    /// The bytes of the log.
    pub data: Vec<u8>,
    /// How many records the log holds.
    pub count: usize,
    /// The records appended so far.
    pub records: Ghost<Seq<Seq<u8>>>,
}

impl RecordSink {
    /// The log holds exactly its records, in order, and counts them.
    pub open spec fn wf(&self) -> bool {
        self.data@ == concat_records(self.records@) && self.count == self.records@.len()
    }

    /// An empty sink.
    pub fn new() -> (r: Self)
        ensures
            r.wf(),
            r.records@ == Seq::<Seq<u8>>::empty(),
            r.data@ == Seq::<u8>::empty(),
            r.count == 0,
    {
        RecordSink { data: Vec::new(), count: 0, records: Ghost(Seq::empty()) }
    }

    /// Appends the record of one match.  Exactly the record's bytes are
    /// added, at the end: no record is lost and none interleaves another.
    pub fn append(&mut self, number: &[u8], address: &str)
        requires
            old(self).wf(),
            old(self).count < usize::MAX,
        ensures
            final(self).wf(),
            final(self).records@ =~= old(self).records@.push(
                record_of(number@, address.spec_bytes()),
            ),
            final(self).data@ == old(self).data@ + record_of(number@, address.spec_bytes()),
            final(self).count == old(self).count + 1,
    {
        let mut rec = format_record(number, address);
        self.data.append(&mut rec);
        self.count = self.count + 1;
        proof {
            let recs = old(self).records@.push(record_of(number@, address.spec_bytes()));
            self.records@ = recs;
            assert(recs.drop_last() =~= old(self).records@);
            assert(concat_records(recs) == concat_records(old(self).records@) + record_of(
                number@,
                address.spec_bytes(),
            ));
        }
    }
}

} // verus!
