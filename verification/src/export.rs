//! Rate-limited incremental export of a membership snapshot, and the
//! cache gate that decides whether an export is needed at all.
//!
//! The exporter hands the caller one piece of table text at a time —
//! the header first, then one row per fetched member — so the table
//! file can grow incrementally and memory stays bounded by one row.
//! The caller appends each piece to the file in order, enforces the
//! prescribed pause between fetches, and flushes once at the end.

use crate::record::{valid_record, MyUser, RecordModel};
use crate::table::{enc_row, enc_rows, enc_table, header, push_row};
use vstd::prelude::*;
use vstd::string::*;

verus! {

/// Enforced pause between consecutive member fetches, in milliseconds.
pub const RATE_LIMIT_MS: u64 = 25;

/// Whether a fresh export is required for a storage key: only when no
/// table file exists there yet.  An existing file is reused as it is,
/// whatever its age or content.
pub fn should_export(table_file_exists: bool) -> (b: bool)
    ensures
        b == !table_file_exists,
{
    !table_file_exists
}

/// The header line, to be written once before any row.
pub fn table_header() -> (h: String)
    ensures
        h@ == header(),
{
    let mut s = String::new();
    s.append("id,full_name,tg_username\n");
    proof {
        assert(s@ =~= header());
    }
    s
}

/// An export in progress: which members have been fetched, in order,
/// and what row text has been handed out for them.
pub struct Exporter {
    rows_out: Ghost<Seq<char>>,
    members: Ghost<Seq<RecordModel>>,
}

impl Exporter {
    /// The members exported so far, in fetch order.
    pub closed spec fn members(&self) -> Seq<RecordModel> {
        self.members@
    }

    /// The row text handed out so far.
    pub closed spec fn rows_written(&self) -> Seq<char> {
        self.rows_out@
    }

    /// The text handed out so far is exactly the rows of the members
    /// fetched so far.
    pub closed spec fn wf(&self) -> bool {
        self.rows_out@ == enc_rows(self.members@)
    }

    /// Begins an export: no members fetched, no rows handed out.
    pub fn new() -> (e: Exporter)
        ensures
            e.wf(),
            e.members() == Seq::<RecordModel>::empty(),
            e.rows_written() == Seq::<char>::empty(),
    {
        Exporter { rows_out: Ghost(Seq::empty()), members: Ghost(Seq::empty()) }
    }

    /// Renders one fetched member as the next piece of the table file,
    /// and prescribes the pause the caller must enforce before the next
    /// fetch.  The caller hands in only well-formed records — a present
    /// username is non-empty — so every written row reads back.
    pub fn add_member(&mut self, m: &MyUser) -> (r: (String, u64))
        requires
            old(self).wf(),
            valid_record(m@),
        ensures
            final(self).wf(),
            final(self).members() == old(self).members().push(m@),
            r.0@ == enc_row(m@),
            final(self).rows_written() == old(self).rows_written() + r.0@,
            r.1 == RATE_LIMIT_MS,
    {
        let mut row = String::new();
        push_row(&mut row, m);
        proof {
            assert(row@ =~= enc_row(m@));
        }
        self.members = Ghost(self.members@.push(m@));
        self.rows_out = Ghost(self.rows_out@ + row@);
        proof {
            let ms = old(self).members@;
            assert(ms.push(m@).drop_last() =~= ms);
            assert(ms.push(m@).last() == m@);
            assert(enc_rows(ms.push(m@)) == enc_rows(ms) + enc_row(m@));
            assert(self.rows_out@ =~= enc_rows(self.members@));
        }
        (row, RATE_LIMIT_MS)
    }
}

/// A file that received the header and then each handed-out row, in
/// order, holds exactly the table of the exported members.
pub proof fn lemma_export_file_is_table(e: &Exporter)
    requires
        e.wf(),
    ensures
        header() + e.rows_written() == enc_table(e.members()),
{
}

/// Rate-limit floor: n fetched members prescribe n pauses of
/// RATE_LIMIT_MS each, so at least (n - 1) * 25 ms of enforced delay
/// separate n consecutive fetches.
pub proof fn lemma_rate_limit_floor(n: int)
    requires
        n >= 1,
    ensures
        n * RATE_LIMIT_MS >= (n - 1) * 25,
{
}

} // verus!
