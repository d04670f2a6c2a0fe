//! Folding persisted records into one space-separated mention string.

use crate::record::{mention_of, views_of, MyUser, RecordModel};
use crate::strutil::str_eq;
use crate::table::{parse_table, parse_table_text};
use crate::RunError;
use vstd::prelude::*;
use vstd::string::*;

verus! {

/// The contribution of one record to the mention string: its token and
/// a trailing space, or nothing when the token equals the configured
/// self-mention.
pub open spec fn token_of(r: RecordModel, self_filter: Seq<char>) -> Seq<char> {
    if mention_of(r) == self_filter {
        Seq::empty()
    } else {
        mention_of(r) + seq![' ']
    }
}

/// The mention string of a sequence of records, in order, with the
/// self-mention excluded.  Every surviving token is followed by exactly
/// one space, so a non-empty result ends in a space.
pub open spec fn mentions_of(rs: Seq<RecordModel>, self_filter: Seq<char>) -> Seq<char>
    decreases rs.len(),
{
    if rs.len() == 0 {
        Seq::empty()
    } else {
        mentions_of(rs.drop_last(), self_filter) + token_of(rs.last(), self_filter)
    }
}

/// Builds the outgoing mention message from the records of one
/// snapshot, in file order, skipping the self-mention.
pub fn build_mentions(records: &Vec<MyUser>, self_filter: &str) -> (r: String)
    ensures
        r@ == mentions_of(views_of(records@), self_filter@),
{
    let mut out = String::new();
    let mut i: usize = 0;
    while i < records.len()
        invariant
            i <= records@.len(),
            out@ == mentions_of(views_of(records@.subrange(0, i as int)), self_filter@),
        decreases records@.len() - i,
    {
        let m = records[i].get_mention();
        if !str_eq(m.as_str(), self_filter) {
            out.append(m.as_str());
            out.append(" ");
        }
        i = i + 1;
        proof {
            reveal_strlit(" ");
            let pre = views_of(records@.subrange(0, i as int - 1));
            let cur = views_of(records@.subrange(0, i as int));
            assert(cur.drop_last() =~= pre);
            assert(cur.last() == records@[i as int - 1]@);
            assert(out@ =~= mentions_of(cur, self_filter@));
        }
    }
    proof {
        assert(records@.subrange(0, records@.len() as int) =~= records@);
    }
    out
}

/// Reads one snapshot text and folds it into the outgoing mention
/// string, in file order, excluding the configured self-mention.  Any
/// malformed row aborts the whole build.
pub fn parse_pings(text: &str, bot_mention: &str) -> (r: Result<String, RunError>)
    ensures
        match r {
            Ok(m) => parse_table(text@) matches Option::Some(rs) && m@ == mentions_of(
                rs,
                bot_mention@,
            ),
            Err(e) => parse_table(text@) is None && e == RunError::RecordReadError,
        },
{
    match parse_table_text(text) {
        Err(e) => Err(e),
        Ok(records) => Ok(build_mentions(&records, bot_mention)),
    }
}

} // verus!
