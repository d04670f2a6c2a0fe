//! The per-member record, its mention token, and resolved chats.

use crate::numfmt::{dec_digits, i64_digits, i64_to_string};
use vstd::prelude::*;
use vstd::string::*;

verus! {

/// Mathematical content of one member record.
pub ghost struct RecordModel {
    pub id: int,
    pub full_name: Seq<char>,
    pub tg_username: Option<Seq<char>>,
}

/// One member of a chat, as persisted in the table: the platform id,
/// the display name at export time, and the optional unique username.
#[derive(Debug, Clone, PartialEq)]
pub struct MyUser {
    pub id: i64,
    pub full_name: String,
    pub tg_username: Option<String>,
}

impl View for MyUser {
    type V = RecordModel;

    open spec fn view(&self) -> RecordModel {
        RecordModel {
            id: self.id as int,
            full_name: self.full_name@,
            tg_username: match self.tg_username {
                Option::None => Option::None,
                Option::Some(u) => Option::Some(u@),
            },
        }
    }
}

/// A record is well formed when its id fits the platform's id type and
/// its username, when present, is non-empty.
pub open spec fn valid_record(r: RecordModel) -> bool {
    &&& i64::MIN <= r.id <= i64::MAX
    &&& (r.tg_username matches Some(u) ==> u.len() > 0)
}

/// The mention token of one record: `@username` when a username is
/// known, `@id(full name)` otherwise.
pub open spec fn mention_of(r: RecordModel) -> Seq<char> {
    match r.tg_username {
        Option::Some(u) => seq!['@'] + u,
        Option::None => seq!['@'] + i64_digits(r.id) + seq!['('] + r.full_name + seq![')'],
    }
}

impl MyUser {
    /// The token used to notify this member in an outgoing message.
    pub fn get_mention(&self) -> (r: String)
        ensures
            r@ == mention_of(self@),
    {
        let mut s = String::new();
        s.append("@");
        match &self.tg_username {
            Option::None => {
                let digits = i64_to_string(self.id);
                s.append(digits.as_str());
                s.append("(");
                s.append(self.full_name.as_str());
                s.append(")");
            },
            Option::Some(u) => {
                s.append(u.as_str());
            },
        }
        proof {
            reveal_strlit("@");
            reveal_strlit("(");
            reveal_strlit(")");
            assert(s@ =~= mention_of(self@));
        }
        s
    }
}

/// The views of a vector of records, in order.
pub open spec fn views_of(rs: Seq<MyUser>) -> Seq<RecordModel> {
    rs.map_values(|u: MyUser| u@)
}

/// A resolved chat: the numeric id, the display name it was found under,
/// and its public username when it has one.  The session-scoped packed
/// addressing token stays with the session that produced it, outside the
/// library.
#[derive(Debug, Clone, PartialEq)]
pub struct ChatRef {
    pub id: i64,
    pub name: String,
    pub username: Option<String>,
}

/// The storage key of a chat's table file, keyed by chat id.
pub open spec fn filepath_of(id: int) -> Seq<char> {
    "csv/"@ + i64_digits(id) + ".csv"@
}

/// The path of the table file that persists a chat's membership.
pub fn filepath_from_chat(chat: &ChatRef) -> (r: String)
    ensures
        r@ == filepath_of(chat.id as int),
{
    let mut s = String::new();
    s.append("csv/");
    let digits = i64_to_string(chat.id);
    s.append(digits.as_str());
    s.append(".csv");
    proof {
        assert(s@ =~= filepath_of(chat.id as int));
    }
    s
}

} // verus!
