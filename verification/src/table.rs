//! The persisted membership table: its exact text layout, the writer,
//! and the reader, with a proved round trip between them.
//!
//! One file holds one snapshot: a header line, then one row per member
//! in export order.  The writer wraps every text field in double quotes
//! with embedded quotes doubled, so a display name may hold any
//! character; an absent username is an empty third field.  The reader
//! also accepts an unquoted field — the text up to the next comma or
//! line feed, holding no quote — so minimally quoted tables read the
//! same way.

use crate::numfmt::{
    dec_digits, digit_char, digit_of, digit_val, i64_digits, i64_to_string, is_digit, is_digit_ch,
    lemma_dec_digits_len_19, lemma_dec_digits_shape, lemma_pow10_mono, pow10,
};
use crate::record::{valid_record, views_of, MyUser, RecordModel};
use crate::strutil::{push_char, str_to_chars};
use crate::RunError;
use vstd::prelude::*;
use vstd::string::*;

verus! {

/// The header line of every table file.
pub open spec fn header() -> Seq<char> {
    "id,full_name,tg_username\n"@
}

/// The escaped body of one text field: every double quote is doubled.
pub open spec fn escape_field(s: Seq<char>) -> Seq<char>
    decreases s.len(),
{
    if s.len() == 0 {
        Seq::empty()
    } else {
        escape_field(s.drop_last()) + (if s.last() == '"' {
            seq!['"', '"']
        } else {
            seq![s.last()]
        })
    }
}

/// One text field: the escaped body wrapped in double quotes.
pub open spec fn enc_field(s: Seq<char>) -> Seq<char> {
    seq!['"'] + escape_field(s) + seq!['"']
}

/// The username column: empty when the record has no username.
pub open spec fn enc_opt_field(o: Option<Seq<char>>) -> Seq<char> {
    match o {
        Option::None => Seq::empty(),
        Option::Some(s) => enc_field(s),
    }
}

/// One row: the id in decimal, the quoted full name, the quoted
/// username or an empty field, and a line feed.
pub open spec fn enc_row(r: RecordModel) -> Seq<char> {
    i64_digits(r.id) + seq![','] + enc_field(r.full_name) + seq![','] + enc_opt_field(
        r.tg_username,
    ) + seq!['\n']
}

/// All rows of a snapshot, in order.
pub open spec fn enc_rows(rs: Seq<RecordModel>) -> Seq<char>
    decreases rs.len(),
{
    if rs.len() == 0 {
        Seq::empty()
    } else {
        enc_rows(rs.drop_last()) + enc_row(rs.last())
    }
}

/// The full table text: header line, then the rows.
pub open spec fn enc_table(rs: Seq<RecordModel>) -> Seq<char> {
    header() + enc_rows(rs)
}

/// Count of leading digit characters.
pub open spec fn take_digits(s: Seq<char>) -> int
    decreases s.len(),
{
    if s.len() > 0 && is_digit(s[0]) {
        1 + take_digits(s.skip(1))
    } else {
        0
    }
}

/// Value of the first k characters read as decimal digits.
pub open spec fn digits_val(s: Seq<char>, k: int) -> int
    decreases k,
{
    if k <= 0 {
        0
    } else {
        digits_val(s, k - 1) * 10 + digit_val(s[k - 1])
    }
}

/// Parses a run of digits: its value and what follows.  Fails on an
/// empty run and on a run too long for a platform id.
pub open spec fn parse_unsigned(s: Seq<char>) -> Option<(int, Seq<char>)> {
    let k = take_digits(s);
    if 1 <= k <= 19 {
        Option::Some((digits_val(s, k), s.skip(k)))
    } else {
        Option::None
    }
}

/// Parses a signed id and checks that it fits the id type.
pub open spec fn parse_id(s: Seq<char>) -> Option<(int, Seq<char>)> {
    if s.len() > 0 && s[0] == '-' {
        match parse_unsigned(s.skip(1)) {
            Option::None => Option::None,
            Option::Some((v, r)) => if -v >= i64::MIN {
                Option::Some((-v, r))
            } else {
                Option::None
            },
        }
    } else {
        match parse_unsigned(s) {
            Option::None => Option::None,
            Option::Some((v, r)) => if v <= i64::MAX {
                Option::Some((v, r))
            } else {
                Option::None
            },
        }
    }
}

/// Parses the body of a quoted field, after the opening quote: a
/// doubled quote is a literal quote, a lone quote closes the field.
pub open spec fn parse_qbody(s: Seq<char>) -> Option<(Seq<char>, Seq<char>)>
    decreases s.len(),
{
    if s.len() == 0 {
        Option::None
    } else if s[0] == '"' {
        if s.len() >= 2 && s[1] == '"' {
            match parse_qbody(s.skip(2)) {
                Option::None => Option::None,
                Option::Some((f, r)) => Option::Some((seq!['"'] + f, r)),
            }
        } else {
            Option::Some((Seq::empty(), s.skip(1)))
        }
    } else {
        match parse_qbody(s.skip(1)) {
            Option::None => Option::None,
            Option::Some((f, r)) => Option::Some((seq![s[0]] + f, r)),
        }
    }
}

/// Whether a character may stand in an unquoted field.
pub open spec fn is_plain(c: char) -> bool {
    c != ',' && c != '\n' && c != '"'
}

/// Count of leading characters that may stand in an unquoted field.
pub open spec fn take_plain(s: Seq<char>) -> int
    decreases s.len(),
{
    if s.len() > 0 && is_plain(s[0]) {
        1 + take_plain(s.skip(1))
    } else {
        0
    }
}

/// Parses an unquoted field: the text up to the next comma or line
/// feed.  A quote inside an unquoted field is malformed.
pub open spec fn parse_plain(s: Seq<char>) -> Option<(Seq<char>, Seq<char>)> {
    let k = take_plain(s);
    if k < s.len() && s[k] == '"' {
        Option::None
    } else {
        Option::Some((s.take(k), s.skip(k)))
    }
}

/// Parses one text field, quoted or unquoted.
pub open spec fn parse_field(s: Seq<char>) -> Option<(Seq<char>, Seq<char>)> {
    if s.len() > 0 && s[0] == '"' {
        parse_qbody(s.skip(1))
    } else {
        parse_plain(s)
    }
}

/// Parses the username column: an empty field is an absent username; a
/// present username must be non-empty, so a quoted-empty one is
/// malformed.
pub open spec fn parse_opt_field(s: Seq<char>) -> Option<(Option<Seq<char>>, Seq<char>)> {
    if s.len() > 0 && s[0] == '"' {
        match parse_qbody(s.skip(1)) {
            Option::None => Option::None,
            Option::Some((f, r)) => if f.len() > 0 {
                Option::Some((Option::Some(f), r))
            } else {
                Option::None
            },
        }
    } else {
        match parse_plain(s) {
            Option::None => Option::None,
            Option::Some((f, r)) => if f.len() > 0 {
                Option::Some((Option::Some(f), r))
            } else {
                Option::Some((Option::None, r))
            },
        }
    }
}

/// Parses one row into a record.
pub open spec fn parse_row(s: Seq<char>) -> Option<(RecordModel, Seq<char>)> {
    match parse_id(s) {
        Option::None => Option::None,
        Option::Some((id, r1)) => if r1.len() > 0 && r1[0] == ',' {
            match parse_field(r1.skip(1)) {
                Option::None => Option::None,
                Option::Some((name, r2)) => if r2.len() > 0 && r2[0] == ',' {
                    match parse_opt_field(r2.skip(1)) {
                        Option::None => Option::None,
                        Option::Some((u, r3)) => if r3.len() > 0 && r3[0] == '\n' {
                            Option::Some(
                                (RecordModel { id: id, full_name: name, tg_username: u }, r3.skip(1)),
                            )
                        } else {
                            Option::None
                        },
                    }
                } else {
                    Option::None
                },
            }
        } else {
            Option::None
        },
    }
}

/// Parses all rows up to the end of the text.
pub open spec fn parse_rows(s: Seq<char>) -> Option<Seq<RecordModel>>
    decreases s.len(),
{
    if s.len() == 0 {
        Option::Some(Seq::empty())
    } else {
        match parse_row(s) {
            Option::None => Option::None,
            Option::Some((u, r)) => if r.len() < s.len() {
                match parse_rows(r) {
                    Option::None => Option::None,
                    Option::Some(us) => Option::Some(seq![u] + us),
                }
            } else {
                Option::None
            },
        }
    }
}

/// Parses a whole table text: the exact header line, then the rows.
pub open spec fn parse_table(s: Seq<char>) -> Option<Seq<RecordModel>> {
    if s.len() >= header().len() && s.subrange(0, header().len() as int) == header() {
        parse_rows(s.skip(header().len() as int))
    } else {
        Option::None
    }
}

/// The escaped body of a non-empty field starts with the escaping of
/// its first character.
pub proof fn lemma_escape_first(f: Seq<char>)
    requires
        f.len() > 0,
    ensures
        escape_field(f) == (if f[0] == '"' {
            seq!['"', '"']
        } else {
            seq![f[0]]
        }) + escape_field(f.skip(1)),
    decreases f.len(),
{
    let head: Seq<char> = if f[0] == '"' {
        seq!['"', '"']
    } else {
        seq![f[0]]
    };
    if f.len() == 1 {
        assert(f.drop_last().len() == 0);
        assert(escape_field(f.drop_last()) == Seq::<char>::empty());
        assert(f.skip(1).len() == 0);
        assert(escape_field(f.skip(1)) == Seq::<char>::empty());
        assert(f.last() == f[0]);
        assert(escape_field(f) =~= head + escape_field(f.skip(1)));
    } else {
        let fd = f.drop_last();
        let tail_esc: Seq<char> = if f.last() == '"' {
            seq!['"', '"']
        } else {
            seq![f.last()]
        };
        assert(escape_field(f) == escape_field(fd) + tail_esc);
        lemma_escape_first(fd);
        assert(fd[0] == f[0]);
        assert(escape_field(fd) == head + escape_field(fd.skip(1)));
        assert(f.skip(1).drop_last() =~= fd.skip(1));
        assert(f.skip(1).last() == f.last());
        assert(f.skip(1).len() > 0);
        assert(escape_field(f.skip(1)) == escape_field(f.skip(1).drop_last()) + tail_esc);
        assert(escape_field(f.skip(1).drop_last()) == escape_field(fd.skip(1)));
        assert(escape_field(f) =~= head + escape_field(f.skip(1)));
    }
}

/// Reading a quoted field body back from its escaped form recovers the
/// field, as long as what follows the closing quote is not itself a
/// quote.
pub proof fn lemma_parse_qbody_round(f: Seq<char>, rest: Seq<char>)
    requires
        rest.len() == 0 || rest[0] != '"',
    ensures
        parse_qbody(escape_field(f) + seq!['"'] + rest) == Option::Some((f, rest)),
    decreases f.len(),
{
    let s = escape_field(f) + seq!['"'] + rest;
    if f.len() == 0 {
        assert(s =~= seq!['"'] + rest);
        assert(s[0] == '"');
        assert(!(s.len() >= 2 && s[1] == '"'));
        assert(s.skip(1) =~= rest);
    } else {
        lemma_escape_first(f);
        lemma_parse_qbody_round(f.skip(1), rest);
        if f[0] == '"' {
            assert(s =~= seq!['"', '"'] + (escape_field(f.skip(1)) + seq!['"'] + rest));
            assert(s[0] == '"' && s.len() >= 2 && s[1] == '"');
            assert(s.skip(2) =~= escape_field(f.skip(1)) + seq!['"'] + rest);
            assert(seq!['"'] + f.skip(1) =~= f);
        } else {
            assert(s =~= seq![f[0]] + (escape_field(f.skip(1)) + seq!['"'] + rest));
            assert(s[0] == f[0]);
            assert(s.skip(1) =~= escape_field(f.skip(1)) + seq!['"'] + rest);
            assert(seq![f[0]] + f.skip(1) =~= f);
        }
    }
}

/// The digit value of the first k characters depends on those
/// characters alone.
pub proof fn lemma_digits_val_prefix(s: Seq<char>, t: Seq<char>, k: int)
    requires
        0 <= k <= s.len(),
        k <= t.len(),
        forall|i: int| 0 <= i < k ==> s[i] == t[i],
    ensures
        digits_val(s, k) == digits_val(t, k),
    decreases k,
{
    if k > 0 {
        lemma_digits_val_prefix(s, t, k - 1);
    }
}

/// A run of digits followed by a non-digit scans as exactly that run.
pub proof fn lemma_take_digits_concat(d: Seq<char>, rest: Seq<char>)
    requires
        forall|i: int| 0 <= i < d.len() ==> is_digit(#[trigger] d[i]),
        rest.len() == 0 || !is_digit(rest[0]),
    ensures
        take_digits(d + rest) == d.len(),
    decreases d.len(),
{
    if d.len() == 0 {
        assert(d + rest =~= rest);
    } else {
        lemma_take_digits_concat(d.skip(1), rest);
        assert((d + rest).skip(1) =~= d.skip(1) + rest);
        assert(is_digit((d + rest)[0]));
    }
}

/// The digit value of a decimal rendering is the rendered number.
pub proof fn lemma_digits_val_dec(n: int, s: Seq<char>)
    requires
        n >= 0,
        dec_digits(n).len() <= s.len(),
        forall|i: int| 0 <= i < dec_digits(n).len() ==> s[i] == dec_digits(n)[i],
    ensures
        digits_val(s, dec_digits(n).len() as int) == n,
    decreases n,
{
    let d = dec_digits(n);
    if n < 10 {
        assert(d == seq![digit_char(n)]);
        assert(s[0] == digit_char(n));
        assert(digits_val(s, 0) == 0);
        assert(digits_val(s, 1) == digits_val(s, 0) * 10 + digit_val(s[0]));
        assert(digit_val(digit_char(n)) == n);
    } else {
        let dh = dec_digits(n / 10);
        assert(d == dh + seq![digit_char(n % 10)]);
        assert(d.len() == dh.len() + 1);
        assert(forall|i: int| 0 <= i < dh.len() ==> s[i] == dh[i]);
        lemma_digits_val_dec(n / 10, s);
        assert(digits_val(s, dh.len() as int) == n / 10);
        assert(s[d.len() - 1] == d[d.len() - 1]);
        assert(s[d.len() - 1] == digit_char(n % 10));
        assert(digit_val(digit_char(n % 10)) == n % 10);
        assert(digits_val(s, d.len() as int) == digits_val(s, d.len() - 1) * 10 + digit_val(
            s[d.len() - 1],
        ));
        assert(digits_val(s, d.len() as int) == (n / 10) * 10 + n % 10);
        assert(n == (n / 10) * 10 + n % 10);
    }
}

/// Reading a rendered unsigned number back recovers it, as long as what
/// follows is not a digit.
pub proof fn lemma_parse_unsigned_round(n: int, rest: Seq<char>)
    requires
        0 <= n <= 0x8000000000000000,
        rest.len() == 0 || !is_digit(rest[0]),
    ensures
        parse_unsigned(dec_digits(n) + rest) == Option::Some((n, rest)),
{
    let d = dec_digits(n);
    let s = d + rest;
    lemma_dec_digits_shape(n);
    lemma_dec_digits_len_19(n);
    lemma_take_digits_concat(d, rest);
    lemma_digits_val_dec(n, s);
    assert(s.skip(d.len() as int) =~= rest);
}

/// Reading a rendered id back recovers it, as long as what follows is
/// not a digit.
pub proof fn lemma_parse_id_round(id: int, rest: Seq<char>)
    requires
        i64::MIN <= id <= i64::MAX,
        rest.len() == 0 || !is_digit(rest[0]),
    ensures
        parse_id(i64_digits(id) + rest) == Option::Some((id, rest)),
{
    let s = i64_digits(id) + rest;
    if id < 0 {
        assert(s[0] == '-');
        assert(s.skip(1) =~= dec_digits(-id) + rest);
        lemma_parse_unsigned_round(-id, rest);
    } else {
        lemma_dec_digits_shape(id);
        assert(s[0] == dec_digits(id)[0]);
        assert(is_digit(s[0]));
        assert(s[0] != '-');
        lemma_parse_unsigned_round(id, rest);
    }
}

/// Reading one written row back recovers the record, whatever follows.
pub proof fn lemma_parse_row_round(r: RecordModel, rest: Seq<char>)
    requires
        valid_record(r),
    ensures
        parse_row(enc_row(r) + rest) == Option::Some((r, rest)),
{
    let s = enc_row(r) + rest;
    let seg3 = seq!['\n'] + rest;
    let seg2 = seq![','] + enc_opt_field(r.tg_username) + seg3;
    let seg1 = seq![','] + enc_field(r.full_name) + seg2;
    assert(s =~= i64_digits(r.id) + seg1);
    assert(seg1[0] == ',');
    assert(!is_digit(seg1[0]));
    lemma_parse_id_round(r.id, seg1);
    assert(seg1.skip(1) =~= enc_field(r.full_name) + seg2);
    assert((enc_field(r.full_name) + seg2)[0] == '"');
    assert((enc_field(r.full_name) + seg2).skip(1) =~= escape_field(r.full_name) + seq!['"']
        + seg2);
    assert(seg2[0] == ',');
    lemma_parse_qbody_round(r.full_name, seg2);
    assert(seg2.skip(1) =~= enc_opt_field(r.tg_username) + seg3);
    assert(seg3[0] == '\n');
    match r.tg_username {
        Option::None => {
            assert(enc_opt_field(r.tg_username) + seg3 =~= seg3);
            assert(!is_plain(seg3[0]));
            assert(take_plain(seg3) == 0);
            assert(seg3.take(0) =~= Seq::<char>::empty());
            assert(seg3.skip(0) =~= seg3);
            assert(parse_opt_field(seg3) == Option::Some((Option::None::<Seq<char>>, seg3)));
        },
        Option::Some(h) => {
            assert((enc_field(h) + seg3)[0] == '"');
            assert((enc_field(h) + seg3).skip(1) =~= escape_field(h) + seq!['"'] + seg3);
            lemma_parse_qbody_round(h, seg3);
            assert(h.len() > 0);
        },
    }
    assert(seg3.skip(1) =~= rest);
    assert(parse_row(s) == Option::Some((r, rest)));
}

/// The rows of a non-empty snapshot start with the first row's text.
pub proof fn lemma_enc_rows_first(rs: Seq<RecordModel>)
    requires
        rs.len() > 0,
    ensures
        enc_rows(rs) == enc_row(rs[0]) + enc_rows(rs.skip(1)),
    decreases rs.len(),
{
    if rs.len() == 1 {
        assert(rs.drop_last().len() == 0);
        assert(enc_rows(rs.drop_last()) == Seq::<char>::empty());
        assert(rs.skip(1).len() == 0);
        assert(enc_rows(rs.skip(1)) == Seq::<char>::empty());
        assert(rs.last() == rs[0]);
        assert(enc_rows(rs) =~= enc_row(rs[0]) + enc_rows(rs.skip(1)));
    } else {
        let rd = rs.drop_last();
        assert(enc_rows(rs) == enc_rows(rd) + enc_row(rs.last()));
        lemma_enc_rows_first(rd);
        assert(rd[0] == rs[0]);
        assert(enc_rows(rd) == enc_row(rs[0]) + enc_rows(rd.skip(1)));
        assert(rs.skip(1).drop_last() =~= rd.skip(1));
        assert(rs.skip(1).last() == rs.last());
        assert(rs.skip(1).len() > 0);
        assert(enc_rows(rs.skip(1)) == enc_rows(rs.skip(1).drop_last()) + enc_row(rs.last()));
        assert(enc_rows(rs.skip(1).drop_last()) == enc_rows(rd.skip(1)));
        assert(enc_rows(rs) =~= enc_row(rs[0]) + enc_rows(rs.skip(1)));
    }
}

/// Reading written rows back recovers the records, in order.
#[verifier::rlimit(50)]
pub proof fn lemma_parse_rows_round(rs: Seq<RecordModel>)
    requires
        forall|i: int| 0 <= i < rs.len() ==> valid_record(#[trigger] rs[i]),
    ensures
        parse_rows(enc_rows(rs)) == Option::Some(rs),
    decreases rs.len(),
{
    if rs.len() == 0 {
        assert(enc_rows(rs).len() == 0);
        assert(rs =~= Seq::<RecordModel>::empty());
    } else {
        let s = enc_rows(rs);
        lemma_enc_rows_first(rs);
        let tail_enc = enc_rows(rs.skip(1));
        lemma_parse_row_round(rs[0], tail_enc);
        assert(parse_row(s) == Option::Some((rs[0], tail_enc)));
        assert(enc_row(rs[0]).len() >= 1);
        assert(s.len() == enc_row(rs[0]).len() + tail_enc.len());
        assert(tail_enc.len() < s.len());
        assert(forall|i: int|
            0 <= i < rs.skip(1).len() ==> valid_record(#[trigger] rs.skip(1)[i]));
        lemma_parse_rows_round(rs.skip(1));
        assert(parse_rows(tail_enc) == Option::Some(rs.skip(1)));
        assert(parse_rows(s) == Option::Some(seq![rs[0]] + rs.skip(1)));
        assert(seq![rs[0]] + rs.skip(1) =~= rs);
    }
}

/// Round trip: reading back a written snapshot yields exactly the
/// written records, in order, for any number of records.
pub proof fn lemma_table_round_trip(rs: Seq<RecordModel>)
    requires
        forall|i: int| 0 <= i < rs.len() ==> valid_record(#[trigger] rs[i]),
    ensures
        parse_table(enc_table(rs)) == Option::Some(rs),
{
    let s = enc_table(rs);
    assert(s.subrange(0, header().len() as int) =~= header());
    assert(s.skip(header().len() as int) =~= enc_rows(rs));
    lemma_parse_rows_round(rs);
}

/// Appends one escaped, quoted text field.
fn push_field(out: &mut String, f: &str)
    ensures
        final(out)@ == old(out)@ + enc_field(f@),
{
    push_char(out, '"');
    let n = f.unicode_len();
    let mut i: usize = 0;
    while i < n
        invariant
            i <= n,
            n == f@.len(),
            out@ == old(out)@ + seq!['"'] + escape_field(f@.subrange(0, i as int)),
        decreases n - i,
    {
        let c = f.get_char(i);
        if c == '"' {
            push_char(out, '"');
            push_char(out, '"');
        } else {
            push_char(out, c);
        }
        i = i + 1;
        proof {
            assert(f@.subrange(0, i as int).drop_last() =~= f@.subrange(0, i as int - 1));
            assert(out@ =~= old(out)@ + seq!['"'] + escape_field(f@.subrange(0, i as int)));
        }
    }
    push_char(out, '"');
    proof {
        assert(f@.subrange(0, n as int) =~= f@);
        assert(out@ =~= old(out)@ + enc_field(f@));
    }
}

/// Appends one record as a table row.  Only records that satisfy the
/// record invariant are ever written, so what was written always reads
/// back.
pub fn push_row(out: &mut String, u: &MyUser)
    requires
        valid_record(u@),
    ensures
        final(out)@ == old(out)@ + enc_row(u@),
{
    let digits = i64_to_string(u.id);
    out.append(digits.as_str());
    push_char(out, ',');
    push_field(out, u.full_name.as_str());
    push_char(out, ',');
    match &u.tg_username {
        Option::None => {},
        Option::Some(h) => push_field(out, h.as_str()),
    }
    push_char(out, '\n');
    proof {
        assert(out@ =~= old(out)@ + enc_row(u@));
    }
}

/// Renders a whole snapshot as the table text.
pub fn encode_table(records: &Vec<MyUser>) -> (r: String)
    requires
        forall|i: int| 0 <= i < records@.len() ==> valid_record(#[trigger] records@[i]@),
    ensures
        r@ == enc_table(views_of(records@)),
{
    let mut out = String::new();
    out.append("id,full_name,tg_username\n");
    proof {
        assert(out@ =~= enc_table(views_of(records@.subrange(0, 0))));
    }
    let mut i: usize = 0;
    while i < records.len()
        invariant
            i <= records@.len(),
            forall|k: int| 0 <= k < records@.len() ==> valid_record(#[trigger] records@[k]@),
            out@ == enc_table(views_of(records@.subrange(0, i as int))),
        decreases records@.len() - i,
    {
        push_row(&mut out, &records[i]);
        i = i + 1;
        proof {
            let cur = views_of(records@.subrange(0, i as int));
            assert(cur.drop_last() =~= views_of(records@.subrange(0, i as int - 1)));
            assert(out@ =~= enc_table(cur));
        }
    }
    proof {
        assert(records@.subrange(0, records@.len() as int) =~= records@);
    }
    out
}

/// A digit scan never counts past the end of the text.
pub proof fn lemma_take_digits_le(s: Seq<char>)
    ensures
        0 <= take_digits(s) <= s.len(),
    decreases s.len(),
{
    if s.len() > 0 && is_digit(s[0]) {
        lemma_take_digits_le(s.skip(1));
    }
}

/// Every character inside the counted digit run is a digit.
pub proof fn lemma_take_digits_prefix(s: Seq<char>)
    ensures
        forall|m: int| 0 <= m < take_digits(s) ==> is_digit(#[trigger] s[m]),
    decreases s.len(),
{
    if s.len() > 0 && is_digit(s[0]) {
        lemma_take_digits_prefix(s.skip(1));
        lemma_take_digits_le(s.skip(1));
        assert forall|m: int| 0 <= m < take_digits(s) implies is_digit(s[m]) by {
            if m > 0 {
                assert(s[m] == s.skip(1)[m - 1]);
            }
        }
    }
}

/// A parsed quoted field consumes at least its closing quote.
pub proof fn lemma_parse_qbody_consumes(s: Seq<char>)
    ensures
        parse_qbody(s) matches Option::Some((f, r)) ==> r.len() < s.len(),
    decreases s.len(),
{
    if s.len() == 0 {
    } else if s[0] == '"' {
        if s.len() >= 2 && s[1] == '"' {
            lemma_parse_qbody_consumes(s.skip(2));
        }
    } else {
        lemma_parse_qbody_consumes(s.skip(1));
    }
}

/// An unquoted-field scan never counts past the end of the text.
pub proof fn lemma_take_plain_le(s: Seq<char>)
    ensures
        0 <= take_plain(s) <= s.len(),
    decreases s.len(),
{
    if s.len() > 0 && is_plain(s[0]) {
        lemma_take_plain_le(s.skip(1));
    }
}

/// A parsed id consumes at least one character.
pub proof fn lemma_parse_id_consumes(s: Seq<char>)
    ensures
        parse_id(s) matches Option::Some((v, r)) ==> r.len() < s.len(),
{
    lemma_take_digits_le(s);
    if s.len() > 0 && s[0] == '-' {
        lemma_take_digits_le(s.skip(1));
    }
}

/// A parsed row consumes at least its line feed.
pub proof fn lemma_parse_row_consumes(s: Seq<char>)
    ensures
        parse_row(s) matches Option::Some((u, r)) ==> r.len() < s.len(),
{
    lemma_parse_id_consumes(s);
    if parse_id(s) is Some {
        let (id, r1) = parse_id(s)->Some_0;
        if r1.len() > 0 && r1[0] == ',' {
            let s1 = r1.skip(1);
            lemma_parse_qbody_consumes(s1.skip(1));
            lemma_take_plain_le(s1);
            if parse_field(s1) is Some {
                let (name, r2) = parse_field(s1)->Some_0;
                assert(r2.len() <= s1.len());
                if r2.len() > 0 && r2[0] == ',' {
                    let s2 = r2.skip(1);
                    lemma_parse_qbody_consumes(s2.skip(1));
                    lemma_take_plain_le(s2);
                    if parse_opt_field(s2) is Some {
                        let (u2, r3) = parse_opt_field(s2)->Some_0;
                        assert(r3.len() <= s2.len());
                    }
                }
            }
        }
    }
}

/// The end of the digit run that starts at a position.
fn digits_end(v: &Vec<char>, i: usize) -> (j: usize)
    requires
        i <= v@.len(),
    ensures
        i <= j <= v@.len(),
        take_digits(v@.skip(i as int)) == j - i,
{
    let mut j = i;
    while j < v.len() && is_digit_ch(v[j])
        invariant
            i <= j <= v@.len(),
            take_digits(v@.skip(i as int)) == (j - i) + take_digits(v@.skip(j as int)),
        decreases v@.len() - j,
    {
        proof {
            assert(v@.skip(j as int).skip(1) =~= v@.skip(j as int + 1));
            assert(is_digit(v@.skip(j as int)[0]));
        }
        j = j + 1;
    }
    proof {
        if j < v@.len() {
            assert(!is_digit(v@.skip(j as int)[0]));
        }
        assert(take_digits(v@.skip(j as int)) == 0);
    }
    j
}

/// Scans a digit run: its value and the position after it.
fn scan_unsigned(v: &Vec<char>, i: usize) -> (r: Option<(u64, usize)>)
    requires
        i <= v@.len(),
    ensures
        match r {
            Option::Some((val, j)) => {
                &&& parse_unsigned(v@.skip(i as int)) == Option::Some(
                    (val as int, v@.skip(j as int)),
                )
                &&& i <= j <= v@.len()
            },
            Option::None => parse_unsigned(v@.skip(i as int)) is None,
        },
{
    let j = digits_end(v, i);
    if j == i || j - i > 19 {
        return Option::None;
    }
    proof {
        lemma_take_digits_prefix(v@.skip(i as int));
        assert(pow10(0) == 1);
    }
    let mut p = i;
    let mut acc: u64 = 0;
    while p < j
        invariant
            i <= p <= j <= v@.len(),
            j - i <= 19,
            take_digits(v@.skip(i as int)) == j - i,
            forall|m: int| 0 <= m < j - i ==> is_digit(#[trigger] v@.skip(i as int)[m]),
            acc == digits_val(v@.skip(i as int), p - i),
            acc < pow10(p - i),
        decreases j - p,
    {
        proof {
            assert(v@.skip(i as int)[p - i] == v@[p as int]);
            assert(is_digit(v@[p as int]));
        }
        let d = match digit_of(v[p]) {
            Option::Some(d) => d,
            Option::None => {
                proof {
                    assert(false);
                }
                0
            },
        };
        proof {
            assert(p - i <= 18);
            lemma_pow10_mono(p - i, 18);
            assert(pow10(18) == 1000000000000000000) by {
                reveal_with_fuel(pow10, 19);
            }
            assert(acc * 10 + d < pow10(p - i + 1));
        }
        acc = acc * 10 + d;
        p = p + 1;
    }
    proof {
        assert(v@.skip(i as int).skip((j - i) as int) =~= v@.skip(j as int));
    }
    Option::Some((acc, j))
}

/// Scans a signed id and checks that it fits the id type.
fn scan_id(v: &Vec<char>, i: usize) -> (r: Option<(i64, usize)>)
    requires
        i <= v@.len(),
    ensures
        match r {
            Option::Some((id, j)) => {
                &&& parse_id(v@.skip(i as int)) == Option::Some((id as int, v@.skip(j as int)))
                &&& i <= j <= v@.len()
            },
            Option::None => parse_id(v@.skip(i as int)) is None,
        },
{
    if i < v.len() && v[i] == '-' {
        proof {
            assert(v@.skip(i as int)[0] == '-');
            assert(v@.skip(i as int).skip(1) =~= v@.skip(i as int + 1));
        }
        match scan_unsigned(v, i + 1) {
            Option::None => Option::None,
            Option::Some((val, j)) => {
                if val <= 0x8000000000000000u64 {
                    let id: i64 = if val == 0x8000000000000000u64 {
                        i64::MIN
                    } else {
                        -(val as i64)
                    };
                    Option::Some((id, j))
                } else {
                    Option::None
                }
            },
        }
    } else {
        proof {
            if i < v@.len() {
                assert(v@.skip(i as int)[0] == v@[i as int]);
            }
        }
        match scan_unsigned(v, i) {
            Option::None => Option::None,
            Option::Some((val, j)) => {
                if val <= 0x7fffffffffffffffu64 {
                    Option::Some((val as i64, j))
                } else {
                    Option::None
                }
            },
        }
    }
}

/// Scans the body of a quoted field, after the opening quote.
fn scan_qbody(v: &Vec<char>, i: usize) -> (r: Option<(String, usize)>)
    requires
        i <= v@.len(),
    ensures
        match r {
            Option::Some((f, j)) => {
                &&& parse_qbody(v@.skip(i as int)) == Option::Some((f@, v@.skip(j as int)))
                &&& i <= j <= v@.len()
            },
            Option::None => parse_qbody(v@.skip(i as int)) is None,
        },
{
    let mut field = String::new();
    let mut j = i;
    loop
        invariant
            i <= j <= v@.len(),
            parse_qbody(v@.skip(i as int)) == (match parse_qbody(v@.skip(j as int)) {
                Option::None => Option::None::<(Seq<char>, Seq<char>)>,
                Option::Some((f2, r2)) => Option::Some((field@ + f2, r2)),
            }),
        decreases v@.len() - j,
    {
        if j == v.len() {
            proof {
                assert(v@.skip(j as int).len() == 0);
            }
            return Option::None;
        }
        let c = v[j];
        proof {
            assert(v@.skip(j as int)[0] == v@[j as int]);
        }
        if c == '"' {
            if j + 1 < v.len() && v[j + 1] == '"' {
                proof {
                    assert(v@.skip(j as int)[1] == v@[j as int + 1]);
                    assert(v@.skip(j as int).skip(2) =~= v@.skip(j as int + 2));
                    let inner = parse_qbody(v@.skip(j as int + 2));
                    if inner is Some {
                        let (f2, r2) = inner->Some_0;
                        assert(field@ + (seq!['"'] + f2) =~= (field@ + seq!['"']) + f2);
                        assert(field@.push('"') =~= field@ + seq!['"']);
                    }
                }
                push_char(&mut field, '"');
                j = j + 2;
            } else {
                proof {
                    let s = v@.skip(j as int);
                    assert(!(s.len() >= 2 && s[1] == '"'));
                    assert(s.skip(1) =~= v@.skip(j as int + 1));
                    assert(field@ + Seq::<char>::empty() =~= field@);
                }
                return Option::Some((field, j + 1));
            }
        } else {
            proof {
                assert(v@.skip(j as int).skip(1) =~= v@.skip(j as int + 1));
                let inner = parse_qbody(v@.skip(j as int + 1));
                if inner is Some {
                    let (f2, r2) = inner->Some_0;
                    assert(field@ + (seq![v@[j as int]] + f2) =~= (field@ + seq![v@[j as int]])
                        + f2);
                    assert(field@.push(v@[j as int]) =~= field@ + seq![v@[j as int]]);
                }
            }
            push_char(&mut field, c);
            j = j + 1;
        }
    }
}

/// Whether a character may stand in an unquoted field.
fn is_plain_ch(c: char) -> (r: bool)
    ensures
        r == is_plain(c),
{
    c != ',' && c != '\n' && c != '"'
}

/// Scans one unquoted field: the text up to the next comma or line
/// feed.
fn scan_plain(v: &Vec<char>, i: usize) -> (r: Option<(String, usize)>)
    requires
        i <= v@.len(),
    ensures
        match r {
            Option::Some((f, j)) => {
                &&& parse_plain(v@.skip(i as int)) == Option::Some((f@, v@.skip(j as int)))
                &&& i <= j <= v@.len()
            },
            Option::None => parse_plain(v@.skip(i as int)) is None,
        },
{
    let mut field = String::new();
    let mut j = i;
    proof {
        assert(field@ =~= v@.skip(i as int).take(0));
    }
    while j < v.len() && is_plain_ch(v[j])
        invariant
            i <= j <= v@.len(),
            take_plain(v@.skip(i as int)) == (j - i) + take_plain(v@.skip(j as int)),
            field@ == v@.skip(i as int).take(j - i),
        decreases v@.len() - j,
    {
        proof {
            assert(v@.skip(j as int).skip(1) =~= v@.skip(j as int + 1));
            assert(is_plain(v@.skip(j as int)[0]));
        }
        push_char(&mut field, v[j]);
        j = j + 1;
        proof {
            assert(field@ =~= v@.skip(i as int).take(j - i));
        }
    }
    proof {
        if j < v@.len() {
            assert(!is_plain(v@.skip(j as int)[0]));
        }
        assert(take_plain(v@.skip(j as int)) == 0);
    }
    if j < v.len() && v[j] == '"' {
        proof {
            assert(v@.skip(i as int)[j - i] == v@[j as int]);
        }
        Option::None
    } else {
        proof {
            assert(v@.skip(i as int).skip(j - i) =~= v@.skip(j as int));
            if (j - i) < v@.skip(i as int).len() {
                assert(v@.skip(i as int)[j - i] == v@[j as int]);
            }
        }
        Option::Some((field, j))
    }
}

/// Scans one text field, quoted or unquoted.
fn scan_field(v: &Vec<char>, i: usize) -> (r: Option<(String, usize)>)
    requires
        i <= v@.len(),
    ensures
        match r {
            Option::Some((f, j)) => {
                &&& parse_field(v@.skip(i as int)) == Option::Some((f@, v@.skip(j as int)))
                &&& i <= j <= v@.len()
            },
            Option::None => parse_field(v@.skip(i as int)) is None,
        },
{
    if i < v.len() && v[i] == '"' {
        proof {
            assert(v@.skip(i as int)[0] == '"');
            assert(v@.skip(i as int).skip(1) =~= v@.skip(i as int + 1));
        }
        scan_qbody(v, i + 1)
    } else {
        proof {
            if i < v@.len() {
                assert(v@.skip(i as int)[0] == v@[i as int]);
            }
        }
        scan_plain(v, i)
    }
}

/// Scans the username column: an empty field is an absent username.
fn scan_opt_field(v: &Vec<char>, i: usize) -> (r: Option<(Option<String>, usize)>)
    requires
        i <= v@.len(),
    ensures
        match r {
            Option::Some((f, j)) => {
                &&& parse_opt_field(v@.skip(i as int)) == Option::Some(
                    (
                        match f {
                            Option::None => Option::None::<Seq<char>>,
                            Option::Some(h) => Option::Some(h@),
                        },
                        v@.skip(j as int),
                    ),
                )
                &&& i <= j <= v@.len()
            },
            Option::None => parse_opt_field(v@.skip(i as int)) is None,
        },
{
    if i < v.len() && v[i] == '"' {
        proof {
            assert(v@.skip(i as int)[0] == '"');
            assert(v@.skip(i as int).skip(1) =~= v@.skip(i as int + 1));
        }
        match scan_qbody(v, i + 1) {
            Option::None => Option::None,
            Option::Some((f, j)) => {
                if f.as_str().unicode_len() > 0 {
                    Option::Some((Option::Some(f), j))
                } else {
                    Option::None
                }
            },
        }
    } else {
        proof {
            if i < v@.len() {
                assert(v@.skip(i as int)[0] == v@[i as int]);
            }
        }
        match scan_plain(v, i) {
            Option::None => Option::None,
            Option::Some((f, j)) => {
                if f.as_str().unicode_len() > 0 {
                    Option::Some((Option::Some(f), j))
                } else {
                    Option::Some((Option::None, j))
                }
            },
        }
    }
}

/// Scans one row into a record.
fn scan_row(v: &Vec<char>, i: usize) -> (r: Option<(MyUser, usize)>)
    requires
        i <= v@.len(),
    ensures
        match r {
            Option::Some((u, j)) => {
                &&& parse_row(v@.skip(i as int)) == Option::Some((u@, v@.skip(j as int)))
                &&& i <= j <= v@.len()
            },
            Option::None => parse_row(v@.skip(i as int)) is None,
        },
{
    let (id, j1) = match scan_id(v, i) {
        Option::None => {
            return Option::None;
        },
        Option::Some(p) => p,
    };
    if !(j1 < v.len() && v[j1] == ',') {
        proof {
            if j1 < v@.len() {
                assert(v@.skip(j1 as int)[0] == v@[j1 as int]);
            }
        }
        return Option::None;
    }
    proof {
        assert(v@.skip(j1 as int)[0] == ',');
        assert(v@.skip(j1 as int).skip(1) =~= v@.skip(j1 as int + 1));
    }
    let (name, j2) = match scan_field(v, j1 + 1) {
        Option::None => {
            return Option::None;
        },
        Option::Some(p) => p,
    };
    if !(j2 < v.len() && v[j2] == ',') {
        proof {
            if j2 < v@.len() {
                assert(v@.skip(j2 as int)[0] == v@[j2 as int]);
            }
        }
        return Option::None;
    }
    proof {
        assert(v@.skip(j2 as int)[0] == ',');
        assert(v@.skip(j2 as int).skip(1) =~= v@.skip(j2 as int + 1));
    }
    let (username, j3) = match scan_opt_field(v, j2 + 1) {
        Option::None => {
            return Option::None;
        },
        Option::Some(p) => p,
    };
    if !(j3 < v.len() && v[j3] == '\n') {
        proof {
            if j3 < v@.len() {
                assert(v@.skip(j3 as int)[0] == v@[j3 as int]);
            }
        }
        return Option::None;
    }
    proof {
        assert(v@.skip(j3 as int)[0] == '\n');
        assert(v@.skip(j3 as int).skip(1) =~= v@.skip(j3 as int + 1));
    }
    let u = MyUser { id, full_name: name, tg_username: username };
    Option::Some((u, j3 + 1))
}

/// Reads a whole table text back into records.  Succeeds exactly on
/// texts this module's writer produces; any malformed row aborts the
/// whole read.
pub fn parse_table_text(text: &str) -> (r: Result<Vec<MyUser>, RunError>)
    ensures
        match r {
            Ok(v) => parse_table(text@) == Option::Some(views_of(v@)),
            Err(e) => parse_table(text@) is None && e == RunError::RecordReadError,
        },
{
    let v = str_to_chars(text);
    let hdr = str_to_chars("id,full_name,tg_username\n");
    if v.len() < hdr.len() {
        proof {
            assert(text@.len() < header().len());
        }
        return Err(RunError::RecordReadError);
    }
    let mut h: usize = 0;
    while h < hdr.len()
        invariant
            h <= hdr@.len() <= v@.len(),
            v@ == text@,
            hdr@ == header(),
            forall|m: int| 0 <= m < h ==> v@[m] == hdr@[m],
        decreases hdr@.len() - h,
    {
        if v[h] != hdr[h] {
            proof {
                assert(text@.subrange(0, header().len() as int)[h as int] != header()[h as int]);
            }
            return Err(RunError::RecordReadError);
        }
        h = h + 1;
    }
    proof {
        assert(text@.subrange(0, header().len() as int) =~= header());
    }
    let mut out: Vec<MyUser> = Vec::new();
    let mut i: usize = hdr.len();
    while i < v.len()
        invariant
            i <= v@.len(),
            v@ == text@,
            hdr@ == header(),
            parse_table(text@) == (match parse_rows(v@.skip(i as int)) {
                Option::None => Option::None::<Seq<RecordModel>>,
                Option::Some(us) => Option::Some(views_of(out@) + us),
            }),
        decreases v@.len() - i,
    {
        match scan_row(&v, i) {
            Option::None => {
                return Err(RunError::RecordReadError);
            },
            Option::Some((u, j)) => {
                proof {
                    lemma_parse_row_consumes(v@.skip(i as int));
                    assert(v@.skip(j as int).len() < v@.skip(i as int).len());
                    let inner = parse_rows(v@.skip(j as int));
                    if inner is Some {
                        let us = inner->Some_0;
                        assert(views_of(out@.push(u)) =~= views_of(out@) + seq![u@]);
                        assert(views_of(out@) + (seq![u@] + us) =~= (views_of(out@) + seq![u@])
                            + us);
                    }
                }
                out.push(u);
                i = j;
            },
        }
    }
    proof {
        assert(v@.skip(i as int).len() == 0);
        assert(parse_rows(v@.skip(i as int)) == Option::Some(Seq::<RecordModel>::empty()));
        assert(views_of(out@) + Seq::<RecordModel>::empty() =~= views_of(out@));
    }
    Ok(out)
}

} // verus!
