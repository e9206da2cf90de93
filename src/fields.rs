use vstd::prelude::*;
use vstd::string::*;
use crate::filter::{trim_spec, trim_str};
use crate::folder::{eq_ignore_case, eq_ignore_case_exec};

verus! {

/// A column that a query listing can show.
#[derive(Debug, Clone, Copy, PartialEq, Eq, Structural)]
pub enum QueryField {
    Uid,
    MessageId,
    Subject,
    From,
    Date,
    Flags,
}

/// The column named by `s`, ignoring ASCII case.
pub open spec fn field_from_name(s: Seq<char>) -> Option<QueryField> {
    if eq_ignore_case(s, "uid"@) {
        Some(QueryField::Uid)
    } else if eq_ignore_case(s, "message_id"@) || eq_ignore_case(s, "messageid"@)
        || eq_ignore_case(s, "id"@) {
        Some(QueryField::MessageId)
    } else if eq_ignore_case(s, "subject"@) {
        Some(QueryField::Subject)
    } else if eq_ignore_case(s, "from"@) {
        Some(QueryField::From)
    } else if eq_ignore_case(s, "date"@) {
        Some(QueryField::Date)
    } else if eq_ignore_case(s, "flags"@) {
        Some(QueryField::Flags)
    } else {
        None
    }
}

pub open spec fn add_field(fs: Seq<QueryField>, piece: Seq<char>) -> Seq<QueryField> {
    match field_from_name(trim_spec(piece)) {
        Some(f) => fs.push(f),
        None => fs,
    }
}

/// Columns read so far from a comma-separated list, and the piece being read.
pub open spec fn field_scan(s: Seq<char>) -> (Seq<QueryField>, Seq<char>)
    decreases s.len(),
{
    if s.len() == 0 {
        (seq![], seq![])
    } else {
        let (fs, piece) = field_scan(s.drop_last());
        if s.last() == ',' {
            (add_field(fs, piece), seq![])
        } else {
            (fs, piece.push(s.last()))
        }
    }
}

/// The columns named in a comma-separated list, each piece trimmed; unknown names are
/// skipped.
pub open spec fn parse_fields_spec(s: Seq<char>) -> Seq<QueryField> {
    let (fs, piece) = field_scan(s);
    add_field(fs, piece)
}

impl QueryField {
    /// The column named by `s`, ignoring ASCII case.
    pub fn from_str(s: &str) -> (r: Option<QueryField>)
        ensures
            r == field_from_name(s@),
    {
        if eq_ignore_case_exec(s, "uid") {
            Some(QueryField::Uid)
        } else if eq_ignore_case_exec(s, "message_id") || eq_ignore_case_exec(s, "messageid")
            || eq_ignore_case_exec(s, "id") {
            Some(QueryField::MessageId)
        } else if eq_ignore_case_exec(s, "subject") {
            Some(QueryField::Subject)
        } else if eq_ignore_case_exec(s, "from") {
            Some(QueryField::From)
        } else if eq_ignore_case_exec(s, "date") {
            Some(QueryField::Date)
        } else if eq_ignore_case_exec(s, "flags") {
            Some(QueryField::Flags)
        } else {
            None
        }
    }
}

fn add_field_exec(fs: &mut Vec<QueryField>, piece: &str)
    ensures
        final(fs)@ == add_field(old(fs)@, piece@),
{
    match QueryField::from_str(trim_str(piece)) {
        Some(f) => fs.push(f),
        None => {},
    }
}

/// The columns named in a comma-separated list; unknown names are skipped.
pub fn parse_fields(fields_str: &str) -> (r: Vec<QueryField>)
    ensures
        r@ == parse_fields_spec(fields_str@),
{
    let n = fields_str.unicode_len();
    let mut fs: Vec<QueryField> = Vec::new();
    let mut piece = String::new();
    let mut i: usize = 0;
    while i < n
        invariant
            n == fields_str@.len(),
            i <= n,
            (fs@, piece@) == field_scan(fields_str@.subrange(0, i as int)),
        decreases n - i,
    {
        proof {
            assert(fields_str@.subrange(0, i + 1).drop_last() =~= fields_str@.subrange(0, i as int));
        }
        let c = fields_str.get_char(i);
        if c == ',' {
            add_field_exec(&mut fs, piece.as_str());
            piece = String::new();
        } else {
            let one = fields_str.substring_char(i, i + 1);
            piece.append(one);
            assert(one@ =~= seq![c]);
        }
        i = i + 1;
    }
    proof {
        assert(fields_str@.subrange(0, n as int) =~= fields_str@);
    }
    add_field_exec(&mut fs, piece.as_str());
    fs
}

} // verus!
