use chrono::Datelike;
use vstd::prelude::*;
use vstd::string::*;
use crate::draft::string_vec_contains;
use crate::folder::{has_prefix, starts_with};
use crate::query::{
    and_word, ascii_upper, field_spec, is_keyword, keyword_matches, not_word, or_word, parse_spec,
    query_spec, scan_char, scan_keyword, strings_model, tokenize_spec, tokenizer_state, ExprModel,
    Operator, QueryError, QueryErrorModel, QueryExpr, QueryParser,
};

verus! {

// ---------------------------------------------------------------------------
// Dates, through chrono
// ---------------------------------------------------------------------------

/// Day number (days since the common era, 0001-01-01 being day 1) of a `YYYY-MM-DD` text.
pub uninterp spec fn iso_date_day(s: Seq<char>) -> Option<i32>;

/// The search-protocol spelling (`DD-Mon-YYYY`) of a day number, if it is a calendar date.
pub uninterp spec fn imap_date_text(day: i64) -> Option<Seq<char>>;

/// Relies on chrono's `NaiveDate::parse_from_str` with the format `%Y-%m-%d`; the parsed date
/// is handed back as its `Datelike::num_days_from_ce` day number. Depends on the text alone.
#[verifier::external_body]
fn parse_iso_date(s: &str) -> (r: Option<i32>)
    ensures
        r == iso_date_day(s@),
{
    chrono::NaiveDate::parse_from_str(s, "%Y-%m-%d").ok().map(|d| d.num_days_from_ce())
}

/// Relies on chrono's `NaiveDate::from_num_days_from_ce_opt` and `format("%d-%b-%Y")`:
/// `None` where the day number is no date that chrono represents. Depends on the number alone.
#[verifier::external_body]
fn imap_date(day: i64) -> (r: Option<String>)
    ensures
        opt_string_model(r) == imap_date_text(day),
{
    let d = i32::try_from(day).ok()?;
    chrono::NaiveDate::from_num_days_from_ce_opt(d).map(|x| x.format("%d-%b-%Y").to_string())
}

pub open spec fn opt_string_model(o: Option<String>) -> Option<Seq<char>> {
    match o {
        Some(s) => Some(s@),
        None => None,
    }
}

// ---------------------------------------------------------------------------
// Character classes
// ---------------------------------------------------------------------------

/// Unicode `White_Space`, as `char::is_whitespace` documents it.
pub open spec fn is_whitespace(c: char) -> bool {
    ('\u{9}' <= c && c <= '\u{d}') || c == ' ' || c == '\u{85}' || c == '\u{a0}' || c
        == '\u{1680}' || ('\u{2000}' <= c && c <= '\u{200a}') || c == '\u{2028}' || c
        == '\u{2029}' || c == '\u{202f}' || c == '\u{205f}' || c == '\u{3000}'
}

pub fn is_whitespace_exec(c: char) -> (r: bool)
    ensures
        r == is_whitespace(c),
{
    ('\u{9}' <= c && c <= '\u{d}') || c == ' ' || c == '\u{85}' || c == '\u{a0}' || c
        == '\u{1680}' || ('\u{2000}' <= c && c <= '\u{200a}') || c == '\u{2028}' || c
        == '\u{2029}' || c == '\u{202f}' || c == '\u{205f}' || c == '\u{3000}'
}

/// Unicode control characters (general category Cc), as `char::is_control` documents it.
pub open spec fn is_control(c: char) -> bool {
    c <= '\u{1f}' || ('\u{7f}' <= c && c <= '\u{9f}')
}

pub open spec fn is_blank(s: Seq<char>) -> bool {
    forall|i: int| 0 <= i < s.len() ==> is_whitespace(#[trigger] s[i])
}

fn is_blank_exec(s: &str) -> (r: bool)
    ensures
        r == is_blank(s@),
{
    let n = s.unicode_len();
    let mut i: usize = 0;
    while i < n
        invariant
            n == s@.len(),
            i <= n,
            forall|j: int| 0 <= j < i ==> is_whitespace(#[trigger] s@[j]),
        decreases n - i,
    {
        if !is_whitespace_exec(s.get_char(i)) {
            return false;
        }
        i = i + 1;
    }
    true
}

pub fn str_equal(a: &str, b: &str) -> (r: bool)
    ensures
        r == (a@ == b@),
{
    let n = a.unicode_len();
    if n != b.unicode_len() {
        return false;
    }
    let mut i: usize = 0;
    while i < n
        invariant
            n == a@.len(),
            n == b@.len(),
            i <= n,
            forall|j: int| 0 <= j < i ==> a@[j] == b@[j],
        decreases n - i,
    {
        if a.get_char(i) != b.get_char(i) {
            return false;
        }
        i = i + 1;
    }
    proof {
        assert(a@ =~= b@);
    }
    true
}

// ---------------------------------------------------------------------------
// Escaping
// ---------------------------------------------------------------------------

/// What one character becomes inside a quoted protocol string.
pub open spec fn escape_char(c: char) -> Seq<char> {
    if is_control(c) {
        seq![]
    } else if c == '\\' {
        seq!['\\', '\\']
    } else if c == '"' {
        seq!['\\', '"']
    } else {
        seq![c]
    }
}

/// Control characters dropped, then backslash and double quote escaped by a backslash.
pub open spec fn escape_spec(s: Seq<char>) -> Seq<char>
    decreases s.len(),
{
    if s.len() == 0 {
        seq![]
    } else {
        escape_spec(s.drop_last()) + escape_char(s.last())
    }
}

// ---------------------------------------------------------------------------
// Numbers and relative dates
// ---------------------------------------------------------------------------

pub open spec fn is_digit(c: char) -> bool {
    '0' <= c && c <= '9'
}

pub open spec fn digits_value(s: Seq<char>) -> int
    decreases s.len(),
{
    if s.len() == 0 {
        0
    } else {
        digits_value(s.drop_last()) * 10 + (s.last() as int - '0' as int)
    }
}

pub open spec fn has_sign(s: Seq<char>) -> bool {
    s.len() > 0 && (s[0] == '+' || s[0] == '-')
}

/// The digits of a decimal number, after its sign if any.
pub open spec fn unsigned_part(s: Seq<char>) -> Seq<char> {
    if has_sign(s) {
        s.drop_first()
    } else {
        s
    }
}

pub open spec fn all_digits(d: Seq<char>) -> bool {
    forall|i: int| 0 <= i < d.len() ==> is_digit(#[trigger] d[i])
}

/// Value of a sign and digits.
pub open spec fn signed_value(s: Seq<char>) -> int {
    if has_sign(s) && s[0] == '-' {
        -digits_value(unsigned_part(s))
    } else {
        digits_value(unsigned_part(s))
    }
}

/// A decimal `i64` as `str::parse` reads it: an optional sign, then one or more digits,
/// within range.
pub open spec fn parse_i64_spec(s: Seq<char>) -> Option<int> {
    if unsigned_part(s).len() == 0 || !all_digits(unsigned_part(s)) {
        None
    } else if i64::MIN <= signed_value(s) && signed_value(s) <= i64::MAX {
        Some(signed_value(s))
    } else {
        None
    }
}

/// Index of the first non-whitespace character at or after `i`.
pub open spec fn skip_ws(s: Seq<char>, i: int) -> int
    decreases s.len() - i,
{
    if i >= s.len() {
        s.len() as int
    } else if is_whitespace(s[i]) {
        skip_ws(s, i + 1)
    } else {
        i
    }
}

/// End of `s[..j]` once trailing whitespace is dropped.
pub open spec fn trim_end_at(s: Seq<char>, j: int) -> int
    decreases j,
{
    if j <= 0 {
        0
    } else if is_whitespace(s[j - 1]) {
        trim_end_at(s, j - 1)
    } else {
        j
    }
}

pub open spec fn trim_spec(s: Seq<char>) -> Seq<char> {
    let a = skip_ws(s, 0);
    let b = trim_end_at(s, s.len() as int);
    if a < b {
        s.subrange(a, b)
    } else {
        seq![]
    }
}

pub open spec fn unit_days(c: char) -> int {
    if c == 'd' || c == 'D' {
        1
    } else if c == 'w' || c == 'W' {
        7
    } else if c == 'm' || c == 'M' {
        30
    } else if c == 'y' || c == 'Y' {
        365
    } else {
        0
    }
}

/// Number of days in a relative date such as `30d`, `2w`, `1m`, `1y` (surrounding
/// whitespace ignored, unit in either case); `None` when the text is not one, or the
/// count of days leaves the `i64` range.
pub open spec fn relative_days_spec(value: Seq<char>) -> Option<int> {
    let t = trim_spec(value);
    if t.len() == 0 || unit_days(t.last()) == 0 {
        None
    } else {
        match parse_i64_spec(t.drop_last()) {
            None => None,
            Some(n) => {
                let days = n * unit_days(t.last());
                if i64::MIN <= days && days <= i64::MAX {
                    Some(days)
                } else {
                    None
                }
            },
        }
    }
}

/// Why a query expression has no protocol translation.
#[derive(Debug, Clone)]
pub enum TranslateError {
    /// A field, or a field with that comparison or value, that the translator does not know.
    UnsupportedField { field: String, value: String },
    /// A date that is neither `YYYY-MM-DD` nor a relative date, or lies outside the calendar.
    InvalidDate(String),
    /// A `newer:`/`older:` value that is not a relative date such as `30d`.
    InvalidRelativeDate(String),
}

pub enum TranslateErrorModel {
    UnsupportedField { field: Seq<char>, value: Seq<char> },
    InvalidDate(Seq<char>),
    InvalidRelativeDate(Seq<char>),
}

impl View for TranslateError {
    type V = TranslateErrorModel;

    open spec fn view(&self) -> TranslateErrorModel {
        match self {
            TranslateError::UnsupportedField { field, value } => TranslateErrorModel::UnsupportedField {
                field: field@,
                value: value@,
            },
            TranslateError::InvalidDate(v) => TranslateErrorModel::InvalidDate(v@),
            TranslateError::InvalidRelativeDate(v) => TranslateErrorModel::InvalidRelativeDate(v@),
        }
    }
}

impl TranslateError {
    /// Human-readable description of the error.
    pub fn message(&self) -> String {
        match self {
            TranslateError::UnsupportedField { field, value } => {
                let mut m = "Unsupported query: '".to_owned();
                m.append(field.as_str());
                m.append(":");
                m.append(value.as_str());
                m.append("'. Supported fields: ");
                m.append(SUPPORTED_FIELDS);
                m
            },
            TranslateError::InvalidDate(v) => {
                let mut m = "Invalid date format: '".to_owned();
                m.append(v.as_str());
                m.append("'. Use YYYY-MM-DD or relative like 30d, 2w, 1m");
                m
            },
            TranslateError::InvalidRelativeDate(v) => {
                let mut m = "Invalid relative date: '".to_owned();
                m.append(v.as_str());
                m.append("'. Use format like 30d, 2w, 1m, 1y");
                m
            },
        }
    }
}

/// The field names that the translator accepts.
pub const SUPPORTED_FIELDS: &'static str =
    "from, to, subject, body, unread, is, date, since, before, size, has, newer, older, in, folder";

const TWO_POW_63: u64 = 0x8000_0000_0000_0000;

/// Reads a decimal `i64` as `str::parse` does.
fn parse_i64(s: &str) -> (r: Option<i64>)
    ensures
        match r {
            Some(v) => parse_i64_spec(s@) == Some(v as int),
            None => parse_i64_spec(s@).is_none(),
        },
{
    let n = s.unicode_len();
    let signed = n > 0 && (s.get_char(0) == '+' || s.get_char(0) == '-');
    let negative = signed && s.get_char(0) == '-';
    let start: usize = if signed {
        1
    } else {
        0
    };
    let ghost d = unsigned_part(s@);
    assert(d =~= s@.subrange(start as int, n as int));
    assert(signed == has_sign(s@));
    if start == n {
        return None;
    }
    let mut m: u64 = 0;
    let mut big = false;
    let mut i: usize = start;
    while i < n
        invariant
            n == s@.len(),
            start <= i <= n,
            d == s@.subrange(start as int, n as int),
            d == unsigned_part(s@),
            negative == (has_sign(s@) && s@[0] == '-'),
            forall|j: int| 0 <= j < i - start ==> is_digit(#[trigger] d[j]),
            !big ==> m as int == digits_value(d.subrange(0, i - start)),
            big ==> digits_value(d.subrange(0, i - start)) > TWO_POW_63,
            m <= TWO_POW_63,
        decreases n - i,
    {
        let c = s.get_char(i);
        let k: usize = i - start;
        assert(d[k as int] == c);
        if !('0' <= c && c <= '9') {
            assert(!is_digit(d[k as int]));
            return None;
        }
        proof {
            assert(d.subrange(0, k + 1).drop_last() =~= d.subrange(0, k as int));
        }
        if !big {
            let next: u128 = (m as u128) * 10 + ((c as u32) - ('0' as u32)) as u128;
            if next > TWO_POW_63 as u128 {
                big = true;
            } else {
                m = next as u64;
            }
        }
        i = i + 1;
    }
    proof {
        assert(d.subrange(0, n - start) =~= d);
    }
    if big {
        return None;
    }
    if negative {
        if m == TWO_POW_63 {
            Some(i64::MIN)
        } else {
            Some(-(m as i64))
        }
    } else if m < TWO_POW_63 {
        Some(m as i64)
    } else {
        None
    }
}

/// The part of `s` between leading and trailing whitespace.
pub fn trim_str(s: &str) -> (r: &str)
    ensures
        r@ == trim_spec(s@),
{
    let n = s.unicode_len();
    let mut a: usize = 0;
    while a < n && is_whitespace_exec(s.get_char(a))
        invariant
            n == s@.len(),
            a <= n,
            skip_ws(s@, 0) == skip_ws(s@, a as int),
        decreases n - a,
    {
        a = a + 1;
    }
    let mut b: usize = n;
    while b > 0 && is_whitespace_exec(s.get_char(b - 1))
        invariant
            n == s@.len(),
            b <= n,
            trim_end_at(s@, n as int) == trim_end_at(s@, b as int),
        decreases b,
    {
        b = b - 1;
    }
    assert(skip_ws(s@, 0) == a);
    assert(trim_end_at(s@, n as int) == b);
    if a < b {
        s.substring_char(a, b)
    } else {
        proof {
            reveal_strlit("");
        }
        ""
    }
}

// ---------------------------------------------------------------------------
// Translation model
// ---------------------------------------------------------------------------

/// The protocol's marker for "no constraint".
pub open spec fn all_marker() -> Seq<char> {
    "ALL"@
}

/// The date `n` days before the day `today`, spelled for the protocol.
pub open spec fn shifted_date_spec(today: i64, n: int) -> Option<Seq<char>> {
    if i64::MIN <= today - n && today - n <= i64::MAX {
        imap_date_text((today - n) as i64)
    } else {
        None
    }
}

/// A date bound's value: relative (`30d`, counted back from `today`) or `YYYY-MM-DD`.
pub open spec fn date_spec(value: Seq<char>, today: i64) -> Result<Seq<char>, TranslateErrorModel> {
    match relative_days_spec(value) {
        Some(n) => match shifted_date_spec(today, n) {
            Some(t) => Ok(t),
            None => Err(TranslateErrorModel::InvalidDate(value)),
        },
        None => match iso_date_day(value) {
            None => Err(TranslateErrorModel::InvalidDate(value)),
            Some(d) => match imap_date_text(d as i64) {
                Some(t) => Ok(t),
                None => Err(TranslateErrorModel::InvalidDate(value)),
            },
        },
    }
}

/// A relative-date shorthand (`newer:`/`older:`), counted back from `today`.
pub open spec fn relative_date_spec(value: Seq<char>, today: i64) -> Result<
    Seq<char>,
    TranslateErrorModel,
> {
    match relative_days_spec(value) {
        None => Err(TranslateErrorModel::InvalidRelativeDate(value)),
        Some(n) => match shifted_date_spec(today, n) {
            Some(t) => Ok(t),
            None => Err(TranslateErrorModel::InvalidRelativeDate(value)),
        },
    }
}

pub open spec fn prefixed(
    key: Seq<char>,
    r: Result<Seq<char>, TranslateErrorModel>,
) -> Result<Seq<char>, TranslateErrorModel> {
    match r {
        Ok(t) => Ok(key + t),
        Err(e) => Err(e),
    }
}

pub open spec fn quoted_spec(key: Seq<char>, value: Seq<char>) -> Seq<char> {
    key + escape_spec(value) + "\""@
}

/// Translation of one field term. Field names are matched ignoring ASCII case.
pub open spec fn field_translation(
    name: Seq<char>,
    op: Operator,
    value: Seq<char>,
    today: i64,
) -> Result<Seq<char>, TranslateErrorModel> {
    let eq = op == Operator::Equals;
    let gt = op == Operator::GreaterThan;
    let lt = op == Operator::LessThan;
    if is_keyword(name, "FROM"@) && eq {
        Ok(quoted_spec("FROM \""@, value))
    } else if is_keyword(name, "TO"@) && eq {
        Ok(quoted_spec("TO \""@, value))
    } else if is_keyword(name, "SUBJECT"@) && eq {
        Ok(quoted_spec("SUBJECT \""@, value))
    } else if is_keyword(name, "BODY"@) && eq {
        Ok(quoted_spec("BODY \""@, value))
    } else if is_keyword(name, "UNREAD"@) && eq && value == "true"@ {
        Ok("UNSEEN"@)
    } else if is_keyword(name, "IS"@) && eq && value == "unread"@ {
        Ok("UNSEEN"@)
    } else if (is_keyword(name, "DATE"@) && gt) || (is_keyword(name, "SINCE"@) && eq) {
        prefixed("SINCE "@, date_spec(value, today))
    } else if (is_keyword(name, "DATE"@) && lt) || (is_keyword(name, "BEFORE"@) && eq) {
        prefixed("BEFORE "@, date_spec(value, today))
    } else if is_keyword(name, "SIZE"@) && gt {
        Ok("LARGER "@ + escape_spec(value))
    } else if is_keyword(name, "SIZE"@) && lt {
        Ok("SMALLER "@ + escape_spec(value))
    } else if is_keyword(name, "HAS"@) && eq && value == "attachment"@ {
        Ok(all_marker())
    } else if is_keyword(name, "NEWER"@) && eq {
        prefixed("SINCE "@, relative_date_spec(value, today))
    } else if is_keyword(name, "OLDER"@) && eq {
        prefixed("BEFORE "@, relative_date_spec(value, today))
    } else if (is_keyword(name, "IN"@) || is_keyword(name, "FOLDER"@)) && eq {
        Ok(all_marker())
    } else {
        Err(TranslateErrorModel::UnsupportedField { field: name, value })
    }
}

/// Conjunction; a side without constraint drops out.
pub open spec fn and_join(a: Seq<char>, b: Seq<char>) -> Seq<char> {
    if a == all_marker() {
        b
    } else if b == all_marker() {
        a
    } else {
        a + " "@ + b
    }
}

/// Disjunction; a side without constraint makes the whole unconstrained.
pub open spec fn or_join(a: Seq<char>, b: Seq<char>) -> Seq<char> {
    if a == all_marker() || b == all_marker() {
        all_marker()
    } else {
        "OR ("@ + a + ") ("@ + b + ")"@
    }
}

/// The protocol search expression for a query tree; the first error met, left to right,
/// aborts the whole translation.
pub open spec fn translate_spec(e: ExprModel, today: i64) -> Result<Seq<char>, TranslateErrorModel>
    decreases e,
{
    match e {
        ExprModel::Field { name, operator, value } => field_translation(name, operator, value, today),
        ExprModel::And(l, r) => match translate_spec(*l, today) {
            Err(x) => Err(x),
            Ok(a) => match translate_spec(*r, today) {
                Err(x) => Err(x),
                Ok(b) => Ok(and_join(a, b)),
            },
        },
        ExprModel::Or(l, r) => match translate_spec(*l, today) {
            Err(x) => Err(x),
            Ok(a) => match translate_spec(*r, today) {
                Err(x) => Err(x),
                Ok(b) => Ok(or_join(a, b)),
            },
        },
        ExprModel::Not(x) => match translate_spec(*x, today) {
            Err(y) => Err(y),
            Ok(a) => Ok("NOT "@ + a),
        },
    }
}

pub open spec fn translation_model(r: Result<String, TranslateError>) -> Result<
    Seq<char>,
    TranslateErrorModel,
> {
    match r {
        Ok(s) => Ok(s@),
        Err(e) => Err(e@),
    }
}

// ---------------------------------------------------------------------------
// Executable translation
// ---------------------------------------------------------------------------

fn shifted_date(today: i64, days: i64) -> (r: Option<String>)
    ensures
        opt_string_model(r) == shifted_date_spec(today, days as int),
{
    match today.checked_sub(days) {
        Some(d) => imap_date(d),
        None => None,
    }
}

fn date_bound(value: &str, today: i64) -> (r: Result<String, TranslateError>)
    ensures
        translation_model(r) == date_spec(value@, today),
{
    match MessageFilter::parse_relative_days(value) {
        Ok(n) => match shifted_date(today, n) {
            Some(t) => Ok(t),
            None => Err(TranslateError::InvalidDate(value.to_owned())),
        },
        Err(_) => match parse_iso_date(value) {
            None => Err(TranslateError::InvalidDate(value.to_owned())),
            Some(d) => match imap_date(d as i64) {
                Some(t) => Ok(t),
                None => Err(TranslateError::InvalidDate(value.to_owned())),
            },
        },
    }
}

fn relative_date(value: &str, today: i64) -> (r: Result<String, TranslateError>)
    ensures
        translation_model(r) == relative_date_spec(value@, today),
{
    match MessageFilter::parse_relative_days(value) {
        Err(e) => Err(e),
        Ok(n) => match shifted_date(today, n) {
            Some(t) => Ok(t),
            None => Err(TranslateError::InvalidRelativeDate(value.to_owned())),
        },
    }
}

fn with_prefix(key: &str, r: Result<String, TranslateError>) -> (out: Result<String, TranslateError>)
    ensures
        translation_model(out) == prefixed(key@, translation_model(r)),
{
    match r {
        Ok(t) => {
            let mut s = key.to_owned();
            s.append(t.as_str());
            Ok(s)
        },
        Err(e) => Err(e),
    }
}

fn quoted(key: &str, value: &str) -> (r: String)
    ensures
        r@ == quoted_spec(key@, value@),
{
    let mut s = key.to_owned();
    let escaped = MessageFilter::escape_imap_string(value);
    s.append(escaped.as_str());
    s.append("\"");
    s
}

fn unquoted(key: &str, value: &str) -> (r: String)
    ensures
        r@ == key@ + escape_spec(value@),
{
    let mut s = key.to_owned();
    let escaped = MessageFilter::escape_imap_string(value);
    s.append(escaped.as_str());
    s
}

/// Translates one field term.
pub fn translate_field(name: &str, op: Operator, value: &str, today: i64) -> (r: Result<
    String,
    TranslateError,
>)
    ensures
        translation_model(r) == field_translation(name@, op, value@, today),
{
    let eq = op == Operator::Equals;
    let gt = op == Operator::GreaterThan;
    let lt = op == Operator::LessThan;
    if keyword_matches(name, "FROM") && eq {
        Ok(quoted("FROM \"", value))
    } else if keyword_matches(name, "TO") && eq {
        Ok(quoted("TO \"", value))
    } else if keyword_matches(name, "SUBJECT") && eq {
        Ok(quoted("SUBJECT \"", value))
    } else if keyword_matches(name, "BODY") && eq {
        Ok(quoted("BODY \"", value))
    } else if keyword_matches(name, "UNREAD") && eq && str_equal(value, "true") {
        Ok("UNSEEN".to_owned())
    } else if keyword_matches(name, "IS") && eq && str_equal(value, "unread") {
        Ok("UNSEEN".to_owned())
    } else if (keyword_matches(name, "DATE") && gt) || (keyword_matches(name, "SINCE") && eq) {
        with_prefix("SINCE ", date_bound(value, today))
    } else if (keyword_matches(name, "DATE") && lt) || (keyword_matches(name, "BEFORE") && eq) {
        with_prefix("BEFORE ", date_bound(value, today))
    } else if keyword_matches(name, "SIZE") && gt {
        Ok(unquoted("LARGER ", value))
    } else if keyword_matches(name, "SIZE") && lt {
        Ok(unquoted("SMALLER ", value))
    } else if keyword_matches(name, "HAS") && eq && str_equal(value, "attachment") {
        Ok("ALL".to_owned())
    } else if keyword_matches(name, "NEWER") && eq {
        with_prefix("SINCE ", relative_date(value, today))
    } else if keyword_matches(name, "OLDER") && eq {
        with_prefix("BEFORE ", relative_date(value, today))
    } else if (keyword_matches(name, "IN") || keyword_matches(name, "FOLDER")) && eq {
        Ok("ALL".to_owned())
    } else {
        Err(TranslateError::UnsupportedField { field: name.to_owned(), value: value.to_owned() })
    }
}

fn join_and(a: String, b: String) -> (r: String)
    ensures
        r@ == and_join(a@, b@),
{
    if str_equal(a.as_str(), "ALL") {
        b
    } else if str_equal(b.as_str(), "ALL") {
        a
    } else {
        let mut s = a;
        s.append(" ");
        s.append(b.as_str());
        s
    }
}

fn join_or(a: String, b: String) -> (r: String)
    ensures
        r@ == or_join(a@, b@),
{
    if str_equal(a.as_str(), "ALL") || str_equal(b.as_str(), "ALL") {
        "ALL".to_owned()
    } else {
        let mut s = "OR (".to_owned();
        s.append(a.as_str());
        s.append(") (");
        s.append(b.as_str());
        s.append(")");
        s
    }
}

// ---------------------------------------------------------------------------
// Message filter
// ---------------------------------------------------------------------------

/// Options of a message listing: a query and the legacy shortcuts.
#[derive(Debug, Clone)]
pub struct MessageFilter {
    pub days: Option<u32>,
    pub unread_only: bool,
    pub agent_unread: bool,
    pub limit: Option<usize>,
    pub query: Option<String>,
    pub preview: bool,
}

/// Why no search expression could be built for a filter.
#[derive(Debug, Clone)]
pub enum FilterError {
    Syntax(QueryError),
    Translate(TranslateError),
    /// The `days` window reaches before the first date that can be spelled.
    DaysOutOfRange(u32),
}

pub enum FilterErrorModel {
    Syntax(QueryErrorModel),
    Translate(TranslateErrorModel),
    DaysOutOfRange(u32),
}

impl View for FilterError {
    type V = FilterErrorModel;

    open spec fn view(&self) -> FilterErrorModel {
        match self {
            FilterError::Syntax(e) => FilterErrorModel::Syntax(e@),
            FilterError::Translate(e) => FilterErrorModel::Translate(e@),
            FilterError::DaysOutOfRange(d) => FilterErrorModel::DaysOutOfRange(*d),
        }
    }
}

impl FilterError {
    /// Human-readable description of the error.
    pub fn message(&self) -> String {
        match self {
            FilterError::Syntax(e) => e.message(),
            FilterError::Translate(e) => e.message(),
            FilterError::DaysOutOfRange(_) => "Day window reaches outside the calendar".to_owned(),
        }
    }
}

pub open spec fn search_model(r: Result<String, FilterError>) -> Result<Seq<char>, FilterErrorModel> {
    match r {
        Ok(s) => Ok(s@),
        Err(e) => Err(e@),
    }
}

/// Words joined by single spaces.
pub open spec fn join_words(parts: Seq<Seq<char>>) -> Seq<char>
    decreases parts.len(),
{
    if parts.len() == 0 {
        seq![]
    } else if parts.len() == 1 {
        parts[0]
    } else {
        join_words(parts.drop_last()) + " "@ + parts.last()
    }
}

/// Translation of the optional query text: blank text asks for nothing.
pub open spec fn query_part_spec(query: Option<Seq<char>>, today: i64) -> Result<
    Option<Seq<char>>,
    FilterErrorModel,
> {
    match query {
        None => Ok(None),
        Some(q) => if is_blank(q) {
            Ok(None)
        } else {
            match query_spec(q) {
                Err(e) => Err(FilterErrorModel::Syntax(e)),
                Ok(x) => match translate_spec(x, today) {
                    Err(e) => Err(FilterErrorModel::Translate(e)),
                    Ok(t) => Ok(Some(t)),
                },
            }
        },
    }
}

pub open spec fn push_some(parts: Seq<Seq<char>>, p: Option<Seq<char>>) -> Seq<Seq<char>> {
    match p {
        Some(x) => parts.push(x),
        None => parts,
    }
}

/// The search expression of a filter: the query's translation, then `UNSEEN` for
/// `unread_only`, then `SINCE` the date `days` before `today`; `ALL` when none applies.
pub open spec fn search_spec(
    query: Option<Seq<char>>,
    unread_only: bool,
    days: Option<u32>,
    today: i64,
) -> Result<Seq<char>, FilterErrorModel> {
    match query_part_spec(query, today) {
        Err(e) => Err(e),
        Ok(qp) => {
            let unseen = if unread_only {
                Some("UNSEEN"@)
            } else {
                None
            };
            let window: Result<Option<Seq<char>>, FilterErrorModel> = match days {
                None => Ok(None),
                Some(d) => match shifted_date_spec(today, d as int) {
                    Some(t) => Ok(Some("SINCE "@ + t)),
                    None => Err(FilterErrorModel::DaysOutOfRange(d)),
                },
            };
            match window {
                Err(e) => Err(e),
                Ok(w) => {
                    let parts = push_some(push_some(push_some(seq![], qp), unseen), w);
                    if parts.len() == 0 {
                        Ok(all_marker())
                    } else {
                        Ok(join_words(parts))
                    }
                },
            }
        },
    }
}

/// What `folder_of` finds in one whitespace-separated word: the name after `in:` or
/// `folder:`, if not empty.
pub open spec fn folder_of(t: Seq<char>) -> Option<Seq<char>> {
    if has_prefix(t, "in:"@) {
        if t.len() > 3 {
            Some(t.subrange(3, t.len() as int))
        } else {
            None
        }
    } else if has_prefix(t, "folder:"@) {
        if t.len() > 7 {
            Some(t.subrange(7, t.len() as int))
        } else {
            None
        }
    } else {
        None
    }
}

pub open spec fn add_folder(found: Seq<Seq<char>>, word: Seq<char>) -> Seq<Seq<char>> {
    match folder_of(word) {
        Some(f) => if found.contains(f) {
            found
        } else {
            found.push(f)
        },
        None => found,
    }
}

/// Folders found in the words read so far, and the word being read.
pub open spec fn folder_scan(s: Seq<char>) -> (Seq<Seq<char>>, Seq<char>)
    decreases s.len(),
{
    if s.len() == 0 {
        (seq![], seq![])
    } else {
        let (found, word) = folder_scan(s.drop_last());
        if is_whitespace(s.last()) {
            (add_folder(found, word), seq![])
        } else {
            (found, word.push(s.last()))
        }
    }
}

/// Folder names named by `in:`/`folder:` words of the raw query text, in order of first
/// appearance, without repeats.
pub open spec fn folders_spec(s: Seq<char>) -> Seq<Seq<char>> {
    let (found, word) = folder_scan(s);
    add_folder(found, word)
}

fn folder_in_word(w: &str) -> (r: Option<String>)
    ensures
        opt_string_model(r) == folder_of(w@),
{
    let n = w.unicode_len();
    proof {
        reveal_strlit("in:");
        reveal_strlit("folder:");
    }
    if starts_with(w, "in:") {
        if n > 3 {
            Some(w.substring_char(3, n).to_owned())
        } else {
            None
        }
    } else if starts_with(w, "folder:") {
        if n > 7 {
            Some(w.substring_char(7, n).to_owned())
        } else {
            None
        }
    } else {
        None
    }
}

fn add_folder_exec(found: &mut Vec<String>, word: &str)
    ensures
        strings_model(final(found)@) == add_folder(strings_model(old(found)@), word@),
{
    match folder_in_word(word) {
        Some(f) => {
            if !string_vec_contains(found, &f) {
                let ghost before = found@;
                found.push(f);
                assert(strings_model(found@) =~= strings_model(before).push(f@));
            }
        },
        None => {},
    }
}

impl MessageFilter {
    /// A filter with no query and no shortcut set.
    pub fn new() -> (r: Self)
        ensures
            r.days.is_none(),
            !r.unread_only,
            !r.agent_unread,
            r.limit.is_none(),
            r.query.is_none(),
            !r.preview,
    {
        MessageFilter {
            days: None,
            unread_only: false,
            agent_unread: false,
            limit: None,
            query: None,
            preview: false,
        }
    }

    pub fn with_days(self, days: u32) -> (r: Self)
        ensures
            r == (MessageFilter { days: Some(days), ..self }),
    {
        MessageFilter { days: Some(days), ..self }
    }

    pub fn with_unread_only(self, unread_only: bool) -> (r: Self)
        ensures
            r == (MessageFilter { unread_only, ..self }),
    {
        MessageFilter { unread_only, ..self }
    }

    pub fn with_agent_unread(self, agent_unread: bool) -> (r: Self)
        ensures
            r == (MessageFilter { agent_unread, ..self }),
    {
        MessageFilter { agent_unread, ..self }
    }

    pub fn with_limit(self, limit: usize) -> (r: Self)
        ensures
            r == (MessageFilter { limit: Some(limit), ..self }),
    {
        MessageFilter { limit: Some(limit), ..self }
    }

    pub fn with_query(self, query: String) -> (r: Self)
        ensures
            r == (MessageFilter { query: Some(query), ..self }),
    {
        MessageFilter { query: Some(query), ..self }
    }

    pub fn with_preview(self, preview: bool) -> (r: Self)
        ensures
            r == (MessageFilter { preview, ..self }),
    {
        MessageFilter { preview, ..self }
    }

    /// Drops control characters and backslash-escapes backslashes and double quotes.
    pub fn escape_imap_string(s: &str) -> (r: String)
        ensures
            r@ == escape_spec(s@),
    {
        let n = s.unicode_len();
        let mut out = String::new();
        let mut i: usize = 0;
        while i < n
            invariant
                n == s@.len(),
                i <= n,
                out@ == escape_spec(s@.subrange(0, i as int)),
            decreases n - i,
        {
            let c = s.get_char(i);
            let ghost before = out@;
            proof {
                assert(s@.subrange(0, i + 1).drop_last() =~= s@.subrange(0, i as int));
                reveal_strlit("\\\\");
                reveal_strlit("\\\"");
            }
            if c <= '\u{1f}' || ('\u{7f}' <= c && c <= '\u{9f}') {
                assert(out@ =~= before + escape_char(c));
            } else if c == '\\' {
                out.append("\\\\");
                assert(out@ =~= before + escape_char(c));
            } else if c == '"' {
                out.append("\\\"");
                assert(out@ =~= before + escape_char(c));
            } else {
                out.append(s.substring_char(i, i + 1));
                assert(out@ =~= before + escape_char(c));
            }
            i = i + 1;
        }
        proof {
            assert(s@.subrange(0, n as int) =~= s@);
        }
        out
    }

    /// Number of days in a relative date such as `30d`, `2w`, `1m` or `1y`.
    pub fn parse_relative_days(value: &str) -> (r: Result<i64, TranslateError>)
        ensures
            match r {
                Ok(d) => relative_days_spec(value@) == Some(d as int),
                Err(e) => relative_days_spec(value@).is_none() && e@
                    == TranslateErrorModel::InvalidRelativeDate(value@),
            },
    {
        let t = trim_str(value);
        let n = t.unicode_len();
        if n == 0 {
            return Err(TranslateError::InvalidRelativeDate(value.to_owned()));
        }
        let u = t.get_char(n - 1);
        let factor: i64 = if u == 'd' || u == 'D' {
            1
        } else if u == 'w' || u == 'W' {
            7
        } else if u == 'm' || u == 'M' {
            30
        } else if u == 'y' || u == 'Y' {
            365
        } else {
            0
        };
        if factor == 0 {
            return Err(TranslateError::InvalidRelativeDate(value.to_owned()));
        }
        proof {
            assert(t@.drop_last() =~= t@.subrange(0, n - 1));
        }
        match parse_i64(t.substring_char(0, n - 1)) {
            None => Err(TranslateError::InvalidRelativeDate(value.to_owned())),
            Some(num) => match num.checked_mul(factor) {
                Some(days) => Ok(days),
                None => Err(TranslateError::InvalidRelativeDate(value.to_owned())),
            },
        }
    }

    /// Lowers a query tree to the protocol's search expression, counting relative dates
    /// back from the day number `today`.
    pub fn translate_to_imap(expr: &QueryExpr, today: i64) -> (r: Result<String, TranslateError>)
        ensures
            translation_model(r) == translate_spec(expr@, today),
        decreases expr,
    {
        match expr {
            QueryExpr::Field { name, operator, value } => translate_field(
                name.as_str(),
                *operator,
                value.as_str(),
                today,
            ),
            QueryExpr::And(l, r) => {
                let a = Self::translate_to_imap(l, today)?;
                let b = Self::translate_to_imap(r, today)?;
                Ok(join_and(a, b))
            },
            QueryExpr::Or(l, r) => {
                let a = Self::translate_to_imap(l, today)?;
                let b = Self::translate_to_imap(r, today)?;
                Ok(join_or(a, b))
            },
            QueryExpr::Not(x) => {
                let a = Self::translate_to_imap(x, today)?;
                let mut s = "NOT ".to_owned();
                s.append(a.as_str());
                Ok(s)
            },
        }
    }

    /// The search expression for this filter; relative dates count back from the day
    /// number `today`.
    pub fn build_imap_search_query(&self, today: i64) -> (r: Result<String, FilterError>)
        ensures
            search_model(r) == search_spec(
                opt_string_model(self.query),
                self.unread_only,
                self.days,
                today,
            ),
    {
        let ghost parts: Seq<Seq<char>> = seq![];
        let mut out = String::new();
        let mut count: usize = 0;
        let ghost qp: Option<Seq<char>> = None;
        match &self.query {
            Some(q) => {
                if !is_blank_exec(q.as_str()) {
                    let expr = match QueryParser::parse(q.as_str()) {
                        Ok(e) => e,
                        Err(e) => {
                            return Err(FilterError::Syntax(e));
                        },
                    };
                    let t = match Self::translate_to_imap(&expr, today) {
                        Ok(t) => t,
                        Err(e) => {
                            return Err(FilterError::Translate(e));
                        },
                    };
                    proof {
                        qp = Some(t@);
                        parts = parts.push(t@);
                    }
                    out = t;
                    count = 1;
                }
            },
            None => {},
        }
        assert(query_part_spec(opt_string_model(self.query), today) == Ok::<
            Option<Seq<char>>,
            FilterErrorModel,
        >(qp));
        assert(parts == push_some(seq![], qp));
        assert(out@ == join_words(parts));
        if self.unread_only {
            let ghost before = parts;
            proof {
                parts = parts.push("UNSEEN"@);
                assert(parts.drop_last() =~= before);
            }
            if count > 0 {
                out.append(" ");
            }
            out.append("UNSEEN");
            count = count + 1;
        }
        assert(out@ == join_words(parts));
        match self.days {
            Some(d) => {
                match shifted_date(today, d as i64) {
                    Some(t) => {
                        let mut w = "SINCE ".to_owned();
                        w.append(t.as_str());
                        let ghost before = parts;
                        proof {
                            parts = parts.push(w@);
                            assert(parts.drop_last() =~= before);
                        }
                        if count > 0 {
                            out.append(" ");
                        }
                        out.append(w.as_str());
                        count = count + 1;
                    },
                    None => {
                        return Err(FilterError::DaysOutOfRange(d));
                    },
                }
            },
            None => {},
        }
        if count == 0 {
            Ok("ALL".to_owned())
        } else {
            Ok(out)
        }
    }

    /// Folder names named by `in:`/`folder:` words of the raw query text, in order of
    /// first appearance, without repeats.
    pub fn extract_folders_from_query(query: &str) -> (r: Vec<String>)
        ensures
            strings_model(r@) == folders_spec(query@),
    {
        let n = query.unicode_len();
        let mut found: Vec<String> = Vec::new();
        let mut word = String::new();
        let mut i: usize = 0;
        while i < n
            invariant
                n == query@.len(),
                i <= n,
                (strings_model(found@), word@) == folder_scan(query@.subrange(0, i as int)),
            decreases n - i,
        {
            proof {
                assert(query@.subrange(0, i + 1).drop_last() =~= query@.subrange(0, i as int));
            }
            let c = query.get_char(i);
            if is_whitespace_exec(c) {
                add_folder_exec(&mut found, word.as_str());
                word = String::new();
            } else {
                let piece = query.substring_char(i, i + 1);
                word.append(piece);
                assert(piece@ =~= seq![c]);
            }
            i = i + 1;
        }
        proof {
            assert(query@.subrange(0, n as int) =~= query@);
        }
        add_folder_exec(&mut found, word.as_str());
        found
    }
}

// ---------------------------------------------------------------------------
// Laws of the compiler
// ---------------------------------------------------------------------------

proof fn lemma_tokenize_single(q: Seq<char>)
    requires
        forall|i: int| 0 <= i < q.len() ==> q[i] != ' ' && q[i] != '"',
    ensures
        tokenizer_state(q) == (Seq::<Seq<char>>::empty(), q, false),
    decreases q.len(),
{
    if q.len() > 0 {
        lemma_tokenize_single(q.drop_last());
        assert(q.drop_last().push(q.last()) =~= q);
    }
}

proof fn lemma_no_keyword(t: Seq<Seq<char>>, w: Seq<char>, i: int)
    requires
        0 <= i <= t.len(),
        forall|j: int| 0 <= j < t.len() ==> !is_keyword(#[trigger] t[j], w),
    ensures
        scan_keyword(t, w, i) == t.len(),
    decreases t.len() - i,
{
    if i < t.len() {
        lemma_no_keyword(t, w, i + 1);
    }
}

/// A query of one `field:value` token (no space or double quote in it) parses to that
/// field term alone, so its translation is the field's translation: the same token, with
/// the same day for relative dates, always yields the same string or the same error.
pub proof fn lemma_single_token_compiles_to_field(q: Seq<char>, today: i64)
    requires
        q.len() > 0,
        forall|i: int| 0 <= i < q.len() ==> q[i] != ' ' && q[i] != '"',
        q.contains(':'),
    ensures
        query_spec(q) == field_spec(q),
        match field_spec(q) {
            Ok(e) => match e {
                ExprModel::Field { name, operator, value } => translate_spec(e, today)
                    == field_translation(name, operator, value, today),
                _ => false,
            },
            Err(_) => true,
        },
{
    lemma_tokenize_single(q);
    let t = tokenize_spec(q);
    assert(t =~= seq![q]);
    let k = choose|k: int| 0 <= k < q.len() && q[k] == ':';
    assert forall|w: Seq<char>|
        w == or_word() || w == and_word() || w == not_word() implies !is_keyword(q, w) by {
        if is_keyword(q, w) {
            assert(ascii_upper(q[k]) == w[k]);
        }
    }
    lemma_no_keyword(t, or_word(), 0);
    lemma_no_keyword(t, and_word(), 0);
    assert(q != seq!['!']) by {
        if q == seq!['!'] {
            assert(q[k] == '!');
        }
    }
}

/// A word that names a folder: `in:` or `folder:` followed by a name that does not start
/// with a comparison.
pub open spec fn is_folder_term(t: Seq<char>) -> bool {
    ||| (t.len() > 3 && t.subrange(0, 3) == "in:"@ && t[3] != '>' && t[3] != '<')
    ||| (t.len() > 7 && t.subrange(0, 7) == "folder:"@ && t[7] != '>' && t[7] != '<')
}

proof fn lemma_folder_term_translates_to_all(t: Seq<char>, today: i64)
    requires
        is_folder_term(t),
    ensures
        field_spec(t) is Ok,
        translate_spec(field_spec(t)->Ok_0, today) == Ok::<Seq<char>, TranslateErrorModel>(
            all_marker(),
        ),
        !is_keyword(t, or_word()),
        !is_keyword(t, and_word()),
        !is_keyword(t, not_word()),
        t != seq!['!'],
{
    reveal_strlit("in:");
    reveal_strlit("folder:");
    reveal_strlit("IN");
    reveal_strlit("FOLDER");
    reveal_strlit("TO");
    reveal_strlit("IS");
    reveal_strlit("UNREAD");
    reveal_strlit("BEFORE");
    reveal_strlit("ALL");
    reveal_strlit("FROM");
    reveal_strlit("SUBJECT");
    reveal_strlit("BODY");
    reveal_strlit("DATE");
    reveal_strlit("SINCE");
    reveal_strlit("SIZE");
    reveal_strlit("HAS");
    reveal_strlit("NEWER");
    reveal_strlit("OLDER");
    if t.len() > 3 && t.subrange(0, 3) == "in:"@ {
        assert(t[0] == 'i' && t[1] == 'n' && t[2] == ':') by {
            assert(t.subrange(0, 3)[0] == t[0]);
            assert(t.subrange(0, 3)[1] == t[1]);
            assert(t.subrange(0, 3)[2] == t[2]);
        }
        assert(scan_char(t, ':', 2) == 2);
        assert(scan_char(t, ':', 1) == 2);
        assert(scan_char(t, ':', 0) == 2);
        let name = t.subrange(0, 2);
        assert(name[0] == 'i' && name[1] == 'n');
        assert(ascii_upper('i') == 'I');
        assert(ascii_upper('n') == 'N');
        assert(is_keyword(name, "IN"@));
        assert(!is_keyword(name, "TO"@)) by {
            assert(ascii_upper(name[0]) != "TO"@[0]);
        }
        assert(!is_keyword(name, "IS"@)) by {
            assert(ascii_upper(name[1]) != "IS"@[1]);
        }
    } else {
        assert(t[0] == 'f' && t[1] == 'o' && t[2] == 'l' && t[3] == 'd' && t[4] == 'e' && t[5]
            == 'r' && t[6] == ':') by {
            let p = t.subrange(0, 7);
            assert(p[0] == t[0] && p[1] == t[1] && p[2] == t[2] && p[3] == t[3]);
            assert(p[4] == t[4] && p[5] == t[5] && p[6] == t[6]);
        }
        assert(scan_char(t, ':', 6) == 6);
        assert(scan_char(t, ':', 5) == 6);
        assert(scan_char(t, ':', 4) == 6);
        assert(scan_char(t, ':', 3) == 6);
        assert(scan_char(t, ':', 2) == 6);
        assert(scan_char(t, ':', 1) == 6);
        assert(scan_char(t, ':', 0) == 6);
        let name = t.subrange(0, 6);
        assert(name[0] == 'f' && name[1] == 'o' && name[2] == 'l' && name[3] == 'd' && name[4]
            == 'e' && name[5] == 'r');
        assert(ascii_upper('f') == 'F');
        assert(ascii_upper('o') == 'O');
        assert(ascii_upper('l') == 'L');
        assert(ascii_upper('d') == 'D');
        assert(ascii_upper('e') == 'E');
        assert(ascii_upper('r') == 'R');
        assert(is_keyword(name, "FOLDER"@));
        assert(!is_keyword(name, "UNREAD"@)) by {
            assert(ascii_upper(name[0]) != "UNREAD"@[0]);
        }
        assert(!is_keyword(name, "BEFORE"@)) by {
            assert(ascii_upper(name[0]) != "BEFORE"@[0]);
        }
    }
}

proof fn lemma_folder_terms_parse(t: Seq<Seq<char>>, today: i64)
    requires
        t.len() > 0,
        forall|i: int| 0 <= i < t.len() ==> is_folder_term(#[trigger] t[i]),
    ensures
        parse_spec(t) is Ok,
        translate_spec(parse_spec(t)->Ok_0, today) == Ok::<Seq<char>, TranslateErrorModel>(
            all_marker(),
        ),
    decreases t.len(),
{
    assert forall|j: int| 0 <= j < t.len() implies !is_keyword(#[trigger] t[j], or_word())
        && !is_keyword(t[j], and_word()) by {
        lemma_folder_term_translates_to_all(t[j], today);
    }
    lemma_no_keyword(t, or_word(), 0);
    lemma_no_keyword(t, and_word(), 0);
    lemma_folder_term_translates_to_all(t[0], today);
    if t.len() > 1 {
        let rest = t.drop_first();
        assert forall|i: int| 0 <= i < rest.len() implies is_folder_term(#[trigger] rest[i]) by {
            assert(rest[i] == t[i + 1]);
        }
        lemma_folder_terms_parse(rest, today);
        reveal_strlit("ALL");
    }
}

/// A query made only of `in:`/`folder:` words translates to the protocol's marker for no
/// constraint, and so does a filter that holds only such a query.
pub proof fn lemma_folder_only_query_is_unconstrained(q: Seq<char>, today: i64)
    requires
        tokenize_spec(q).len() > 0,
        forall|i: int|
            0 <= i < tokenize_spec(q).len() ==> is_folder_term(#[trigger] tokenize_spec(q)[i]),
    ensures
        query_spec(q) is Ok,
        translate_spec(query_spec(q)->Ok_0, today) == Ok::<Seq<char>, TranslateErrorModel>(
            all_marker(),
        ),
        search_spec(Some(q), false, None, today) == Ok::<Seq<char>, FilterErrorModel>(
            all_marker(),
        ),
{
    lemma_folder_terms_parse(tokenize_spec(q), today);
    let parts = push_some(push_some(push_some(seq![], Some(all_marker())), None), None);
    assert(parts =~= seq![all_marker()]);
}

} // verus!
