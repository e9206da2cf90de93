use vstd::prelude::*;
use vstd::string::*;
use crate::filter::opt_string_model;
use crate::query::{is_keyword, keyword_matches, strings_model};

verus! {

/// The kind of batch mutation a draft stages.
#[derive(Debug, Clone, Copy, PartialEq, Eq, Structural)]
pub enum ActionType {
    Flag,
    Move,
    Copy,
    Delete,
    Archive,
}

pub open spec fn action_name(a: ActionType) -> Seq<char> {
    match a {
        ActionType::Flag => "flag"@,
        ActionType::Move => "move"@,
        ActionType::Copy => "copy"@,
        ActionType::Delete => "delete"@,
        ActionType::Archive => "archive"@,
    }
}

/// The action named by `s`, ignoring ASCII case.
pub open spec fn action_from_name(s: Seq<char>) -> Option<ActionType> {
    if is_keyword(s, "FLAG"@) {
        Some(ActionType::Flag)
    } else if is_keyword(s, "MOVE"@) {
        Some(ActionType::Move)
    } else if is_keyword(s, "COPY"@) {
        Some(ActionType::Copy)
    } else if is_keyword(s, "DELETE"@) {
        Some(ActionType::Delete)
    } else if is_keyword(s, "ARCHIVE"@) {
        Some(ActionType::Archive)
    } else {
        None
    }
}

impl ActionType {
    /// The lower-case name under which the action is stored.
    pub fn as_str(&self) -> (r: &'static str)
        ensures
            r@ == action_name(*self),
    {
        match self {
            ActionType::Flag => "flag",
            ActionType::Move => "move",
            ActionType::Copy => "copy",
            ActionType::Delete => "delete",
            ActionType::Archive => "archive",
        }
    }

    /// The action named by `s`, ignoring ASCII case.
    pub fn from_str(s: &str) -> (r: Option<ActionType>)
        ensures
            r == action_from_name(s@),
    {
        if keyword_matches(s, "FLAG") {
            Some(ActionType::Flag)
        } else if keyword_matches(s, "MOVE") {
            Some(ActionType::Move)
        } else if keyword_matches(s, "COPY") {
            Some(ActionType::Copy)
        } else if keyword_matches(s, "DELETE") {
            Some(ActionType::Delete)
        } else if keyword_matches(s, "ARCHIVE") {
            Some(ActionType::Archive)
        } else {
            None
        }
    }
}

/// Parameters of a flag action: tri-state read and starred, labels to add and to
/// remove, and an optional destination folder.
#[derive(Debug, Clone, Default)]
pub struct FlagParams {
    pub read: Option<bool>,
    pub starred: Option<bool>,
    pub labels: Vec<String>,
    pub unlabels: Vec<String>,
    pub move_to: Option<String>,
}

pub struct FlagModel {
    pub read: Option<bool>,
    pub starred: Option<bool>,
    pub labels: Seq<Seq<char>>,
    pub unlabels: Seq<Seq<char>>,
    pub move_to: Option<Seq<char>>,
}

impl View for FlagParams {
    type V = FlagModel;

    open spec fn view(&self) -> FlagModel {
        FlagModel {
            read: self.read,
            starred: self.starred,
            labels: strings_model(self.labels@),
            unlabels: strings_model(self.unlabels@),
            move_to: opt_string_model(self.move_to),
        }
    }
}

/// A tri-state flag after a merge: `true` wins; otherwise a value already set stays.
pub open spec fn merge_flag(a: Option<bool>, b: Option<bool>) -> Option<bool> {
    if b == Some(true) {
        Some(true)
    } else if a.is_none() {
        b
    } else {
        a
    }
}

/// `a` followed by the items of `b` that are not yet present, in order.
pub open spec fn union_labels(a: Seq<Seq<char>>, b: Seq<Seq<char>>) -> Seq<Seq<char>>
    decreases b.len(),
{
    if b.len() == 0 {
        a
    } else {
        let u = union_labels(a, b.drop_last());
        if u.contains(b.last()) {
            u
        } else {
            u.push(b.last())
        }
    }
}

/// The merge rule of flag parameters.
pub open spec fn merge_spec(a: FlagModel, b: FlagModel) -> FlagModel {
    FlagModel {
        read: merge_flag(a.read, b.read),
        starred: merge_flag(a.starred, b.starred),
        labels: union_labels(a.labels, b.labels),
        unlabels: union_labels(a.unlabels, b.unlabels),
        move_to: if b.move_to.is_some() {
            b.move_to
        } else {
            a.move_to
        },
    }
}

pub open spec fn no_duplicates(s: Seq<Seq<char>>) -> bool {
    forall|i: int, j: int| 0 <= i < j < s.len() ==> s[i] != s[j]
}

pub fn copy_string_vec(v: &Vec<String>) -> (r: Vec<String>)
    ensures
        strings_model(r@) == strings_model(v@),
{
    let mut out: Vec<String> = Vec::new();
    let mut i: usize = 0;
    while i < v.len()
        invariant
            i <= v@.len(),
            strings_model(out@) == strings_model(v@.subrange(0, i as int)),
        decreases v@.len() - i,
    {
        let ghost before = out@;
        out.push(v[i].clone());
        proof {
            assert(strings_model(out@) =~= strings_model(before).push(v@[i as int]@));
            assert(strings_model(v@.subrange(0, i + 1)) =~= strings_model(
                v@.subrange(0, i as int),
            ).push(v@[i as int]@));
        }
        i = i + 1;
    }
    proof {
        assert(v@.subrange(0, v@.len() as int) =~= v@);
    }
    out
}

pub fn copy_opt_string(o: &Option<String>) -> (r: Option<String>)
    ensures
        opt_string_model(r) == opt_string_model(*o),
{
    match o {
        Some(s) => Some(s.clone()),
        None => None,
    }
}

pub fn string_vec_contains(v: &Vec<String>, x: &String) -> (r: bool)
    ensures
        r == strings_model(v@).contains(x@),
{
    let mut i: usize = 0;
    while i < v.len()
        invariant
            i <= v@.len(),
            forall|j: int| 0 <= j < i ==> v@[j]@ != x@,
        decreases v@.len() - i,
    {
        if v[i] == *x {
            assert(strings_model(v@)[i as int] == x@);
            return true;
        }
        i = i + 1;
    }
    proof {
        if strings_model(v@).contains(x@) {
            let k = choose|k: int| 0 <= k < strings_model(v@).len() && strings_model(v@)[k] == x@;
            assert(v@[k]@ == x@);
        }
    }
    false
}

/// Appends each item of `b` that `a` does not hold yet.
fn union_into(a: &mut Vec<String>, b: &Vec<String>)
    ensures
        strings_model(final(a)@) == union_labels(strings_model(old(a)@), strings_model(b@)),
{
    let ghost a0 = strings_model(a@);
    let mut i: usize = 0;
    while i < b.len()
        invariant
            i <= b@.len(),
            strings_model(a@) == union_labels(a0, strings_model(b@).subrange(0, i as int)),
        decreases b@.len() - i,
    {
        let ghost sub = strings_model(b@).subrange(0, i + 1);
        proof {
            assert(sub.drop_last() =~= strings_model(b@).subrange(0, i as int));
            assert(sub.last() == b@[i as int]@);
        }
        if !string_vec_contains(a, &b[i]) {
            let ghost before = a@;
            a.push(b[i].clone());
            assert(strings_model(a@) =~= strings_model(before).push(b@[i as int]@));
        }
        i = i + 1;
    }
    proof {
        assert(strings_model(b@).subrange(0, b@.len() as int) =~= strings_model(b@));
    }
}

/// Why a flag request cannot be staged or run.
#[derive(Debug, Clone, Copy, PartialEq, Eq, Structural)]
pub enum FlagRequestError {
    /// Both read and unread were asked for.
    ReadAndUnread,
    /// Both starred and unstarred were asked for.
    StarredAndUnstarred,
    /// Nothing was asked for.
    NoAction,
}

pub open spec fn tri_state(yes: bool, no: bool) -> Option<bool> {
    if yes {
        Some(true)
    } else if no {
        Some(false)
    } else {
        None
    }
}

/// The parameters of a flag request given as switches, or why there are none: a
/// contradictory pair, checked read first, or a request for nothing.
pub open spec fn flag_request_spec(
    read: bool,
    unread: bool,
    starred: bool,
    unstarred: bool,
    labels: Seq<Seq<char>>,
    unlabels: Seq<Seq<char>>,
    move_to: Option<Seq<char>>,
) -> Result<FlagModel, FlagRequestError> {
    if read && unread {
        Err(FlagRequestError::ReadAndUnread)
    } else if starred && unstarred {
        Err(FlagRequestError::StarredAndUnstarred)
    } else if !(read || unread || starred || unstarred || labels.len() > 0 || unlabels.len() > 0
        || move_to.is_some()) {
        Err(FlagRequestError::NoAction)
    } else {
        Ok(
            FlagModel {
                read: tri_state(read, unread),
                starred: tri_state(starred, unstarred),
                labels,
                unlabels,
                move_to,
            },
        )
    }
}

pub open spec fn flag_request_model(r: Result<FlagParams, FlagRequestError>) -> Result<
    FlagModel,
    FlagRequestError,
> {
    match r {
        Ok(p) => Ok(p@),
        Err(e) => Err(e),
    }
}

impl FlagParams {
    /// The parameters of a flag request given as switches.
    pub fn from_flags(
        read: bool,
        unread: bool,
        starred: bool,
        unstarred: bool,
        labels: Vec<String>,
        unlabels: Vec<String>,
        move_to: Option<String>,
    ) -> (r: Result<FlagParams, FlagRequestError>)
        ensures
            flag_request_model(r) == flag_request_spec(
                read,
                unread,
                starred,
                unstarred,
                strings_model(labels@),
                strings_model(unlabels@),
                opt_string_model(move_to),
            ),
    {
        if read && unread {
            return Err(FlagRequestError::ReadAndUnread);
        }
        if starred && unstarred {
            return Err(FlagRequestError::StarredAndUnstarred);
        }
        let p = FlagParams {
            read: if read {
                Some(true)
            } else if unread {
                Some(false)
            } else {
                None
            },
            starred: if starred {
                Some(true)
            } else if unstarred {
                Some(false)
            } else {
                None
            },
            labels,
            unlabels,
            move_to,
        };
        if !p.has_any_action() {
            return Err(FlagRequestError::NoAction);
        }
        Ok(p)
    }

    /// Parameters that ask for nothing.
    pub fn new() -> (r: Self)
        ensures
            r@.read.is_none(),
            r@.starred.is_none(),
            r@.labels.len() == 0,
            r@.unlabels.len() == 0,
            r@.move_to.is_none(),
    {
        let r = FlagParams {
            read: None,
            starred: None,
            labels: Vec::new(),
            unlabels: Vec::new(),
            move_to: None,
        };
        assert(r@.labels =~= seq![]);
        r
    }

    /// Merges `other` into `self`: `true` wins and a set flag is never reset by a later
    /// `false`; label lists are united without duplicates; a later destination replaces
    /// an earlier one.
    pub fn merge(&mut self, other: &FlagParams)
        ensures
            final(self)@ == merge_spec(old(self)@, other@),
    {
        if other.read == Some(true) {
            self.read = Some(true);
        } else if self.read.is_none() {
            self.read = other.read;
        }
        if other.starred == Some(true) {
            self.starred = Some(true);
        } else if self.starred.is_none() {
            self.starred = other.starred;
        }
        union_into(&mut self.labels, &other.labels);
        union_into(&mut self.unlabels, &other.unlabels);
        if other.move_to.is_some() {
            self.move_to = copy_opt_string(&other.move_to);
        }
    }

    /// Whether the parameters ask for any change at all.
    pub fn has_any_action(&self) -> (r: bool)
        ensures
            r == (self@.read.is_some() || self@.starred.is_some() || self@.labels.len() > 0
                || self@.unlabels.len() > 0 || self@.move_to.is_some()),
    {
        self.read.is_some() || self.starred.is_some() || self.labels.len() > 0
            || self.unlabels.len() > 0 || self.move_to.is_some()
    }

    /// A copy with the same contents.
    pub fn duplicate(&self) -> (r: Self)
        ensures
            r@ == self@,
    {
        FlagParams {
            read: self.read,
            starred: self.starred,
            labels: copy_string_vec(&self.labels),
            unlabels: copy_string_vec(&self.unlabels),
            move_to: copy_opt_string(&self.move_to),
        }
    }
}

/// A staged batch mutation of one account, with its targets as shadow IDs.
#[derive(Debug, Clone)]
pub struct Draft {
    pub account: String,
    pub action_type: ActionType,
    pub folder: String,
    pub uids: Vec<u64>,
    pub flag_params: Option<FlagParams>,
    pub dest_folder: Option<String>,
    pub permanent: bool,
}

pub struct DraftModel {
    pub account: Seq<char>,
    pub action_type: ActionType,
    pub folder: Seq<char>,
    pub uids: Seq<u64>,
    pub flag_params: Option<FlagModel>,
    pub dest_folder: Option<Seq<char>>,
    pub permanent: bool,
}

pub open spec fn opt_flag_model(o: Option<FlagParams>) -> Option<FlagModel> {
    match o {
        Some(p) => Some(p@),
        None => None,
    }
}

impl View for Draft {
    type V = DraftModel;

    open spec fn view(&self) -> DraftModel {
        DraftModel {
            account: self.account@,
            action_type: self.action_type,
            folder: self.folder@,
            uids: self.uids@,
            flag_params: opt_flag_model(self.flag_params),
            dest_folder: opt_string_model(self.dest_folder),
            permanent: self.permanent,
        }
    }
}

fn copy_u64_vec(v: &Vec<u64>) -> (r: Vec<u64>)
    ensures
        r@ == v@,
{
    let mut out: Vec<u64> = Vec::new();
    let mut i: usize = 0;
    while i < v.len()
        invariant
            i <= v@.len(),
            out@ == v@.subrange(0, i as int),
        decreases v@.len() - i,
    {
        out.push(v[i]);
        assert(out@ =~= v@.subrange(0, i + 1));
        i = i + 1;
    }
    assert(out@ =~= v@);
    out
}

impl Draft {
    /// A copy with the same contents.
    pub fn duplicate(&self) -> (r: Self)
        ensures
            r@ == self@,
    {
        let flag_params = match &self.flag_params {
            Some(p) => Some(p.duplicate()),
            None => None,
        };
        Draft {
            account: self.account.clone(),
            action_type: self.action_type,
            folder: self.folder.clone(),
            uids: copy_u64_vec(&self.uids),
            flag_params,
            dest_folder: copy_opt_string(&self.dest_folder),
            permanent: self.permanent,
        }
    }
}

// ---------------------------------------------------------------------------
// Description of a draft
// ---------------------------------------------------------------------------

pub open spec fn digit_char(d: nat) -> char {
    if d == 0 {
        '0'
    } else if d == 1 {
        '1'
    } else if d == 2 {
        '2'
    } else if d == 3 {
        '3'
    } else if d == 4 {
        '4'
    } else if d == 5 {
        '5'
    } else if d == 6 {
        '6'
    } else if d == 7 {
        '7'
    } else if d == 8 {
        '8'
    } else {
        '9'
    }
}

/// Decimal digits of `n`, without leading zeros.
pub open spec fn decimal_spec(n: nat) -> Seq<char>
    decreases n,
{
    if n < 10 {
        seq![digit_char(n)]
    } else {
        decimal_spec(n / 10).push(digit_char(n % 10))
    }
}

fn digit_str(d: usize) -> (r: &'static str)
    requires
        d < 10,
    ensures
        r@ == seq![digit_char(d as nat)],
{
    proof {
        reveal_strlit("0");
        reveal_strlit("1");
        reveal_strlit("2");
        reveal_strlit("3");
        reveal_strlit("4");
        reveal_strlit("5");
        reveal_strlit("6");
        reveal_strlit("7");
        reveal_strlit("8");
        reveal_strlit("9");
    }
    let r = if d == 0 {
        "0"
    } else if d == 1 {
        "1"
    } else if d == 2 {
        "2"
    } else if d == 3 {
        "3"
    } else if d == 4 {
        "4"
    } else if d == 5 {
        "5"
    } else if d == 6 {
        "6"
    } else if d == 7 {
        "7"
    } else if d == 8 {
        "8"
    } else {
        "9"
    };
    assert(r@ =~= seq![digit_char(d as nat)]);
    r
}

/// The decimal spelling of `n`.
pub fn decimal(n: usize) -> (r: String)
    ensures
        r@ == decimal_spec(n as nat),
    decreases n,
{
    if n < 10 {
        digit_str(n).to_owned()
    } else {
        let mut s = decimal(n / 10);
        s.append(digit_str(n % 10));
        assert(s@ =~= decimal_spec(n as nat));
        s
    }
}

/// Parts joined by `", "`.
pub open spec fn join_comma(parts: Seq<Seq<char>>) -> Seq<char>
    decreases parts.len(),
{
    if parts.len() == 0 {
        seq![]
    } else if parts.len() == 1 {
        parts[0]
    } else {
        join_comma(parts.drop_last()) + ", "@ + parts.last()
    }
}

pub open spec fn add_label_text(l: Seq<char>) -> Seq<char> {
    "add label '"@ + l + "'"@
}

pub open spec fn remove_label_text(l: Seq<char>) -> Seq<char> {
    "remove label '"@ + l + "'"@
}

/// The actions that flag parameters ask for, in words.
pub open spec fn flag_actions(p: FlagModel) -> Seq<Seq<char>> {
    let read: Seq<Seq<char>> = if p.read == Some(true) {
        seq!["mark as read"@]
    } else if p.read == Some(false) {
        seq!["mark as unread"@]
    } else {
        seq![]
    };
    let star: Seq<Seq<char>> = if p.starred == Some(true) {
        seq!["star"@]
    } else if p.starred == Some(false) {
        seq!["unstar"@]
    } else {
        seq![]
    };
    let dest: Seq<Seq<char>> = match p.move_to {
        Some(d) => seq!["move to '"@ + d + "'"@],
        None => seq![],
    };
    read + star + p.labels.map_values(|l: Seq<char>| add_label_text(l)) + p.unlabels.map_values(
        |l: Seq<char>| remove_label_text(l),
    ) + dest
}

/// `N message` or `N messages`.
pub open spec fn count_phrase(n: nat) -> Seq<char> {
    decimal_spec(n) + if n == 1 {
        " message"@
    } else {
        " messages"@
    }
}

/// One line that says what a draft will do.
pub open spec fn describe_spec(d: DraftModel) -> Seq<char> {
    let n = count_phrase(d.uids.len());
    let dest = match d.dest_folder {
        Some(x) => x,
        None => "?"@,
    };
    match d.action_type {
        ActionType::Flag => {
            let acts = match d.flag_params {
                Some(p) => flag_actions(p),
                None => seq![],
            };
            if acts.len() == 0 {
                "Flag "@ + n + " (no flag changes specified)"@
            } else {
                join_comma(acts) + " on "@ + n
            }
        },
        ActionType::Move => "Move "@ + n + " from '"@ + d.folder + "' to '"@ + dest + "'"@,
        ActionType::Copy => "Copy "@ + n + " from '"@ + d.folder + "' to '"@ + dest + "'"@,
        ActionType::Delete => if d.permanent {
            "Permanently delete "@ + n + " from '"@ + d.folder + "'"@
        } else {
            "Move "@ + n + " from '"@ + d.folder + "' to Trash"@
        },
        ActionType::Archive => "Archive "@ + n + " from '"@ + d.folder + "' to 'Archive'"@,
    }
}

fn push_text(parts: &mut Vec<String>, t: String)
    ensures
        strings_model(final(parts)@) == strings_model(old(parts)@).push(t@),
{
    let ghost before = parts@;
    parts.push(t);
    assert(strings_model(parts@) =~= strings_model(before).push(t@));
}

fn quoted_label(key: &str, l: &str) -> (r: String)
    ensures
        r@ == key@ + l@ + "'"@,
{
    let mut s = key.to_owned();
    s.append(l);
    s.append("'");
    s
}

fn flag_action_texts(p: &FlagParams) -> (r: Vec<String>)
    ensures
        strings_model(r@) == flag_actions(p@),
{
    let mut parts: Vec<String> = Vec::new();
    if p.read == Some(true) {
        push_text(&mut parts, "mark as read".to_owned());
    } else if p.read == Some(false) {
        push_text(&mut parts, "mark as unread".to_owned());
    }
    if p.starred == Some(true) {
        push_text(&mut parts, "star".to_owned());
    } else if p.starred == Some(false) {
        push_text(&mut parts, "unstar".to_owned());
    }
    let ghost head = strings_model(parts@);
    let ghost labels = p@.labels;
    let mut i: usize = 0;
    while i < p.labels.len()
        invariant
            i <= p.labels@.len(),
            labels == p@.labels,
            strings_model(parts@) == head + labels.subrange(0, i as int).map_values(
                |l: Seq<char>| add_label_text(l),
            ),
        decreases p.labels@.len() - i,
    {
        let ghost before = strings_model(parts@);
        push_text(&mut parts, quoted_label("add label '", p.labels[i].as_str()));
        proof {
            assert(labels[i as int] == p.labels@[i as int]@);
            assert(labels.subrange(0, i + 1).map_values(|l: Seq<char>| add_label_text(l))
                =~= labels.subrange(0, i as int).map_values(|l: Seq<char>| add_label_text(l)).push(
                add_label_text(labels[i as int]),
            ));
            assert(strings_model(parts@) =~= head + labels.subrange(0, i + 1).map_values(
                |l: Seq<char>| add_label_text(l),
            ));
        }
        i = i + 1;
    }
    proof {
        assert(labels.subrange(0, labels.len() as int) =~= labels);
    }
    let ghost head2 = strings_model(parts@);
    let ghost unlabels = p@.unlabels;
    let mut j: usize = 0;
    while j < p.unlabels.len()
        invariant
            j <= p.unlabels@.len(),
            unlabels == p@.unlabels,
            strings_model(parts@) == head2 + unlabels.subrange(0, j as int).map_values(
                |l: Seq<char>| remove_label_text(l),
            ),
        decreases p.unlabels@.len() - j,
    {
        push_text(&mut parts, quoted_label("remove label '", p.unlabels[j].as_str()));
        proof {
            assert(unlabels[j as int] == p.unlabels@[j as int]@);
            assert(unlabels.subrange(0, j + 1).map_values(|l: Seq<char>| remove_label_text(l))
                =~= unlabels.subrange(0, j as int).map_values(
                |l: Seq<char>| remove_label_text(l),
            ).push(remove_label_text(unlabels[j as int])));
            assert(strings_model(parts@) =~= head2 + unlabels.subrange(0, j + 1).map_values(
                |l: Seq<char>| remove_label_text(l),
            ));
        }
        j = j + 1;
    }
    proof {
        assert(unlabels.subrange(0, unlabels.len() as int) =~= unlabels);
    }
    let ghost head3 = strings_model(parts@);
    match &p.move_to {
        Some(d) => push_text(&mut parts, quoted_label("move to '", d.as_str())),
        None => {},
    }
    proof {
        let read: Seq<Seq<char>> = if p.read == Some(true) {
            seq!["mark as read"@]
        } else if p.read == Some(false) {
            seq!["mark as unread"@]
        } else {
            seq![]
        };
        let star: Seq<Seq<char>> = if p.starred == Some(true) {
            seq!["star"@]
        } else if p.starred == Some(false) {
            seq!["unstar"@]
        } else {
            seq![]
        };
        assert(head =~= read + star);
        let dest: Seq<Seq<char>> = match p@.move_to {
            Some(d) => seq!["move to '"@ + d + "'"@],
            None => seq![],
        };
        assert(strings_model(parts@) =~= head3 + dest);
    }
    parts
}

fn join_comma_exec(parts: &Vec<String>) -> (r: String)
    ensures
        r@ == join_comma(strings_model(parts@)),
{
    let ghost m = strings_model(parts@);
    let mut out = String::new();
    let mut i: usize = 0;
    while i < parts.len()
        invariant
            m == strings_model(parts@),
            i <= parts@.len(),
            out@ == join_comma(m.subrange(0, i as int)),
        decreases parts@.len() - i,
    {
        proof {
            assert(m.subrange(0, i + 1).drop_last() =~= m.subrange(0, i as int));
            assert(m[i as int] == parts@[i as int]@);
        }
        if i > 0 {
            out.append(", ");
        }
        out.append(parts[i].as_str());
        proof {
            if i == 0 {
                assert(out@ =~= m.subrange(0, 1)[0]);
            }
        }
        i = i + 1;
    }
    proof {
        assert(m.subrange(0, m.len() as int) =~= m);
    }
    out
}

/// One line that says what `draft` will do, for showing a staged draft.
pub fn format_draft_description(draft: &Draft) -> (r: String)
    ensures
        r@ == describe_spec(draft@),
{
    let count = draft.uids.len();
    let mut n = decimal(count);
    if count == 1 {
        n.append(" message");
    } else {
        n.append(" messages");
    }
    let dest: &str = match &draft.dest_folder {
        Some(d) => d.as_str(),
        None => "?",
    };
    match draft.action_type {
        ActionType::Flag => {
            let acts = match &draft.flag_params {
                Some(p) => flag_action_texts(p),
                None => {
                    let v: Vec<String> = Vec::new();
                    assert(strings_model(v@) =~= seq![]);
                    v
                },
            };
            if acts.len() == 0 {
                let mut s = "Flag ".to_owned();
                s.append(n.as_str());
                s.append(" (no flag changes specified)");
                s
            } else {
                let mut s = join_comma_exec(&acts);
                s.append(" on ");
                s.append(n.as_str());
                s
            }
        },
        ActionType::Move | ActionType::Copy => {
            let mut s = if draft.action_type == ActionType::Move {
                "Move ".to_owned()
            } else {
                "Copy ".to_owned()
            };
            s.append(n.as_str());
            s.append(" from '");
            s.append(draft.folder.as_str());
            s.append("' to '");
            s.append(dest);
            s.append("'");
            s
        },
        ActionType::Delete => {
            if draft.permanent {
                let mut s = "Permanently delete ".to_owned();
                s.append(n.as_str());
                s.append(" from '");
                s.append(draft.folder.as_str());
                s.append("'");
                s
            } else {
                let mut s = "Move ".to_owned();
                s.append(n.as_str());
                s.append(" from '");
                s.append(draft.folder.as_str());
                s.append("' to Trash");
                s
            }
        },
        ActionType::Archive => {
            let mut s = "Archive ".to_owned();
            s.append(n.as_str());
            s.append(" from '");
            s.append(draft.folder.as_str());
            s.append("' to 'Archive'");
            s
        },
    }
}

pub proof fn lemma_union_contains(a: Seq<Seq<char>>, b: Seq<Seq<char>>, x: Seq<char>)
    ensures
        union_labels(a, b).contains(x) <==> (a.contains(x) || b.contains(x)),
    decreases b.len(),
{
    if b.len() > 0 {
        lemma_union_contains(a, b.drop_last(), x);
        let u = union_labels(a, b.drop_last());
        if b.drop_last().contains(x) {
            let k = choose|k: int| 0 <= k < b.drop_last().len() && b.drop_last()[k] == x;
            assert(b[k] == x);
        }
        if b.contains(x) && !b.drop_last().contains(x) {
            let k = choose|k: int| 0 <= k < b.len() && b[k] == x;
            if k < b.len() - 1 {
                assert(b.drop_last()[k] == x);
            }
            assert(b.last() == x);
        }
        if !u.contains(b.last()) {
            assert(u.push(b.last())[u.len() as int] == b.last());
            if u.contains(x) {
                let k = choose|k: int| 0 <= k < u.len() && u[k] == x;
                assert(u.push(b.last())[k] == x);
            }
            if u.push(b.last()).contains(x) {
                let k = choose|k: int| 0 <= k < u.len() + 1 && u.push(b.last())[k] == x;
                if k < u.len() {
                    assert(u[k] == x);
                }
            }
        }
    }
}

proof fn lemma_union_distinct(a: Seq<Seq<char>>, b: Seq<Seq<char>>)
    requires
        no_duplicates(a),
    ensures
        no_duplicates(union_labels(a, b)),
    decreases b.len(),
{
    if b.len() > 0 {
        lemma_union_distinct(a, b.drop_last());
        let u = union_labels(a, b.drop_last());
        if !u.contains(b.last()) {
            let v = u.push(b.last());
            assert forall|i: int, j: int| 0 <= i < j < v.len() implies v[i] != v[j] by {
                if j == u.len() {
                    if v[i] == v[j] {
                        assert(u[i] == b.last());
                    }
                }
            }
        }
    }
}

proof fn lemma_union_absorbs(u: Seq<Seq<char>>, b: Seq<Seq<char>>)
    requires
        forall|i: int| 0 <= i < b.len() ==> u.contains(#[trigger] b[i]),
    ensures
        union_labels(u, b) == u,
    decreases b.len(),
{
    if b.len() > 0 {
        assert forall|i: int| 0 <= i < b.drop_last().len() implies u.contains(
            #[trigger] b.drop_last()[i],
        ) by {
            assert(b.drop_last()[i] == b[i]);
        }
        lemma_union_absorbs(u, b.drop_last());
        assert(u.contains(b[b.len() - 1]));
    }
}

proof fn lemma_union_has_right(a: Seq<Seq<char>>, b: Seq<Seq<char>>)
    ensures
        forall|i: int| 0 <= i < b.len() ==> union_labels(a, b).contains(#[trigger] b[i]),
{
    assert forall|i: int| 0 <= i < b.len() implies union_labels(a, b).contains(#[trigger] b[i]) by {
        lemma_union_contains(a, b, b[i]);
        assert(b.contains(b[i]));
    }
}

/// Label sets merge associatively: merging `p` with `q` and then with `r` adds and
/// removes the same labels as merging `p` with the merge of `q` and `r`.
pub proof fn lemma_merge_label_sets_associative(p: FlagModel, q: FlagModel, r: FlagModel)
    ensures
        merge_spec(merge_spec(p, q), r).labels.to_set() == merge_spec(
            p,
            merge_spec(q, r),
        ).labels.to_set(),
        merge_spec(merge_spec(p, q), r).unlabels.to_set() == merge_spec(
            p,
            merge_spec(q, r),
        ).unlabels.to_set(),
{
    let l1 = merge_spec(merge_spec(p, q), r).labels;
    let l2 = merge_spec(p, merge_spec(q, r)).labels;
    assert forall|x: Seq<char>| l1.to_set().contains(x) <==> l2.to_set().contains(x) by {
        lemma_union_contains(union_labels(p.labels, q.labels), r.labels, x);
        lemma_union_contains(p.labels, q.labels, x);
        lemma_union_contains(p.labels, union_labels(q.labels, r.labels), x);
        lemma_union_contains(q.labels, r.labels, x);
    }
    assert(l1.to_set() =~= l2.to_set());
    let u1 = merge_spec(merge_spec(p, q), r).unlabels;
    let u2 = merge_spec(p, merge_spec(q, r)).unlabels;
    assert forall|x: Seq<char>| u1.to_set().contains(x) <==> u2.to_set().contains(x) by {
        lemma_union_contains(union_labels(p.unlabels, q.unlabels), r.unlabels, x);
        lemma_union_contains(p.unlabels, q.unlabels, x);
        lemma_union_contains(p.unlabels, union_labels(q.unlabels, r.unlabels), x);
        lemma_union_contains(q.unlabels, r.unlabels, x);
    }
    assert(u1.to_set() =~= u2.to_set());
}

/// A merge never introduces a repeated label, and merging the same parameters a second
/// time changes no label list.
pub proof fn lemma_merge_labels_without_repeats(p: FlagModel, q: FlagModel)
    ensures
        no_duplicates(p.labels) ==> no_duplicates(merge_spec(p, q).labels),
        no_duplicates(p.unlabels) ==> no_duplicates(merge_spec(p, q).unlabels),
        merge_spec(merge_spec(p, q), q).labels == merge_spec(p, q).labels,
        merge_spec(merge_spec(p, q), q).unlabels == merge_spec(p, q).unlabels,
{
    if no_duplicates(p.labels) {
        lemma_union_distinct(p.labels, q.labels);
    }
    if no_duplicates(p.unlabels) {
        lemma_union_distinct(p.unlabels, q.unlabels);
    }
    lemma_union_has_right(p.labels, q.labels);
    lemma_union_absorbs(union_labels(p.labels, q.labels), q.labels);
    lemma_union_has_right(p.unlabels, q.unlabels);
    lemma_union_absorbs(union_labels(p.unlabels, q.unlabels), q.unlabels);
}

} // verus!
