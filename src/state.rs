use vstd::prelude::*;
use vstd::string::*;
use crate::draft::{copy_opt_string, lemma_union_contains, merge_spec, ActionType, Draft, DraftModel};
use crate::filter::{opt_string_model, str_equal};

verus! {

// ---------------------------------------------------------------------------
// Records and their models
// ---------------------------------------------------------------------------

/// What the identity store knows of one message of one account.
#[derive(Debug)]
pub struct MessageRecord {
    pub account: String,
    pub message_id: String,
    pub shadow_uid: u64,
    pub folder: Option<String>,
    pub uid: Option<u32>,
    pub subject: Option<String>,
    pub from_address: Option<String>,
    /// Sending time, in seconds since the Unix epoch.
    pub date_sent: Option<i64>,
    pub agent_read: bool,
}

pub struct RecordModel {
    pub account: Seq<char>,
    pub message_id: Seq<char>,
    pub shadow_uid: u64,
    pub folder: Option<Seq<char>>,
    pub uid: Option<u32>,
    pub subject: Option<Seq<char>>,
    pub from_address: Option<Seq<char>>,
    pub date_sent: Option<i64>,
    pub agent_read: bool,
}

impl View for MessageRecord {
    type V = RecordModel;

    open spec fn view(&self) -> RecordModel {
        RecordModel {
            account: self.account@,
            message_id: self.message_id@,
            shadow_uid: self.shadow_uid,
            folder: opt_string_model(self.folder),
            uid: self.uid,
            subject: opt_string_model(self.subject),
            from_address: opt_string_model(self.from_address),
            date_sent: self.date_sent,
            agent_read: self.agent_read,
        }
    }
}

/// The current location of a message named by its shadow ID.
#[derive(Debug, Clone)]
pub struct ResolvedMessage {
    pub shadow_uid: u64,
    pub message_id: String,
    pub folder: String,
    pub uid: u32,
    pub subject: Option<String>,
}

pub struct ResolvedModel {
    pub shadow_uid: u64,
    pub message_id: Seq<char>,
    pub folder: Seq<char>,
    pub uid: u32,
    pub subject: Option<Seq<char>>,
}

impl View for ResolvedMessage {
    type V = ResolvedModel;

    open spec fn view(&self) -> ResolvedModel {
        ResolvedModel {
            shadow_uid: self.shadow_uid,
            message_id: self.message_id@,
            folder: self.folder@,
            uid: self.uid,
            subject: opt_string_model(self.subject),
        }
    }
}

pub open spec fn resolved_models(v: Seq<ResolvedMessage>) -> Seq<ResolvedModel> {
    v.map_values(|r: ResolvedMessage| r@)
}

pub open spec fn opt_str_model(o: Option<&str>) -> Option<Seq<char>> {
    match o {
        Some(s) => Some(s@),
        None => None,
    }
}

pub open spec fn coalesce<T>(new: Option<T>, old: Option<T>) -> Option<T> {
    if new.is_some() {
        new
    } else {
        old
    }
}

// ---------------------------------------------------------------------------
// Identity model
// ---------------------------------------------------------------------------

/// Number of records of account `a`.
pub open spec fn count_account(ms: Seq<RecordModel>, a: Seq<char>) -> nat
    decreases ms.len(),
{
    if ms.len() == 0 {
        0
    } else {
        count_account(ms.drop_last(), a) + if ms.last().account == a {
            1nat
        } else {
            0nat
        }
    }
}

/// Records are unique per (account, global id), and the shadow IDs of an account are
/// 1, 2, 3, ... in order of first observation.
pub open spec fn records_wf(ms: Seq<RecordModel>) -> bool {
    &&& forall|i: int, j: int|
        0 <= i < j < ms.len() && ms[i].account == ms[j].account ==> ms[i].message_id
            != ms[j].message_id
    &&& forall|i: int|
        0 <= i < ms.len() ==> #[trigger] ms[i].shadow_uid == count_account(
            ms.subrange(0, i),
            ms[i].account,
        ) + 1
}

pub open spec fn is_record_of(r: RecordModel, a: Seq<char>, g: Seq<char>) -> bool {
    r.account == a && r.message_id == g
}

pub open spec fn has_record(ms: Seq<RecordModel>, a: Seq<char>, g: Seq<char>) -> bool {
    exists|k: int| 0 <= k < ms.len() && is_record_of(ms[k], a, g)
}

pub open spec fn record_index(ms: Seq<RecordModel>, a: Seq<char>, g: Seq<char>) -> int {
    choose|k: int| 0 <= k < ms.len() && is_record_of(ms[k], a, g)
}

/// The records after observing the message `g` of account `a` at (`folder`, `uid`):
/// a known message moves there and takes every metadata value given; an unknown one is
/// recorded with the account's next shadow ID.
pub open spec fn observe_spec(
    ms: Seq<RecordModel>,
    a: Seq<char>,
    folder: Seq<char>,
    uid: u32,
    g: Seq<char>,
    subject: Option<Seq<char>>,
    from_address: Option<Seq<char>>,
    date_sent: Option<i64>,
) -> Seq<RecordModel> {
    if has_record(ms, a, g) {
        let k = record_index(ms, a, g);
        ms.update(
            k,
            RecordModel {
                folder: Some(folder),
                uid: Some(uid),
                subject: coalesce(subject, ms[k].subject),
                from_address: coalesce(from_address, ms[k].from_address),
                date_sent: coalesce(date_sent, ms[k].date_sent),
                ..ms[k]
            },
        )
    } else {
        ms.push(
            RecordModel {
                account: a,
                message_id: g,
                shadow_uid: (count_account(ms, a) + 1) as u64,
                folder: Some(folder),
                uid: Some(uid),
                subject,
                from_address,
                date_sent,
                agent_read: false,
            },
        )
    }
}

/// Shadow ID of the message `g` of account `a`.
pub open spec fn shadow_of(ms: Seq<RecordModel>, a: Seq<char>, g: Seq<char>) -> u64 {
    ms[record_index(ms, a, g)].shadow_uid
}

/// The records after the message `g` of account `a` moved to `folder`/`uid`.
pub open spec fn relocate_spec(
    ms: Seq<RecordModel>,
    a: Seq<char>,
    g: Seq<char>,
    folder: Option<Seq<char>>,
    uid: Option<u32>,
) -> Seq<RecordModel> {
    if has_record(ms, a, g) {
        let k = record_index(ms, a, g);
        ms.update(k, RecordModel { folder, uid, ..ms[k] })
    } else {
        ms
    }
}

pub open spec fn mark_read_spec(ms: Seq<RecordModel>, a: Seq<char>, g: Seq<char>) -> Seq<
    RecordModel,
> {
    if has_record(ms, a, g) {
        let k = record_index(ms, a, g);
        ms.update(k, RecordModel { agent_read: true, ..ms[k] })
    } else {
        ms
    }
}

pub open spec fn is_read_spec(ms: Seq<RecordModel>, a: Seq<char>, g: Seq<char>) -> bool {
    has_record(ms, a, g) && ms[record_index(ms, a, g)].agent_read
}

pub open spec fn has_shadow(ms: Seq<RecordModel>, a: Seq<char>, id: u64) -> bool {
    exists|k: int| 0 <= k < ms.len() && ms[k].account == a && ms[k].shadow_uid == id
}

pub open spec fn shadow_index(ms: Seq<RecordModel>, a: Seq<char>, id: u64) -> int {
    choose|k: int| 0 <= k < ms.len() && ms[k].account == a && ms[k].shadow_uid == id
}

/// A shadow ID resolves when a record holds it and its location is known.
pub open spec fn resolvable(ms: Seq<RecordModel>, a: Seq<char>, id: u64) -> bool {
    has_shadow(ms, a, id) && ms[shadow_index(ms, a, id)].folder.is_some() && ms[shadow_index(
        ms,
        a,
        id,
    )].uid.is_some()
}

pub open spec fn resolved_spec(ms: Seq<RecordModel>, a: Seq<char>, id: u64) -> ResolvedModel {
    let r = ms[shadow_index(ms, a, id)];
    ResolvedModel {
        shadow_uid: id,
        message_id: r.message_id,
        folder: r.folder.unwrap(),
        uid: r.uid.unwrap(),
        subject: r.subject,
    }
}

/// The IDs among `ids` that do not resolve, in order.
pub open spec fn unresolved_spec(ms: Seq<RecordModel>, a: Seq<char>, ids: Seq<u64>) -> Seq<u64> {
    ids.filter(|id: u64| !resolvable(ms, a, id))
}

// ---------------------------------------------------------------------------
// Identity lemmas
// ---------------------------------------------------------------------------

pub proof fn lemma_filter_push<A>(s: Seq<A>, x: A, p: spec_fn(A) -> bool)
    ensures
        s.push(x).filter(p) == (if p(x) {
            s.filter(p).push(x)
        } else {
            s.filter(p)
        }),
{
    reveal(Seq::filter);
    assert(s.push(x).drop_last() =~= s);
}

proof fn lemma_count_prefix_step(ms: Seq<RecordModel>, a: Seq<char>, i: int)
    requires
        0 <= i < ms.len(),
    ensures
        count_account(ms.subrange(0, i + 1), a) == count_account(ms.subrange(0, i), a) + if ms[i].account == a {
            1nat
        } else {
            0nat
        },
{
    assert(ms.subrange(0, i + 1).drop_last() =~= ms.subrange(0, i));
}

proof fn lemma_count_monotone(ms: Seq<RecordModel>, a: Seq<char>, i: int, j: int)
    requires
        0 <= i <= j <= ms.len(),
    ensures
        count_account(ms.subrange(0, i), a) <= count_account(ms.subrange(0, j), a),
    decreases j - i,
{
    if i < j {
        lemma_count_monotone(ms, a, i, j - 1);
        lemma_count_prefix_step(ms, a, j - 1);
    }
}

proof fn lemma_count_same_accounts(s1: Seq<RecordModel>, s2: Seq<RecordModel>, a: Seq<char>)
    requires
        s1.len() == s2.len(),
        forall|i: int| 0 <= i < s1.len() ==> s1[i].account == s2[i].account,
    ensures
        count_account(s1, a) == count_account(s2, a),
    decreases s1.len(),
{
    if s1.len() > 0 {
        lemma_count_same_accounts(s1.drop_last(), s2.drop_last(), a);
    }
}

proof fn lemma_count_full(ms: Seq<RecordModel>, a: Seq<char>)
    ensures
        count_account(ms.subrange(0, ms.len() as int), a) == count_account(ms, a),
{
    assert(ms.subrange(0, ms.len() as int) =~= ms);
}

/// Within an account, distinct records carry distinct shadow IDs.
pub proof fn lemma_shadow_unique(ms: Seq<RecordModel>, i: int, j: int)
    requires
        records_wf(ms),
        0 <= i < ms.len(),
        0 <= j < ms.len(),
        i != j,
        ms[i].account == ms[j].account,
    ensures
        ms[i].shadow_uid != ms[j].shadow_uid,
{
    let a = ms[i].account;
    if i < j {
        lemma_count_prefix_step(ms, a, i);
        lemma_count_monotone(ms, a, i + 1, j);
    } else {
        lemma_count_prefix_step(ms, a, j);
        lemma_count_monotone(ms, a, j + 1, i);
    }
    assert(ms[i].shadow_uid == count_account(ms.subrange(0, i), a) + 1);
    assert(ms[j].shadow_uid == count_account(ms.subrange(0, j), a) + 1);
}

proof fn lemma_update_keeps_wf(ms: Seq<RecordModel>, k: int, r: RecordModel)
    requires
        records_wf(ms),
        0 <= k < ms.len(),
        r.account == ms[k].account,
        r.message_id == ms[k].message_id,
        r.shadow_uid == ms[k].shadow_uid,
    ensures
        records_wf(ms.update(k, r)),
{
    let ns = ms.update(k, r);
    assert forall|i: int| 0 <= i < ns.len() implies #[trigger] ns[i].shadow_uid == count_account(
        ns.subrange(0, i),
        ns[i].account,
    ) + 1 by {
        lemma_count_same_accounts(ns.subrange(0, i), ms.subrange(0, i), ns[i].account);
    }
}

proof fn lemma_push_keeps_wf(ms: Seq<RecordModel>, r: RecordModel)
    requires
        records_wf(ms),
        !has_record(ms, r.account, r.message_id),
        r.shadow_uid == count_account(ms, r.account) + 1,
    ensures
        records_wf(ms.push(r)),
{
    let ns = ms.push(r);
    assert forall|i: int| 0 <= i < ns.len() implies #[trigger] ns[i].shadow_uid == count_account(
        ns.subrange(0, i),
        ns[i].account,
    ) + 1 by {
        if i < ms.len() {
            assert(ns.subrange(0, i) =~= ms.subrange(0, i));
            assert(ns[i] == ms[i]);
        } else {
            assert(ns.subrange(0, i) =~= ms);
        }
    }
    assert forall|i: int, j: int|
        0 <= i < j < ns.len() && ns[i].account == ns[j].account implies ns[i].message_id
        != ns[j].message_id by {
        if j == ms.len() {
            if ns[i].message_id == ns[j].message_id {
                assert(is_record_of(ms[i], r.account, r.message_id));
            }
        }
    }
}

// ---------------------------------------------------------------------------
// Selection and query-history entries
// ---------------------------------------------------------------------------

/// A message reference in the working set of an account.
#[derive(Debug, Clone)]
pub struct SelectionEntry {
    pub account: String,
    pub folder: String,
    pub uid: u32,
    pub message_id: Option<String>,
    pub subject: Option<String>,
}

/// One result of the last query run in a folder.
#[derive(Debug, Clone)]
pub struct QueryResultEntry {
    pub account: String,
    pub folder: String,
    pub uid: u32,
    pub message_id: Option<String>,
    pub subject: Option<String>,
}

pub struct EntryModel {
    pub account: Seq<char>,
    pub folder: Seq<char>,
    pub uid: u32,
    pub message_id: Option<Seq<char>>,
    pub subject: Option<Seq<char>>,
}

impl View for SelectionEntry {
    type V = EntryModel;

    open spec fn view(&self) -> EntryModel {
        EntryModel {
            account: self.account@,
            folder: self.folder@,
            uid: self.uid,
            message_id: opt_string_model(self.message_id),
            subject: opt_string_model(self.subject),
        }
    }
}

impl View for QueryResultEntry {
    type V = EntryModel;

    open spec fn view(&self) -> EntryModel {
        EntryModel {
            account: self.account@,
            folder: self.folder@,
            uid: self.uid,
            message_id: opt_string_model(self.message_id),
            subject: opt_string_model(self.subject),
        }
    }
}

pub open spec fn selection_models(v: Seq<SelectionEntry>) -> Seq<EntryModel> {
    v.map_values(|e: SelectionEntry| e@)
}

pub open spec fn result_models(v: Seq<QueryResultEntry>) -> Seq<EntryModel> {
    v.map_values(|e: QueryResultEntry| e@)
}

/// The last query run by an account in a folder, and what it found.
pub struct QueryHistory {
    pub account: String,
    pub folder: String,
    pub query_string: String,
    pub executed_at: i64,
    pub results: Vec<QueryResultEntry>,
}

pub struct HistoryModel {
    pub account: Seq<char>,
    pub folder: Seq<char>,
    pub query_string: Seq<char>,
    pub executed_at: i64,
    pub results: Seq<EntryModel>,
}

impl View for QueryHistory {
    type V = HistoryModel;

    open spec fn view(&self) -> HistoryModel {
        HistoryModel {
            account: self.account@,
            folder: self.folder@,
            query_string: self.query_string@,
            executed_at: self.executed_at,
            results: result_models(self.results@),
        }
    }
}

/// Contents of the local store.
pub struct StoreModel {
    pub messages: Seq<RecordModel>,
    pub selections: Seq<EntryModel>,
    pub drafts: Seq<DraftModel>,
    pub history: Seq<HistoryModel>,
}

pub open spec fn entry_key(e: EntryModel) -> (Seq<char>, Seq<char>, u32) {
    (e.account, e.folder, e.uid)
}

pub open spec fn draft_key(d: DraftModel) -> Seq<char> {
    d.account
}

pub open spec fn history_key(h: HistoryModel) -> (Seq<char>, Seq<char>) {
    (h.account, h.folder)
}

/// No two items of `s` share a key.
pub open spec fn distinct_keys<A, K>(s: Seq<A>, key: spec_fn(A) -> K) -> bool {
    forall|i: int, j: int| 0 <= i < j < s.len() ==> key(s[i]) != key(s[j])
}

pub open spec fn selections_wf(sel: Seq<EntryModel>) -> bool {
    distinct_keys(sel, |e: EntryModel| entry_key(e))
}

pub open spec fn drafts_wf(ds: Seq<DraftModel>) -> bool {
    distinct_keys(ds, |d: DraftModel| draft_key(d))
}

pub open spec fn history_wf(hs: Seq<HistoryModel>) -> bool {
    distinct_keys(hs, |h: HistoryModel| history_key(h))
}

pub open spec fn store_wf(m: StoreModel) -> bool {
    records_wf(m.messages) && selections_wf(m.selections) && drafts_wf(m.drafts) && history_wf(
        m.history,
    )
}

/// The local store: identity records, selections, drafts and query history of every
/// account.
pub struct StateManager {
    messages: Vec<MessageRecord>,
    selections: Vec<SelectionEntry>,
    drafts: Vec<Draft>,
    history: Vec<QueryHistory>,
}

impl View for StateManager {
    type V = StoreModel;

    closed spec fn view(&self) -> StoreModel {
        StoreModel {
            messages: self.messages@.map_values(|r: MessageRecord| r@),
            selections: selection_models(self.selections@),
            drafts: self.drafts@.map_values(|d: Draft| d@),
            history: self.history@.map_values(|h: QueryHistory| h@),
        }
    }
}

fn opt_to_owned(o: Option<&str>) -> (r: Option<String>)
    ensures
        opt_string_model(r) == opt_str_model(o),
{
    match o {
        Some(s) => Some(s.to_owned()),
        None => None,
    }
}

impl StateManager {
    /// The store invariant: each table is unique on its key, and shadow IDs are allocated
    /// per account in order.
    pub open spec fn wf(&self) -> bool {
        store_wf(self@)
    }

    /// An empty store.
    pub fn new() -> (r: Self)
        ensures
            r.wf(),
            r@.messages.len() == 0,
            r@.selections.len() == 0,
            r@.drafts.len() == 0,
            r@.history.len() == 0,
    {
        let r = StateManager {
            messages: Vec::new(),
            selections: Vec::new(),
            drafts: Vec::new(),
            history: Vec::new(),
        };
        assert(r@.messages =~= seq![]);
        assert(r@.selections =~= seq![]);
        assert(r@.drafts =~= seq![]);
        assert(r@.history =~= seq![]);
        r
    }

    /// Index of the record of message `message_id` of `account`.
    fn find_record(&self, account: &str, message_id: &str) -> (r: Option<usize>)
        requires
            self.wf(),
        ensures
            match r {
                Some(k) => has_record(self@.messages, account@, message_id@) && k
                    == record_index(self@.messages, account@, message_id@) && k
                    < self@.messages.len(),
                None => !has_record(self@.messages, account@, message_id@),
            },
    {
        let ghost ms = self@.messages;
        let mut i: usize = 0;
        while i < self.messages.len()
            invariant
                ms == self@.messages,
                records_wf(ms),
                ms.len() == self.messages@.len(),
                i <= ms.len(),
                forall|j: int| 0 <= j < i ==> !is_record_of(#[trigger] ms[j], account@, message_id@),
            decreases ms.len() - i,
        {
            assert(ms[i as int] == self.messages@[i as int]@);
            if str_equal(self.messages[i].account.as_str(), account) && str_equal(
                self.messages[i].message_id.as_str(),
                message_id,
            ) {
                proof {
                    assert(is_record_of(ms[i as int], account@, message_id@));
                    let c = record_index(ms, account@, message_id@);
                    assert(is_record_of(ms[c], account@, message_id@));
                    if c < i {
                        assert(false);
                    } else if c > i {
                        assert(ms[i as int].account == ms[c].account);
                    }
                }
                return Some(i);
            }
            i = i + 1;
        }
        None
    }

    /// Number of records of `account`.
    fn count_records(&self, account: &str) -> (r: u64)
        ensures
            r == count_account(self@.messages, account@),
    {
        let ghost ms = self@.messages;
        let mut c: u64 = 0;
        let mut i: usize = 0;
        while i < self.messages.len()
            invariant
                ms == self@.messages,
                ms.len() == self.messages@.len(),
                i <= ms.len(),
                c == count_account(ms.subrange(0, i as int), account@),
                c <= i,
            decreases ms.len() - i,
        {
            proof {
                lemma_count_prefix_step(ms, account@, i as int);
            }
            assert(ms[i as int] == self.messages@[i as int]@);
            if str_equal(self.messages[i].account.as_str(), account) {
                c = c + 1;
            }
            i = i + 1;
        }
        proof {
            lemma_count_full(ms, account@);
        }
        c
    }

    /// Records an observation of a message at (`folder`, `uid`) and returns its shadow ID:
    /// the existing one for a known (account, global id), else the account's next one.
    /// A message without a global id gets no shadow ID and changes nothing.
    pub fn get_or_create_shadow_uid(
        &mut self,
        account: &str,
        folder: &str,
        uid: u32,
        message_id: Option<&str>,
        subject: Option<&str>,
        from_address: Option<&str>,
        date_sent: Option<i64>,
    ) -> (r: Option<u64>)
        requires
            old(self).wf(),
        ensures
            final(self).wf(),
            final(self)@.selections == old(self)@.selections,
            final(self)@.drafts == old(self)@.drafts,
            final(self)@.history == old(self)@.history,
            match message_id {
                None => r.is_none() && final(self)@.messages == old(self)@.messages,
                Some(g) => if !has_record(old(self)@.messages, account@, g@) && count_account(
                    old(self)@.messages,
                    account@,
                ) >= u64::MAX {
                    r.is_none() && final(self)@.messages == old(self)@.messages
                } else {
                    final(self)@.messages == observe_spec(
                        old(self)@.messages,
                        account@,
                        folder@,
                        uid,
                        g@,
                        opt_str_model(subject),
                        opt_str_model(from_address),
                        date_sent,
                    ) && r == Some(shadow_of(final(self)@.messages, account@, g@))
                },
            },
    {
        let g = match message_id {
            Some(g) => g,
            None => {
                return None;
            },
        };
        let ghost ms = self@.messages;
        match self.find_record(account, g) {
            Some(k) => {
                let ghost old_rec = ms[k as int];
                self.messages[k].folder = Some(folder.to_owned());
                self.messages[k].uid = Some(uid);
                if subject.is_some() {
                    self.messages[k].subject = opt_to_owned(subject);
                }
                if from_address.is_some() {
                    self.messages[k].from_address = opt_to_owned(from_address);
                }
                if date_sent.is_some() {
                    self.messages[k].date_sent = date_sent;
                }
                let ghost new_rec = RecordModel {
                    folder: Some(folder@),
                    uid: Some(uid),
                    subject: coalesce(opt_str_model(subject), old_rec.subject),
                    from_address: coalesce(opt_str_model(from_address), old_rec.from_address),
                    date_sent: coalesce(date_sent, old_rec.date_sent),
                    ..old_rec
                };
                proof {
                    assert(self@.messages =~= ms.update(k as int, new_rec));
                    lemma_update_keeps_wf(ms, k as int, new_rec);
                    let ns = self@.messages;
                    let c = record_index(ns, account@, g@);
                    assert(is_record_of(ns[k as int], account@, g@));
                    assert(is_record_of(ns[c], account@, g@));
                    if c != k {
                        if c < k {
                            assert(ns[c].account == ns[k as int].account);
                        } else {
                            assert(ns[k as int].account == ns[c].account);
                        }
                    }
                }
                Some(self.messages[k].shadow_uid)
            },
            None => {
                let c = self.count_records(account);
                if c == u64::MAX {
                    return None;
                }
                let rec = MessageRecord {
                    account: account.to_owned(),
                    message_id: g.to_owned(),
                    shadow_uid: c + 1,
                    folder: Some(folder.to_owned()),
                    uid: Some(uid),
                    subject: opt_to_owned(subject),
                    from_address: opt_to_owned(from_address),
                    date_sent,
                    agent_read: false,
                };
                let shadow = rec.shadow_uid;
                self.messages.push(rec);
                proof {
                    assert(self@.messages =~= ms.push(rec@));
                    lemma_push_keeps_wf(ms, rec@);
                    let ns = self@.messages;
                    let n = ms.len() as int;
                    let ci = record_index(ns, account@, g@);
                    assert(is_record_of(ns[n], account@, g@));
                    assert(is_record_of(ns[ci], account@, g@));
                    if ci != n {
                        assert(ns[ci].account == ns[n].account);
                    }
                }
                Some(shadow)
            },
        }
    }

    /// Records an observation without asking for the shadow ID.
    pub fn upsert_message(
        &mut self,
        account: &str,
        folder: &str,
        uid: u32,
        message_id: Option<&str>,
        subject: Option<&str>,
        from_address: Option<&str>,
        date_sent: Option<i64>,
    )
        requires
            old(self).wf(),
        ensures
            final(self).wf(),
            final(self)@.selections == old(self)@.selections,
            final(self)@.drafts == old(self)@.drafts,
            final(self)@.history == old(self)@.history,
            match message_id {
                None => final(self)@.messages == old(self)@.messages,
                Some(g) => if !has_record(old(self)@.messages, account@, g@) && count_account(
                    old(self)@.messages,
                    account@,
                ) >= u64::MAX {
                    final(self)@.messages == old(self)@.messages
                } else {
                    final(self)@.messages == observe_spec(
                        old(self)@.messages,
                        account@,
                        folder@,
                        uid,
                        g@,
                        opt_str_model(subject),
                        opt_str_model(from_address),
                        date_sent,
                    )
                },
            },
    {
        let _ = self.get_or_create_shadow_uid(
            account,
            folder,
            uid,
            message_id,
            subject,
            from_address,
            date_sent,
        );
    }

    /// Index of the record of `account` that holds the shadow ID `id`.
    fn find_shadow(&self, account: &str, id: u64) -> (r: Option<usize>)
        requires
            self.wf(),
        ensures
            match r {
                Some(k) => has_shadow(self@.messages, account@, id) && k == shadow_index(
                    self@.messages,
                    account@,
                    id,
                ) && k < self@.messages.len(),
                None => !has_shadow(self@.messages, account@, id),
            },
    {
        let ghost ms = self@.messages;
        let mut i: usize = 0;
        while i < self.messages.len()
            invariant
                ms == self@.messages,
                records_wf(ms),
                ms.len() == self.messages@.len(),
                i <= ms.len(),
                forall|j: int|
                    0 <= j < i ==> !(#[trigger] ms[j].account == account@ && ms[j].shadow_uid == id),
            decreases ms.len() - i,
        {
            assert(ms[i as int] == self.messages@[i as int]@);
            if self.messages[i].shadow_uid == id && str_equal(
                self.messages[i].account.as_str(),
                account,
            ) {
                proof {
                    let c = shadow_index(ms, account@, id);
                    assert(ms[i as int].account == account@ && ms[i as int].shadow_uid == id);
                    if c != i {
                        lemma_shadow_unique(ms, c, i as int);
                    }
                }
                return Some(i);
            }
            i = i + 1;
        }
        None
    }

    /// Current locations of the messages named by `ids`, in the same order; or, when
    /// any of them does not resolve, exactly those that do not.
    pub fn resolve_shadow_uids(&self, account: &str, ids: &Vec<u64>) -> (r: Result<
        Vec<ResolvedMessage>,
        Vec<u64>,
    >)
        requires
            self.wf(),
        ensures
            match r {
                Ok(v) => unresolved_spec(self@.messages, account@, ids@).len() == 0
                    && resolved_models(v@).len() == ids@.len() && forall|i: int|
                    0 <= i < ids@.len() ==> #[trigger] resolved_models(v@)[i] == resolved_spec(
                        self@.messages,
                        account@,
                        ids@[i],
                    ),
                Err(missing) => missing@ == unresolved_spec(self@.messages, account@, ids@)
                    && missing@.len() > 0,
            },
    {
        let ghost ms = self@.messages;
        let ghost p = |id: u64| !resolvable(ms, account@, id);
        let mut found: Vec<ResolvedMessage> = Vec::new();
        let mut missing: Vec<u64> = Vec::new();
        let mut i: usize = 0;
        while i < ids.len()
            invariant
                ms == self@.messages,
                self.wf(),
                i <= ids@.len(),
                p == (|id: u64| !resolvable(ms, account@, id)),
                missing@ == ids@.subrange(0, i as int).filter(p),
                missing@.len() == 0 ==> resolved_models(found@).len() == i && forall|j: int|
                    0 <= j < i ==> #[trigger] resolved_models(found@)[j] == resolved_spec(
                        ms,
                        account@,
                        ids@[j],
                    ),
            decreases ids@.len() - i,
        {
            let id = ids[i];
            proof {
                assert(ids@.subrange(0, i + 1) =~= ids@.subrange(0, i as int).push(id));
                lemma_filter_push(ids@.subrange(0, i as int), id, p);
            }
            let mut ok = false;
            match self.find_shadow(account, id) {
                Some(k) => {
                    let rec = &self.messages[k];
                    assert(ms[k as int] == rec@);
                    match (&rec.folder, rec.uid) {
                        (Some(f), Some(u)) => {
                            ok = true;
                            let ghost before = found@;
                            found.push(
                                ResolvedMessage {
                                    shadow_uid: id,
                                    message_id: rec.message_id.clone(),
                                    folder: f.clone(),
                                    uid: u,
                                    subject: match &rec.subject {
                                        Some(t) => Some(t.clone()),
                                        None => None,
                                    },
                                },
                            );
                            assert(resolved_models(found@) =~= resolved_models(before).push(
                                resolved_spec(ms, account@, id),
                            ));
                        },
                        _ => {},
                    }
                },
                None => {},
            }
            if !ok {
                missing.push(id);
            }
            i = i + 1;
        }
        proof {
            assert(ids@.subrange(0, ids@.len() as int) =~= ids@);
        }
        if missing.len() > 0 {
            Err(missing)
        } else {
            Ok(found)
        }
    }

    /// Puts the record at index `k` at (`folder`, `uid`).
    fn set_location(&mut self, k: usize, folder: Option<String>, uid: Option<u32>)
        requires
            old(self).wf(),
            k < old(self)@.messages.len(),
        ensures
            final(self).wf(),
            final(self)@.messages == old(self)@.messages.update(
                k as int,
                RecordModel {
                    folder: opt_string_model(folder),
                    uid,
                    ..old(self)@.messages[k as int]
                },
            ),
            final(self)@.selections == old(self)@.selections,
            final(self)@.drafts == old(self)@.drafts,
            final(self)@.history == old(self)@.history,
    {
        let ghost ms = self@.messages;
        let ghost new_rec = RecordModel {
            folder: opt_string_model(folder),
            uid,
            ..ms[k as int]
        };
        self.messages[k].folder = folder;
        self.messages[k].uid = uid;
        proof {
            assert(self@.messages =~= ms.update(k as int, new_rec));
            lemma_update_keeps_wf(ms, k as int, new_rec);
        }
    }

    /// Records that the message `message_id` now lives at `new_folder`; `new_uid` is
    /// `None` when its sequence number there is not known yet. Unknown messages are left
    /// alone.
    pub fn update_message_location(
        &mut self,
        account: &str,
        message_id: &str,
        new_folder: &str,
        new_uid: Option<u32>,
    )
        requires
            old(self).wf(),
        ensures
            final(self).wf(),
            final(self)@.messages == relocate_spec(
                old(self)@.messages,
                account@,
                message_id@,
                Some(new_folder@),
                new_uid,
            ),
            final(self)@.selections == old(self)@.selections,
            final(self)@.drafts == old(self)@.drafts,
            final(self)@.history == old(self)@.history,
    {
        match self.find_record(account, message_id) {
            Some(k) => self.set_location(k, Some(new_folder.to_owned()), new_uid),
            None => {},
        }
    }

    /// Forgets where the message `message_id` lives (it was deleted), keeping its record
    /// and shadow ID.
    pub fn clear_message_location(&mut self, account: &str, message_id: &str)
        requires
            old(self).wf(),
        ensures
            final(self).wf(),
            final(self)@.messages == relocate_spec(
                old(self)@.messages,
                account@,
                message_id@,
                None,
                None,
            ),
            final(self)@.selections == old(self)@.selections,
            final(self)@.drafts == old(self)@.drafts,
            final(self)@.history == old(self)@.history,
    {
        match self.find_record(account, message_id) {
            Some(k) => self.set_location(k, None, None),
            None => {},
        }
    }

    /// Records that the local agent has read the message `message_id`.
    pub fn mark_agent_read(&mut self, account: &str, message_id: &str)
        requires
            old(self).wf(),
        ensures
            final(self).wf(),
            final(self)@.messages == mark_read_spec(old(self)@.messages, account@, message_id@),
            final(self)@.selections == old(self)@.selections,
            final(self)@.drafts == old(self)@.drafts,
            final(self)@.history == old(self)@.history,
    {
        match self.find_record(account, message_id) {
            Some(k) => {
                let ghost ms = self@.messages;
                let ghost new_rec = RecordModel { agent_read: true, ..ms[k as int] };
                self.messages[k].agent_read = true;
                proof {
                    assert(self@.messages =~= ms.update(k as int, new_rec));
                    lemma_update_keeps_wf(ms, k as int, new_rec);
                }
            },
            None => {},
        }
    }

    /// Whether the local agent has read the message `message_id`; `false` for unknown
    /// messages.
    pub fn is_agent_read(&self, account: &str, message_id: &str) -> (r: bool)
        requires
            self.wf(),
        ensures
            r == is_read_spec(self@.messages, account@, message_id@),
    {
        match self.find_record(account, message_id) {
            Some(k) => {
                assert(self@.messages[k as int] == self.messages@[k as int]@);
                self.messages[k].agent_read
            },
            None => false,
        }
    }
}

impl SelectionEntry {
    /// A copy with the same contents.
    pub fn duplicate(&self) -> (r: Self)
        ensures
            r@ == self@,
    {
        SelectionEntry {
            account: self.account.clone(),
            folder: self.folder.clone(),
            uid: self.uid,
            message_id: copy_opt_string(&self.message_id),
            subject: copy_opt_string(&self.subject),
        }
    }
}

fn slice_contains(v: &[u32], x: u32) -> (r: bool)
    ensures
        r == v@.contains(x),
{
    let mut i: usize = 0;
    while i < v.len()
        invariant
            i <= v@.len(),
            forall|j: int| 0 <= j < i ==> v@[j] != x,
        decreases v@.len() - i,
    {
        if v[i] == x {
            assert(v@[i as int] == x);
            return true;
        }
        i = i + 1;
    }
    false
}

fn entry_matches_exec(
    e: &SelectionEntry,
    account: &str,
    folder: Option<&str>,
    uids: Option<&[u32]>,
) -> (r: bool)
    ensures
        r == entry_matches(e@, account@, opt_str_model(folder), opt_uids_model(uids)),
{
    if !str_equal(e.account.as_str(), account) {
        return false;
    }
    match folder {
        Some(f) => {
            if !str_equal(e.folder.as_str(), f) {
                return false;
            }
        },
        None => {},
    }
    match uids {
        Some(u) => slice_contains(u, e.uid),
        None => true,
    }
}

impl StateManager {
    /// The selection entries that match (`keep`) or do not match (`!keep`), in order.
    fn collect_entries(
        &self,
        account: &str,
        folder: Option<&str>,
        uids: Option<&[u32]>,
        keep: bool,
    ) -> (r: Vec<SelectionEntry>)
        ensures
            selection_models(r@) == self@.selections.filter(
                entry_filter(account@, opt_str_model(folder), opt_uids_model(uids), keep),
            ),
    {
        let ghost sel = self@.selections;
        let ghost p = entry_filter(account@, opt_str_model(folder), opt_uids_model(uids), keep);
        let mut out: Vec<SelectionEntry> = Vec::new();
        let mut i: usize = 0;
        while i < self.selections.len()
            invariant
                sel == self@.selections,
                sel.len() == self.selections@.len(),
                p == entry_filter(account@, opt_str_model(folder), opt_uids_model(uids), keep),
                i <= sel.len(),
                selection_models(out@) == sel.subrange(0, i as int).filter(p),
            decreases sel.len() - i,
        {
            let e = &self.selections[i];
            proof {
                assert(sel[i as int] == e@);
                assert(sel.subrange(0, i + 1) =~= sel.subrange(0, i as int).push(e@));
                lemma_filter_push(sel.subrange(0, i as int), e@, p);
            }
            if entry_matches_exec(e, account, folder, uids) == keep {
                let ghost before = out@;
                out.push(e.duplicate());
                assert(selection_models(out@) =~= selection_models(before).push(e@));
            }
            i = i + 1;
        }
        proof {
            assert(sel.subrange(0, sel.len() as int) =~= sel);
        }
        out
    }

    /// Replaces the selection table with `kept`, a filtered copy of it.
    fn replace_selections(&mut self, kept: Vec<SelectionEntry>, p: Ghost<spec_fn(EntryModel) -> bool>)
        requires
            old(self).wf(),
            selection_models(kept@) == old(self)@.selections.filter(p@),
        ensures
            final(self).wf(),
            final(self)@.selections == old(self)@.selections.filter(p@),
            final(self)@.messages == old(self)@.messages,
            final(self)@.drafts == old(self)@.drafts,
            final(self)@.history == old(self)@.history,
    {
        proof {
            lemma_filter_distinct(self@.selections, p@, |e: EntryModel| entry_key(e));
        }
        self.selections = kept;
    }

    fn find_entry(&self, account: &str, folder: &str, uid: u32) -> (r: Option<usize>)
        requires
            self.wf(),
        ensures
            match r {
                Some(k) => has_entry(self@.selections, account@, folder@, uid) && k
                    == entry_index(self@.selections, account@, folder@, uid) && k
                    < self@.selections.len(),
                None => !has_entry(self@.selections, account@, folder@, uid),
            },
    {
        let ghost sel = self@.selections;
        let mut i: usize = 0;
        while i < self.selections.len()
            invariant
                sel == self@.selections,
                selections_wf(sel),
                sel.len() == self.selections@.len(),
                i <= sel.len(),
                forall|j: int| 0 <= j < i ==> entry_key(#[trigger] sel[j]) != (account@, folder@, uid),
            decreases sel.len() - i,
        {
            assert(sel[i as int] == self.selections@[i as int]@);
            if self.selections[i].uid == uid && str_equal(self.selections[i].account.as_str(), account)
                && str_equal(self.selections[i].folder.as_str(), folder) {
                proof {
                    let c = entry_index(sel, account@, folder@, uid);
                    assert(entry_key(sel[i as int]) == (account@, folder@, uid));
                    assert(entry_key(sel[c]) == (account@, folder@, uid));
                    if c < i {
                        assert(false);
                    } else if c > i {
                        let key = |e: EntryModel| entry_key(e);
                        assert(key(sel[i as int]) != key(sel[c]));
                    }
                }
                return Some(i);
            }
            i = i + 1;
        }
        None
    }

    fn add_entry(
        &mut self,
        account: &str,
        folder: &str,
        uid: u32,
        message_id: Option<&str>,
        subject: Option<&str>,
    )
        requires
            old(self).wf(),
        ensures
            final(self).wf(),
            final(self)@.selections == add_entry_spec(
                old(self)@.selections,
                account@,
                folder@,
                uid,
                opt_str_model(message_id),
                opt_str_model(subject),
            ),
            final(self)@.messages == old(self)@.messages,
            final(self)@.drafts == old(self)@.drafts,
            final(self)@.history == old(self)@.history,
    {
        let ghost sel = self@.selections;
        let ghost key = |e: EntryModel| entry_key(e);
        match self.find_entry(account, folder, uid) {
            Some(k) => {
                let ghost old_e = sel[k as int];
                if message_id.is_some() {
                    self.selections[k].message_id = opt_to_owned(message_id);
                }
                if subject.is_some() {
                    self.selections[k].subject = opt_to_owned(subject);
                }
                let ghost new_e = EntryModel {
                    message_id: coalesce(opt_str_model(message_id), old_e.message_id),
                    subject: coalesce(opt_str_model(subject), old_e.subject),
                    ..old_e
                };
                proof {
                    assert(self@.selections =~= sel.update(k as int, new_e));
                    lemma_update_distinct(sel, k as int, new_e, key);
                }
            },
            None => {
                let e = SelectionEntry {
                    account: account.to_owned(),
                    folder: folder.to_owned(),
                    uid,
                    message_id: opt_to_owned(message_id),
                    subject: opt_to_owned(subject),
                };
                self.selections.push(e);
                proof {
                    assert(self@.selections =~= sel.push(e@));
                    assert forall|i: int| 0 <= i < sel.len() implies key(#[trigger] sel[i]) != key(e@) by {
                        if key(sel[i]) == key(e@) {
                            assert(entry_key(sel[i]) == (account@, folder@, uid));
                        }
                    }
                    lemma_push_distinct(sel, e@, key);
                }
            },
        }
    }

    /// Adds (sequence number, global id, subject) references of `folder` to the account's
    /// selection and returns how many were given. Re-adding a reference updates its
    /// metadata in place and never duplicates it.
    pub fn add_to_selection(
        &mut self,
        account: &str,
        folder: &str,
        entries: &[(u32, Option<&str>, Option<&str>)],
    ) -> (r: usize)
        requires
            old(self).wf(),
        ensures
            final(self).wf(),
            r == entries@.len(),
            final(self)@.selections == add_entries_spec(
                old(self)@.selections,
                account@,
                folder@,
                inputs_model(entries@),
            ),
            final(self)@.messages == old(self)@.messages,
            final(self)@.drafts == old(self)@.drafts,
            final(self)@.history == old(self)@.history,
    {
        let ghost start = self@;
        let mut i: usize = 0;
        while i < entries.len()
            invariant
                self.wf(),
                i <= entries@.len(),
                self@.selections == add_entries_spec(
                    start.selections,
                    account@,
                    folder@,
                    inputs_model(entries@.subrange(0, i as int)),
                ),
                self@.messages == start.messages,
                self@.drafts == start.drafts,
                self@.history == start.history,
            decreases entries@.len() - i,
        {
            let (uid, message_id, subject) = entries[i];
            proof {
                let m = inputs_model(entries@.subrange(0, i + 1));
                assert(m.drop_last() =~= inputs_model(entries@.subrange(0, i as int)));
                assert(m.last() == (uid, opt_str_model(message_id), opt_str_model(subject)));
            }
            self.add_entry(account, folder, uid, message_id, subject);
            i = i + 1;
        }
        proof {
            assert(entries@.subrange(0, entries@.len() as int) =~= entries@);
        }
        entries.len()
    }

    /// Removes the references of `folder` with the given sequence numbers from the
    /// account's selection and returns how many were there; absent ones are ignored.
    pub fn remove_from_selection(&mut self, account: &str, folder: &str, uids: &[u32]) -> (r: usize)
        requires
            old(self).wf(),
        ensures
            final(self).wf(),
            final(self)@.selections == old(self)@.selections.filter(
                entry_filter(account@, Some(folder@), Some(uids@), false),
            ),
            r == old(self)@.selections.len() - final(self)@.selections.len(),
            final(self)@.messages == old(self)@.messages,
            final(self)@.drafts == old(self)@.drafts,
            final(self)@.history == old(self)@.history,
    {
        let before = self.selections.len();
        let kept = self.collect_entries(account, Some(folder), Some(uids), false);
        proof {
            self@.selections.lemma_filter_len(
                entry_filter(account@, Some(folder@), Some(uids@), false),
            );
        }
        self.replace_selections(
            kept,
            Ghost(entry_filter(account@, Some(folder@), Some(uids@), false)),
        );
        before - self.selections.len()
    }

    /// The account's selection, in order of addition.
    pub fn get_selection(&self, account: &str) -> (r: Vec<SelectionEntry>)
        ensures
            selection_models(r@) == self@.selections.filter(entry_filter(account@, None, None, true)),
    {
        self.collect_entries(account, None, None, true)
    }

    /// The account's selection within `folder`, in order of addition.
    pub fn get_selection_for_folder(&self, account: &str, folder: &str) -> (r: Vec<SelectionEntry>)
        ensures
            selection_models(r@) == self@.selections.filter(
                entry_filter(account@, Some(folder@), None, true),
            ),
    {
        self.collect_entries(account, Some(folder), None, true)
    }

    /// Empties the account's selection and returns how many references it held.
    pub fn clear_selection(&mut self, account: &str) -> (r: usize)
        requires
            old(self).wf(),
        ensures
            final(self).wf(),
            final(self)@.selections == old(self)@.selections.filter(
                entry_filter(account@, None, None, false),
            ),
            r == old(self)@.selections.len() - final(self)@.selections.len(),
            final(self)@.messages == old(self)@.messages,
            final(self)@.drafts == old(self)@.drafts,
            final(self)@.history == old(self)@.history,
    {
        let before = self.selections.len();
        let kept = self.collect_entries(account, None, None, false);
        proof {
            self@.selections.lemma_filter_len(entry_filter(account@, None, None, false));
        }
        self.replace_selections(kept, Ghost(entry_filter(account@, None, None, false)));
        before - self.selections.len()
    }

    /// Removes the account's references within `folder` and returns how many there were.
    pub fn clear_selection_for_folder(&mut self, account: &str, folder: &str) -> (r: usize)
        requires
            old(self).wf(),
        ensures
            final(self).wf(),
            final(self)@.selections == old(self)@.selections.filter(
                entry_filter(account@, Some(folder@), None, false),
            ),
            r == old(self)@.selections.len() - final(self)@.selections.len(),
            final(self)@.messages == old(self)@.messages,
            final(self)@.drafts == old(self)@.drafts,
            final(self)@.history == old(self)@.history,
    {
        let before = self.selections.len();
        let kept = self.collect_entries(account, Some(folder), None, false);
        proof {
            self@.selections.lemma_filter_len(entry_filter(account@, Some(folder@), None, false));
        }
        self.replace_selections(kept, Ghost(entry_filter(account@, Some(folder@), None, false)));
        before - self.selections.len()
    }

    /// Number of references in the account's selection.
    pub fn selection_count(&self, account: &str) -> (r: usize)
        ensures
            r == self@.selections.filter(entry_filter(account@, None, None, true)).len(),
    {
        self.collect_entries(account, None, None, true).len()
    }
}

impl StateManager {
    fn find_draft(&self, account: &str) -> (r: Option<usize>)
        requires
            self.wf(),
        ensures
            match r {
                Some(k) => has_draft_spec(self@.drafts, account@) && k == draft_index(
                    self@.drafts,
                    account@,
                ) && k < self@.drafts.len(),
                None => !has_draft_spec(self@.drafts, account@),
            },
    {
        let ghost ds = self@.drafts;
        let mut i: usize = 0;
        while i < self.drafts.len()
            invariant
                ds == self@.drafts,
                drafts_wf(ds),
                ds.len() == self.drafts@.len(),
                i <= ds.len(),
                forall|j: int| 0 <= j < i ==> (#[trigger] ds[j]).account != account@,
            decreases ds.len() - i,
        {
            assert(ds[i as int] == self.drafts@[i as int]@);
            if str_equal(self.drafts[i].account.as_str(), account) {
                proof {
                    let c = draft_index(ds, account@);
                    assert(ds[c].account == account@);
                    if c < i {
                        assert(false);
                    } else if c > i {
                        let key = |d: DraftModel| draft_key(d);
                        assert(key(ds[i as int]) != key(ds[c]));
                    }
                }
                return Some(i);
            }
            i = i + 1;
        }
        None
    }

    /// Stores `draft` as its account's single draft, replacing any earlier one.
    pub fn save_draft(&mut self, draft: &Draft)
        requires
            old(self).wf(),
        ensures
            final(self).wf(),
            final(self)@.drafts == save_draft_spec(old(self)@.drafts, draft@),
            final(self)@.messages == old(self)@.messages,
            final(self)@.selections == old(self)@.selections,
            final(self)@.history == old(self)@.history,
    {
        let ghost ds = self@.drafts;
        let ghost key = |d: DraftModel| draft_key(d);
        let copy = draft.duplicate();
        match self.find_draft(draft.account.as_str()) {
            Some(k) => {
                self.drafts[k] = copy;
                proof {
                    assert(self@.drafts =~= ds.update(k as int, draft@));
                    lemma_update_distinct(ds, k as int, draft@, key);
                }
            },
            None => {
                self.drafts.push(copy);
                proof {
                    assert(self@.drafts =~= ds.push(draft@));
                    assert forall|i: int| 0 <= i < ds.len() implies key(#[trigger] ds[i]) != key(
                        draft@,
                    ) by {
                        if key(ds[i]) == key(draft@) {
                            assert(ds[i].account == draft@.account);
                        }
                    }
                    lemma_push_distinct(ds, draft@, key);
                }
            },
        }
    }

    /// Stages `draft`: a flag draft that meets an outstanding flag draft of the account is
    /// merged into it first; the result replaces the account's draft.
    pub fn save_flag_draft(&mut self, draft: &Draft)
        requires
            old(self).wf(),
        ensures
            final(self).wf(),
            final(self)@.drafts == save_draft_spec(
                old(self)@.drafts,
                staged_draft(old(self)@.drafts, draft@),
            ),
            final(self)@.messages == old(self)@.messages,
            final(self)@.selections == old(self)@.selections,
            final(self)@.history == old(self)@.history,
    {
        let ghost ds = self@.drafts;
        let mut staged = draft.duplicate();
        match self.find_draft(draft.account.as_str()) {
            Some(k) => {
                let prev = &self.drafts[k];
                assert(ds[k as int] == prev@);
                if prev.action_type == ActionType::Flag && draft.action_type == ActionType::Flag {
                    match (&prev.flag_params, &draft.flag_params) {
                        (Some(old_params), Some(new_params)) => {
                            let mut merged = old_params.duplicate();
                            merged.merge(new_params);
                            staged.flag_params = Some(merged);
                            if draft.dest_folder.is_none() {
                                staged.dest_folder = copy_opt_string(&prev.dest_folder);
                            }
                        },
                        _ => {},
                    }
                }
            },
            None => {},
        }
        self.save_draft(&staged);
    }

    /// The account's draft, if it has one.
    pub fn get_draft(&self, account: &str) -> (r: Option<Draft>)
        requires
            self.wf(),
        ensures
            match r {
                Some(d) => draft_of(self@.drafts, account@) == Some(d@),
                None => draft_of(self@.drafts, account@).is_none(),
            },
    {
        match self.find_draft(account) {
            Some(k) => {
                assert(self@.drafts[k as int] == self.drafts@[k as int]@);
                Some(self.drafts[k].duplicate())
            },
            None => None,
        }
    }

    /// Discards the account's draft; returns whether there was one.
    pub fn clear_draft(&mut self, account: &str) -> (r: bool)
        requires
            old(self).wf(),
        ensures
            final(self).wf(),
            r == has_draft_spec(old(self)@.drafts, account@),
            final(self)@.drafts == clear_draft_spec(old(self)@.drafts, account@),
            final(self)@.messages == old(self)@.messages,
            final(self)@.selections == old(self)@.selections,
            final(self)@.history == old(self)@.history,
    {
        let ghost ds = self@.drafts;
        match self.find_draft(account) {
            Some(k) => {
                let _ = self.drafts.remove(k);
                proof {
                    assert(self@.drafts =~= ds.remove(k as int));
                    lemma_remove_distinct(ds, k as int, |d: DraftModel| draft_key(d));
                }
                true
            },
            None => false,
        }
    }

    /// Whether the account has a draft.
    pub fn has_draft(&self, account: &str) -> (r: bool)
        requires
            self.wf(),
        ensures
            r == has_draft_spec(self@.drafts, account@),
    {
        self.find_draft(account).is_some()
    }

    fn find_history(&self, account: &str, folder: &str) -> (r: Option<usize>)
        requires
            self.wf(),
        ensures
            match r {
                Some(k) => has_history(self@.history, account@, folder@) && k == history_index(
                    self@.history,
                    account@,
                    folder@,
                ) && k < self@.history.len(),
                None => !has_history(self@.history, account@, folder@),
            },
    {
        let ghost hs = self@.history;
        let mut i: usize = 0;
        while i < self.history.len()
            invariant
                hs == self@.history,
                history_wf(hs),
                hs.len() == self.history@.len(),
                i <= hs.len(),
                forall|j: int| 0 <= j < i ==> history_key(#[trigger] hs[j]) != (account@, folder@),
            decreases hs.len() - i,
        {
            assert(hs[i as int] == self.history@[i as int]@);
            if str_equal(self.history[i].account.as_str(), account) && str_equal(
                self.history[i].folder.as_str(),
                folder,
            ) {
                proof {
                    let c = history_index(hs, account@, folder@);
                    assert(history_key(hs[i as int]) == (account@, folder@));
                    assert(history_key(hs[c]) == (account@, folder@));
                    if c < i {
                        assert(false);
                    } else if c > i {
                        let key = |h: HistoryModel| history_key(h);
                        assert(key(hs[i as int]) != key(hs[c]));
                    }
                }
                return Some(i);
            }
            i = i + 1;
        }
        None
    }

    /// Records `query_string` and its results as the last query of the account in
    /// `folder`, replacing the previous record there wholesale.
    pub fn save_query_results(
        &mut self,
        account: &str,
        folder: &str,
        query_string: &str,
        results: &[(u32, Option<&str>, Option<&str>)],
        executed_at: i64,
    )
        requires
            old(self).wf(),
        ensures
            final(self).wf(),
            final(self)@.history == save_history_spec(
                old(self)@.history,
                HistoryModel {
                    account: account@,
                    folder: folder@,
                    query_string: query_string@,
                    executed_at,
                    results: results_spec(account@, folder@, inputs_model(results@)),
                },
            ),
            final(self)@.messages == old(self)@.messages,
            final(self)@.selections == old(self)@.selections,
            final(self)@.drafts == old(self)@.drafts,
    {
        let ghost hs = self@.history;
        let ghost key = |h: HistoryModel| history_key(h);
        let mut entries: Vec<QueryResultEntry> = Vec::new();
        let mut i: usize = 0;
        while i < results.len()
            invariant
                i <= results@.len(),
                result_models(entries@) == results_spec(
                    account@,
                    folder@,
                    inputs_model(results@.subrange(0, i as int)),
                ),
            decreases results@.len() - i,
        {
            let (uid, message_id, subject) = results[i];
            let e = QueryResultEntry {
                account: account.to_owned(),
                folder: folder.to_owned(),
                uid,
                message_id: opt_to_owned(message_id),
                subject: opt_to_owned(subject),
            };
            let ghost before = entries@;
            entries.push(e);
            proof {
                assert(result_models(entries@) =~= result_models(before).push(e@));
                assert(results_spec(account@, folder@, inputs_model(results@.subrange(0, i + 1)))
                    =~= results_spec(
                    account@,
                    folder@,
                    inputs_model(results@.subrange(0, i as int)),
                ).push(e@));
            }
            i = i + 1;
        }
        proof {
            assert(results@.subrange(0, results@.len() as int) =~= results@);
        }
        let h = QueryHistory {
            account: account.to_owned(),
            folder: folder.to_owned(),
            query_string: query_string.to_owned(),
            executed_at,
            results: entries,
        };
        let ghost hm = h@;
        match self.find_history(account, folder) {
            Some(k) => {
                self.history[k] = h;
                proof {
                    assert(self@.history =~= hs.update(k as int, hm));
                    lemma_update_distinct(hs, k as int, hm, key);
                }
            },
            None => {
                self.history.push(h);
                proof {
                    assert(self@.history =~= hs.push(hm));
                    assert forall|i: int| 0 <= i < hs.len() implies key(#[trigger] hs[i]) != key(hm) by {
                        if key(hs[i]) == key(hm) {
                            assert(history_key(hs[i]) == (account@, folder@));
                        }
                    }
                    lemma_push_distinct(hs, hm, key);
                }
            },
        }
    }

    /// The results of the account's last query in `folder`, in the order they were recorded;
    /// empty when none was recorded.
    pub fn get_last_query_results(&self, account: &str, folder: &str) -> (r: Vec<QueryResultEntry>)
        requires
            self.wf(),
        ensures
            result_models(r@) == last_results_spec(self@.history, account@, folder@),
    {
        let mut out: Vec<QueryResultEntry> = Vec::new();
        match self.find_history(account, folder) {
            Some(k) => {
                let h = &self.history[k];
                assert(self@.history[k as int] == h@);
                let mut i: usize = 0;
                while i < h.results.len()
                    invariant
                        i <= h.results@.len(),
                        result_models(out@) == result_models(h.results@.subrange(0, i as int)),
                    decreases h.results@.len() - i,
                {
                    let e = &h.results[i];
                    let copy = QueryResultEntry {
                        account: e.account.clone(),
                        folder: e.folder.clone(),
                        uid: e.uid,
                        message_id: copy_opt_string(&e.message_id),
                        subject: copy_opt_string(&e.subject),
                    };
                    let ghost before = out@;
                    out.push(copy);
                    proof {
                        assert(result_models(out@) =~= result_models(before).push(e@));
                        assert(result_models(h.results@.subrange(0, i + 1)) =~= result_models(
                            h.results@.subrange(0, i as int),
                        ).push(e@));
                    }
                    i = i + 1;
                }
                proof {
                    assert(h.results@.subrange(0, h.results@.len() as int) =~= h.results@);
                }
                out
            },
            None => {
                assert(result_models(out@) =~= seq![]);
                out
            },
        }
    }

    /// The text of the account's last query in `folder`, if one was recorded.
    pub fn get_last_query_string(&self, account: &str, folder: &str) -> (r: Option<String>)
        requires
            self.wf(),
        ensures
            opt_string_model(r) == last_query_spec(self@.history, account@, folder@),
    {
        match self.find_history(account, folder) {
            Some(k) => {
                assert(self@.history[k as int] == self.history@[k as int]@);
                Some(self.history[k].query_string.clone())
            },
            None => None,
        }
    }
}

/// Why a batch action has no targets.
#[derive(Debug, Clone)]
pub enum TargetError {
    /// The selection was asked for and is empty.
    EmptySelection,
    /// The selection holds no message with a shadow ID.
    NoShadowIds,
    /// Neither IDs nor the selection were given.
    NoIds,
    /// These shadow IDs do not resolve.
    Unresolved(Vec<u64>),
}

pub enum TargetErrorModel {
    EmptySelection,
    NoShadowIds,
    NoIds,
    Unresolved(Seq<u64>),
}

impl View for TargetError {
    type V = TargetErrorModel;

    open spec fn view(&self) -> TargetErrorModel {
        match self {
            TargetError::EmptySelection => TargetErrorModel::EmptySelection,
            TargetError::NoShadowIds => TargetErrorModel::NoShadowIds,
            TargetError::NoIds => TargetErrorModel::NoIds,
            TargetError::Unresolved(v) => TargetErrorModel::Unresolved(v@),
        }
    }
}

/// The messages of one folder that a batch action works on.
#[derive(Debug, Clone)]
pub struct FolderTargets {
    pub folder: String,
    pub messages: Vec<ResolvedMessage>,
}

pub open spec fn groups_model(v: Seq<FolderTargets>) -> Seq<(Seq<char>, Seq<ResolvedModel>)> {
    v.map_values(|g: FolderTargets| (g.folder@, resolved_models(g.messages@)))
}

/// Whether an existing store must be dropped and recreated: it has a message table but no
/// schema-version marker.
pub fn needs_schema_migration(has_messages_table: bool, has_version_marker: bool) -> (r: bool)
    ensures
        r == (has_messages_table && !has_version_marker),
{
    has_messages_table && !has_version_marker
}

fn copy_resolved(r: &ResolvedMessage) -> (c: ResolvedMessage)
    ensures
        c@ == r@,
{
    ResolvedMessage {
        shadow_uid: r.shadow_uid,
        message_id: r.message_id.clone(),
        folder: r.folder.clone(),
        uid: r.uid,
        subject: copy_opt_string(&r.subject),
    }
}

/// Groups resolved messages by folder, folders in order of first appearance.
pub fn group_by_folder_exec(rs: &Vec<ResolvedMessage>) -> (r: Vec<FolderTargets>)
    ensures
        groups_model(r@) == group_by_folder(resolved_models(rs@)),
{
    let ghost m = resolved_models(rs@);
    let mut groups: Vec<FolderTargets> = Vec::new();
    let mut i: usize = 0;
    while i < rs.len()
        invariant
            m == resolved_models(rs@),
            i <= rs@.len(),
            groups_model(groups@) == group_by_folder(m.subrange(0, i as int)),
        decreases rs@.len() - i,
    {
        let r = &rs[i];
        let ghost gm = groups_model(groups@);
        proof {
            assert(m.subrange(0, i + 1).drop_last() =~= m.subrange(0, i as int));
            assert(m[i as int] == r@);
        }
        let mut k: usize = 0;
        while k < groups.len()
            invariant
                gm == groups_model(groups@),
                k <= groups@.len(),
                scan_group(gm, r@.folder, 0) == scan_group(gm, r@.folder, k as int),
            ensures
                gm == groups_model(groups@),
                k <= groups@.len(),
                scan_group(gm, r@.folder, 0) == k,
            decreases groups@.len() - k,
        {
            assert(gm[k as int].0 == groups@[k as int].folder@);
            if str_equal(groups[k].folder.as_str(), r.folder.as_str()) {
                break;
            }
            k = k + 1;
        }
        if k < groups.len() {
            assert(scan_group(gm, r@.folder, 0) == k);
            let ghost before = groups@;
            groups[k].messages.push(copy_resolved(r));
            proof {
                assert(resolved_models(groups@[k as int].messages@) =~= resolved_models(
                    before[k as int].messages@,
                ).push(r@));
                assert(groups_model(groups@) =~= gm.update(
                    k as int,
                    (gm[k as int].0, gm[k as int].1.push(r@)),
                ));
            }
        } else {
            let mut msgs: Vec<ResolvedMessage> = Vec::new();
            msgs.push(copy_resolved(r));
            let g = FolderTargets { folder: r.folder.clone(), messages: msgs };
            proof {
                assert(resolved_models(g.messages@) =~= seq![r@]);
            }
            let ghost before = groups@;
            groups.push(g);
            proof {
                assert(groups_model(groups@) =~= groups_model(before).push((r@.folder, seq![r@])));
            }
        }
        i = i + 1;
    }
    proof {
        assert(m.subrange(0, rs@.len() as int) =~= m);
    }
    groups
}

impl StateManager {
    /// Shadow IDs of the account's selection entries that have one, in selection order.
    fn selection_ids(&self, account: &str) -> (r: Vec<u64>)
        requires
            self.wf(),
        ensures
            r@ == selection_shadow_ids(
                self@.messages,
                account@,
                self@.selections.filter(entry_filter(account@, None, None, true)),
            ),
    {
        let sel = self.get_selection(account);
        let ghost sm = selection_models(sel@);
        let mut ids: Vec<u64> = Vec::new();
        let mut i: usize = 0;
        while i < sel.len()
            invariant
                self.wf(),
                sm == selection_models(sel@),
                i <= sel@.len(),
                ids@ == selection_shadow_ids(self@.messages, account@, sm.subrange(0, i as int)),
            decreases sel@.len() - i,
        {
            proof {
                assert(sm.subrange(0, i + 1).drop_last() =~= sm.subrange(0, i as int));
                assert(sm[i as int] == sel@[i as int]@);
            }
            match &sel[i].message_id {
                Some(g) => {
                    match self.find_record(account, g.as_str()) {
                        Some(k) => {
                            assert(self@.messages[k as int] == self.messages@[k as int]@);
                            ids.push(self.messages[k].shadow_uid);
                        },
                        None => {},
                    }
                },
                None => {},
            }
            i = i + 1;
        }
        proof {
            assert(sm.subrange(0, sm.len() as int) =~= sm);
        }
        ids
    }

    /// The targets of a batch action: the shadow IDs of the account's selection when
    /// `use_selection`, else `provided_ids`; each resolved to its current location and
    /// grouped by folder.
    pub fn resolve_targets(&self, account: &str, provided_ids: Vec<u64>, use_selection: bool) -> (r:
        Result<(Vec<u64>, Vec<FolderTargets>), TargetError>)
        requires
            self.wf(),
        ensures
            match target_ids_spec(self@, account@, provided_ids@, use_selection) {
                Err(e) => match r {
                    Err(x) => x@ == e,
                    Ok(_) => false,
                },
                Ok(ids) => if unresolved_spec(self@.messages, account@, ids).len() > 0 {
                    match r {
                        Err(x) => x@ == TargetErrorModel::Unresolved(
                            unresolved_spec(self@.messages, account@, ids),
                        ),
                        Ok(_) => false,
                    }
                } else {
                    match r {
                        Ok((v, groups)) => v@ == ids && groups_model(groups@) == group_by_folder(
                            ids.map_values(|id: u64| resolved_spec(self@.messages, account@, id)),
                        ),
                        Err(_) => false,
                    }
                },
            },
    {
        let ids = if use_selection {
            let n = self.selection_count(account);
            if n == 0 {
                return Err(TargetError::EmptySelection);
            }
            let ids = self.selection_ids(account);
            if ids.len() == 0 {
                return Err(TargetError::NoShadowIds);
            }
            ids
        } else if provided_ids.len() > 0 {
            provided_ids
        } else {
            return Err(TargetError::NoIds);
        };
        match self.resolve_shadow_uids(account, &ids) {
            Err(missing) => Err(TargetError::Unresolved(missing)),
            Ok(resolved) => {
                let groups = group_by_folder_exec(&resolved);
                proof {
                    assert(resolved_models(resolved@) =~= ids@.map_values(
                        |id: u64| resolved_spec(self@.messages, account@, id),
                    ));
                }
                Ok((ids, groups))
            },
        }
    }

    /// After a batch action: clears the account's selection unless `keep_selection`;
    /// returns whether anything was cleared.
    pub fn finish_action(&mut self, account: &str, keep_selection: bool) -> (r: bool)
        requires
            old(self).wf(),
        ensures
            final(self).wf(),
            keep_selection ==> final(self)@ == old(self)@ && !r,
            !keep_selection ==> final(self)@.selections == old(self)@.selections.filter(
                entry_filter(account@, None, None, false),
            ) && r == (final(self)@.selections.len() < old(self)@.selections.len()),
            final(self)@.messages == old(self)@.messages,
            final(self)@.drafts == old(self)@.drafts,
            final(self)@.history == old(self)@.history,
    {
        if keep_selection {
            false
        } else {
            self.clear_selection(account) > 0
        }
    }
}

fn opt_as_str(o: &Option<String>) -> (r: Option<&str>)
    ensures
        opt_str_model(r) == opt_string_model(*o),
{
    match o {
        Some(s) => Some(s.as_str()),
        None => None,
    }
}

impl StateManager {
    /// Records what a search of `folder` returned: each message is observed in turn
    /// (getting its shadow ID, if it has a global id), then the results replace the last
    /// query of the account in that folder. Returns the shadow ID of each message.
    pub fn record_query_results(
        &mut self,
        account: &str,
        folder: &str,
        query_string: &str,
        messages: &[ObservedMessage],
        executed_at: i64,
    ) -> (r: Vec<Option<u64>>)
        requires
            old(self).wf(),
        ensures
            final(self).wf(),
            (final(self)@.messages, r@) == observe_all(
                old(self)@.messages,
                account@,
                folder@,
                observed_models(messages@),
            ),
            final(self)@.history == save_history_spec(
                old(self)@.history,
                HistoryModel {
                    account: account@,
                    folder: folder@,
                    query_string: query_string@,
                    executed_at,
                    results: results_spec(
                        account@,
                        folder@,
                        observed_inputs(observed_models(messages@)),
                    ),
                },
            ),
            final(self)@.selections == old(self)@.selections,
            final(self)@.drafts == old(self)@.drafts,
    {
        let ghost start = self@;
        let ghost os = observed_models(messages@);
        let mut ids: Vec<Option<u64>> = Vec::new();
        let mut entries: Vec<(u32, Option<&str>, Option<&str>)> = Vec::new();
        let mut i: usize = 0;
        while i < messages.len()
            invariant
                self.wf(),
                os == observed_models(messages@),
                i <= messages@.len(),
                (self@.messages, ids@) == observe_all(
                    start.messages,
                    account@,
                    folder@,
                    os.subrange(0, i as int),
                ),
                inputs_model(entries@) == observed_inputs(os.subrange(0, i as int)),
                self@.selections == start.selections,
                self@.drafts == start.drafts,
                self@.history == start.history,
            decreases messages@.len() - i,
        {
            let m = &messages[i];
            proof {
                assert(os.subrange(0, i + 1).drop_last() =~= os.subrange(0, i as int));
                assert(os[i as int] == m@);
            }
            let id = self.get_or_create_shadow_uid(
                account,
                folder,
                m.uid,
                opt_as_str(&m.message_id),
                opt_as_str(&m.subject),
                opt_as_str(&m.from_address),
                m.date_sent,
            );
            ids.push(id);
            let ghost before = entries@;
            entries.push((m.uid, opt_as_str(&m.message_id), opt_as_str(&m.subject)));
            proof {
                assert(inputs_model(entries@) =~= inputs_model(before).push(
                    (m@.uid, m@.message_id, m@.subject),
                ));
                assert(observed_inputs(os.subrange(0, i + 1)) =~= observed_inputs(
                    os.subrange(0, i as int),
                ).push((m@.uid, m@.message_id, m@.subject)));
            }
            i = i + 1;
        }
        proof {
            assert(os.subrange(0, os.len() as int) =~= os);
        }
        self.save_query_results(account, folder, query_string, entries.as_slice(), executed_at);
        ids
    }
}

impl StateManager {
    /// Adds the results of the account's last query in `folder` to its selection and
    /// returns how many there were; `None`, changing nothing, when no query was recorded
    /// there or it found nothing.
    pub fn select_last_query(&mut self, account: &str, folder: &str) -> (r: Option<usize>)
        requires
            old(self).wf(),
        ensures
            final(self).wf(),
            last_results_spec(old(self)@.history, account@, folder@).len() == 0 ==> r.is_none()
                && final(self)@ == old(self)@,
            last_results_spec(old(self)@.history, account@, folder@).len() > 0 ==> r == Some(
                last_results_spec(old(self)@.history, account@, folder@).len() as usize,
            ) && final(self)@.selections == add_entries_spec(
                old(self)@.selections,
                account@,
                folder@,
                entry_inputs(last_results_spec(old(self)@.history, account@, folder@)),
            ),
            final(self)@.messages == old(self)@.messages,
            final(self)@.drafts == old(self)@.drafts,
            final(self)@.history == old(self)@.history,
    {
        let results = self.get_last_query_results(account, folder);
        if results.len() == 0 {
            return None;
        }
        let ghost rm = result_models(results@);
        let mut entries: Vec<(u32, Option<&str>, Option<&str>)> = Vec::new();
        let mut i: usize = 0;
        while i < results.len()
            invariant
                rm == result_models(results@),
                i <= results@.len(),
                inputs_model(entries@) == entry_inputs(rm.subrange(0, i as int)),
            decreases results@.len() - i,
        {
            let e = &results[i];
            let ghost before = entries@;
            entries.push((e.uid, opt_as_str(&e.message_id), opt_as_str(&e.subject)));
            proof {
                assert(rm[i as int] == e@);
                assert(inputs_model(entries@) =~= inputs_model(before).push(
                    (e@.uid, e@.message_id, e@.subject),
                ));
                assert(entry_inputs(rm.subrange(0, i + 1)) =~= entry_inputs(
                    rm.subrange(0, i as int),
                ).push((e@.uid, e@.message_id, e@.subject)));
            }
            i = i + 1;
        }
        proof {
            assert(rm.subrange(0, rm.len() as int) =~= rm);
        }
        Some(self.add_to_selection(account, folder, entries.as_slice()))
    }

    /// Adds the messages named by shadow IDs to the account's selection, each at its
    /// current location; returns how many, or the IDs that do not resolve.
    pub fn select_ids(&mut self, account: &str, ids: &Vec<u64>) -> (r: Result<usize, Vec<u64>>)
        requires
            old(self).wf(),
        ensures
            final(self).wf(),
            match r {
                Err(missing) => missing@ == unresolved_spec(old(self)@.messages, account@, ids@)
                    && missing@.len() > 0 && final(self)@ == old(self)@,
                Ok(n) => unresolved_spec(old(self)@.messages, account@, ids@).len() == 0 && n
                    == ids@.len() && final(self)@.selections == add_resolved_spec(
                    old(self)@.selections,
                    account@,
                    ids@.map_values(|id: u64| resolved_spec(old(self)@.messages, account@, id)),
                ),
            },
            final(self)@.messages == old(self)@.messages,
            final(self)@.drafts == old(self)@.drafts,
            final(self)@.history == old(self)@.history,
    {
        let ghost start = self@;
        let resolved = match self.resolve_shadow_uids(account, ids) {
            Ok(v) => v,
            Err(missing) => {
                return Err(missing);
            },
        };
        let ghost rm = resolved_models(resolved@);
        proof {
            assert(rm =~= ids@.map_values(|id: u64| resolved_spec(start.messages, account@, id)));
        }
        let mut i: usize = 0;
        while i < resolved.len()
            invariant
                self.wf(),
                rm == resolved_models(resolved@),
                i <= resolved@.len(),
                self@.selections == add_resolved_spec(start.selections, account@, rm.subrange(0, i as int)),
                self@.messages == start.messages,
                self@.drafts == start.drafts,
                self@.history == start.history,
            decreases resolved@.len() - i,
        {
            let m = &resolved[i];
            proof {
                assert(rm.subrange(0, i + 1).drop_last() =~= rm.subrange(0, i as int));
                assert(rm[i as int] == m@);
            }
            self.add_entry(account, m.folder.as_str(), m.uid, Some(m.message_id.as_str()), None);
            i = i + 1;
        }
        proof {
            assert(rm.subrange(0, rm.len() as int) =~= rm);
        }
        Ok(resolved.len())
    }
}

impl MessageRecord {
    /// A copy with the same contents.
    pub fn duplicate(&self) -> (r: Self)
        ensures
            r@ == self@,
    {
        MessageRecord {
            account: self.account.clone(),
            message_id: self.message_id.clone(),
            shadow_uid: self.shadow_uid,
            folder: copy_opt_string(&self.folder),
            uid: self.uid,
            subject: copy_opt_string(&self.subject),
            from_address: copy_opt_string(&self.from_address),
            date_sent: self.date_sent,
            agent_read: self.agent_read,
        }
    }
}

pub open spec fn record_models(v: Seq<MessageRecord>) -> Seq<RecordModel> {
    v.map_values(|r: MessageRecord| r@)
}

pub open spec fn draft_models(v: Seq<Draft>) -> Seq<DraftModel> {
    v.map_values(|d: Draft| d@)
}

pub open spec fn history_models(v: Seq<QueryHistory>) -> Seq<HistoryModel> {
    v.map_values(|h: QueryHistory| h@)
}

/// Whether the records satisfy the store invariant.
fn check_records(ms: &Vec<MessageRecord>) -> (r: bool)
    ensures
        r == records_wf(record_models(ms@)),
{
    let ghost m = record_models(ms@);
    let mut i: usize = 0;
    while i < ms.len()
        invariant
            m == record_models(ms@),
            i <= m.len(),
            records_wf(m.subrange(0, i as int)),
        decreases m.len() - i,
    {
        let ghost a = m[i as int].account;
        assert(m[i as int] == ms@[i as int]@);
        let mut count: u64 = 0;
        let mut j: usize = 0;
        while j < i
            invariant
                m == record_models(ms@),
                a == m[i as int].account,
                i < m.len(),
                j <= i,
                count == count_account(m.subrange(0, j as int), a),
                count <= j,
                forall|k: int|
                    0 <= k < j ==> !(#[trigger] m[k].account == a && m[k].message_id
                        == m[i as int].message_id),
            decreases i - j,
        {
            proof {
                lemma_count_prefix_step(m, a, j as int);
                assert(m[j as int] == ms@[j as int]@);
            }
            if str_equal(ms[j].account.as_str(), ms[i].account.as_str()) {
                if str_equal(ms[j].message_id.as_str(), ms[i].message_id.as_str()) {
                    assert(m[j as int].account == m[i as int].account && m[j as int].message_id
                        == m[i as int].message_id);
                    return false;
                }
                count = count + 1;
            }
            j = j + 1;
        }
        if count >= u64::MAX || ms[i].shadow_uid != count + 1 {
            proof {
                assert(m[i as int].shadow_uid != count_account(m.subrange(0, i as int), a) + 1);
            }
            return false;
        }
        proof {
            let p = m.subrange(0, i + 1);
            assert forall|x: int, y: int|
                0 <= x < y < p.len() && p[x].account == p[y].account implies p[x].message_id
                != p[y].message_id by {
                if y < i {
                    assert(m.subrange(0, i as int)[x] == p[x]);
                    assert(m.subrange(0, i as int)[y] == p[y]);
                }
            }
            assert forall|x: int| 0 <= x < p.len() implies #[trigger] p[x].shadow_uid
                == count_account(p.subrange(0, x), p[x].account) + 1 by {
                if x < i {
                    assert(m.subrange(0, i as int)[x] == p[x]);
                    assert(m.subrange(0, i as int).subrange(0, x) =~= p.subrange(0, x));
                } else {
                    assert(p.subrange(0, x) =~= m.subrange(0, i as int));
                }
            }
        }
        i = i + 1;
    }
    proof {
        assert(m.subrange(0, m.len() as int) =~= m);
    }
    true
}

/// Whether no two selection entries share (account, folder, sequence number).
fn check_selections(v: &Vec<SelectionEntry>) -> (r: bool)
    ensures
        r == selections_wf(selection_models(v@)),
{
    let ghost m = selection_models(v@);
    let ghost key = |e: EntryModel| entry_key(e);
    let mut i: usize = 0;
    while i < v.len()
        invariant
            m == selection_models(v@),
            key == (|e: EntryModel| entry_key(e)),
            i <= m.len(),
            forall|x: int, y: int| 0 <= x < y < i ==> key(m[x]) != key(m[y]),
        decreases m.len() - i,
    {
        let mut j: usize = 0;
        while j < i
            invariant
                m == selection_models(v@),
                key == (|e: EntryModel| entry_key(e)),
                i < m.len(),
                j <= i,
                forall|x: int, y: int| 0 <= x < y < i ==> key(m[x]) != key(m[y]),
                forall|x: int| 0 <= x < j ==> key(m[x]) != key(m[i as int]),
            decreases i - j,
        {
            assert(m[j as int] == v@[j as int]@ && m[i as int] == v@[i as int]@);
            if v[j].uid == v[i].uid && str_equal(v[j].account.as_str(), v[i].account.as_str())
                && str_equal(v[j].folder.as_str(), v[i].folder.as_str()) {
                assert(key(m[j as int]) == key(m[i as int]));
                return false;
            }
            j = j + 1;
        }
        i = i + 1;
    }
    true
}

/// Whether no two drafts belong to one account.
fn check_drafts(v: &Vec<Draft>) -> (r: bool)
    ensures
        r == drafts_wf(draft_models(v@)),
{
    let ghost m = draft_models(v@);
    let ghost key = |d: DraftModel| draft_key(d);
    let mut i: usize = 0;
    while i < v.len()
        invariant
            m == draft_models(v@),
            key == (|d: DraftModel| draft_key(d)),
            i <= m.len(),
            forall|x: int, y: int| 0 <= x < y < i ==> key(m[x]) != key(m[y]),
        decreases m.len() - i,
    {
        let mut j: usize = 0;
        while j < i
            invariant
                m == draft_models(v@),
                key == (|d: DraftModel| draft_key(d)),
                i < m.len(),
                j <= i,
                forall|x: int, y: int| 0 <= x < y < i ==> key(m[x]) != key(m[y]),
                forall|x: int| 0 <= x < j ==> key(m[x]) != key(m[i as int]),
            decreases i - j,
        {
            assert(m[j as int] == v@[j as int]@ && m[i as int] == v@[i as int]@);
            if str_equal(v[j].account.as_str(), v[i].account.as_str()) {
                assert(key(m[j as int]) == key(m[i as int]));
                return false;
            }
            j = j + 1;
        }
        i = i + 1;
    }
    true
}

/// Whether no two history entries share (account, folder).
fn check_history(v: &Vec<QueryHistory>) -> (r: bool)
    ensures
        r == history_wf(history_models(v@)),
{
    let ghost m = history_models(v@);
    let ghost key = |h: HistoryModel| history_key(h);
    let mut i: usize = 0;
    while i < v.len()
        invariant
            m == history_models(v@),
            key == (|h: HistoryModel| history_key(h)),
            i <= m.len(),
            forall|x: int, y: int| 0 <= x < y < i ==> key(m[x]) != key(m[y]),
        decreases m.len() - i,
    {
        let mut j: usize = 0;
        while j < i
            invariant
                m == history_models(v@),
                key == (|h: HistoryModel| history_key(h)),
                i < m.len(),
                j <= i,
                forall|x: int, y: int| 0 <= x < y < i ==> key(m[x]) != key(m[y]),
                forall|x: int| 0 <= x < j ==> key(m[x]) != key(m[i as int]),
            decreases i - j,
        {
            assert(m[j as int] == v@[j as int]@ && m[i as int] == v@[i as int]@);
            if str_equal(v[j].account.as_str(), v[i].account.as_str()) && str_equal(
                v[j].folder.as_str(),
                v[i].folder.as_str(),
            ) {
                assert(key(m[j as int]) == key(m[i as int]));
                return false;
            }
            j = j + 1;
        }
        i = i + 1;
    }
    true
}

impl StateManager {
    /// A store holding the given tables, as they were persisted; `None` when they break
    /// the store invariant (a repeated key, or shadow IDs out of sequence).
    pub fn from_parts(
        messages: Vec<MessageRecord>,
        selections: Vec<SelectionEntry>,
        drafts: Vec<Draft>,
        history: Vec<QueryHistory>,
    ) -> (r: Option<StateManager>)
        ensures
            match r {
                Some(s) => s.wf() && s@ == (StoreModel {
                    messages: record_models(messages@),
                    selections: selection_models(selections@),
                    drafts: draft_models(drafts@),
                    history: history_models(history@),
                }),
                None => !store_wf(
                    StoreModel {
                        messages: record_models(messages@),
                        selections: selection_models(selections@),
                        drafts: draft_models(drafts@),
                        history: history_models(history@),
                    },
                ),
            },
    {
        if !check_records(&messages) || !check_selections(&selections) || !check_drafts(&drafts)
            || !check_history(&history) {
            return None;
        }
        Some(StateManager { messages, selections, drafts, history })
    }

    /// The identity records, in order of first observation.
    pub fn records(&self) -> (r: &Vec<MessageRecord>)
        ensures
            record_models(r@) == self@.messages,
    {
        &self.messages
    }

    /// All selection entries, in order of addition.
    pub fn selection_entries(&self) -> (r: &Vec<SelectionEntry>)
        ensures
            selection_models(r@) == self@.selections,
    {
        &self.selections
    }

    /// All drafts.
    pub fn drafts(&self) -> (r: &Vec<Draft>)
        ensures
            draft_models(r@) == self@.drafts,
    {
        &self.drafts
    }

    /// All query-history entries.
    pub fn query_history(&self) -> (r: &Vec<QueryHistory>)
        ensures
            history_models(r@) == self@.history,
    {
        &self.history
    }
}

impl StateManager {
    fn relocate_messages(&mut self, account: &str, messages: &[ResolvedMessage], folder: Option<&str>)
        requires
            old(self).wf(),
        ensures
            final(self).wf(),
            final(self)@.messages == relocate_all(
                old(self)@.messages,
                account@,
                resolved_models(messages@),
                opt_str_model(folder),
            ),
            final(self)@.selections == old(self)@.selections,
            final(self)@.drafts == old(self)@.drafts,
            final(self)@.history == old(self)@.history,
    {
        let ghost start = self@;
        let ghost rm = resolved_models(messages@);
        let mut i: usize = 0;
        while i < messages.len()
            invariant
                self.wf(),
                rm == resolved_models(messages@),
                i <= messages@.len(),
                self@.messages == relocate_all(
                    start.messages,
                    account@,
                    rm.subrange(0, i as int),
                    opt_str_model(folder),
                ),
                self@.selections == start.selections,
                self@.drafts == start.drafts,
                self@.history == start.history,
            decreases messages@.len() - i,
        {
            let m = &messages[i];
            proof {
                assert(rm.subrange(0, i + 1).drop_last() =~= rm.subrange(0, i as int));
                assert(rm[i as int] == m@);
            }
            match folder {
                Some(f) => self.update_message_location(account, m.message_id.as_str(), f, None),
                None => self.clear_message_location(account, m.message_id.as_str()),
            }
            i = i + 1;
        }
        proof {
            assert(rm.subrange(0, rm.len() as int) =~= rm);
        }
    }

    /// Records that `messages` were moved to `folder`; their sequence numbers there are
    /// not known until they are seen again.
    pub fn record_moved(&mut self, account: &str, messages: &[ResolvedMessage], folder: &str)
        requires
            old(self).wf(),
        ensures
            final(self).wf(),
            final(self)@.messages == relocate_all(
                old(self)@.messages,
                account@,
                resolved_models(messages@),
                Some(folder@),
            ),
            final(self)@.selections == old(self)@.selections,
            final(self)@.drafts == old(self)@.drafts,
            final(self)@.history == old(self)@.history,
    {
        self.relocate_messages(account, messages, Some(folder));
    }

    /// Records that `messages` were deleted for good: they no longer have a location, and
    /// keep their records and shadow IDs.
    pub fn record_deleted(&mut self, account: &str, messages: &[ResolvedMessage])
        requires
            old(self).wf(),
        ensures
            final(self).wf(),
            final(self)@.messages == relocate_all(
                old(self)@.messages,
                account@,
                resolved_models(messages@),
                None,
            ),
            final(self)@.selections == old(self)@.selections,
            final(self)@.drafts == old(self)@.drafts,
            final(self)@.history == old(self)@.history,
    {
        self.relocate_messages(account, messages, None);
    }
}

/// Observing a message again, wherever it now lives, keeps its shadow ID, and the shadow
/// ID then resolves to the location of the later observation.
pub proof fn lemma_reobservation_keeps_shadow(
    ms: Seq<RecordModel>,
    a: Seq<char>,
    g: Seq<char>,
    folder1: Seq<char>,
    uid1: u32,
    subject1: Option<Seq<char>>,
    from1: Option<Seq<char>>,
    date1: Option<i64>,
    folder2: Seq<char>,
    uid2: u32,
    subject2: Option<Seq<char>>,
    from2: Option<Seq<char>>,
    date2: Option<i64>,
)
    requires
        records_wf(ms),
        has_record(ms, a, g) || count_account(ms, a) < u64::MAX,
    ensures
        ({
            let m1 = observe_spec(ms, a, folder1, uid1, g, subject1, from1, date1);
            let m2 = observe_spec(m1, a, folder2, uid2, g, subject2, from2, date2);
            let id = shadow_of(m1, a, g);
            &&& records_wf(m2)
            &&& shadow_of(m2, a, g) == id
            &&& resolvable(m2, a, id)
            &&& resolved_spec(m2, a, id).folder == folder2
            &&& resolved_spec(m2, a, id).uid == uid2
            &&& resolved_spec(m2, a, id).message_id == g
        }),
{
    let m1 = observe_spec(ms, a, folder1, uid1, g, subject1, from1, date1);
    let k1 = if has_record(ms, a, g) {
        record_index(ms, a, g)
    } else {
        ms.len() as int
    };
    if has_record(ms, a, g) {
        let k = record_index(ms, a, g);
        lemma_update_keeps_wf(ms, k, m1[k]);
    } else {
        lemma_push_keeps_wf(ms, m1[ms.len() as int]);
    }
    assert(is_record_of(m1[k1], a, g));
    lemma_index_of_record(m1, a, g, k1);
    let m2 = observe_spec(m1, a, folder2, uid2, g, subject2, from2, date2);
    lemma_update_keeps_wf(m1, k1, m2[k1]);
    assert(is_record_of(m2[k1], a, g));
    lemma_index_of_record(m2, a, g, k1);
    let id = shadow_of(m1, a, g);
    assert(m2[k1].account == a && m2[k1].shadow_uid == id);
    let c = shadow_index(m2, a, id);
    if c != k1 {
        lemma_shadow_unique(m2, c, k1);
    }
}

/// In well-formed records, the record of (a, g) is the one at any index that holds it.
proof fn lemma_index_of_record(ms: Seq<RecordModel>, a: Seq<char>, g: Seq<char>, k: int)
    requires
        records_wf(ms),
        0 <= k < ms.len(),
        is_record_of(ms[k], a, g),
    ensures
        has_record(ms, a, g),
        record_index(ms, a, g) == k,
{
    let c = record_index(ms, a, g);
    assert(is_record_of(ms[c], a, g));
    if c < k {
        assert(ms[c].account == ms[k].account);
    } else if c > k {
        assert(ms[k].account == ms[c].account);
    }
}


// ---------------------------------------------------------------------------
// Selection model
// ---------------------------------------------------------------------------

pub open spec fn has_entry(sel: Seq<EntryModel>, a: Seq<char>, f: Seq<char>, u: u32) -> bool {
    exists|k: int| 0 <= k < sel.len() && entry_key(sel[k]) == (a, f, u)
}

pub open spec fn entry_index(sel: Seq<EntryModel>, a: Seq<char>, f: Seq<char>, u: u32) -> int {
    choose|k: int| 0 <= k < sel.len() && entry_key(sel[k]) == (a, f, u)
}

/// The selection after adding (`a`, `f`, `u`): an entry already there keeps its place and
/// takes the metadata given; otherwise a new entry goes last.
pub open spec fn add_entry_spec(
    sel: Seq<EntryModel>,
    a: Seq<char>,
    f: Seq<char>,
    u: u32,
    g: Option<Seq<char>>,
    s: Option<Seq<char>>,
) -> Seq<EntryModel> {
    if has_entry(sel, a, f, u) {
        let k = entry_index(sel, a, f, u);
        sel.update(
            k,
            EntryModel {
                message_id: coalesce(g, sel[k].message_id),
                subject: coalesce(s, sel[k].subject),
                ..sel[k]
            },
        )
    } else {
        sel.push(EntryModel { account: a, folder: f, uid: u, message_id: g, subject: s })
    }
}

/// Adds each (sequence number, global id, subject) of `es`, in order.
pub open spec fn add_entries_spec(
    sel: Seq<EntryModel>,
    a: Seq<char>,
    f: Seq<char>,
    es: Seq<(u32, Option<Seq<char>>, Option<Seq<char>>)>,
) -> Seq<EntryModel>
    decreases es.len(),
{
    if es.len() == 0 {
        sel
    } else {
        let e = es.last();
        add_entry_spec(add_entries_spec(sel, a, f, es.drop_last()), a, f, e.0, e.1, e.2)
    }
}

pub open spec fn inputs_model(v: Seq<(u32, Option<&str>, Option<&str>)>) -> Seq<
    (u32, Option<Seq<char>>, Option<Seq<char>>),
> {
    v.map_values(
        |e: (u32, Option<&str>, Option<&str>)| (e.0, opt_str_model(e.1), opt_str_model(e.2)),
    )
}

/// Entry of account `a`, in folder `f` if given, with a sequence number among `uids`
/// if given.
pub open spec fn entry_matches(
    e: EntryModel,
    a: Seq<char>,
    f: Option<Seq<char>>,
    uids: Option<Seq<u32>>,
) -> bool {
    &&& e.account == a
    &&& (f.is_none() || e.folder == f.unwrap())
    &&& (uids.is_none() || uids.unwrap().contains(e.uid))
}

/// Keeps the entries that match (`keep`) or those that do not (`!keep`).
pub open spec fn entry_filter(
    a: Seq<char>,
    f: Option<Seq<char>>,
    uids: Option<Seq<u32>>,
    keep: bool,
) -> spec_fn(EntryModel) -> bool {
    |e: EntryModel| entry_matches(e, a, f, uids) == keep
}

pub open spec fn opt_uids_model(o: Option<&[u32]>) -> Option<Seq<u32>> {
    match o {
        Some(u) => Some(u@),
        None => None,
    }
}


// ---------------------------------------------------------------------------
// Draft and history models
// ---------------------------------------------------------------------------

pub open spec fn has_draft_spec(ds: Seq<DraftModel>, a: Seq<char>) -> bool {
    exists|k: int| 0 <= k < ds.len() && ds[k].account == a
}

pub open spec fn draft_index(ds: Seq<DraftModel>, a: Seq<char>) -> int {
    choose|k: int| 0 <= k < ds.len() && ds[k].account == a
}

/// The account's draft, if it has one.
pub open spec fn draft_of(ds: Seq<DraftModel>, a: Seq<char>) -> Option<DraftModel> {
    if has_draft_spec(ds, a) {
        Some(ds[draft_index(ds, a)])
    } else {
        None
    }
}

/// The drafts after saving `d`: it replaces the account's draft, if any.
pub open spec fn save_draft_spec(ds: Seq<DraftModel>, d: DraftModel) -> Seq<DraftModel> {
    if has_draft_spec(ds, d.account) {
        ds.update(draft_index(ds, d.account), d)
    } else {
        ds.push(d)
    }
}

pub open spec fn clear_draft_spec(ds: Seq<DraftModel>, a: Seq<char>) -> Seq<DraftModel> {
    if has_draft_spec(ds, a) {
        ds.remove(draft_index(ds, a))
    } else {
        ds
    }
}

pub open spec fn is_flag_draft(d: DraftModel) -> bool {
    d.action_type == ActionType::Flag && d.flag_params.is_some()
}

/// What staging `d` stores: a flag draft that meets an outstanding flag draft of the
/// account carries the merge of the stored parameters with its own, and keeps the stored
/// destination folder when it names none; any other draft is stored as it is.
pub open spec fn staged_draft(ds: Seq<DraftModel>, d: DraftModel) -> DraftModel {
    match draft_of(ds, d.account) {
        Some(prev) => if is_flag_draft(prev) && is_flag_draft(d) {
            DraftModel {
                flag_params: Some(merge_spec(prev.flag_params.unwrap(), d.flag_params.unwrap())),
                dest_folder: coalesce(d.dest_folder, prev.dest_folder),
                ..d
            }
        } else {
            d
        },
        None => d,
    }
}

pub open spec fn has_history(hs: Seq<HistoryModel>, a: Seq<char>, f: Seq<char>) -> bool {
    exists|k: int| 0 <= k < hs.len() && history_key(hs[k]) == (a, f)
}

pub open spec fn history_index(hs: Seq<HistoryModel>, a: Seq<char>, f: Seq<char>) -> int {
    choose|k: int| 0 <= k < hs.len() && history_key(hs[k]) == (a, f)
}

/// The history after recording `h`: it replaces the entry of its account and folder.
pub open spec fn save_history_spec(hs: Seq<HistoryModel>, h: HistoryModel) -> Seq<HistoryModel> {
    if has_history(hs, h.account, h.folder) {
        hs.update(history_index(hs, h.account, h.folder), h)
    } else {
        hs.push(h)
    }
}

/// The results recorded by the last query of account `a` in folder `f`.
pub open spec fn last_results_spec(hs: Seq<HistoryModel>, a: Seq<char>, f: Seq<char>) -> Seq<
    EntryModel,
> {
    if has_history(hs, a, f) {
        hs[history_index(hs, a, f)].results
    } else {
        seq![]
    }
}

pub open spec fn last_query_spec(hs: Seq<HistoryModel>, a: Seq<char>, f: Seq<char>) -> Option<
    Seq<char>,
> {
    if has_history(hs, a, f) {
        Some(hs[history_index(hs, a, f)].query_string)
    } else {
        None
    }
}

/// Query results of account `a` in folder `f`, from (sequence number, global id,
/// subject) triples.
pub open spec fn results_spec(
    a: Seq<char>,
    f: Seq<char>,
    rs: Seq<(u32, Option<Seq<char>>, Option<Seq<char>>)>,
) -> Seq<EntryModel> {
    rs.map_values(
        |r: (u32, Option<Seq<char>>, Option<Seq<char>>)|
            EntryModel { account: a, folder: f, uid: r.0, message_id: r.1, subject: r.2 },
    )
}


// ---------------------------------------------------------------------------
// Batch targets
// ---------------------------------------------------------------------------

/// Shadow IDs of the selection entries `sel`, in order, for those whose global id has a
/// record in account `a`.
pub open spec fn selection_shadow_ids(ms: Seq<RecordModel>, a: Seq<char>, sel: Seq<EntryModel>) -> Seq<
    u64,
>
    decreases sel.len(),
{
    if sel.len() == 0 {
        seq![]
    } else {
        let prev = selection_shadow_ids(ms, a, sel.drop_last());
        match sel.last().message_id {
            Some(g) => if has_record(ms, a, g) {
                prev.push(shadow_of(ms, a, g))
            } else {
                prev
            },
            None => prev,
        }
    }
}

/// Index of the group of `folder` at or after `i`, or the number of groups.
pub open spec fn scan_group(gs: Seq<(Seq<char>, Seq<ResolvedModel>)>, folder: Seq<char>, i: int) -> int
    decreases gs.len() - i,
{
    if i >= gs.len() {
        gs.len() as int
    } else if gs[i].0 == folder {
        i
    } else {
        scan_group(gs, folder, i + 1)
    }
}

pub open spec fn add_to_group(gs: Seq<(Seq<char>, Seq<ResolvedModel>)>, r: ResolvedModel) -> Seq<
    (Seq<char>, Seq<ResolvedModel>),
> {
    let k = scan_group(gs, r.folder, 0);
    if 0 <= k < gs.len() {
        gs.update(k, (gs[k].0, gs[k].1.push(r)))
    } else {
        gs.push((r.folder, seq![r]))
    }
}

/// Resolved messages grouped by folder, folders in order of first appearance, messages in
/// the order given within each.
pub open spec fn group_by_folder(rs: Seq<ResolvedModel>) -> Seq<(Seq<char>, Seq<ResolvedModel>)>
    decreases rs.len(),
{
    if rs.len() == 0 {
        seq![]
    } else {
        add_to_group(group_by_folder(rs.drop_last()), rs.last())
    }
}

/// The shadow IDs a batch action works on: the selection's, or else those given.
pub open spec fn target_ids_spec(
    m: StoreModel,
    a: Seq<char>,
    provided: Seq<u64>,
    use_selection: bool,
) -> Result<Seq<u64>, TargetErrorModel> {
    if use_selection {
        let sel = m.selections.filter(entry_filter(a, None, None, true));
        if sel.len() == 0 {
            Err(TargetErrorModel::EmptySelection)
        } else if selection_shadow_ids(m.messages, a, sel).len() == 0 {
            Err(TargetErrorModel::NoShadowIds)
        } else {
            Ok(selection_shadow_ids(m.messages, a, sel))
        }
    } else if provided.len() > 0 {
        Ok(provided)
    } else {
        Err(TargetErrorModel::NoIds)
    }
}


// ---------------------------------------------------------------------------
// Query results
// ---------------------------------------------------------------------------

/// A message as a search returned it.
#[derive(Debug, Clone)]
pub struct ObservedMessage {
    pub uid: u32,
    pub message_id: Option<String>,
    pub subject: Option<String>,
    pub from_address: Option<String>,
    /// Sending time, in seconds since the Unix epoch.
    pub date_sent: Option<i64>,
}

pub struct ObservedModel {
    pub uid: u32,
    pub message_id: Option<Seq<char>>,
    pub subject: Option<Seq<char>>,
    pub from_address: Option<Seq<char>>,
    pub date_sent: Option<i64>,
}

impl View for ObservedMessage {
    type V = ObservedModel;

    open spec fn view(&self) -> ObservedModel {
        ObservedModel {
            uid: self.uid,
            message_id: opt_string_model(self.message_id),
            subject: opt_string_model(self.subject),
            from_address: opt_string_model(self.from_address),
            date_sent: self.date_sent,
        }
    }
}

pub open spec fn observed_models(v: Seq<ObservedMessage>) -> Seq<ObservedModel> {
    v.map_values(|o: ObservedMessage| o@)
}

pub open spec fn observed_inputs(v: Seq<ObservedModel>) -> Seq<
    (u32, Option<Seq<char>>, Option<Seq<char>>),
> {
    v.map_values(|o: ObservedModel| (o.uid, o.message_id, o.subject))
}

/// One observation in folder `f`: the records after it, and the shadow ID it yields.
pub open spec fn observe_step(ms: Seq<RecordModel>, a: Seq<char>, f: Seq<char>, o: ObservedModel) -> (
    Seq<RecordModel>,
    Option<u64>,
) {
    match o.message_id {
        None => (ms, None),
        Some(g) => if !has_record(ms, a, g) && count_account(ms, a) >= u64::MAX {
            (ms, None)
        } else {
            let m2 = observe_spec(ms, a, f, o.uid, g, o.subject, o.from_address, o.date_sent);
            (m2, Some(shadow_of(m2, a, g)))
        },
    }
}

/// Observations in order: the records after all of them, and the shadow ID of each.
pub open spec fn observe_all(ms: Seq<RecordModel>, a: Seq<char>, f: Seq<char>, os: Seq<ObservedModel>) -> (
    Seq<RecordModel>,
    Seq<Option<u64>>,
)
    decreases os.len(),
{
    if os.len() == 0 {
        (ms, seq![])
    } else {
        let (m1, ids) = observe_all(ms, a, f, os.drop_last());
        let (m2, id) = observe_step(m1, a, f, os.last());
        (m2, ids.push(id))
    }
}


/// (sequence number, global id, subject) of recorded query results.
pub open spec fn entry_inputs(v: Seq<EntryModel>) -> Seq<(u32, Option<Seq<char>>, Option<Seq<char>>)> {
    v.map_values(|e: EntryModel| (e.uid, e.message_id, e.subject))
}

/// The selection after adding each resolved message at its current location.
pub open spec fn add_resolved_spec(sel: Seq<EntryModel>, a: Seq<char>, rs: Seq<ResolvedModel>) -> Seq<
    EntryModel,
>
    decreases rs.len(),
{
    if rs.len() == 0 {
        sel
    } else {
        let r = rs.last();
        add_entry_spec(add_resolved_spec(sel, a, rs.drop_last()), a, r.folder, r.uid, Some(r.message_id), None)
    }
}


/// The records after each of `rs` moved to `folder` (`None`: deleted), its sequence number
/// there not known yet.
pub open spec fn relocate_all(
    ms: Seq<RecordModel>,
    a: Seq<char>,
    rs: Seq<ResolvedModel>,
    folder: Option<Seq<char>>,
) -> Seq<RecordModel>
    decreases rs.len(),
{
    if rs.len() == 0 {
        ms
    } else {
        relocate_spec(relocate_all(ms, a, rs.drop_last(), folder), a, rs.last().message_id, folder, None)
    }
}

// ---------------------------------------------------------------------------
// Sequence lemmas
// ---------------------------------------------------------------------------

proof fn lemma_filter_member<A>(s: Seq<A>, p: spec_fn(A) -> bool, i: int)
    requires
        0 <= i < s.filter(p).len(),
    ensures
        exists|j: int| 0 <= j < s.len() && s[j] == s.filter(p)[i],
    decreases s.len(),
{
    reveal(Seq::filter);
    if s.len() > 0 {
        let d = s.drop_last();
        if i < d.filter(p).len() {
            lemma_filter_member(d, p, i);
            let j = choose|j: int| 0 <= j < d.len() && d[j] == d.filter(p)[i];
            assert(s[j] == s.filter(p)[i]);
        } else {
            assert(s[s.len() - 1] == s.filter(p)[i]);
        }
    }
}

proof fn lemma_filter_distinct<A, K>(s: Seq<A>, p: spec_fn(A) -> bool, key: spec_fn(A) -> K)
    requires
        distinct_keys(s, key),
    ensures
        distinct_keys(s.filter(p), key),
    decreases s.len(),
{
    reveal(Seq::filter);
    if s.len() > 0 {
        let d = s.drop_last();
        assert(distinct_keys(d, key));
        lemma_filter_distinct(d, p, key);
        if p(s.last()) {
            let f = d.filter(p);
            let g = f.push(s.last());
            assert forall|i: int, j: int| 0 <= i < j < g.len() implies key(g[i]) != key(g[j]) by {
                if j == f.len() {
                    lemma_filter_member(d, p, i);
                    let m = choose|m: int| 0 <= m < d.len() && d[m] == f[i];
                    assert(s[m] == g[i]);
                    assert(s[s.len() - 1] == g[j]);
                }
            }
            assert(s.filter(p) == g);
        }
    }
}

proof fn lemma_filter_update_len<A>(s: Seq<A>, k: int, x: A, p: spec_fn(A) -> bool)
    requires
        0 <= k < s.len(),
        p(s[k]) == p(x),
    ensures
        s.update(k, x).filter(p).len() == s.filter(p).len(),
    decreases s.len(),
{
    reveal(Seq::filter);
    let u = s.update(k, x);
    if k == s.len() - 1 {
        assert(u.drop_last() =~= s.drop_last());
    } else {
        assert(u.drop_last() =~= s.drop_last().update(k, x));
        lemma_filter_update_len(s.drop_last(), k, x, p);
    }
}

proof fn lemma_update_distinct<A, K>(s: Seq<A>, k: int, x: A, key: spec_fn(A) -> K)
    requires
        distinct_keys(s, key),
        0 <= k < s.len(),
        key(x) == key(s[k]),
    ensures
        distinct_keys(s.update(k, x), key),
{
    let u = s.update(k, x);
    assert forall|i: int, j: int| 0 <= i < j < u.len() implies key(u[i]) != key(u[j]) by {
        if i != k && j != k {
            assert(u[i] == s[i] && u[j] == s[j]);
        }
    }
}

proof fn lemma_push_distinct<A, K>(s: Seq<A>, x: A, key: spec_fn(A) -> K)
    requires
        distinct_keys(s, key),
        forall|i: int| 0 <= i < s.len() ==> key(#[trigger] s[i]) != key(x),
    ensures
        distinct_keys(s.push(x), key),
{
    let u = s.push(x);
    assert forall|i: int, j: int| 0 <= i < j < u.len() implies key(u[i]) != key(u[j]) by {
        if j < s.len() {
            assert(u[i] == s[i] && u[j] == s[j]);
        } else {
            assert(u[i] == s[i]);
        }
    }
}

proof fn lemma_remove_distinct<A, K>(s: Seq<A>, k: int, key: spec_fn(A) -> K)
    requires
        distinct_keys(s, key),
        0 <= k < s.len(),
    ensures
        distinct_keys(s.remove(k), key),
{
    let u = s.remove(k);
    assert forall|i: int, j: int| 0 <= i < j < u.len() implies key(u[i]) != key(u[j]) by {
        let i0 = if i < k {
            i
        } else {
            i + 1
        };
        let j0 = if j < k {
            j
        } else {
            j + 1
        };
        assert(u[i] == s[i0] && u[j] == s[j0]);
    }
}

/// Adding the same (account, folder, sequence number) twice leaves one entry for it: the
/// selection, and the account's part of it, are as large as after the first addition,
/// and the account holds exactly one entry when it held none before.
pub proof fn lemma_add_twice_counts_once(
    sel: Seq<EntryModel>,
    a: Seq<char>,
    f: Seq<char>,
    u: u32,
    g1: Option<Seq<char>>,
    s1: Option<Seq<char>>,
    g2: Option<Seq<char>>,
    s2: Option<Seq<char>>,
)
    requires
        selections_wf(sel),
    ensures
        ({
            let once = add_entry_spec(sel, a, f, u, g1, s1);
            let twice = add_entry_spec(once, a, f, u, g2, s2);
            let mine = entry_filter(a, None, None, true);
            &&& twice.len() == once.len()
            &&& twice.filter(mine).len() == once.filter(mine).len()
            &&& sel.filter(mine).len() == 0 ==> twice.filter(mine).len() == 1
        }),
{
    let once = add_entry_spec(sel, a, f, u, g1, s1);
    let mine = entry_filter(a, None, None, true);
    let k = if has_entry(sel, a, f, u) {
        entry_index(sel, a, f, u)
    } else {
        sel.len() as int
    };
    assert(entry_key(once[k]) == (a, f, u));
    assert(has_entry(once, a, f, u));
    let c = entry_index(once, a, f, u);
    let twice = add_entry_spec(once, a, f, u, g2, s2);
    lemma_filter_update_len(once, c, twice[c], mine);
    assert(twice == once.update(c, twice[c]));
    if sel.filter(mine).len() == 0 {
        if has_entry(sel, a, f, u) {
            sel.lemma_filter_contains(mine, k);
            assert(sel.filter(mine).contains(sel[k]));
        } else {
            lemma_filter_push(sel, once[k], mine);
        }
    }
}

proof fn lemma_saved_draft_found(ds: Seq<DraftModel>, d: DraftModel)
    requires
        drafts_wf(ds),
    ensures
        drafts_wf(save_draft_spec(ds, d)),
        draft_of(save_draft_spec(ds, d), d.account) == Some(d),
{
    let key = |x: DraftModel| draft_key(x);
    let ns = save_draft_spec(ds, d);
    let k = if has_draft_spec(ds, d.account) {
        draft_index(ds, d.account)
    } else {
        ds.len() as int
    };
    if has_draft_spec(ds, d.account) {
        lemma_update_distinct(ds, k, d, key);
    } else {
        assert forall|i: int| 0 <= i < ds.len() implies key(#[trigger] ds[i]) != key(d) by {
            if key(ds[i]) == key(d) {
                assert(ds[i].account == d.account);
            }
        }
        lemma_push_distinct(ds, d, key);
    }
    assert(ns[k] == d);
    let c = draft_index(ns, d.account);
    assert(ns[c].account == d.account);
    if c != k {
        if c < k {
            assert(key(ns[c]) != key(ns[k]));
        } else {
            assert(key(ns[k]) != key(ns[c]));
        }
    }
}

/// Staging a flag draft and then another for the same account, without clearing, leaves
/// one stored flag draft that keeps every flag either set to `true` and every label
/// either added or removed.
pub proof fn lemma_staged_flags_accumulate(ds: Seq<DraftModel>, d1: DraftModel, d2: DraftModel)
    requires
        drafts_wf(ds),
        d1.account == d2.account,
        is_flag_draft(d1),
        is_flag_draft(d2),
    ensures
        ({
            let ds1 = save_draft_spec(ds, staged_draft(ds, d1));
            let ds2 = save_draft_spec(ds1, staged_draft(ds1, d2));
            let p1 = d1.flag_params.unwrap();
            let p2 = d2.flag_params.unwrap();
            &&& drafts_wf(ds2)
            &&& draft_of(ds2, d1.account).is_some()
            &&& is_flag_draft(draft_of(ds2, d1.account).unwrap())
            &&& ({
                let p = draft_of(ds2, d1.account).unwrap().flag_params.unwrap();
                &&& (p1.read == Some(true) || p2.read == Some(true)) ==> p.read == Some(true)
                &&& (p1.starred == Some(true) || p2.starred == Some(true)) ==> p.starred == Some(
                    true,
                )
                &&& forall|x: Seq<char>|
                    p1.labels.contains(x) || p2.labels.contains(x) ==> #[trigger] p.labels.contains(x)
                &&& forall|x: Seq<char>|
                    p1.unlabels.contains(x) || p2.unlabels.contains(x)
                        ==> #[trigger] p.unlabels.contains(x)
            })
        }),
{
    let s1 = staged_draft(ds, d1);
    let ds1 = save_draft_spec(ds, s1);
    lemma_saved_draft_found(ds, s1);
    let q1 = s1.flag_params.unwrap();
    let p1 = d1.flag_params.unwrap();
    let p2 = d2.flag_params.unwrap();
    assert(is_flag_draft(s1));
    // what the first staging kept of d1
    assert(p1.read == Some(true) ==> q1.read == Some(true));
    assert(p1.starred == Some(true) ==> q1.starred == Some(true));
    assert forall|x: Seq<char>| p1.labels.contains(x) implies q1.labels.contains(x) by {
        if q1 != p1 {
            let prev = draft_of(ds, d1.account).unwrap();
            lemma_union_contains(prev.flag_params.unwrap().labels, p1.labels, x);
        }
    }
    assert forall|x: Seq<char>| p1.unlabels.contains(x) implies q1.unlabels.contains(x) by {
        if q1 != p1 {
            let prev = draft_of(ds, d1.account).unwrap();
            lemma_union_contains(prev.flag_params.unwrap().unlabels, p1.unlabels, x);
        }
    }
    let s2 = staged_draft(ds1, d2);
    let ds2 = save_draft_spec(ds1, s2);
    lemma_saved_draft_found(ds1, s2);
    let p = s2.flag_params.unwrap();
    assert(s2.flag_params == Some(merge_spec(q1, p2)));
    assert forall|x: Seq<char>| p1.labels.contains(x) || p2.labels.contains(x) implies #[trigger] p.labels.contains(
        x,
    ) by {
        lemma_union_contains(q1.labels, p2.labels, x);
    }
    assert forall|x: Seq<char>| p1.unlabels.contains(x) || p2.unlabels.contains(x) implies #[trigger] p.unlabels.contains(
        x,
    ) by {
        lemma_union_contains(q1.unlabels, p2.unlabels, x);
    }
}

} // verus!
