use vstd::prelude::*;
use vstd::string::*;
use crate::filter::str_equal;
use crate::state::lemma_filter_push;

verus! {

/// Transport security of a server connection.
#[derive(Debug, Clone, Copy, PartialEq, Eq, Structural)]
pub enum SecurityType {
    StartTls,
    Ssl,
    /// No transport security.
    Plaintext,
}

/// A mail account and the servers it is reached through.
#[derive(Debug, Clone)]
pub struct Account {
    pub email: String,
    pub imap_host: String,
    pub imap_port: u16,
    pub imap_security: SecurityType,
    pub smtp_host: String,
    pub smtp_port: u16,
    pub smtp_security: SecurityType,
    pub default: bool,
}

pub struct AccountModel {
    pub email: Seq<char>,
    pub imap_host: Seq<char>,
    pub imap_port: u16,
    pub imap_security: SecurityType,
    pub smtp_host: Seq<char>,
    pub smtp_port: u16,
    pub smtp_security: SecurityType,
    pub default: bool,
}

impl View for Account {
    type V = AccountModel;

    open spec fn view(&self) -> AccountModel {
        AccountModel {
            email: self.email@,
            imap_host: self.imap_host@,
            imap_port: self.imap_port,
            imap_security: self.imap_security,
            smtp_host: self.smtp_host@,
            smtp_port: self.smtp_port,
            smtp_security: self.smtp_security,
            default: self.default,
        }
    }
}

pub open spec fn accounts_model(v: Seq<Account>) -> Seq<AccountModel> {
    v.map_values(|a: Account| a@)
}

impl Account {
    /// An account served by a local bridge: IMAP with STARTTLS on 127.0.0.1:1143, SMTP
    /// with TLS on 127.0.0.1:1025; not the default.
    pub fn new_protonmail_bridge(email: String) -> (r: Self)
        ensures
            r@ == (AccountModel {
                email: email@,
                imap_host: "127.0.0.1"@,
                imap_port: 1143,
                imap_security: SecurityType::StartTls,
                smtp_host: "127.0.0.1"@,
                smtp_port: 1025,
                smtp_security: SecurityType::Ssl,
                default: false,
            }),
    {
        Account {
            email,
            imap_host: "127.0.0.1".to_owned(),
            imap_port: 1143,
            imap_security: SecurityType::StartTls,
            smtp_host: "127.0.0.1".to_owned(),
            smtp_port: 1025,
            smtp_security: SecurityType::Ssl,
            default: false,
        }
    }

    /// A copy with the same contents.
    pub fn duplicate(&self) -> (r: Self)
        ensures
            r@ == self@,
    {
        Account {
            email: self.email.clone(),
            imap_host: self.imap_host.clone(),
            imap_port: self.imap_port,
            imap_security: self.imap_security,
            smtp_host: self.smtp_host.clone(),
            smtp_port: self.smtp_port,
            smtp_security: self.smtp_security,
            default: self.default,
        }
    }
}

/// User preferences.
#[derive(Debug, Clone)]
pub struct Preferences {
    pub default_output: String,
    pub date_filter_days: u32,
    pub cache_enabled: bool,
    pub log_level: String,
}

fn default_output_format() -> (r: String)
    ensures
        r@ == "json"@,
{
    "json".to_owned()
}

fn default_date_filter_days() -> (r: u32)
    ensures
        r == 3,
{
    3
}

fn default_cache_enabled() -> (r: bool)
    ensures
        r,
{
    true
}

fn default_log_level() -> (r: String)
    ensures
        r@ == "info"@,
{
    "info".to_owned()
}

impl Default for Preferences {
    fn default() -> (r: Self)
        ensures
            r.default_output@ == "json"@,
            r.date_filter_days == 3,
            r.cache_enabled,
            r.log_level@ == "info"@,
    {
        Preferences {
            default_output: default_output_format(),
            date_filter_days: default_date_filter_days(),
            cache_enabled: default_cache_enabled(),
            log_level: default_log_level(),
        }
    }
}

/// The configuration: accounts and preferences.
#[derive(Debug, Clone)]
pub struct Config {
    pub accounts: Vec<Account>,
    pub preferences: Preferences,
}

/// Index of the first account at or after `i` whose email is `e`, or the length.
pub open spec fn scan_email(s: Seq<AccountModel>, e: Seq<char>, i: int) -> int
    decreases s.len() - i,
{
    if i >= s.len() {
        s.len() as int
    } else if s[i].email == e {
        i
    } else {
        scan_email(s, e, i + 1)
    }
}

/// Index of the first default account at or after `i`, or the length.
pub open spec fn scan_default(s: Seq<AccountModel>, i: int) -> int
    decreases s.len() - i,
{
    if i >= s.len() {
        s.len() as int
    } else if s[i].default {
        i
    } else {
        scan_default(s, i + 1)
    }
}

/// Index of the default account: the first marked default, else the first one.
pub open spec fn default_index(s: Seq<AccountModel>) -> Option<int> {
    if s.len() == 0 {
        None
    } else if scan_default(s, 0) < s.len() {
        Some(scan_default(s, 0))
    } else {
        Some(0)
    }
}

pub open spec fn other_email(e: Seq<char>) -> spec_fn(AccountModel) -> bool {
    |a: AccountModel| a.email != e
}

/// Accounts after `add_account(a)`: when the list is empty or `a` is the default, every
/// other account loses its default mark; an account with the same email is replaced;
/// `a` goes last.
pub open spec fn add_account_spec(s: Seq<AccountModel>, a: AccountModel) -> Seq<AccountModel> {
    let cleared = if s.len() == 0 || a.default {
        s.map_values(|x: AccountModel| AccountModel { default: false, ..x })
    } else {
        s
    };
    cleared.filter(other_email(a.email)).push(a)
}

/// Accounts after `remove_account(e)`: the account goes; if it was there and no remaining
/// account is the default, the first remaining one becomes it.
pub open spec fn remove_account_spec(s: Seq<AccountModel>, e: Seq<char>) -> Seq<AccountModel> {
    let kept = s.filter(other_email(e));
    if kept.len() < s.len() && kept.len() > 0 && !(exists|i: int|
        0 <= i < kept.len() && (#[trigger] kept[i]).default) {
        kept.update(0, AccountModel { default: true, ..kept[0] })
    } else {
        kept
    }
}

/// Accounts after `set_default_account(e)`: exactly the accounts with email `e` are
/// marked default.
pub open spec fn set_default_spec(s: Seq<AccountModel>, e: Seq<char>) -> Seq<AccountModel> {
    s.map_values(|x: AccountModel| AccountModel { default: x.email == e, ..x })
}

impl Config {
    /// The first account with the given email.
    pub fn get_account(&self, email: &str) -> (r: Option<&Account>)
        ensures
            match r {
                Some(a) => scan_email(accounts_model(self.accounts@), email@, 0) < self.accounts@.len()
                    && a@ == accounts_model(self.accounts@)[scan_email(
                    accounts_model(self.accounts@),
                    email@,
                    0,
                )],
                None => scan_email(accounts_model(self.accounts@), email@, 0)
                    == self.accounts@.len(),
            },
    {
        let ghost s = accounts_model(self.accounts@);
        let mut i: usize = 0;
        while i < self.accounts.len()
            invariant
                s == accounts_model(self.accounts@),
                i <= s.len(),
                scan_email(s, email@, 0) == scan_email(s, email@, i as int),
            decreases s.len() - i,
        {
            assert(s[i as int] == self.accounts@[i as int]@);
            if str_equal(self.accounts[i].email.as_str(), email) {
                return Some(&self.accounts[i]);
            }
            i = i + 1;
        }
        None
    }

    /// The default account: the first marked default, else the first account.
    pub fn get_default_account(&self) -> (r: Option<&Account>)
        ensures
            match r {
                Some(a) => default_index(accounts_model(self.accounts@)).is_some() && a@
                    == accounts_model(self.accounts@)[default_index(
                    accounts_model(self.accounts@),
                ).unwrap()],
                None => default_index(accounts_model(self.accounts@)).is_none(),
            },
    {
        let ghost s = accounts_model(self.accounts@);
        let mut i: usize = 0;
        while i < self.accounts.len()
            invariant
                s == accounts_model(self.accounts@),
                i <= s.len(),
                scan_default(s, 0) == scan_default(s, i as int),
            decreases s.len() - i,
        {
            assert(s[i as int] == self.accounts@[i as int]@);
            if self.accounts[i].default {
                return Some(&self.accounts[i]);
            }
            i = i + 1;
        }
        if self.accounts.len() > 0 {
            assert(s[0] == self.accounts@[0]@);
            Some(&self.accounts[0])
        } else {
            None
        }
    }

    /// Copies of the accounts whose email is not `email`, in order.
    fn accounts_except(&self, email: &str) -> (r: Vec<Account>)
        ensures
            accounts_model(r@) == accounts_model(self.accounts@).filter(other_email(email@)),
    {
        let ghost s = accounts_model(self.accounts@);
        let mut out: Vec<Account> = Vec::new();
        let mut i: usize = 0;
        while i < self.accounts.len()
            invariant
                s == accounts_model(self.accounts@),
                i <= s.len(),
                accounts_model(out@) == s.subrange(0, i as int).filter(other_email(email@)),
            decreases s.len() - i,
        {
            let a = &self.accounts[i];
            proof {
                assert(s[i as int] == a@);
                assert(s.subrange(0, i + 1) =~= s.subrange(0, i as int).push(a@));
                lemma_filter_push(s.subrange(0, i as int), a@, other_email(email@));
            }
            if !str_equal(a.email.as_str(), email) {
                let ghost before = out@;
                out.push(a.duplicate());
                assert(accounts_model(out@) =~= accounts_model(before).push(a@));
            }
            i = i + 1;
        }
        proof {
            assert(s.subrange(0, s.len() as int) =~= s);
        }
        out
    }

    /// Adds `account`, replacing one with the same email; when it is the first account
    /// or marked default, the other accounts lose their default mark.
    pub fn add_account(&mut self, account: Account)
        ensures
            accounts_model(final(self).accounts@) == add_account_spec(
                accounts_model(old(self).accounts@),
                account@,
            ),
            final(self).preferences == old(self).preferences,
    {
        let ghost s = accounts_model(self.accounts@);
        let ghost cleared = if s.len() == 0 || account.default {
            s.map_values(|x: AccountModel| AccountModel { default: false, ..x })
        } else {
            s
        };
        let ghost prefs = self.preferences;
        if self.accounts.len() == 0 || account.default {
            let mut i: usize = 0;
            while i < self.accounts.len()
                invariant
                    self.preferences == prefs,
                    s.len() == self.accounts@.len(),
                    i <= s.len(),
                    forall|j: int|
                        0 <= j < i ==> #[trigger] self.accounts@[j]@ == (AccountModel {
                            default: false,
                            ..s[j]
                        }),
                    forall|j: int| i <= j < s.len() ==> #[trigger] self.accounts@[j]@ == s[j],
                decreases s.len() - i,
            {
                let ghost before = self.accounts@;
                self.accounts[i].default = false;
                proof {
                    assert(self.accounts@ == before.update(i as int, self.accounts@[i as int]));
                    assert forall|j: int| 0 <= j < i + 1 implies #[trigger] self.accounts@[j]@ == (
                    AccountModel { default: false, ..s[j] }) by {
                        if j < i {
                            assert(self.accounts@[j] == before[j]);
                        }
                    }
                }
                i = i + 1;
            }
            assert(accounts_model(self.accounts@) =~= cleared);
        }
        assert(accounts_model(self.accounts@) == cleared);
        let mut kept = self.accounts_except(account.email.as_str());
        let ghost before = kept@;
        kept.push(account);
        assert(accounts_model(kept@) =~= accounts_model(before).push(account@));
        self.accounts = kept;
    }

    /// Removes the account with email `email`; returns whether there was one. When no
    /// remaining account is the default, the first remaining one becomes it.
    pub fn remove_account(&mut self, email: &str) -> (r: bool)
        ensures
            accounts_model(final(self).accounts@) == remove_account_spec(
                accounts_model(old(self).accounts@),
                email@,
            ),
            r == (accounts_model(old(self).accounts@).filter(other_email(email@)).len()
                < old(self).accounts@.len()),
            final(self).preferences == old(self).preferences,
    {
        let ghost s = accounts_model(self.accounts@);
        let before_len = self.accounts.len();
        let kept = self.accounts_except(email);
        self.accounts = kept;
        let ghost k = accounts_model(self.accounts@);
        let removed = self.accounts.len() < before_len;
        if removed && self.accounts.len() > 0 {
            let mut any_default = false;
            let mut i: usize = 0;
            while i < self.accounts.len()
                invariant
                    k == accounts_model(self.accounts@),
                    i <= k.len(),
                    any_default == (exists|j: int| 0 <= j < i && (#[trigger] k[j]).default),
                decreases k.len() - i,
            {
                assert(k[i as int] == self.accounts@[i as int]@);
                if self.accounts[i].default {
                    any_default = true;
                }
                i = i + 1;
            }
            if !any_default {
                self.accounts[0].default = true;
                assert(accounts_model(self.accounts@) =~= k.update(
                    0,
                    AccountModel { default: true, ..k[0] },
                ));
            }
        }
        removed
    }

    /// Marks the accounts with email `email` as default and every other one not; returns
    /// whether one had that email.
    pub fn set_default_account(&mut self, email: &str) -> (r: bool)
        ensures
            accounts_model(final(self).accounts@) == set_default_spec(
                accounts_model(old(self).accounts@),
                email@,
            ),
            r == (exists|i: int|
                0 <= i < old(self).accounts@.len() && (#[trigger] old(self).accounts@[i]).email@
                    == email@),
            final(self).preferences == old(self).preferences,
    {
        let ghost s = accounts_model(self.accounts@);
        let ghost olds = self.accounts@;
        let ghost prefs = self.preferences;
        let mut found = false;
        let mut i: usize = 0;
        while i < self.accounts.len()
            invariant
                self.preferences == prefs,
                s.len() == self.accounts@.len(),
                s == accounts_model(olds),
                i <= s.len(),
                forall|j: int|
                    0 <= j < i ==> #[trigger] self.accounts@[j]@ == (AccountModel {
                        default: s[j].email == email@,
                        ..s[j]
                    }),
                forall|j: int| i <= j < s.len() ==> #[trigger] self.accounts@[j]@ == s[j],
                found == (exists|j: int| 0 <= j < i && (#[trigger] olds[j]).email@ == email@),
            decreases s.len() - i,
        {
            proof {
                assert(self.accounts@[i as int]@ == s[i as int]);
                assert(olds[i as int]@ == s[i as int]);
            }
            let matches = str_equal(self.accounts[i].email.as_str(), email);
            assert(matches == (s[i as int].email == email@));
            let ghost before = self.accounts@;
            self.accounts[i].default = matches;
            if matches {
                found = true;
            }
            proof {
                assert(self.accounts@ == before.update(i as int, self.accounts@[i as int]));
                assert forall|j: int| 0 <= j < i + 1 implies #[trigger] self.accounts@[j]@ == (
                AccountModel { default: s[j].email == email@, ..s[j] }) by {
                    if j < i {
                        assert(self.accounts@[j] == before[j]);
                    }
                }
                if matches {
                    assert(olds[i as int].email@ == email@);
                }
                if found && !matches {
                    let w = choose|j: int| 0 <= j < i && (#[trigger] olds[j]).email@ == email@;
                    assert(0 <= w < i + 1 && olds[w].email@ == email@);
                }
                if (exists|j: int| 0 <= j < i + 1 && (#[trigger] olds[j]).email@ == email@) {
                    let w = choose|j: int| 0 <= j < i + 1 && (#[trigger] olds[j]).email@ == email@;
                    if w < i {
                        assert(found);
                    }
                }
            }
            i = i + 1;
        }
        assert(accounts_model(self.accounts@) =~= set_default_spec(s, email@));
        found
    }
}

} // verus!
