use protoncli::config::{Account, Config, Preferences, SecurityType};
use protoncli::message::EmailAddress;

fn account(email: &str, default: bool) -> Account {
    let mut a = Account::new_protonmail_bridge(email.to_string());
    a.default = default;
    a
}

#[test]
fn bridge_account_defaults() {
    let a = Account::new_protonmail_bridge("me@x".to_string());
    assert_eq!(a.imap_host, "127.0.0.1");
    assert_eq!(a.imap_port, 1143);
    assert_eq!(a.imap_security, SecurityType::StartTls);
    assert_eq!(a.smtp_port, 1025);
    assert_eq!(a.smtp_security, SecurityType::Ssl);
    assert!(!a.default);
}

#[test]
fn accounts_add_replace_and_default() {
    let mut c = Config { accounts: vec![], preferences: Preferences::default() };
    assert!(c.get_default_account().is_none());
    c.add_account(account("a", false));
    c.add_account(account("b", false));
    assert_eq!(c.get_default_account().unwrap().email, "a");
    c.add_account(account("c", true));
    assert_eq!(c.get_default_account().unwrap().email, "c");
    c.add_account(account("a", false));
    assert_eq!(c.accounts.len(), 3);
    assert_eq!(c.accounts[2].email, "a");
    assert!(c.get_account("b").is_some());
    assert!(c.get_account("z").is_none());
    assert!(c.set_default_account("b"));
    assert_eq!(c.get_default_account().unwrap().email, "b");
    assert!(!c.set_default_account("z"));
    assert!(c.get_default_account().is_none() || !c.accounts.iter().any(|a| a.default));
}

#[test]
fn removing_the_default_promotes_the_first() {
    let mut c = Config { accounts: vec![], preferences: Preferences::default() };
    c.add_account(account("a", false));
    c.add_account(account("b", true));
    assert!(c.remove_account("b"));
    assert!(c.accounts[0].default);
    assert!(!c.remove_account("b"));
    assert_eq!(Preferences::default().date_filter_days, 3);
    assert_eq!(Preferences::default().default_output, "json");
}

#[test]
fn email_address_format() {
    let a = EmailAddress::new("x@y.z".to_string(), Some("X Y".to_string()));
    assert_eq!(a.format(), "X Y <x@y.z>");
    let b = EmailAddress::new("x@y.z".to_string(), None);
    assert_eq!(b.format(), "x@y.z");
}
