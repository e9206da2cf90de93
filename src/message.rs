use vstd::prelude::*;
use vstd::string::*;
use crate::filter::opt_string_model;

verus! {

/// A mailbox address with an optional display name.
#[derive(Debug, Clone)]
pub struct EmailAddress {
    pub name: Option<String>,
    pub address: String,
}

impl EmailAddress {
    pub fn new(address: String, name: Option<String>) -> (r: Self)
        ensures
            r.address@ == address@,
            opt_string_model(r.name) == opt_string_model(name),
    {
        EmailAddress { name, address }
    }

    /// `Name <address>`, or the bare address when there is no name.
    pub fn format(&self) -> (r: String)
        ensures
            r@ == match self.name {
                Some(n) => n@ + " <"@ + self.address@ + ">"@,
                None => self.address@,
            },
    {
        match &self.name {
            Some(n) => {
                let mut s = n.clone();
                s.append(" <");
                s.append(self.address.as_str());
                s.append(">");
                s
            },
            None => self.address.clone(),
        }
    }
}

/// The standard flags of a message.
#[derive(Debug, Clone, Copy)]
pub struct MessageFlags {
    pub seen: bool,
    pub answered: bool,
    pub flagged: bool,
    pub deleted: bool,
    pub draft: bool,
}

} // verus!
