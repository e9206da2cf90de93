use vstd::prelude::*;
use vstd::string::*;
use crate::filter::{opt_string_model, str_equal};
use crate::query::ascii_upper;

verus! {

/// Role of a folder, read from its path.
#[derive(Debug, Clone, Copy, PartialEq, Eq, Structural)]
pub enum FolderType {
    Inbox,
    Sent,
    Drafts,
    Archive,
    Spam,
    Trash,
    Starred,
    AllMail,
    Label,
    Custom,
    Other,
}

pub open spec fn has_prefix(s: Seq<char>, p: Seq<char>) -> bool {
    s.len() >= p.len() && s.subrange(0, p.len() as int) == p
}

/// The role of the folder at `path`: the well-known names exactly, then the `Labels/`
/// and `Folders/` trees.
pub open spec fn folder_type_spec(path: Seq<char>) -> FolderType {
    if path == "INBOX"@ || path == "Inbox"@ {
        FolderType::Inbox
    } else if path == "Sent"@ {
        FolderType::Sent
    } else if path == "Drafts"@ {
        FolderType::Drafts
    } else if path == "Archive"@ {
        FolderType::Archive
    } else if path == "Spam"@ {
        FolderType::Spam
    } else if path == "Trash"@ {
        FolderType::Trash
    } else if path == "Starred"@ {
        FolderType::Starred
    } else if path == "All Mail"@ {
        FolderType::AllMail
    } else if has_prefix(path, "Labels/"@) {
        FolderType::Label
    } else if has_prefix(path, "Folders/"@) {
        FolderType::Custom
    } else {
        FolderType::Other
    }
}

pub fn starts_with(s: &str, p: &str) -> (r: bool)
    ensures
        r == has_prefix(s@, p@),
{
    let n = s.unicode_len();
    let m = p.unicode_len();
    if n < m {
        return false;
    }
    let mut i: usize = 0;
    while i < m
        invariant
            n == s@.len(),
            m == p@.len(),
            m <= n,
            i <= m,
            forall|j: int| 0 <= j < i ==> s@[j] == p@[j],
        decreases m - i,
    {
        if s.get_char(i) != p.get_char(i) {
            assert(s@.subrange(0, m as int)[i as int] != p@[i as int]);
            return false;
        }
        i = i + 1;
    }
    assert(s@.subrange(0, m as int) =~= p@);
    true
}

impl FolderType {
    /// The role of the folder at `path`.
    pub fn from_path(path: &str) -> (r: FolderType)
        ensures
            r == folder_type_spec(path@),
    {
        if str_equal(path, "INBOX") || str_equal(path, "Inbox") {
            FolderType::Inbox
        } else if str_equal(path, "Sent") {
            FolderType::Sent
        } else if str_equal(path, "Drafts") {
            FolderType::Drafts
        } else if str_equal(path, "Archive") {
            FolderType::Archive
        } else if str_equal(path, "Spam") {
            FolderType::Spam
        } else if str_equal(path, "Trash") {
            FolderType::Trash
        } else if str_equal(path, "Starred") {
            FolderType::Starred
        } else if str_equal(path, "All Mail") {
            FolderType::AllMail
        } else if starts_with(path, "Labels/") {
            FolderType::Label
        } else if starts_with(path, "Folders/") {
            FolderType::Custom
        } else {
            FolderType::Other
        }
    }
}

/// A mailbox folder and its role.
#[derive(Debug, Clone)]
pub struct Folder {
    pub path: String,
    pub folder_type: FolderType,
    pub delimiter: Option<String>,
}

impl Folder {
    /// A folder whose role is read from its path.
    pub fn new(path: String, delimiter: Option<String>) -> (r: Self)
        ensures
            r.path@ == path@,
            r.folder_type == folder_type_spec(path@),
            opt_string_model(r.delimiter) == opt_string_model(delimiter),
    {
        let folder_type = FolderType::from_path(path.as_str());
        Folder { path, folder_type, delimiter }
    }
}

/// A label: a folder under `Labels/`, named by the rest of its path.
#[derive(Debug, Clone)]
pub struct LabelInfo {
    pub name: String,
    pub path: String,
}

/// The label that `folder` stands for, if it lies under `Labels/`.
pub fn folder_to_label(folder: &Folder) -> (r: Option<LabelInfo>)
    ensures
        match r {
            Some(l) => has_prefix(folder.path@, "Labels/"@) && l.path@ == folder.path@ && l.name@
                == folder.path@.subrange(7, folder.path@.len() as int),
            None => !has_prefix(folder.path@, "Labels/"@),
        },
{
    let p = folder.path.as_str();
    if starts_with(p, "Labels/") {
        proof {
            reveal_strlit("Labels/");
        }
        let n = p.unicode_len();
        Some(LabelInfo { name: p.substring_char(7, n).to_owned(), path: folder.path.clone() })
    } else {
        None
    }
}

/// `s` equals the lower-case word `w`, ignoring ASCII case.
pub open spec fn eq_ignore_case(s: Seq<char>, w: Seq<char>) -> bool {
    s.len() == w.len() && forall|i: int|
        0 <= i < s.len() ==> ascii_upper(#[trigger] s[i]) == ascii_upper(w[i])
}

pub fn eq_ignore_case_exec(s: &str, w: &str) -> (r: bool)
    ensures
        r == eq_ignore_case(s@, w@),
{
    let n = s.unicode_len();
    if n != w.unicode_len() {
        return false;
    }
    let mut i: usize = 0;
    while i < n
        invariant
            n == s@.len(),
            n == w@.len(),
            i <= n,
            forall|j: int| 0 <= j < i ==> ascii_upper(#[trigger] s@[j]) == ascii_upper(w@[j]),
        decreases n - i,
    {
        if crate::query::ascii_upper_exec(s.get_char(i)) != crate::query::ascii_upper_exec(
            w.get_char(i),
        ) {
            return false;
        }
        i = i + 1;
    }
    true
}

/// The server's name for a folder alias (ignoring ASCII case); other names pass through
/// unchanged.
pub open spec fn folder_alias_spec(f: Seq<char>) -> Seq<char> {
    if eq_ignore_case(f, "inbox"@) {
        "INBOX"@
    } else if eq_ignore_case(f, "archive"@) {
        "Archive"@
    } else if eq_ignore_case(f, "trash"@) {
        "Trash"@
    } else if eq_ignore_case(f, "sent"@) {
        "Sent"@
    } else if eq_ignore_case(f, "drafts"@) {
        "Drafts"@
    } else if eq_ignore_case(f, "spam"@) || eq_ignore_case(f, "junk"@) {
        "Spam"@
    } else if eq_ignore_case(f, "all"@) || eq_ignore_case(f, "all mail"@) {
        "All Mail"@
    } else {
        f
    }
}

/// Resolves common folder aliases to the server's folder names.
pub fn resolve_folder_path(folder: &str) -> (r: String)
    ensures
        r@ == folder_alias_spec(folder@),
{
    if eq_ignore_case_exec(folder, "inbox") {
        "INBOX".to_owned()
    } else if eq_ignore_case_exec(folder, "archive") {
        "Archive".to_owned()
    } else if eq_ignore_case_exec(folder, "trash") {
        "Trash".to_owned()
    } else if eq_ignore_case_exec(folder, "sent") {
        "Sent".to_owned()
    } else if eq_ignore_case_exec(folder, "drafts") {
        "Drafts".to_owned()
    } else if eq_ignore_case_exec(folder, "spam") || eq_ignore_case_exec(folder, "junk") {
        "Spam".to_owned()
    } else if eq_ignore_case_exec(folder, "all") || eq_ignore_case_exec(folder, "all mail") {
        "All Mail".to_owned()
    } else {
        folder.to_owned()
    }
}

} // verus!
