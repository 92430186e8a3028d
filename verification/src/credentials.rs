//! Saved shop credentials: the record kept in the operating system's
//! credential store, reading it back, and checking what the user typed.

use vstd::prelude::*;
use vstd::string::{StrSliceExecFns, StringExecFns};
use crate::text::{trim, trimmed};

verus! {

/// `keyring::Entry`, one entry of the operating system's credential store.
#[verifier::external_type_specification]
#[verifier::external_body]
pub struct ExKeyringEntry(keyring::Entry);

/// `keyring::Error`, a failure of the credential store.
#[verifier::external_type_specification]
#[verifier::external_body]
pub struct ExKeyringError(keyring::Error);

/// `keyring::Entry::new` opens the store's entry for a service and user;
/// whether it succeeds depends on the platform store, so nothing is stated.
pub assume_specification[ keyring::Entry::new ](service: &str, user: &str) -> Result<
    keyring::Entry,
    keyring::Error,
>;

/// `keyring::Entry::set_password` stores a secret; the outcome depends on
/// the platform store, so nothing is stated.
pub assume_specification[ keyring::Entry::set_password ](entry: &keyring::Entry, password: &str) -> Result<
    (),
    keyring::Error,
>;

/// `keyring::Entry::get_password` reads the stored secret; what it holds
/// depends on the platform store, so nothing is stated.
pub assume_specification[ keyring::Entry::get_password ](entry: &keyring::Entry) -> Result<
    String,
    keyring::Error,
>;

/// `keyring::Entry::delete_credential` removes the stored secret; the
/// outcome depends on the platform store, so nothing is stated.
pub assume_specification[ keyring::Entry::delete_credential ](entry: &keyring::Entry) -> Result<
    (),
    keyring::Error,
>;

/// Why credentials could not be saved, loaded, deleted or accepted.
#[derive(Debug)]
pub enum CredentialError {
    /// The credential store could not be opened.
    OpenStore(keyring::Error),
    /// The credentials could not be stored.
    Save(keyring::Error),
    /// No saved credentials could be read.
    Load(keyring::Error),
    /// The saved credentials could not be deleted.
    Delete(keyring::Error),
    /// The saved record has no line break between phone and password.
    Malformed,
    /// The saved record has an empty phone number or password.
    Empty,
    /// The phone number typed at the prompt is empty.
    EmptyPhone,
    /// The password typed at the prompt is empty.
    EmptyPassword,
}

/// The record that keeps a phone number and password: the phone number, a
/// line break, the password.
pub open spec fn credential_record(phone: Seq<char>, password: Seq<char>) -> Seq<char> {
    phone + seq!['\n'] + password
}

/// The position of the first `c` in `s`.
pub open spec fn first_index_of(s: Seq<char>, c: char) -> Option<int>
    decreases s.len(),
{
    if s.len() == 0 {
        None
    } else if s[0] == c {
        Some(0)
    } else {
        match first_index_of(s.drop_first(), c) {
            Some(i) => Some(i + 1),
            None => None,
        }
    }
}

/// A record split at its first line break.
pub open spec fn split_record(stored: Seq<char>) -> Option<(Seq<char>, Seq<char>)> {
    match first_index_of(stored, '\n') {
        Some(i) => Some((stored.subrange(0, i), stored.subrange(i + 1, stored.len() as int))),
        None => None,
    }
}

proof fn lemma_first_index_of(s: Seq<char>, c: char)
    ensures
        match first_index_of(s, c) {
            Some(i) => 0 <= i < s.len() && s[i] == c && forall|j: int| 0 <= j < i ==> s[j] != c,
            None => forall|j: int| 0 <= j < s.len() ==> s[j] != c,
        },
    decreases s.len(),
{
    if s.len() > 0 {
        lemma_first_index_of(s.drop_first(), c);
        if s[0] != c {
            assert forall|j: int| 0 < j < s.len() implies s[j] == s.drop_first()[j - 1] by {}
        }
    }
}

proof fn lemma_first_index_of_unique(s: Seq<char>, c: char, i: int)
    requires
        0 <= i < s.len(),
        s[i] == c,
        forall|j: int| 0 <= j < i ==> s[j] != c,
    ensures
        first_index_of(s, c) == Some(i),
    decreases i,
{
    if i > 0 {
        lemma_first_index_of_unique(s.drop_first(), c, i - 1);
    }
}

/// The record for a phone number and password.
pub fn encode_credentials(phone: &str, password: &str) -> (r: String)
    ensures
        r@ == credential_record(phone@, password@),
{
    let mut record = phone.to_owned();
    record.push('\n');
    record.append(password);
    record
}

/// The phone number and password kept in a record: it must have a line
/// break, and both sides of the first one must be non-empty.
pub fn parse_credentials(stored: &str) -> (r: Result<(String, String), CredentialError>)
    ensures
        match split_record(stored@) {
            None => r matches Err(CredentialError::Malformed),
            Some((phone, password)) => if phone.len() == 0 || password.len() == 0 {
                r matches Err(CredentialError::Empty)
            } else {
                r matches Ok((p, w)) && p@ == phone && w@ == password
            },
        },
{
    let n = stored.unicode_len();
    let mut i: usize = 0;
    while i < n
        invariant
            n == stored@.len(),
            i <= n,
            forall|j: int| 0 <= j < i ==> stored@[j] != '\n',
        ensures
            i <= n,
            forall|j: int| 0 <= j < i ==> stored@[j] != '\n',
            i < n ==> stored@[i as int] == '\n',
        decreases n - i,
    {
        if stored.get_char(i) == '\n' {
            break;
        }
        i = i + 1;
    }
    proof {
        lemma_first_index_of(stored@, '\n');
    }
    if i == n {
        return Err(CredentialError::Malformed);
    }
    proof {
        lemma_first_index_of_unique(stored@, '\n', i as int);
    }
    let phone = stored.substring_char(0, i);
    let password = stored.substring_char(i + 1, n);
    if phone.unicode_len() == 0 || password.unicode_len() == 0 {
        return Err(CredentialError::Empty);
    }
    Ok((phone.to_owned(), password.to_owned()))
}

/// A record made of a non-empty phone number without line breaks and a
/// non-empty password reads back as exactly that phone number and password.
pub proof fn lemma_credentials_roundtrip(phone: Seq<char>, password: Seq<char>)
    requires
        phone.len() > 0,
        password.len() > 0,
        forall|i: int| 0 <= i < phone.len() ==> phone[i] != '\n',
    ensures
        split_record(credential_record(phone, password)) == Some((phone, password)),
{
    let r = credential_record(phone, password);
    assert(r[phone.len() as int] == '\n');
    assert forall|j: int| 0 <= j < phone.len() implies r[j] != '\n' by {
        assert(r[j] == phone[j]);
    }
    lemma_first_index_of_unique(r, '\n', phone.len() as int);
    assert(r.subrange(0, phone.len() as int) =~= phone);
    assert(r.subrange(phone.len() as int + 1, r.len() as int) =~= password);
}

/// The credential store entry that holds the shop credentials: service
/// `wi-mesh-login`, user `shop`. Saving, loading and deleting all use it.
pub fn credential_target() -> (r: (&'static str, &'static str))
    ensures
        r.0@ == "wi-mesh-login"@,
        r.1@ == "shop"@,
{
    ("wi-mesh-login", "shop")
}

/// Opens the credential store entry named by [`credential_target`].
fn credential_entry() -> (r: Result<keyring::Entry, CredentialError>)
    ensures
        r matches Err(e) ==> e is OpenStore,
{
    let (service, user) = credential_target();
    match keyring::Entry::new(service, user) {
        Ok(entry) => Ok(entry),
        Err(e) => Err(CredentialError::OpenStore(e)),
    }
}

/// Saves a phone number and password as the shop credentials: the record
/// [`encode_credentials`] makes of them is stored in the entry named by
/// [`credential_target`].
pub fn save_credentials(phone: &str, password: &str) -> (r: Result<(), CredentialError>)
    ensures
        r matches Err(e) ==> e is OpenStore || e is Save,
{
    let entry = credential_entry()?;
    let record = encode_credentials(phone, password);
    match entry.set_password(record.as_str()) {
        Ok(()) => Ok(()),
        Err(e) => Err(CredentialError::Save(e)),
    }
}

/// Loads the shop credentials saved in the entry named by
/// [`credential_target`] (see [`parse_credentials`]); whatever
/// the store holds, a loaded phone number and password are non-empty and the
/// phone number has no line break.
pub fn load_credentials() -> (r: Result<(String, String), CredentialError>)
    ensures
        r matches Ok((p, w)) ==> p@.len() > 0 && w@.len() > 0 && forall|i: int|
            0 <= i < p@.len() ==> p@[i] != '\n',
        r matches Err(e) ==> e is OpenStore || e is Load || e is Malformed || e is Empty,
{
    let entry = credential_entry()?;
    let stored = match entry.get_password() {
        Ok(s) => s,
        Err(e) => return Err(CredentialError::Load(e)),
    };
    proof {
        lemma_first_index_of(stored@, '\n');
    }
    parse_credentials(stored.as_str())
}

/// Deletes the shop credentials saved in the entry named by
/// [`credential_target`].
pub fn forget_credentials() -> (r: Result<(), CredentialError>)
    ensures
        r matches Err(e) ==> e is OpenStore || e is Delete,
{
    let entry = credential_entry()?;
    match entry.delete_credential() {
        Ok(()) => Ok(()),
        Err(e) => Err(CredentialError::Delete(e)),
    }
}

/// The phone number typed at the login prompt: the line without
/// surrounding white space, which must not be empty.
pub fn prompted_phone(line: &str) -> (r: Result<String, CredentialError>)
    ensures
        trim(line@).len() == 0 ==> r matches Err(CredentialError::EmptyPhone),
        trim(line@).len() > 0 ==> (r matches Ok(p) && p@ == trim(line@)),
{
    let phone = trimmed(line);
    if phone.as_str().unicode_len() == 0 {
        return Err(CredentialError::EmptyPhone);
    }
    Ok(phone)
}

/// The password typed at the login prompt, which must not be empty.
pub fn prompted_password(password: &str) -> (r: Result<String, CredentialError>)
    ensures
        password@.len() == 0 ==> r matches Err(CredentialError::EmptyPassword),
        password@.len() > 0 ==> (r matches Ok(w) && w@ == password@),
{
    if password.unicode_len() == 0 {
        return Err(CredentialError::EmptyPassword);
    }
    Ok(password.to_owned())
}

} // verus!
