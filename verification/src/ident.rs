//! Identifiers of accounts and securities.

use vstd::prelude::*;
use vstd::set_lib::lemma_len_subset;
use uuid::Uuid;
use crate::error::MarketError;

verus! {

/// Names one security. The number inside is a 128-bit UUID value; it has no
/// meaning beyond telling securities apart.
#[derive(Debug, Default, PartialEq, Eq, Structural, Hash, Clone, Copy)]
pub struct SecId(pub u128);

/// Names one account. The number inside is a 128-bit UUID value; it has no
/// meaning beyond telling accounts apart.
#[derive(Debug, Default, PartialEq, Eq, Structural, Hash, Clone, Copy)]
pub struct AccId(pub u128);

/// `Uuid::new_v4`, read as a number with `Uuid::as_u128`: a random UUID.
/// Which one is not said; only that it carries version 4 and the RFC variant
/// in the bits that hold them. The call panics where the operating system
/// has no random bytes to give.
#[verifier::external_body]
pub(crate) fn random_id() -> (id: u128)
    ensures
        (id & 0x0000_0000_0000_f000_c000_0000_0000_0000)
            == 0x0000_0000_0000_4000_8000_0000_0000_0000,
{
    Uuid::new_v4().as_u128()
}

/// The text that `uuid` writes for the UUID with the value `id`.
pub uninterp spec fn uuid_text(id: u128) -> Seq<char>;

/// The value of the UUID that `uuid` reads from `text`, if it reads one.
pub uninterp spec fn uuid_read(text: Seq<char>) -> Option<u128>;

/// `Uuid::from_u128` and the `Display` of the result: the UUID in lower-case
/// hexadecimal digits, in five groups with hyphens between them. The crate's
/// parser reads that text back as the same UUID.
#[verifier::external_body]
pub(crate) fn write_uuid(id: u128) -> (text: String)
    ensures
        text@ == uuid_text(id),
        uuid_read(text@) == Some(id),
{
    Uuid::from_u128(id).to_string()
}

/// `Uuid::parse_str`, with `Uuid::as_u128` on what it read: the value of the
/// UUID that the text stands for, or nothing where the text is no UUID.
#[verifier::external_body]
pub(crate) fn read_uuid(text: &str) -> (id: Option<u128>)
    ensures
        id == uuid_read(text@),
{
    match Uuid::parse_str(text) {
        Ok(uuid) => Some(uuid.as_u128()),
        Err(_) => None,
    }
}

impl SecId {
    /// The identifier that a reading of its text gave, if it gave one.
    pub fn from_read(read: Option<u128>) -> (id: Result<SecId, MarketError>)
        ensures
            id == match read {
                Some(value) => Ok::<SecId, MarketError>(SecId(value)),
                None => Err::<SecId, MarketError>(MarketError::MalformedIdentifier),
            },
    {
        match read {
            Some(value) => Ok(SecId(value)),
            None => Err(MarketError::MalformedIdentifier),
        }
    }

    /// Reads an identifier from the text of a UUID.
    pub fn parse(text: &str) -> (id: Result<SecId, MarketError>)
        ensures
            id == match uuid_read(text@) {
                Some(value) => Ok::<SecId, MarketError>(SecId(value)),
                None => Err::<SecId, MarketError>(MarketError::MalformedIdentifier),
            },
    {
        SecId::from_read(read_uuid(text))
    }

    /// The identifier as the text of a UUID, which `parse` reads back.
    pub fn to_text(&self) -> (text: String)
        ensures
            text@ == uuid_text(self.0),
            uuid_read(text@) == Some(self.0),
    {
        write_uuid(self.0)
    }
}

impl AccId {
    /// The identifier that a reading of its text gave, if it gave one.
    pub fn from_read(read: Option<u128>) -> (id: Result<AccId, MarketError>)
        ensures
            id == match read {
                Some(value) => Ok::<AccId, MarketError>(AccId(value)),
                None => Err::<AccId, MarketError>(MarketError::MalformedIdentifier),
            },
    {
        match read {
            Some(value) => Ok(AccId(value)),
            None => Err(MarketError::MalformedIdentifier),
        }
    }

    /// Reads an identifier from the text of a UUID.
    pub fn parse(text: &str) -> (id: Result<AccId, MarketError>)
        ensures
            id == match uuid_read(text@) {
                Some(value) => Ok::<AccId, MarketError>(AccId(value)),
                None => Err::<AccId, MarketError>(MarketError::MalformedIdentifier),
            },
    {
        AccId::from_read(read_uuid(text))
    }

    /// The identifier as the text of a UUID, which `parse` reads back.
    pub fn to_text(&self) -> (text: String)
        ensures
            text@ == uuid_text(self.0),
            uuid_read(text@) == Some(self.0),
    {
        write_uuid(self.0)
    }
}

/// The identifiers below `n`.
pub open spec fn first_ids(n: nat) -> Set<u128> {
    Set::new(|id: u128| id < n)
}

/// There are `n` identifiers below `n`.
pub proof fn lemma_first_ids_len(n: nat)
    requires
        n <= u128::MAX,
    ensures
        first_ids(n).finite(),
        first_ids(n).len() == n,
    decreases n,
{
    if n == 0 {
        assert(first_ids(n) =~= Set::<u128>::empty());
    } else {
        let last = (n - 1) as nat;
        lemma_first_ids_len(last);
        assert(first_ids(n) =~= first_ids(last).insert(last as u128));
    }
}

/// A set of `n` identifiers that holds every identifier below `n` does not
/// hold `n`.
pub proof fn lemma_next_id_is_vacant(taken: Set<u128>, n: nat)
    requires
        taken.finite(),
        taken.len() == n,
        n < u128::MAX,
        forall|id: u128| id < n ==> taken.contains(id),
    ensures
        !taken.contains(n as u128),
{
    if taken.contains(n as u128) {
        lemma_first_ids_len(n + 1);
        lemma_len_subset(first_ids(n + 1), taken);
    }
}

} // verus!
