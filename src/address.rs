use vstd::prelude::*;

verus! {

/// Which sub-dictionary an entry belongs to. Identifiers are unique only
/// within one origin class.
#[derive(Clone, Copy, Debug, PartialEq, Eq, Structural)]
pub enum OriginClass {
    /// Synthesised for text that no dictionary knows.
    Unknown,
    /// From the primary compiled dictionary.
    System,
    /// From a supplementary user dictionary.
    User,
}

/// The numeric code under which an origin class travels on the wire.
pub open spec fn origin_code_spec(o: OriginClass) -> u8 {
    match o {
        OriginClass::Unknown => 0,
        OriginClass::System => 1,
        OriginClass::User => 2,
    }
}

/// The origin class a feature request selects: absent or 1 is `System`,
/// 2 is `User`, every other value is `Unknown`.
pub open spec fn origin_of_selector_spec(selector: Option<u8>) -> OriginClass {
    match selector {
        None => OriginClass::System,
        Some(1) => OriginClass::System,
        Some(2) => OriginClass::User,
        Some(_) => OriginClass::Unknown,
    }
}

impl OriginClass {
    /// Wire code: 0 for `Unknown`, 1 for `System`, 2 for `User`.
    pub fn code(self) -> (r: u8)
        ensures
            r == origin_code_spec(self),
    {
        match self {
            OriginClass::Unknown => 0,
            OriginClass::System => 1,
            OriginClass::User => 2,
        }
    }

    /// Reads the optional `lex_type` selector of a feature request.
    pub fn from_selector(selector: Option<u8>) -> (r: OriginClass)
        ensures
            r == origin_of_selector_spec(selector),
    {
        match selector {
            None => OriginClass::System,
            Some(1) => OriginClass::System,
            Some(2) => OriginClass::User,
            Some(_) => OriginClass::Unknown,
        }
    }
}

/// An entry of a dictionary: a numeric identifier within an origin class.
#[derive(Clone, Copy, Debug, PartialEq, Eq, Structural)]
pub struct EntryAddress {
    pub id: u32,
    pub origin: OriginClass,
}

impl EntryAddress {
    /// The address that a feature request with `id` and optional `lex_type` names.
    pub fn from_request(id: u32, lex_type: Option<u8>) -> (r: EntryAddress)
        ensures
            r.id == id,
            r.origin == origin_of_selector_spec(lex_type),
    {
        EntryAddress { id, origin: OriginClass::from_selector(lex_type) }
    }
}

/// Failure of a feature lookup.
#[derive(Clone, Copy, Debug, PartialEq, Eq, Structural)]
pub enum FeatureError {
    /// The dictionary holds no entry at this address.
    UnknownAddress(EntryAddress),
}

/// Turns the outcome of reading the dictionary at `address` into the reply:
/// the stored feature string, or `UnknownAddress` where there is none. A
/// missing entry is never answered with an empty or default string.
pub fn resolve_feature(address: EntryAddress, stored: Option<String>) -> (r: Result<
    String,
    FeatureError,
>)
    ensures
        stored is None <==> r == Err::<String, FeatureError>(FeatureError::UnknownAddress(address)),
        stored is Some <==> r is Ok,
        r is Ok ==> r->Ok_0@ == stored->0@,
{
    match stored {
        Some(f) => Ok(f),
        None => Err(FeatureError::UnknownAddress(address)),
    }
}

} // verus!
