//! Tag lookup: maps FIX tag numbers to the base type of their values.  The
//! session layer only needs a small built-in FIX 4.4 table; version fields
//! such as `ApplExtID <1156>` are rejected by the predetermined lookup.

use vstd::prelude::*;

verus! {

/// The base type of a field value on the wire.
#[derive(Clone, Copy, Debug, PartialEq, Eq, Structural)]
pub enum TypeInfo {
    Int,
    Float,
    Ch,
    Str,
    Data(usize),
}

/// A FIX field dictionary restricted to what the session layer reads: the
/// base type of each tag, defaulting to `Str` for unknown tags.
#[derive(Clone, Copy, Debug)]
pub struct Dictionary {}

/// The base type that the built-in FIX 4.4 table assigns to `tag`.
pub open spec fn spec_base_type(tag: u32) -> TypeInfo {
    if tag == 7 || tag == 9 || tag == 16 || tag == 34 || tag == 45 || tag == 90 || tag == 93
        || tag == 95 || tag == 98 || tag == 108 || tag == 110 || tag == 212 || tag == 371
        || tag == 373 {
        TypeInfo::Int
    } else if tag == 44 || tag == 270 || tag == 271 {
        TypeInfo::Float
    } else if tag == 54 || tag == 59 {
        TypeInfo::Ch
    } else if tag == 89 || tag == 91 || tag == 96 || tag == 213 {
        TypeInfo::Data(0)
    } else {
        TypeInfo::Str
    }
}

impl Dictionary {
    /// The built-in FIX 4.4 dictionary.
    pub fn fix44() -> (r: Dictionary) {
        Dictionary {  }
    }

    /// The base type of `tag`.
    pub fn base_type(&self, tag: u32) -> (r: TypeInfo)
        ensures
            r == spec_base_type(tag),
    {
        if tag == 7 || tag == 9 || tag == 16 || tag == 34 || tag == 45 || tag == 90 || tag == 93
            || tag == 95 || tag == 98 || tag == 108 || tag == 110 || tag == 212 || tag == 371
            || tag == 373 {
            TypeInfo::Int
        } else if tag == 44 || tag == 270 || tag == 271 {
            TypeInfo::Float
        } else if tag == 54 || tag == 59 {
            TypeInfo::Ch
        } else if tag == 89 || tag == 91 || tag == 96 || tag == 213 {
            TypeInfo::Data(0)
        } else {
            TypeInfo::Str
        }
    }
}

/// Why the predetermined lookup refuses a tag: the application-version
/// fields would change how later fields are read, which this lookup forbids.
#[derive(Clone, Copy, Debug, PartialEq, Eq, Structural)]
pub enum TagLookupPredeterminedError {
    InvalidApplVerID,
    InvalidApplExtID,
    InvalidCstmApplVerID,
}

/// Dynamic tag lookup logic: what base type to read a tag's value as, which
/// for some dialects depends on version fields seen earlier in the stream.
pub trait TagLookup: Sized {
    /// What `lookup` returns in the lookup's current state.
    spec fn lookup_spec(&self, tag: u32) -> Result<TypeInfo, TagLookupPredeterminedError>;

    fn from_dict(dict: &Dictionary) -> Self;

    /// Returns the base type of the tag number `tag`.
    fn lookup(&mut self, tag: u32) -> (r: Result<TypeInfo, TagLookupPredeterminedError>)
        ensures
            r == old(self).lookup_spec(tag),
            *final(self) == *old(self),
    ;
}

/// What the predetermined lookup answers for `tag`.
pub open spec fn spec_predetermined_lookup(tag: u32) -> Result<
    TypeInfo,
    TagLookupPredeterminedError,
> {
    if tag == 1156 || tag == 1137 || tag == 1407 {
        Err(TagLookupPredeterminedError::InvalidApplExtID)
    } else if tag == 1129 || tag == 1408 {
        Err(TagLookupPredeterminedError::InvalidCstmApplVerID)
    } else {
        Ok(spec_base_type(tag))
    }
}

/// A [`TagLookup`] that only allows a specific revision of the standard:
/// the version fields are refused instead of changing the state.
#[derive(Clone, Copy, Debug)]
pub struct TagLookupPredetermined {
    pub dict: Dictionary,
}

impl TagLookup for TagLookupPredetermined {
    open spec fn lookup_spec(&self, tag: u32) -> Result<TypeInfo, TagLookupPredeterminedError> {
        spec_predetermined_lookup(tag)
    }

    fn from_dict(dict: &Dictionary) -> Self {
        TagLookupPredetermined { dict: *dict }
    }

    fn lookup(&mut self, tag: u32) -> (r: Result<TypeInfo, TagLookupPredeterminedError>) {
        if tag == 1156 || tag == 1137 || tag == 1407 {
            Err(TagLookupPredeterminedError::InvalidApplExtID)
        } else if tag == 1129 || tag == 1408 {
            Err(TagLookupPredeterminedError::InvalidCstmApplVerID)
        } else {
            Ok(self.dict.base_type(tag))
        }
    }
}

} // verus!
