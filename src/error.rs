use vstd::prelude::*;

use crate::word::{TemplateType, Word};

verus! {

/// Rejections raised by the account object model when it is handed storage.
#[derive(Clone, Copy, Debug, PartialEq, Eq, Structural)]
pub enum AccountError {
    /// A component may hold at most 255 storage slots; carries the count given.
    StorageTooManySlots(u64),
    /// A storage map was given the same key twice.
    DuplicateStorageMapKey(Word),
}

/// Everything that can go wrong while building, instantiating or decoding a package.
#[derive(Clone, Debug)]
pub enum ComponentPackageError {
    AccountComponentError(AccountError),
    DeserializationError(String),
    DuplicateSlots(u8),
    IncorrectStorageFirstSlot,
    IncorrectTemplateValue(TemplateType),
    InvalidMultiSlotEntry,
    MetadataDeserializationError(String),
    NonContiguousSlots,
    StorageMapError(AccountError),
    TemplateValueNotProvided(String),
}

/// The mathematical value of a [`ComponentPackageError`]: strings become character sequences.
pub enum ErrorModel {
    AccountComponentError(AccountError),
    DeserializationError(Seq<char>),
    DuplicateSlots(u8),
    IncorrectStorageFirstSlot,
    IncorrectTemplateValue(TemplateType),
    InvalidMultiSlotEntry,
    MetadataDeserializationError(Seq<char>),
    NonContiguousSlots,
    StorageMapError(AccountError),
    TemplateValueNotProvided(Seq<char>),
}

impl View for ComponentPackageError {
    type V = ErrorModel;

    open spec fn view(&self) -> ErrorModel {
        match self {
            ComponentPackageError::AccountComponentError(e) => ErrorModel::AccountComponentError(*e),
            ComponentPackageError::DeserializationError(s) => ErrorModel::DeserializationError(s@),
            ComponentPackageError::DuplicateSlots(d) => ErrorModel::DuplicateSlots(*d),
            ComponentPackageError::IncorrectStorageFirstSlot => ErrorModel::IncorrectStorageFirstSlot,
            ComponentPackageError::IncorrectTemplateValue(t) => ErrorModel::IncorrectTemplateValue(*t),
            ComponentPackageError::InvalidMultiSlotEntry => ErrorModel::InvalidMultiSlotEntry,
            ComponentPackageError::MetadataDeserializationError(s) => ErrorModel::MetadataDeserializationError(s@),
            ComponentPackageError::NonContiguousSlots => ErrorModel::NonContiguousSlots,
            ComponentPackageError::StorageMapError(e) => ErrorModel::StorageMapError(*e),
            ComponentPackageError::TemplateValueNotProvided(s) => ErrorModel::TemplateValueNotProvided(s@),
        }
    }
}

} // verus!
