//! Component packages: a storage layout with named placeholders, checked for
//! contiguity, resolved into concrete storage slots, and framed as bytes.

pub mod account_type;
pub mod codec;
pub mod error;
pub mod metadata;
pub mod package;
pub mod sequences;
pub mod storage;
pub mod version;
pub mod wallet;
pub mod word;

pub use account_type::{AccountType, InvalidAccountType};
pub use codec::{decode_package, encode_package};
pub use error::{AccountError, ComponentPackageError, ErrorModel};
pub use metadata::ComponentMetadata;
pub use package::{AccountComponent, ComponentPackage, MAX_NUM_STORAGE_SLOTS};
pub use storage::{MapEntry, SlotModel, StorageEntry, StorageSlot};
pub use version::Version;
pub use wallet::BasicWallet;
pub use word::{TemplateType, TemplateValue, TemplateValues, Word, WordRepresentation};
