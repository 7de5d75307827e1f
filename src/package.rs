use vstd::prelude::*;
use vstd::utf8::{decode_utf8, encode_utf8, encode_utf8_decode_utf8, encode_utf8_valid_utf8, valid_utf8};

use crate::codec::{encode_package, package_bytes};
use crate::error::{AccountError, ComponentPackageError, ErrorModel};
use crate::metadata::ComponentMetadata;
use crate::storage::{slots_model, SlotModel, StorageEntry, StorageSlot};
use crate::word::TemplateValues;

verus! {

/// The most storage slots one component may hold.
pub const MAX_NUM_STORAGE_SLOTS: usize = 255;

/// A finished component: compiled code and its concrete storage slots.
#[derive(Clone, Debug, PartialEq, Eq)]
pub struct AccountComponent {
    library: Vec<u8>,
    storage_slots: Vec<StorageSlot>,
}

impl AccountComponent {
    pub closed spec fn spec_library(&self) -> Seq<u8> {
        self.library@
    }

    pub closed spec fn spec_storage_slots(&self) -> Seq<SlotModel> {
        slots_model(self.storage_slots@)
    }

    /// Builds a component from encoded code and its slots; refused with more than 255 slots.
    pub fn new(library: Vec<u8>, storage_slots: Vec<StorageSlot>) -> (r: Result<AccountComponent, AccountError>)
        ensures
            match r {
                Ok(c) => {
                    &&& storage_slots@.len() <= MAX_NUM_STORAGE_SLOTS
                    &&& c.spec_library() == library@
                    &&& c.spec_storage_slots() == slots_model(storage_slots@)
                },
                Err(e) => {
                    &&& storage_slots@.len() > MAX_NUM_STORAGE_SLOTS
                    &&& e == AccountError::StorageTooManySlots(storage_slots@.len() as u64)
                },
            },
    {
        if storage_slots.len() > MAX_NUM_STORAGE_SLOTS {
            return Err(AccountError::StorageTooManySlots(storage_slots.len() as u64));
        }
        Ok(AccountComponent { library, storage_slots })
    }

    pub fn library(&self) -> (r: &Vec<u8>)
        ensures
            r@ == self.spec_library(),
    {
        &self.library
    }

    pub fn storage_slots(&self) -> (r: &Vec<StorageSlot>)
        ensures
            slots_model(r@) == self.spec_storage_slots(),
    {
        &self.storage_slots
    }
}

/// The slots of all entries under `values`, concatenated in declaration order; the first
/// failure otherwise.
pub open spec fn entries_slots(entries: Seq<StorageEntry>, values: TemplateValues) -> Result<Seq<SlotModel>, ErrorModel>
    decreases entries.len(),
{
    if entries.len() == 0 {
        Ok(Seq::empty())
    } else {
        match entries_slots(entries.drop_last(), values) {
            Err(e) => Err(e),
            Ok(slots) => match entries.last().spec_storage_slots(values) {
                Err(e) => Err(e),
                Ok(more) => Ok(slots + more),
            },
        }
    }
}

/// What instantiating a package with storage `entries` and code `library` yields: the code and
/// the slots, or the first failure.
pub open spec fn instantiation(entries: Seq<StorageEntry>, values: TemplateValues, library: Seq<u8>) -> Result<(Seq<u8>, Seq<SlotModel>), ErrorModel> {
    match entries_slots(entries, values) {
        Err(e) => Err(e),
        Ok(slots) => if slots.len() > MAX_NUM_STORAGE_SLOTS {
            Err(ErrorModel::AccountComponentError(AccountError::StorageTooManySlots(slots.len() as u64)))
        } else {
            Ok((library, slots))
        },
    }
}

proof fn lemma_entries_slots_prefix(entries: Seq<StorageEntry>, values: TemplateValues, i: int)
    requires
        0 <= i <= entries.len(),
        entries_slots(entries.take(i), values) is Err,
    ensures
        entries_slots(entries, values) == entries_slots(entries.take(i), values),
    decreases entries.len() - i,
{
    if i == entries.len() {
        assert(entries.take(i) =~= entries);
    } else {
        assert(entries.take(i + 1).drop_last() =~= entries.take(i));
        lemma_entries_slots_prefix(entries, values, i + 1);
    }
}

/// A component's metadata together with its compiled code, held in its own encoding.
#[derive(Debug, PartialEq, Eq)]
pub struct ComponentPackage {
    metadata: ComponentMetadata,
    library: Vec<u8>,
}

impl ComponentPackage {
    pub closed spec fn spec_metadata(&self) -> ComponentMetadata {
        self.metadata
    }

    pub closed spec fn spec_library(&self) -> Seq<u8> {
        self.library@
    }

    /// Bundles validated metadata with encoded code.
    pub fn new(metadata: ComponentMetadata, library: Vec<u8>) -> (r: Result<ComponentPackage, ComponentPackageError>)
        ensures
            r matches Ok(p) && p.spec_metadata() == metadata && p.spec_library() == library@,
    {
        Ok(ComponentPackage { metadata, library })
    }

    pub fn metadata(&self) -> (r: &ComponentMetadata)
        ensures
            *r == self.spec_metadata(),
    {
        &self.metadata
    }

    pub fn library(&self) -> (r: &Vec<u8>)
        ensures
            r@ == self.spec_library(),
    {
        &self.library
    }

    /// The package's bytes, given the textual form of its metadata.
    pub fn to_bytes(&self, metadata_text: &str) -> (r: Vec<u8>)
        ensures
            r@ == package_bytes(metadata_text@, self.spec_library()),
    {
        encode_package(metadata_text, &self.library)
    }

    /// Resolves every storage entry under `values` and builds the component.
    pub fn instantiate_component(&self, values: &TemplateValues) -> (r: Result<AccountComponent, ComponentPackageError>)
        ensures
            match r {
                Ok(c) => instantiation(self.spec_metadata().spec_storage(), *values, self.spec_library())
                    == Ok::<(Seq<u8>, Seq<SlotModel>), ErrorModel>((c.spec_library(), c.spec_storage_slots())),
                Err(e) => instantiation(self.spec_metadata().spec_storage(), *values, self.spec_library())
                    == Err::<(Seq<u8>, Seq<SlotModel>), ErrorModel>(e@),
            },
    {
        let entries = self.metadata.storage_entries();
        let mut slots: Vec<StorageSlot> = Vec::new();
        let mut i: usize = 0;
        proof {
            assert(entries@.take(0) =~= Seq::<StorageEntry>::empty());
            assert(slots_model(slots@) =~= Seq::<SlotModel>::empty());
        }
        while i < entries.len()
            invariant
                entries@ == self.spec_metadata().spec_storage(),
                i <= entries@.len(),
                entries_slots(entries@.take(i as int), *values) == Ok::<Seq<SlotModel>, ErrorModel>(slots_model(slots@)),
            decreases entries@.len() - i,
        {
            proof {
                assert(entries@.take(i + 1).drop_last() =~= entries@.take(i as int));
            }
            match entries[i].try_into_storage_slots(values) {
                Err(e) => {
                    proof {
                        lemma_entries_slots_prefix(entries@, *values, i + 1);
                    }
                    return Err(e);
                },
                Ok(mut more) => {
                    let ghost before = slots@;
                    let ghost added = more@;
                    slots.append(&mut more);
                    proof {
                        assert(slots_model(slots@) =~= slots_model(before) + slots_model(added));
                    }
                },
            }
            i = i + 1;
        }
        proof {
            assert(entries@.take(i as int) =~= entries@);
        }
        match AccountComponent::new(self.library.clone(), slots) {
            Ok(c) => Ok(c),
            Err(e) => Err(ComponentPackageError::AccountComponentError(e)),
        }
    }
}

} // verus!
