use std::collections::BTreeSet;

use vstd::laws_cmp::obeys_cmp;
use vstd::pervasive::unreached;
use vstd::prelude::*;

use crate::account_type::AccountType;
use crate::metadata::{all_slots, ComponentMetadata};
use crate::package::ComponentPackage;
use crate::sequences::first_repeat;
use crate::storage::StorageEntry;
use crate::version::Version;
use crate::word::WordRepresentation;

verus! {

/// A basic wallet component: it receives assets, creates notes and moves assets into them.
///
/// Every procedure requires authentication, so the component is combined with one that
/// provides it. Its single storage slot holds the owner's public key, filled in at
/// instantiation under the key `public-key`.
pub struct BasicWallet;

/// The storage the basic wallet declares: slot 0, named `auth public key`, holds the
/// `public-key` placeholder.
pub open spec fn is_wallet_storage(entries: Seq<StorageEntry>) -> bool {
    &&& entries.len() == 1
    &&& entries[0] matches StorageEntry::Value { name, description, slot, value }
    &&& name@ == "auth public key"@
    &&& description matches Some(d)
    &&& d@ == "The account's public Falcon key, with which signature verification is performed"@
    &&& slot == 0
    &&& value matches WordRepresentation::Template(key)
    &&& key@ == "public-key"@
}

impl BasicWallet {
    /// The wallet's package, around the wallet's compiled code in its own encoding.
    pub fn get_component_template(library: Vec<u8>) -> (r: ComponentPackage)
        ensures
            r.spec_metadata().spec_name()@ == "Basic Wallet"@,
            r.spec_metadata().spec_description()@
                == "This component represents a basic wallet that can send and receive assets."@,
            ({
                let v = r.spec_metadata().spec_version();
                v.spec_major() == 0 && v.spec_minor() == 0 && v.spec_patch() == 1 && v.spec_pre().len() == 0
                    && v.spec_build().len() == 0
            }),
            obeys_cmp::<AccountType>() ==> r.spec_metadata().spec_targets()@ == set![
                AccountType::RegularAccountUpdatableCode,
                AccountType::RegularAccountImmutableCode,
            ],
            is_wallet_storage(r.spec_metadata().spec_storage()),
            r.spec_library() == library@,
    {
        let mut targets: BTreeSet<AccountType> = BTreeSet::new();
        targets.insert(AccountType::RegularAccountUpdatableCode);
        targets.insert(AccountType::RegularAccountImmutableCode);
        proof {
            assert(obeys_cmp::<AccountType>() ==> targets@ =~= set![
                AccountType::RegularAccountUpdatableCode,
                AccountType::RegularAccountImmutableCode,
            ]);
        }
        let entry = StorageEntry::Value {
            name: String::from_str("auth public key"),
            description: Some(
                String::from_str("The account's public Falcon key, with which signature verification is performed"),
            ),
            slot: 0,
            value: WordRepresentation::Template(String::from_str("public-key")),
        };
        let ghost e = entry;
        let storage = vec![entry];
        proof {
            let s = seq![0u8];
            assert(storage@ =~= seq![e]);
            assert(storage@.drop_last() =~= Seq::<StorageEntry>::empty());
            assert(all_slots(Seq::<StorageEntry>::empty()) + e.spec_slot_indices() =~= s);
            assert(s.drop_last() =~= Seq::<u8>::empty());
            assert(first_repeat(Seq::<u8>::empty()) is None);
            assert(!Seq::<u8>::empty().contains(0u8));
            assert(s[0] == 0u8);
        }
        let metadata = ComponentMetadata::new(
            String::from_str("Basic Wallet"),
            String::from_str("This component represents a basic wallet that can send and receive assets."),
            Version::new(0, 0, 1),
            targets,
            storage,
        );
        match metadata {
            Ok(m) => match ComponentPackage::new(m, library) {
                Ok(p) => p,
                Err(_) => unreached(),
            },
            Err(_) => unreached(),
        }
    }
}

} // verus!
