use std::collections::BTreeSet;

use component_package::{
    decode_package, encode_package, AccountError, AccountType, BasicWallet, ComponentMetadata,
    ComponentPackage, ComponentPackageError, MapEntry, StorageEntry, StorageSlot, TemplateType,
    TemplateValue, TemplateValues, Version, Word, WordRepresentation,
};

const METADATA_TEXT: &str = r#"name = "test"
description = "desc"
version = "0.1.0"
targets = []

[[storage]]
name = "slot1"
slots = [1, 2]
values = [[0, 0, 0, 0], "0x0000000000000000000000000000000000000000000000000000000000000000"]

[[storage]]
name = "slot0"
slot = 0
value = "0x0000000000000000000000000000000000000000000000000000000000000000"
"#;

fn value_entry(name: &str, slot: u8, value: WordRepresentation) -> StorageEntry {
    StorageEntry::Value { name: name.into(), description: None, slot, value }
}

fn metadata(storage: Vec<StorageEntry>) -> Result<ComponentMetadata, ComponentPackageError> {
    ComponentMetadata::new(
        "test".into(),
        "desc".into(),
        Version::parse("0.1.0").unwrap(),
        BTreeSet::new(),
        storage,
    )
}

fn slots_of(slots: &[u8]) -> Vec<StorageEntry> {
    slots.iter().map(|s| value_entry("slot", *s, Default::default())).collect()
}

#[test]
fn test_contiguous_value_slots() {
    let storage = vec![
        StorageEntry::Value {
            name: "slot0".into(),
            description: None,
            slot: 0,
            value: WordRepresentation::SingleHex(Default::default()),
        },
        StorageEntry::MultiSlot {
            name: "slot1".into(),
            description: None,
            slots: vec![1, 2],
            values: vec![
                WordRepresentation::Array(Default::default()),
                WordRepresentation::SingleHex(Default::default()),
            ],
        },
    ];
    let config = metadata(storage.clone()).unwrap();
    assert!(config.validate().is_ok());
    assert_eq!(config.storage_entries(), &storage);
    assert_eq!(config.name(), "test");
    assert_eq!(config.description(), "desc");
}

#[test]
fn test_new_non_contiguous_value_slots() {
    let storage = vec![
        StorageEntry::Value { name: "slot0".into(), description: None, slot: 0, value: Default::default() },
        StorageEntry::Value { name: "slot2".into(), description: None, slot: 2, value: Default::default() },
    ];
    let result = metadata(storage);
    assert!(matches!(result, Err(ComponentPackageError::NonContiguousSlots)));
}

#[test]
fn test_binary_serde_roundtrip() {
    let storage = vec![
        StorageEntry::MultiSlot {
            name: "slot1".into(),
            description: None,
            slots: vec![1, 2],
            values: vec![
                WordRepresentation::Array(Default::default()),
                WordRepresentation::SingleHex(Default::default()),
            ],
        },
        StorageEntry::Value {
            name: "slot0".into(),
            description: None,
            slot: 0,
            value: WordRepresentation::SingleHex(Default::default()),
        },
    ];
    let component_template = metadata(storage).unwrap();
    let library = vec![7u8, 0, 255, 1, 2, 3];
    let package = ComponentPackage::new(component_template, library.clone()).unwrap();
    _ = package.instantiate_component(&TemplateValues::new()).unwrap();

    let serialized = package.to_bytes(METADATA_TEXT);
    let (text, lib) = decode_package(&serialized).unwrap();
    assert_eq!(text, METADATA_TEXT);
    assert_eq!(&lib, package.library());
}

#[test]
fn exact_slot_range_is_accepted() {
    assert!(metadata(slots_of(&[2, 0, 1])).is_ok());
    assert!(metadata(slots_of(&[0])).is_ok());
    assert!(metadata(Vec::new()).is_ok());
}

#[test]
fn repeated_slot_is_named() {
    assert!(matches!(metadata(slots_of(&[0, 1, 1])), Err(ComponentPackageError::DuplicateSlots(1))));
    assert!(matches!(metadata(slots_of(&[3, 0, 3, 0])), Err(ComponentPackageError::DuplicateSlots(3))));
}

#[test]
fn missing_first_slot_is_rejected() {
    assert!(matches!(metadata(slots_of(&[1, 2])), Err(ComponentPackageError::IncorrectStorageFirstSlot)));
}

#[test]
fn gap_is_rejected() {
    assert!(matches!(metadata(slots_of(&[0, 2])), Err(ComponentPackageError::NonContiguousSlots)));
    assert!(matches!(metadata(slots_of(&[0, 1, 3, 4])), Err(ComponentPackageError::NonContiguousSlots)));
}

#[test]
fn revalidation_keeps_metadata() {
    let m = metadata(slots_of(&[1, 0])).unwrap();
    let before = m.storage_entries().clone();
    assert!(m.validate().is_ok());
    assert!(m.validate().is_ok());
    assert_eq!(m.storage_entries(), &before);
}

#[test]
fn value_and_multi_slot_instantiate_in_order() {
    let storage = vec![
        value_entry("slot0", 0, WordRepresentation::SingleHex(Word(1, 2, 3, 4))),
        StorageEntry::MultiSlot {
            name: "slot1".into(),
            description: None,
            slots: vec![1, 2],
            values: vec![
                WordRepresentation::Array(Word(5, 6, 7, 8)),
                WordRepresentation::Template("k".into()),
            ],
        },
    ];
    let package = ComponentPackage::new(metadata(storage).unwrap(), vec![1]).unwrap();
    let mut values = TemplateValues::new();
    values.insert("k".into(), TemplateValue::Word(Word(9, 10, 11, 12)));
    let component = package.instantiate_component(&values).unwrap();
    assert_eq!(
        component.storage_slots(),
        &vec![
            StorageSlot::Value(Word(1, 2, 3, 4)),
            StorageSlot::Value(Word(5, 6, 7, 8)),
            StorageSlot::Value(Word(9, 10, 11, 12)),
        ]
    );
    assert_eq!(component.library(), &vec![1]);
}

#[test]
fn wallet_public_key_placeholder() {
    let package = BasicWallet::get_component_template(vec![4, 2]);
    let missing = package.instantiate_component(&TemplateValues::new());
    match missing {
        Err(ComponentPackageError::TemplateValueNotProvided(key)) => assert_eq!(key, "public-key"),
        other => panic!("unexpected {:?}", other),
    }
    let mut values = TemplateValues::new();
    values.insert("public-key".into(), TemplateValue::Word(Word(1, 1, 1, 1)));
    let component = package.instantiate_component(&values).unwrap();
    assert_eq!(component.storage_slots(), &vec![StorageSlot::Value(Word(1, 1, 1, 1))]);
    assert_eq!(package.metadata().name(), "Basic Wallet");
    assert_eq!(package.metadata().version(), &Version::new(0, 0, 1));
    assert_eq!(package.metadata().description(), "This component represents a basic wallet that can send and receive assets.");
    assert_eq!(package.metadata().targets().len(), 2);
    assert!(package.metadata().targets().contains(&AccountType::RegularAccountUpdatableCode));
    assert_eq!(package.metadata().storage_entries()[0].name(), "auth public key");
    assert!(package.metadata().targets().contains(&AccountType::RegularAccountImmutableCode));
}

#[test]
fn scalar_for_word_placeholder_is_rejected() {
    let package = BasicWallet::get_component_template(Vec::new());
    let mut values = TemplateValues::new();
    values.insert("public-key".into(), TemplateValue::Felt(5));
    assert!(matches!(
        package.instantiate_component(&values),
        Err(ComponentPackageError::IncorrectTemplateValue(TemplateType::Word))
    ));
}

#[test]
fn later_template_value_shadows_earlier() {
    let mut values = TemplateValues::new();
    values.insert("a".into(), TemplateValue::Felt(1));
    values.insert("b".into(), TemplateValue::Felt(2));
    values.insert("a".into(), TemplateValue::Felt(3));
    assert_eq!(values.get(&"a".to_string()), Some(TemplateValue::Felt(3)));
    assert_eq!(values.get(&"b".to_string()), Some(TemplateValue::Felt(2)));
    assert_eq!(values.get(&"c".to_string()), None);
}

#[test]
fn multi_slot_count_mismatch_is_rejected() {
    let storage = vec![StorageEntry::MultiSlot {
        name: "m".into(),
        description: None,
        slots: vec![0, 1],
        values: vec![WordRepresentation::SingleHex(Word(1, 0, 0, 0))],
    }];
    let package = ComponentPackage::new(metadata(storage).unwrap(), Vec::new()).unwrap();
    assert!(matches!(
        package.instantiate_component(&TemplateValues::new()),
        Err(ComponentPackageError::InvalidMultiSlotEntry)
    ));
}

#[test]
fn map_entry_resolves_and_rejects_repeated_keys() {
    let map = vec![
        MapEntry { key: Word(1, 0, 0, 0), value: WordRepresentation::SingleHex(Word(2, 0, 0, 0)) },
        MapEntry { key: Word(3, 0, 0, 0), value: WordRepresentation::Template("v".into()) },
    ];
    let entry = StorageEntry::StorageMap { name: "m".into(), description: None, slot: 0, map };
    let mut values = TemplateValues::new();
    values.insert("v".into(), TemplateValue::Word(Word(4, 0, 0, 0)));
    let slots = entry.try_into_storage_slots(&values).unwrap();
    assert_eq!(
        slots,
        vec![StorageSlot::StorageMap(vec![
            (Word(1, 0, 0, 0), Word(2, 0, 0, 0)),
            (Word(3, 0, 0, 0), Word(4, 0, 0, 0)),
        ])]
    );
    assert_eq!(entry.slot_indices(), vec![0]);

    let repeated = StorageEntry::StorageMap {
        name: "m".into(),
        description: None,
        slot: 0,
        map: vec![
            MapEntry { key: Word(1, 0, 0, 0), value: WordRepresentation::SingleHex(Word(2, 0, 0, 0)) },
            MapEntry { key: Word(1, 0, 0, 0), value: WordRepresentation::SingleHex(Word(5, 0, 0, 0)) },
        ],
    };
    assert!(matches!(
        repeated.try_into_storage_slots(&values),
        Err(ComponentPackageError::StorageMapError(AccountError::DuplicateStorageMapKey(Word(1, 0, 0, 0))))
    ));
}

#[test]
fn too_many_slots_are_rejected_by_the_component() {
    let all: Vec<u8> = (0..=255).collect();
    let package = ComponentPackage::new(metadata(slots_of(&all)).unwrap(), Vec::new()).unwrap();
    assert!(matches!(
        package.instantiate_component(&TemplateValues::new()),
        Err(ComponentPackageError::AccountComponentError(AccountError::StorageTooManySlots(256)))
    ));
    let fewer: Vec<u8> = (0..255).collect();
    let package = ComponentPackage::new(metadata(slots_of(&fewer)).unwrap(), Vec::new()).unwrap();
    assert_eq!(package.instantiate_component(&TemplateValues::new()).unwrap().storage_slots().len(), 255);
}

#[test]
fn package_bytes_layout() {
    let bytes = encode_package("ab", &vec![9, 8]);
    assert_eq!(bytes, vec![5, b'a', b'b', 9, 8]);
    let (text, lib) = decode_package(&bytes).unwrap();
    assert_eq!(text, "ab");
    assert_eq!(lib, vec![9, 8]);
    let unicode = encode_package("é", &Vec::new());
    assert_eq!(unicode, vec![5, 0xc3, 0xa9]);
    assert_eq!(decode_package(&unicode).unwrap().0, "é");
}

#[test]
fn package_length_takes_more_bytes_when_longer() {
    let long = "x".repeat(200);
    let bytes = encode_package(&long, &vec![1]);
    // 200 * 4 + 2 = 0x322, in two little-endian bytes
    assert_eq!(&bytes[..2], &[0x22, 0x03]);
    assert_eq!(bytes.len(), 2 + 200 + 1);
    let (text, lib) = decode_package(&bytes).unwrap();
    assert_eq!(text, long);
    assert_eq!(lib, vec![1]);

    let longer = "y".repeat(20_000);
    let bytes = encode_package(&longer, &Vec::new());
    // 20000 * 8 + 4 = 0x27104, in three little-endian bytes
    assert_eq!(&bytes[..3], &[0x04, 0x71, 0x02]);
    assert_eq!(decode_package(&bytes).unwrap().0, longer);
}

#[test]
fn wider_length_forms_are_read() {
    assert_eq!(decode_package(&[6, 0, b'x', 7]).unwrap(), ("x".to_string(), vec![7]));
    assert_eq!(decode_package(&[0, 1, 0, 0, 0, 0, 0, 0, 0, b'x']).unwrap(), ("x".to_string(), Vec::new()));
    assert_eq!(decode_package(&[1]).unwrap(), (String::new(), Vec::new()));
}

#[test]
fn malformed_package_bytes_are_rejected() {
    assert!(matches!(decode_package(&[]), Err(ComponentPackageError::MetadataDeserializationError(_))));
    assert!(matches!(decode_package(&[0, 1, 2]), Err(ComponentPackageError::MetadataDeserializationError(_))));
    assert!(matches!(decode_package(&[2]), Err(ComponentPackageError::MetadataDeserializationError(_))));
    assert!(matches!(decode_package(&[11, b'a']), Err(ComponentPackageError::MetadataDeserializationError(_))));
    assert!(matches!(decode_package(&[3, 0xff]), Err(ComponentPackageError::MetadataDeserializationError(_))));
}

#[test]
fn account_type_names_ignore_case() {
    assert_eq!(
        AccountType::from_name("regularaccountimmutablecode"),
        AccountType::from_name("RegularAccountImmutableCode")
    );
    assert_eq!(AccountType::from_name("FUNGIBLEFAUCET"), Ok(AccountType::FungibleFaucet));
    assert_eq!(AccountType::from_name("NonFungibleFaucet"), Ok(AccountType::NonFungibleFaucet));
    assert_eq!(AccountType::from_lowercase("regularaccountupdatablecode"), Ok(AccountType::RegularAccountUpdatableCode));
    assert!(AccountType::from_lowercase("FungibleFaucet").is_err());
    let err = AccountType::from_name("Wallet").unwrap_err();
    assert_eq!(err.found, "wallet");
    assert_eq!(err.message(), "invalid value: string \"wallet\", expected a valid account type");
}

#[test]
fn account_type_canonical_names() {
    assert_eq!(AccountType::FungibleFaucet.as_str(), "FungibleFaucet");
    assert_eq!(AccountType::NonFungibleFaucet.as_str(), "NonFungibleFaucet");
    assert_eq!(AccountType::RegularAccountImmutableCode.as_str(), "RegularAccountImmutableCode");
    assert_eq!(AccountType::RegularAccountUpdatableCode.as_str(), "RegularAccountUpdatableCode");
    for t in [
        AccountType::FungibleFaucet,
        AccountType::NonFungibleFaucet,
        AccountType::RegularAccountImmutableCode,
        AccountType::RegularAccountUpdatableCode,
    ] {
        assert_eq!(AccountType::from_name(t.as_str()), Ok(t));
    }
}

#[test]
fn versions_parse() {
    let v = Version::parse("0.1.0").unwrap();
    assert_eq!((v.major(), v.minor(), v.patch()), (0, 1, 0));
    assert_eq!(v, Version::new(0, 1, 0));
    let w = Version::parse("1.2.3-alpha.1+build.5").unwrap();
    assert_eq!((w.major(), w.minor(), w.patch()), (1, 2, 3));
    assert_eq!(w.pre(), "alpha.1");
    assert_eq!(w.build(), "build.5");
    assert!(Version::parse("1.2").is_none());
}

#[test]
fn placeholder_tokens() {
    assert_eq!(WordRepresentation::placeholder_key("{{public-key}}"), Some("public-key".to_string()));
    assert_eq!(WordRepresentation::placeholder_key("{{}}"), Some(String::new()));
    assert_eq!(WordRepresentation::placeholder_key("{public-key}"), None);
    assert_eq!(WordRepresentation::placeholder_key("0x00"), None);
    assert_eq!(WordRepresentation::placeholder_text("k"), "{{k}}");
    assert_eq!(
        WordRepresentation::placeholder_key(&WordRepresentation::placeholder_text("é-key")),
        Some("é-key".to_string())
    );
}

#[test]
fn template_keys_are_listed_once() {
    let storage = vec![
        value_entry("a", 0, WordRepresentation::Template("x".into())),
        StorageEntry::MultiSlot {
            name: "b".into(),
            description: None,
            slots: vec![1, 2, 3],
            values: vec![
                WordRepresentation::Template("y".into()),
                WordRepresentation::SingleHex(Word(1, 0, 0, 0)),
                WordRepresentation::Template("x".into()),
            ],
        },
        StorageEntry::StorageMap {
            name: "c".into(),
            description: None,
            slot: 4,
            map: vec![MapEntry { key: Word(0, 0, 0, 1), value: WordRepresentation::Template("z".into()) }],
        },
    ];
    assert_eq!(storage[1].template_keys(), vec!["y".to_string(), "x".to_string()]);
    let m = metadata(storage).unwrap();
    let mut keys = m.template_keys();
    keys.sort();
    assert_eq!(keys, vec!["x".to_string(), "y".to_string(), "z".to_string()]);
}
