use genso_save::calendar::GensoDate;
use genso_save::codec::{decode_save, deserialize_save, encode_save, serialize_save};
use genso_save::item::{FertilizerItem, Item, SoilItem};
use genso_save::save::{NativeSaveData, SaveSlot};
use genso_save::LoadError;

fn sample_save() -> NativeSaveData {
    let mut save = NativeSaveData::new();
    save.add_items(Item::Soil(SoilItem::Fuyodo), 2);
    save.add_items(Item::Fertilizer(FertilizerItem::Chemical), 11);
    save.add_items(Item::Soil(SoilItem::Fuyodo), 1);
    save
}

#[test]
fn serialized_document_is_exact() {
    let save = sample_save();
    let doc = serialize_save(&save);
    assert_eq!(
        doc,
        "[items]\n\"腐葉土\" = 3\n\"化学肥料\" = 11\n\n[date]\nseason = 112\nmonth = 5\nday = 1\n"
    );
}

#[test]
fn document_round_trips() {
    let save = sample_save();
    let doc = serialize_save(&save);
    let back = deserialize_save(&doc).unwrap();
    assert_eq!(back.get_items().iter(), save.get_items().iter());
    assert_eq!(back.get_date(), save.get_date());
}

#[test]
fn encoded_bytes_round_trip() {
    let save = sample_save();
    let bytes = encode_save(&save);
    let back = decode_save(&bytes).unwrap();
    assert_eq!(back.get_items().iter(), save.get_items().iter());
    assert_eq!(back.get_date(), save.get_date());
}

#[test]
fn empty_ledger_round_trips() {
    let save = NativeSaveData::new();
    let bytes = encode_save(&save);
    let back = decode_save(&bytes).unwrap();
    assert_eq!(back.get_items().size(), 0);
    assert_eq!(back.get_date(), save.get_date());
}

#[test]
fn slot_round_trip_through_bytes() {
    let mut slot = SaveSlot::new();
    slot.install_new();
    slot.with_mut(|mut save| {
        save.add_items(Item::Fertilizer(FertilizerItem::Gyohi), 4);
        (save, ())
    });
    let bytes = slot.save_to_bytes();

    let mut other = SaveSlot::new();
    other.install_new();
    assert!(other.load_from_bytes(&bytes).is_ok());
    let entries = other.with(|save| save.get_items().iter());
    assert_eq!(entries, vec![(Item::Fertilizer(FertilizerItem::Gyohi), 4)]);
}

#[test]
fn corrupted_byte_is_rejected_and_slot_untouched() {
    let mut slot = SaveSlot::new();
    slot.install_new();
    slot.with_mut(|mut save| {
        save.add_items(Item::Soil(SoilItem::Baiyodo), 5);
        (save, ())
    });
    let good = slot.save_to_bytes();
    // Corrupt each byte in turn; every corruption must be caught.
    for i in 0..good.len() {
        let mut bad = good.clone();
        bad[i] ^= 0x20;
        let result = slot.load_from_bytes(&bad);
        assert_eq!(result, Err(LoadError::DecryptError));
        // The slot still holds the running session.
        let entries = slot.with(|save| save.get_items().iter());
        assert_eq!(entries, vec![(Item::Soil(SoilItem::Baiyodo), 5)]);
    }
    // The untouched bytes still load.
    assert!(slot.load_from_bytes(&good).is_ok());
}

#[test]
fn failed_load_leaves_uninstalled_slot_uninstalled() {
    let mut slot = SaveSlot::new();
    let garbage: Vec<u8> = vec![1, 2, 3, 4];
    assert!(slot.load_from_bytes(&garbage).is_err());
    assert!(!slot.installed());
}

#[test]
fn decode_failures_name_the_failing_stage() {
    // Empty input cannot even be decrypted.
    assert!(matches!(decode_save(&Vec::new()), Err(LoadError::DecryptError)));
    // A well-encrypted text that is not a save document fails later.
    assert!(matches!(
        deserialize_save("not a save document"),
        Err(LoadError::DeserializeError)
    ));
    // An unknown item key is a deserialization error.
    assert!(matches!(
        deserialize_save(
            "[items]\n\"謎の物体\" = 1\n\n[date]\nseason = 1\nmonth = 1\nday = 1\n"
        ),
        Err(LoadError::DeserializeError)
    ));
    // A duplicated key is rejected, as TOML would reject it.
    assert!(matches!(
        deserialize_save(
            "[items]\n\"油粕\" = 1\n\"油粕\" = 2\n\n[date]\nseason = 1\nmonth = 1\nday = 1\n"
        ),
        Err(LoadError::DeserializeError)
    ));
    // Out-of-range date fields are rejected.
    assert!(matches!(
        deserialize_save("[items]\n\n[date]\nseason = 1\nmonth = 999\nday = 1\n"),
        Err(LoadError::DeserializeError)
    ));
}

#[test]
fn document_is_valid_toml() {
    let save = sample_save();
    let doc = serialize_save(&save);
    let value: toml::Table = doc.parse().unwrap();
    let items = value.get("items").unwrap();
    assert_eq!(
        items
            .get(Item::Soil(SoilItem::Fuyodo).get_display_name())
            .unwrap()
            .as_integer(),
        Some(3)
    );
    assert_eq!(
        items
            .get(Item::Fertilizer(FertilizerItem::Chemical).get_display_name())
            .unwrap()
            .as_integer(),
        Some(11)
    );
    let date = value.get("date").unwrap();
    assert_eq!(date.get("season").unwrap().as_integer(), Some(112));
    assert_eq!(date.get("month").unwrap().as_integer(), Some(5));
    assert_eq!(date.get("day").unwrap().as_integer(), Some(1));
}
