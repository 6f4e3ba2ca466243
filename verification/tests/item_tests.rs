use genso_save::item::{FertilizerItem, Item, ItemParseError, SoilItem};

fn all_items() -> Vec<Item> {
    vec![
        Item::Soil(SoilItem::Fuyodo),
        Item::Soil(SoilItem::Kurotsuchi),
        Item::Soil(SoilItem::Baiyodo),
        Item::Fertilizer(FertilizerItem::Aburakasu),
        Item::Fertilizer(FertilizerItem::Gyohi),
        Item::Fertilizer(FertilizerItem::ShimoGoe),
        Item::Fertilizer(FertilizerItem::Chemical),
    ]
}

#[test]
fn parse_inverts_display_name() {
    for item in all_items() {
        assert_eq!(Item::parse(item.get_display_name()), Ok(item));
    }
}

#[test]
fn parse_rejects_unknown_text() {
    assert_eq!(Item::parse("unknown-text"), Err(ItemParseError));
    assert_eq!(Item::parse(""), Err(ItemParseError));
    assert_eq!(Item::parse("腐葉"), Err(ItemParseError));
    assert_eq!(Item::parse("腐葉土 "), Err(ItemParseError));
}

#[test]
fn display_names_are_the_fixed_strings() {
    assert_eq!(Item::Soil(SoilItem::Fuyodo).get_display_name(), "腐葉土");
    assert_eq!(Item::Soil(SoilItem::Kurotsuchi).get_display_name(), "黒土");
    assert_eq!(Item::Soil(SoilItem::Baiyodo).get_display_name(), "培養土");
    assert_eq!(
        Item::Fertilizer(FertilizerItem::Aburakasu).get_display_name(),
        "油粕"
    );
    assert_eq!(Item::Fertilizer(FertilizerItem::Gyohi).get_display_name(), "魚肥");
    assert_eq!(
        Item::Fertilizer(FertilizerItem::ShimoGoe).get_display_name(),
        "下肥"
    );
    assert_eq!(
        Item::Fertilizer(FertilizerItem::Chemical).get_display_name(),
        "化学肥料"
    );
}

#[test]
fn display_names_are_pairwise_distinct() {
    let items = all_items();
    for (i, a) in items.iter().enumerate() {
        for (j, b) in items.iter().enumerate() {
            if i != j {
                assert_ne!(a.get_display_name(), b.get_display_name());
            }
        }
    }
}

#[test]
fn parse_chars_agrees_with_parse() {
    for item in all_items() {
        let chars: Vec<char> = item.get_display_name().chars().collect();
        assert_eq!(Item::parse_chars(&chars), Ok(item));
    }
    let junk: Vec<char> = "junk".chars().collect();
    assert_eq!(Item::parse_chars(&junk), Err(ItemParseError));
}
