//! The closed taxonomy of collectible items: soils and fertilizers.
//!
//! Every leaf variant has a fixed display string, which doubles as the
//! item's key in the save document. Display and parse are exact inverses
//! over the closed set, and any other text is rejected with a single,
//! undifferentiated parse error.

use vstd::prelude::*;
use vstd::utf8::encode_utf8_decode_utf8;

verus! {

#[derive(Debug, Clone, Copy, PartialEq, Eq, Hash, Structural)]
pub enum SoilItem {
    Fuyodo,
    Kurotsuchi,
    Baiyodo,
}

#[derive(Debug, Clone, Copy, PartialEq, Eq, Hash, Structural)]
pub enum FertilizerItem {
    Aburakasu,
    Gyohi,
    ShimoGoe,
    Chemical,
}

#[derive(Debug, Clone, Copy, PartialEq, Eq, Hash, Structural)]
pub enum Item {
    Soil(SoilItem),
    Fertilizer(FertilizerItem),
}

/// Text that matches no item's display name.
#[derive(Debug, Clone, Copy, PartialEq, Eq, Structural)]
pub struct ItemParseError;

/// Display name of a soil, as a character sequence.
pub open spec fn soil_display(s: SoilItem) -> Seq<char> {
    match s {
        SoilItem::Fuyodo => seq!['腐', '葉', '土'],
        SoilItem::Kurotsuchi => seq!['黒', '土'],
        SoilItem::Baiyodo => seq!['培', '養', '土'],
    }
}

/// Display name of a fertilizer, as a character sequence.
pub open spec fn fertilizer_display(f: FertilizerItem) -> Seq<char> {
    match f {
        FertilizerItem::Aburakasu => seq!['油', '粕'],
        FertilizerItem::Gyohi => seq!['魚', '肥'],
        FertilizerItem::ShimoGoe => seq!['下', '肥'],
        FertilizerItem::Chemical => seq!['化', '学', '肥', '料'],
    }
}

/// Display name of any item, as a character sequence.
pub open spec fn item_display(i: Item) -> Seq<char> {
    match i {
        Item::Soil(s) => soil_display(s),
        Item::Fertilizer(f) => fertilizer_display(f),
    }
}

/// Exact-match lookup of a display name, first over the soils, then over
/// the fertilizers; everything else is the one parse error.
pub open spec fn spec_parse_item(s: Seq<char>) -> Result<Item, ItemParseError> {
    if s == soil_display(SoilItem::Fuyodo) {
        Ok(Item::Soil(SoilItem::Fuyodo))
    } else if s == soil_display(SoilItem::Kurotsuchi) {
        Ok(Item::Soil(SoilItem::Kurotsuchi))
    } else if s == soil_display(SoilItem::Baiyodo) {
        Ok(Item::Soil(SoilItem::Baiyodo))
    } else if s == fertilizer_display(FertilizerItem::Aburakasu) {
        Ok(Item::Fertilizer(FertilizerItem::Aburakasu))
    } else if s == fertilizer_display(FertilizerItem::Gyohi) {
        Ok(Item::Fertilizer(FertilizerItem::Gyohi))
    } else if s == fertilizer_display(FertilizerItem::ShimoGoe) {
        Ok(Item::Fertilizer(FertilizerItem::ShimoGoe))
    } else if s == fertilizer_display(FertilizerItem::Chemical) {
        Ok(Item::Fertilizer(FertilizerItem::Chemical))
    } else {
        Err(ItemParseError)
    }
}

/// Character-level equality of two string slices, decided by comparing
/// their UTF-8 bytes.
pub fn str_eq(a: &str, b: &str) -> (r: bool)
    ensures
        r == (a@ == b@),
{
    let ab = a.as_bytes();
    let bb = b.as_bytes();
    proof {
        encode_utf8_decode_utf8(a@);
        encode_utf8_decode_utf8(b@);
    }
    if ab.len() != bb.len() {
        return false;
    }
    let n = ab.len();
    let mut i: usize = 0;
    while i < n
        invariant
            n == ab@.len() == bb@.len(),
            ab@ == vstd::utf8::encode_utf8(a@),
            bb@ == vstd::utf8::encode_utf8(b@),
            vstd::utf8::decode_utf8(ab@) == a@,
            vstd::utf8::decode_utf8(bb@) == b@,
            0 <= i <= n,
            forall|j: int| 0 <= j < i ==> ab@[j] == bb@[j],
        decreases n - i,
    {
        if ab[i] != bb[i] {
            return false;
        }
        i = i + 1;
    }
    proof {
        assert(ab@ =~= bb@);
    }
    true
}

impl SoilItem {
    pub fn get_display_name(&self) -> (r: &'static str)
        ensures
            r@ == soil_display(*self),
    {
        match self {
            SoilItem::Fuyodo => {
                proof {
                    reveal_strlit("腐葉土");
                    assert("腐葉土"@ =~= soil_display(SoilItem::Fuyodo));
                }
                "腐葉土"
            },
            SoilItem::Kurotsuchi => {
                proof {
                    reveal_strlit("黒土");
                    assert("黒土"@ =~= soil_display(SoilItem::Kurotsuchi));
                }
                "黒土"
            },
            SoilItem::Baiyodo => {
                proof {
                    reveal_strlit("培養土");
                    assert("培養土"@ =~= soil_display(SoilItem::Baiyodo));
                }
                "培養土"
            },
        }
    }
}

impl FertilizerItem {
    pub fn get_display_name(&self) -> (r: &'static str)
        ensures
            r@ == fertilizer_display(*self),
    {
        match self {
            FertilizerItem::Aburakasu => {
                proof {
                    reveal_strlit("油粕");
                    assert("油粕"@ =~= fertilizer_display(FertilizerItem::Aburakasu));
                }
                "油粕"
            },
            FertilizerItem::Gyohi => {
                proof {
                    reveal_strlit("魚肥");
                    assert("魚肥"@ =~= fertilizer_display(FertilizerItem::Gyohi));
                }
                "魚肥"
            },
            FertilizerItem::ShimoGoe => {
                proof {
                    reveal_strlit("下肥");
                    assert("下肥"@ =~= fertilizer_display(FertilizerItem::ShimoGoe));
                }
                "下肥"
            },
            FertilizerItem::Chemical => {
                proof {
                    reveal_strlit("化学肥料");
                    assert("化学肥料"@ =~= fertilizer_display(FertilizerItem::Chemical));
                }
                "化学肥料"
            },
        }
    }
}

impl Item {
    pub fn get_display_name(&self) -> (r: &'static str)
        ensures
            r@ == item_display(*self),
    {
        match self {
            Item::Soil(soil_item) => soil_item.get_display_name(),
            Item::Fertilizer(fertilizer) => fertilizer.get_display_name(),
        }
    }

    /// Parses a display name back into its item; the inverse of
    /// `get_display_name` over the closed variant set.
    pub fn parse(s: &str) -> (r: Result<Item, ItemParseError>)
        ensures
            r == spec_parse_item(s@),
    {
        proof {
            reveal_strlit("腐葉土");
            reveal_strlit("黒土");
            reveal_strlit("培養土");
            reveal_strlit("油粕");
            reveal_strlit("魚肥");
            reveal_strlit("下肥");
            reveal_strlit("化学肥料");
            assert("腐葉土"@ =~= soil_display(SoilItem::Fuyodo));
            assert("黒土"@ =~= soil_display(SoilItem::Kurotsuchi));
            assert("培養土"@ =~= soil_display(SoilItem::Baiyodo));
            assert("油粕"@ =~= fertilizer_display(FertilizerItem::Aburakasu));
            assert("魚肥"@ =~= fertilizer_display(FertilizerItem::Gyohi));
            assert("下肥"@ =~= fertilizer_display(FertilizerItem::ShimoGoe));
            assert("化学肥料"@ =~= fertilizer_display(FertilizerItem::Chemical));
        }
        if str_eq(s, "腐葉土") {
            Ok(Item::Soil(SoilItem::Fuyodo))
        } else if str_eq(s, "黒土") {
            Ok(Item::Soil(SoilItem::Kurotsuchi))
        } else if str_eq(s, "培養土") {
            Ok(Item::Soil(SoilItem::Baiyodo))
        } else if str_eq(s, "油粕") {
            Ok(Item::Fertilizer(FertilizerItem::Aburakasu))
        } else if str_eq(s, "魚肥") {
            Ok(Item::Fertilizer(FertilizerItem::Gyohi))
        } else if str_eq(s, "下肥") {
            Ok(Item::Fertilizer(FertilizerItem::ShimoGoe))
        } else if str_eq(s, "化学肥料") {
            Ok(Item::Fertilizer(FertilizerItem::Chemical))
        } else {
            Err(ItemParseError)
        }
    }
}

/// Element-wise equality of a character vector and a string slice.
pub fn chars_eq_str(v: &Vec<char>, s: &str) -> (r: bool)
    ensures
        r == (v@ == s@),
{
    let w = crate::text::str_to_chars(s);
    let n = v.len();
    if n != w.len() {
        return false;
    }
    let mut i: usize = 0;
    while i < n
        invariant
            n == v@.len() == w@.len(),
            w@ == s@,
            0 <= i <= n,
            forall|j: int| 0 <= j < i ==> v@[j] == w@[j],
        decreases n - i,
    {
        if v[i] != w[i] {
            return false;
        }
        i = i + 1;
    }
    proof {
        assert(v@ =~= w@);
    }
    true
}

impl Item {
    /// `parse`, but over an already-collected character sequence; the
    /// document parser reads keys in this form.
    pub fn parse_chars(v: &Vec<char>) -> (r: Result<Item, ItemParseError>)
        ensures
            r == spec_parse_item(v@),
    {
        proof {
            reveal_strlit("腐葉土");
            reveal_strlit("黒土");
            reveal_strlit("培養土");
            reveal_strlit("油粕");
            reveal_strlit("魚肥");
            reveal_strlit("下肥");
            reveal_strlit("化学肥料");
            assert("腐葉土"@ =~= soil_display(SoilItem::Fuyodo));
            assert("黒土"@ =~= soil_display(SoilItem::Kurotsuchi));
            assert("培養土"@ =~= soil_display(SoilItem::Baiyodo));
            assert("油粕"@ =~= fertilizer_display(FertilizerItem::Aburakasu));
            assert("魚肥"@ =~= fertilizer_display(FertilizerItem::Gyohi));
            assert("下肥"@ =~= fertilizer_display(FertilizerItem::ShimoGoe));
            assert("化学肥料"@ =~= fertilizer_display(FertilizerItem::Chemical));
        }
        if chars_eq_str(v, "腐葉土") {
            Ok(Item::Soil(SoilItem::Fuyodo))
        } else if chars_eq_str(v, "黒土") {
            Ok(Item::Soil(SoilItem::Kurotsuchi))
        } else if chars_eq_str(v, "培養土") {
            Ok(Item::Soil(SoilItem::Baiyodo))
        } else if chars_eq_str(v, "油粕") {
            Ok(Item::Fertilizer(FertilizerItem::Aburakasu))
        } else if chars_eq_str(v, "魚肥") {
            Ok(Item::Fertilizer(FertilizerItem::Gyohi))
        } else if chars_eq_str(v, "下肥") {
            Ok(Item::Fertilizer(FertilizerItem::ShimoGoe))
        } else if chars_eq_str(v, "化学肥料") {
            Ok(Item::Fertilizer(FertilizerItem::Chemical))
        } else {
            Err(ItemParseError)
        }
    }
}

/// Parsing an item's own display name returns exactly that item: display
/// and parse are inverses over the closed variant set.
pub proof fn lemma_parse_display_name(i: Item)
    ensures
        spec_parse_item(item_display(i)) == Ok::<Item, ItemParseError>(i),
{
}

} // verus!
