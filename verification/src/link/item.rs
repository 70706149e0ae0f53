//! The items of the game, by id.
use vstd::prelude::*;

verus! {

pub const HEART_DROP: u8 = 0x00;

pub const GREEN_RUPEE_DROP: u8 = 0x01;

pub const BLUE_RUPEE_DROP: u8 = 0x02;

pub const YELLOW_RUPEE_DROP: u8 = 0x03;

pub const RED_RUPEE_DROP: u8 = 0x04;

pub const PURPLE_RUPEE_DROP: u8 = 0x05;

pub const ORANGE_RUPEE_DROP: u8 = 0x06;

pub const HEART_PIECE: u8 = 0x07;

pub const HEART_CONTAINER: u8 = 0x08;

pub const SMALL_MAGIC_DROP: u8 = 0x09;

pub const LARGE_MAGIC_DROP: u8 = 0x0A;

pub const BOMB_DROP: u8 = 0x0B;

pub const SILVER_RUPEE_DROP: u8 = 0x0F;

pub const SINGLE_ARROW_DROP: u8 = 0x10;

pub const DOUBLE_ARROW_DROP: u8 = 0x11;

pub const TRIPLE_ARROW_DROP: u8 = 0x12;

pub const KEY_DROP: u8 = 0x15;

pub const FAIRY_DROP: u8 = 0x16;

pub const TRIPLE_HEART_DROP: u8 = 0x1E;

pub const JOY_PENDANT: u8 = 0x1F;

pub const TELESCOPE: u8 = 0x20;

pub const TINGLE_TUNER: u8 = 0x21;

pub const WIND_WAKER: u8 = 0x22;

pub const PICTO_BOX: u8 = 0x23;

pub const SPOILS_BAG: u8 = 0x24;

pub const GRAPPLING_HOOK: u8 = 0x25;

pub const DELUXE_PICTO_BOX: u8 = 0x26;

pub const BOW: u8 = 0x27;

pub const POWER_BRACELETS: u8 = 0x28;

pub const IRON_BOOTS: u8 = 0x29;

pub const MAGIC_ARMOR: u8 = 0x2A;

pub const WATER_BOOTS: u8 = 0x2B;

pub const BAIT_BAG: u8 = 0x2C;

pub const BOOMERANG: u8 = 0x2D;

pub const HOOKSHOT: u8 = 0x2F;

pub const DELIVERY_BAG: u8 = 0x30;

pub const BOMBS: u8 = 0x31;

pub const TUNIC: u8 = 0x32;

pub const SKULL_HAMMER: u8 = 0x33;

pub const DEKU_LEAF: u8 = 0x34;

pub const BOW_WITH_FIRE_AND_ICE_ARROWS: u8 = 0x35;

pub const BOW_WITH_LIGHT_ARROWS: u8 = 0x36;

pub const HEROS_SWORD: u8 = 0x38;

pub const UNCHARGED_MASTER_SWORD: u8 = 0x39;

pub const HALF_CHARGED_MASTER_SWORD: u8 = 0x3A;

pub const HEROS_SHIELD: u8 = 0x3B;

pub const MIRROR_SHIELD: u8 = 0x3C;

pub const FULLY_CHARGED_MASTER_SWORD: u8 = 0x3E;

pub const PIRATES_CHARM: u8 = 0x42;

pub const HEROS_CHARM: u8 = 0x43;

pub const SKULL_NECKLACE: u8 = 0x45;

pub const BOKO_BABA_SEED: u8 = 0x46;

pub const GOLDEN_FEATHER: u8 = 0x47;

pub const KNIGHTS_CREST: u8 = 0x48;

pub const RED_CHU_JELLY: u8 = 0x49;

pub const GREEN_CHU_JELLY: u8 = 0x4A;

pub const BLUE_CHU_JELLY: u8 = 0x4B;

pub const MAP: u8 = 0x4C;

pub const COMPASS: u8 = 0x4D;

pub const BIG_KEY: u8 = 0x4E;

pub const EMPTY_BOTTLE: u8 = 0x50;

pub const RED_POTION: u8 = 0x51;

pub const GREEN_POTION: u8 = 0x52;

pub const BLUE_POTION: u8 = 0x53;

pub const ELIXIR_SOUP_HALF: u8 = 0x54;

pub const ELIXIR_SOUP: u8 = 0x55;

pub const WATER: u8 = 0x56;

pub const FAIRY: u8 = 0x57;

pub const FOREST_FIREFLY: u8 = 0x58;

pub const FOREST_WATER: u8 = 0x59;

pub const TRIFORCE_PIECE_1: u8 = 0x61;

pub const TRIFORCE_PIECE_2: u8 = 0x62;

pub const TRIFORCE_PIECE_3: u8 = 0x63;

pub const TRIFORCE_PIECE_4: u8 = 0x64;

pub const TRIFORCE_PIECE_5: u8 = 0x65;

pub const TRIFORCE_PIECE_6: u8 = 0x66;

pub const TRIFORCE_PIECE_7: u8 = 0x67;

pub const TRIFORCE_PIECE_8: u8 = 0x68;

pub const NAYRUS_PEARL: u8 = 0x69;

pub const DINS_PEARL: u8 = 0x6A;

pub const FARORES_PEARL: u8 = 0x6B;

pub const SAIL: u8 = 0x78;

pub const TRIFORCE_CHART: u8 = 0x79;

pub const ALL_PURPOSE_BAIT: u8 = 0x82;

pub const HYOI_PEAR: u8 = 0x83;

pub const TOWN_FLOWER: u8 = 0x8C;

pub const SEA_FLOWER: u8 = 0x8D;

pub const EXOTIC_FLOWER: u8 = 0x8E;

pub const HEROS_FLAG: u8 = 0x8F;

pub const BIG_CATCH_FLAG: u8 = 0x90;

pub const BIG_SALE_FLAG: u8 = 0x91;

pub const PINWHEEL: u8 = 0x92;

pub const SICKLE_MOON_FLAG: u8 = 0x93;

pub const SKULL_TOWER_IDOL: u8 = 0x94;

pub const FOUNTAIN_IDOL: u8 = 0x95;

pub const POSTMAN_STATUE: u8 = 0x96;

pub const SHOP_GURU_STATUE: u8 = 0x97;

pub const FATHERS_LETTER: u8 = 0x98;

pub const NOTE_TO_MOM: u8 = 0x99;

pub const MAGGIES_LETTER: u8 = 0x9A;

pub const MOBLINS_LETTER: u8 = 0x9B;

pub const CABANA_DEED: u8 = 0x9C;

pub const COMPLIMENTARY_ID: u8 = 0x9D;

pub const FILL_UP_COUPON: u8 = 0x9E;

pub const GOLDEN_TINGLE_HEAD: u8 = 0xA3;

pub const EMPTY: u8 = 0xFF;

/// The name of the item of id `item_id`: "" for `EMPTY`, "???" for an id
/// that names no item.
pub open spec fn item_name(item_id: u8) -> Seq<char> {
    if item_id == HEART_DROP {
        "Heart Drop"@
    } else if item_id == GREEN_RUPEE_DROP {
        "Green Rupee Drop"@
    } else if item_id == BLUE_RUPEE_DROP {
        "Blue Rupee Drop"@
    } else if item_id == YELLOW_RUPEE_DROP {
        "Yellow Rupee Drop"@
    } else if item_id == RED_RUPEE_DROP {
        "Red Rupee Drop"@
    } else if item_id == PURPLE_RUPEE_DROP {
        "Purple Rupee Drop"@
    } else if item_id == ORANGE_RUPEE_DROP {
        "Orange Rupee Drop"@
    } else if item_id == HEART_PIECE {
        "Heart Piece"@
    } else if item_id == HEART_CONTAINER {
        "Heart Container"@
    } else if item_id == SMALL_MAGIC_DROP {
        "Small Magic Drop"@
    } else if item_id == LARGE_MAGIC_DROP {
        "Large Magic Drop"@
    } else if item_id == BOMB_DROP {
        "Bomb Drop"@
    } else if item_id == SILVER_RUPEE_DROP {
        "Silver Rupee Drop"@
    } else if item_id == SINGLE_ARROW_DROP {
        "Single Arrow Drop"@
    } else if item_id == DOUBLE_ARROW_DROP {
        "Double Arrow Drop"@
    } else if item_id == TRIPLE_ARROW_DROP {
        "Triple Arrow Drop"@
    } else if item_id == KEY_DROP {
        "Key Drop"@
    } else if item_id == FAIRY_DROP {
        "Fairy Drop"@
    } else if item_id == TRIPLE_HEART_DROP {
        "Triple Heart Drop"@
    } else if item_id == JOY_PENDANT {
        "Joy Pendant"@
    } else if item_id == TELESCOPE {
        "Telescope"@
    } else if item_id == TINGLE_TUNER {
        "Tingle Tuner"@
    } else if item_id == WIND_WAKER {
        "Wind Waker"@
    } else if item_id == PICTO_BOX {
        "Picto Box"@
    } else if item_id == SPOILS_BAG {
        "Spoils Bag"@
    } else if item_id == GRAPPLING_HOOK {
        "Grappling Hook"@
    } else if item_id == DELUXE_PICTO_BOX {
        "Deluxe Picto Box"@
    } else if item_id == BOW {
        "Bow"@
    } else if item_id == POWER_BRACELETS {
        "Power Bracelets"@
    } else if item_id == IRON_BOOTS {
        "Iron Boots"@
    } else if item_id == MAGIC_ARMOR {
        "Magic Armor"@
    } else if item_id == WATER_BOOTS {
        "Water Boots"@
    } else if item_id == BAIT_BAG {
        "Bait Bag"@
    } else if item_id == BOOMERANG {
        "Boomerang"@
    } else if item_id == HOOKSHOT {
        "Hookshot"@
    } else if item_id == DELIVERY_BAG {
        "Delivery Bag"@
    } else if item_id == BOMBS {
        "Bombs"@
    } else if item_id == TUNIC {
        "Tunic"@
    } else if item_id == SKULL_HAMMER {
        "Skull Hammer"@
    } else if item_id == DEKU_LEAF {
        "Deku Leaf"@
    } else if item_id == BOW_WITH_FIRE_AND_ICE_ARROWS {
        "Bow With Fire And Ice Arrows"@
    } else if item_id == BOW_WITH_LIGHT_ARROWS {
        "Bow With Light Arrows"@
    } else if item_id == HEROS_SWORD {
        "Heros Sword"@
    } else if item_id == UNCHARGED_MASTER_SWORD {
        "Uncharged Master Sword"@
    } else if item_id == HALF_CHARGED_MASTER_SWORD {
        "Half Charged Master Sword"@
    } else if item_id == HEROS_SHIELD {
        "Heros Shield"@
    } else if item_id == MIRROR_SHIELD {
        "Mirror Shield"@
    } else if item_id == FULLY_CHARGED_MASTER_SWORD {
        "Fully Charged Master Sword"@
    } else if item_id == PIRATES_CHARM {
        "Pirates Charm"@
    } else if item_id == HEROS_CHARM {
        "Heros Charm"@
    } else if item_id == SKULL_NECKLACE {
        "Skull Necklace"@
    } else if item_id == BOKO_BABA_SEED {
        "Boko Baba Seed"@
    } else if item_id == GOLDEN_FEATHER {
        "Golden Feather"@
    } else if item_id == KNIGHTS_CREST {
        "Knights Crest"@
    } else if item_id == RED_CHU_JELLY {
        "Red Chu Jelly"@
    } else if item_id == GREEN_CHU_JELLY {
        "Green Chu Jelly"@
    } else if item_id == BLUE_CHU_JELLY {
        "Blue Chu Jelly"@
    } else if item_id == MAP {
        "Map"@
    } else if item_id == COMPASS {
        "Compass"@
    } else if item_id == BIG_KEY {
        "Big Key"@
    } else if item_id == EMPTY_BOTTLE {
        "Empty Bottle"@
    } else if item_id == RED_POTION {
        "Red Potion"@
    } else if item_id == GREEN_POTION {
        "Green Potion"@
    } else if item_id == BLUE_POTION {
        "Blue Potion"@
    } else if item_id == ELIXIR_SOUP_HALF {
        "Elixir Soup Half"@
    } else if item_id == ELIXIR_SOUP {
        "Elixir Soup"@
    } else if item_id == WATER {
        "Water"@
    } else if item_id == FAIRY {
        "Fairy"@
    } else if item_id == FOREST_FIREFLY {
        "Forest Firefly"@
    } else if item_id == FOREST_WATER {
        "Forest Water"@
    } else if item_id == TRIFORCE_PIECE_1 {
        "Triforce Piece 1"@
    } else if item_id == TRIFORCE_PIECE_2 {
        "Triforce Piece 2"@
    } else if item_id == TRIFORCE_PIECE_3 {
        "Triforce Piece 3"@
    } else if item_id == TRIFORCE_PIECE_4 {
        "Triforce Piece 4"@
    } else if item_id == TRIFORCE_PIECE_5 {
        "Triforce Piece 5"@
    } else if item_id == TRIFORCE_PIECE_6 {
        "Triforce Piece 6"@
    } else if item_id == TRIFORCE_PIECE_7 {
        "Triforce Piece 7"@
    } else if item_id == TRIFORCE_PIECE_8 {
        "Triforce Piece 8"@
    } else if item_id == NAYRUS_PEARL {
        "Nayrus Pearl"@
    } else if item_id == DINS_PEARL {
        "Dins Pearl"@
    } else if item_id == FARORES_PEARL {
        "Farores Pearl"@
    } else if item_id == SAIL {
        "Sail"@
    } else if item_id == TRIFORCE_CHART {
        "Triforce Chart"@
    } else if item_id == ALL_PURPOSE_BAIT {
        "All Purpose Bait"@
    } else if item_id == HYOI_PEAR {
        "Hyoi Pear"@
    } else if item_id == TOWN_FLOWER {
        "Town Flower"@
    } else if item_id == SEA_FLOWER {
        "Sea Flower"@
    } else if item_id == EXOTIC_FLOWER {
        "Exotic Flower"@
    } else if item_id == HEROS_FLAG {
        "Heros Flag"@
    } else if item_id == BIG_CATCH_FLAG {
        "Big Catch Flag"@
    } else if item_id == BIG_SALE_FLAG {
        "Big Sale Flag"@
    } else if item_id == PINWHEEL {
        "Pinwheel"@
    } else if item_id == SICKLE_MOON_FLAG {
        "Sickle Moon Flag"@
    } else if item_id == SKULL_TOWER_IDOL {
        "Skull Tower Idol"@
    } else if item_id == FOUNTAIN_IDOL {
        "Fountain Idol"@
    } else if item_id == POSTMAN_STATUE {
        "Postman Statue"@
    } else if item_id == SHOP_GURU_STATUE {
        "Shop Guru Statue"@
    } else if item_id == FATHERS_LETTER {
        "Fathers Letter"@
    } else if item_id == NOTE_TO_MOM {
        "Note To Mom"@
    } else if item_id == MAGGIES_LETTER {
        "Maggies Letter"@
    } else if item_id == MOBLINS_LETTER {
        "Moblins Letter"@
    } else if item_id == CABANA_DEED {
        "Cabana Deed"@
    } else if item_id == COMPLIMENTARY_ID {
        "Complimentary Id"@
    } else if item_id == FILL_UP_COUPON {
        "Fill Up Coupon"@
    } else if item_id == GOLDEN_TINGLE_HEAD {
        "Golden Tingle Head"@
    } else if item_id == EMPTY {
        ""@
    } else {
        "???"@
    }
}

/// The name of the item of id `item_id` (see `item_name`).
pub fn item_id_to_str(item_id: u8) -> (r: &'static str)
    ensures
        r@ == item_name(item_id),
{
    match item_id {
        HEART_DROP => "Heart Drop",
        GREEN_RUPEE_DROP => "Green Rupee Drop",
        BLUE_RUPEE_DROP => "Blue Rupee Drop",
        YELLOW_RUPEE_DROP => "Yellow Rupee Drop",
        RED_RUPEE_DROP => "Red Rupee Drop",
        PURPLE_RUPEE_DROP => "Purple Rupee Drop",
        ORANGE_RUPEE_DROP => "Orange Rupee Drop",
        HEART_PIECE => "Heart Piece",
        HEART_CONTAINER => "Heart Container",
        SMALL_MAGIC_DROP => "Small Magic Drop",
        LARGE_MAGIC_DROP => "Large Magic Drop",
        BOMB_DROP => "Bomb Drop",
        SILVER_RUPEE_DROP => "Silver Rupee Drop",
        SINGLE_ARROW_DROP => "Single Arrow Drop",
        DOUBLE_ARROW_DROP => "Double Arrow Drop",
        TRIPLE_ARROW_DROP => "Triple Arrow Drop",
        KEY_DROP => "Key Drop",
        FAIRY_DROP => "Fairy Drop",
        TRIPLE_HEART_DROP => "Triple Heart Drop",
        JOY_PENDANT => "Joy Pendant",
        TELESCOPE => "Telescope",
        TINGLE_TUNER => "Tingle Tuner",
        WIND_WAKER => "Wind Waker",
        PICTO_BOX => "Picto Box",
        SPOILS_BAG => "Spoils Bag",
        GRAPPLING_HOOK => "Grappling Hook",
        DELUXE_PICTO_BOX => "Deluxe Picto Box",
        BOW => "Bow",
        POWER_BRACELETS => "Power Bracelets",
        IRON_BOOTS => "Iron Boots",
        MAGIC_ARMOR => "Magic Armor",
        WATER_BOOTS => "Water Boots",
        BAIT_BAG => "Bait Bag",
        BOOMERANG => "Boomerang",
        HOOKSHOT => "Hookshot",
        DELIVERY_BAG => "Delivery Bag",
        BOMBS => "Bombs",
        TUNIC => "Tunic",
        SKULL_HAMMER => "Skull Hammer",
        DEKU_LEAF => "Deku Leaf",
        BOW_WITH_FIRE_AND_ICE_ARROWS => "Bow With Fire And Ice Arrows",
        BOW_WITH_LIGHT_ARROWS => "Bow With Light Arrows",
        HEROS_SWORD => "Heros Sword",
        UNCHARGED_MASTER_SWORD => "Uncharged Master Sword",
        HALF_CHARGED_MASTER_SWORD => "Half Charged Master Sword",
        HEROS_SHIELD => "Heros Shield",
        MIRROR_SHIELD => "Mirror Shield",
        FULLY_CHARGED_MASTER_SWORD => "Fully Charged Master Sword",
        PIRATES_CHARM => "Pirates Charm",
        HEROS_CHARM => "Heros Charm",
        SKULL_NECKLACE => "Skull Necklace",
        BOKO_BABA_SEED => "Boko Baba Seed",
        GOLDEN_FEATHER => "Golden Feather",
        KNIGHTS_CREST => "Knights Crest",
        RED_CHU_JELLY => "Red Chu Jelly",
        GREEN_CHU_JELLY => "Green Chu Jelly",
        BLUE_CHU_JELLY => "Blue Chu Jelly",
        MAP => "Map",
        COMPASS => "Compass",
        BIG_KEY => "Big Key",
        EMPTY_BOTTLE => "Empty Bottle",
        RED_POTION => "Red Potion",
        GREEN_POTION => "Green Potion",
        BLUE_POTION => "Blue Potion",
        ELIXIR_SOUP_HALF => "Elixir Soup Half",
        ELIXIR_SOUP => "Elixir Soup",
        WATER => "Water",
        FAIRY => "Fairy",
        FOREST_FIREFLY => "Forest Firefly",
        FOREST_WATER => "Forest Water",
        TRIFORCE_PIECE_1 => "Triforce Piece 1",
        TRIFORCE_PIECE_2 => "Triforce Piece 2",
        TRIFORCE_PIECE_3 => "Triforce Piece 3",
        TRIFORCE_PIECE_4 => "Triforce Piece 4",
        TRIFORCE_PIECE_5 => "Triforce Piece 5",
        TRIFORCE_PIECE_6 => "Triforce Piece 6",
        TRIFORCE_PIECE_7 => "Triforce Piece 7",
        TRIFORCE_PIECE_8 => "Triforce Piece 8",
        NAYRUS_PEARL => "Nayrus Pearl",
        DINS_PEARL => "Dins Pearl",
        FARORES_PEARL => "Farores Pearl",
        SAIL => "Sail",
        TRIFORCE_CHART => "Triforce Chart",
        ALL_PURPOSE_BAIT => "All Purpose Bait",
        HYOI_PEAR => "Hyoi Pear",
        TOWN_FLOWER => "Town Flower",
        SEA_FLOWER => "Sea Flower",
        EXOTIC_FLOWER => "Exotic Flower",
        HEROS_FLAG => "Heros Flag",
        BIG_CATCH_FLAG => "Big Catch Flag",
        BIG_SALE_FLAG => "Big Sale Flag",
        PINWHEEL => "Pinwheel",
        SICKLE_MOON_FLAG => "Sickle Moon Flag",
        SKULL_TOWER_IDOL => "Skull Tower Idol",
        FOUNTAIN_IDOL => "Fountain Idol",
        POSTMAN_STATUE => "Postman Statue",
        SHOP_GURU_STATUE => "Shop Guru Statue",
        FATHERS_LETTER => "Fathers Letter",
        NOTE_TO_MOM => "Note To Mom",
        MAGGIES_LETTER => "Maggies Letter",
        MOBLINS_LETTER => "Moblins Letter",
        CABANA_DEED => "Cabana Deed",
        COMPLIMENTARY_ID => "Complimentary Id",
        FILL_UP_COUPON => "Fill Up Coupon",
        GOLDEN_TINGLE_HEAD => "Golden Tingle Head",
        EMPTY => "",
        _ => "???",
    }
}

/// The character at `i` of `s` as a number, 0 outside `s`.
spec fn name_char(s: Seq<char>, i: int) -> int {
    if 0 <= i < s.len() {
        s[i] as int
    } else {
        0
    }
}

/// A number computed from a name's length and a few of its characters, which
/// tells the item names apart.
spec fn name_key(s: Seq<char>) -> int {
    s.len() + 64 * (name_char(s, 0) + 256 * (name_char(s, 1) + 256 * (name_char(s, 7) + 256 * name_char(
        s,
        s.len() - 1,
    ))))
}

/// The item whose name has the key `k`.
spec fn id_of_key(k: int) -> u8 {
    if k == 120738894346 {
        HEART_DROP
    } else if k == 120751690192 {
        GREEN_RUPEE_DROP
    } else if k == 120730620047 {
        BLUE_RUPEE_DROP
    } else if k == 120604677713 {
        YELLOW_RUPEE_DROP
    } else if k == 120684369038 {
        RED_RUPEE_DROP
    } else if k == 120604939281 {
        PURPLE_RUPEE_DROP
    } else if k == 120604890065 {
        ORANGE_RUPEE_DROP
    } else if k == 108889985547 {
        HEART_PIECE
    } else if k == 122873795087 {
        HEART_CONTAINER
    } else if k == 120667722960 {
        SMALL_MAGIC_DROP
    } else if k == 120667525904 {
        LARGE_MAGIC_DROP
    } else if k == 120726474889 {
        BOMB_DROP
    } else if k == 120604742865 {
        SILVER_RUPEE_DROP
    } else if k == 120533439697 {
        SINGLE_ARROW_DROP
    } else if k == 120533537041 {
        DOUBLE_ARROW_DROP
    } else if k == 120533587217 {
        TRIPLE_ARROW_DROP
    } else if k == 120730505928 {
        KEY_DROP
    } else if k == 120738828682 {
        FAIRY_DROP
    } else if k == 120562947345 {
        TRIPLE_HEART_DROP
    } else if k == 124975305355 {
        JOY_PENDANT
    } else if k == 108919346441 {
        TELESCOPE
    } else if k == 122760615180 {
        TINGLE_TUNER
    } else if k == 122857084362 {
        WIND_WAKER
    } else if k == 129316312073 {
        PICTO_BOX
    } else if k == 110874072266 {
        SPOILS_BAG
    } else if k == 115353620942 {
        GRAPPLING_HOOK
    } else if k == 129186222352 {
        DELUXE_PICTO_BOX
    } else if k == 127777099907 {
        BOW
    } else if k == 123960284175 {
        POWER_BRACELETS
    } else if k == 123947749962 {
        IRON_BOOTS
    } else if k == 122886312779 {
        MAGIC_ARMOR
    } else if k == 123947472331 {
        WATER_BOOTS
    } else if k == 111029014664 {
        BAIT_BAG
    } else if k == 111058604169 {
        BOOMERANG
    } else if k == 125042414088 {
        HOOKSHOT
    } else if k == 111104577804 {
        DELIVERY_BAG
    } else if k == 123482132613 {
        BOMBS
    } else if k == 106302362885 {
        TUNIC
    } else if k == 122815173836 {
        SKULL_HAMMER
    } else if k == 109930172681 {
        DEKU_LEAF
    } else if k == 123918340252 {
        BOW_WITH_FIRE_AND_ICE_ARROWS
    } else if k == 123918340245 {
        BOW_WITH_LIGHT_ARROWS
    } else if k == 107874963979 {
        HEROS_SWORD
    } else if k == 107799614806 {
        UNCHARGED_MASTER_SWORD
    } else if k == 107782623769 {
        HALF_CHARGED_MASTER_SWORD
    } else if k == 107812049420 {
        HEROS_SHIELD
    } else if k == 107724034893 {
        MIRROR_SHIELD
    } else if k == 107812311450 {
        FULLY_CHARGED_MASTER_SWORD
    } else if k == 117173801997 {
        PIRATES_CHARM
    } else if k == 117475725835 {
        HEROS_CHARM
    } else if k == 108873307342 {
        SKULL_NECKLACE
    } else if k == 107787047054 {
        BOKO_BABA_SEED
    } else if k == 122701992398 {
        GOLDEN_FEATHER
    } else if k == 124690076365 {
        KNIGHTS_CREST
    } else if k == 130058638477 {
        RED_CHU_JELLY
    } else if k == 130360840655 {
        GREEN_CHU_JELLY
    } else if k == 130415267982 {
        BLUE_CHU_JELLY
    } else if k == 120260678467 {
        MAP
    } else if k == 123482132679 {
        COMPASS
    } else if k == 129924485255 {
        BIG_KEY
    } else if k == 108915282252 {
        EMPTY_BOTTLE
    } else if k == 118553662602 {
        RED_POTION
    } else if k == 118579040716 {
        GREEN_POTION
    } else if k == 118599913611 {
        BLUE_POTION
    } else if k == 109871567184 {
        ELIXIR_SOUP_HALF
    } else if k == 120608985419 {
        ELIXIR_SOUP
    } else if k == 122408162757 {
        WATER
    } else if k == 129924354437 {
        FAIRY
    } else if k == 130218185102 {
        FOREST_FIREFLY
    } else if k == 122773295500 {
        FOREST_WATER
    } else if k == 53038847248 {
        TRIFORCE_PIECE_1
    } else if k == 54112589072 {
        TRIFORCE_PIECE_2
    } else if k == 55186330896 {
        TRIFORCE_PIECE_3
    } else if k == 56260072720 {
        TRIFORCE_PIECE_4
    } else if k == 57333814544 {
        TRIFORCE_PIECE_5
    } else if k == 58407556368 {
        TRIFORCE_PIECE_6
    } else if k == 59481298192 {
        TRIFORCE_PIECE_7
    } else if k == 60555040016 {
        TRIFORCE_PIECE_8
    } else if k == 116301255564 {
        NAYRUS_PEARL
    } else if k == 116372689162 {
        DINS_PEARL
    } else if k == 116099928461 {
        FARORES_PEARL
    } else if k == 115965711556 {
        SAIL
    } else if k == 124979549454 {
        TRIFORCE_CHART
    } else if k == 125025587280 {
        ALL_PURPOSE_BAIT
    } else if k == 122815402505 {
        HYOI_PEAR
    } else if k == 122873959691 {
        TOWN_FLOWER
    } else if k == 122907350218 {
        SEA_FLOWER
    } else if k == 122702139725 {
        EXOTIC_FLOWER
    } else if k == 111050052106 {
        HEROS_FLAG
    } else if k == 111012368526 {
        BIG_CATCH_FLAG
    } else if k == 111020757133 {
        BIG_SALE_FLAG
    } else if k == 116418827272 {
        PINWHEEL
    } else if k == 110920094928 {
        SICKLE_MOON_FLAG
    } else if k == 116431443152 {
        SKULL_TOWER_IDOL
    } else if k == 116427313549 {
        FOUNTAIN_IDOL
    } else if k == 108583965710 {
        POSTMAN_STATUE
    } else if k == 108927784144 {
        SHOP_GURU_STATUE
    } else if k == 122542379406 {
        FATHERS_LETTER
    } else if k == 117173900171 {
        NOTE_TO_MOM
    } else if k == 122542379854 {
        MAGGIES_LETTER
    } else if k == 122542609230 {
        MOBLINS_LETTER
    } else if k == 107660988619 {
        CABANA_DEED
    } else if k == 107799630032 {
        COMPLIMENTARY_ID
    } else if k == 118247543182 {
        FILL_UP_COUPON
    } else if k == 107728327122 {
        GOLDEN_TINGLE_HEAD
    } else if k == 0 {
        EMPTY
    } else {
        0
    }
}

proof fn lemma_id_of_key()
    ensures
        id_of_key(120738894346) == HEART_DROP,
        id_of_key(120751690192) == GREEN_RUPEE_DROP,
        id_of_key(120730620047) == BLUE_RUPEE_DROP,
        id_of_key(120604677713) == YELLOW_RUPEE_DROP,
        id_of_key(120684369038) == RED_RUPEE_DROP,
        id_of_key(120604939281) == PURPLE_RUPEE_DROP,
        id_of_key(120604890065) == ORANGE_RUPEE_DROP,
        id_of_key(108889985547) == HEART_PIECE,
        id_of_key(122873795087) == HEART_CONTAINER,
        id_of_key(120667722960) == SMALL_MAGIC_DROP,
        id_of_key(120667525904) == LARGE_MAGIC_DROP,
        id_of_key(120726474889) == BOMB_DROP,
        id_of_key(120604742865) == SILVER_RUPEE_DROP,
        id_of_key(120533439697) == SINGLE_ARROW_DROP,
        id_of_key(120533537041) == DOUBLE_ARROW_DROP,
        id_of_key(120533587217) == TRIPLE_ARROW_DROP,
        id_of_key(120730505928) == KEY_DROP,
        id_of_key(120738828682) == FAIRY_DROP,
        id_of_key(120562947345) == TRIPLE_HEART_DROP,
        id_of_key(124975305355) == JOY_PENDANT,
        id_of_key(108919346441) == TELESCOPE,
        id_of_key(122760615180) == TINGLE_TUNER,
        id_of_key(122857084362) == WIND_WAKER,
        id_of_key(129316312073) == PICTO_BOX,
        id_of_key(110874072266) == SPOILS_BAG,
        id_of_key(115353620942) == GRAPPLING_HOOK,
        id_of_key(129186222352) == DELUXE_PICTO_BOX,
        id_of_key(127777099907) == BOW,
        id_of_key(123960284175) == POWER_BRACELETS,
        id_of_key(123947749962) == IRON_BOOTS,
        id_of_key(122886312779) == MAGIC_ARMOR,
        id_of_key(123947472331) == WATER_BOOTS,
        id_of_key(111029014664) == BAIT_BAG,
        id_of_key(111058604169) == BOOMERANG,
        id_of_key(125042414088) == HOOKSHOT,
        id_of_key(111104577804) == DELIVERY_BAG,
        id_of_key(123482132613) == BOMBS,
        id_of_key(106302362885) == TUNIC,
        id_of_key(122815173836) == SKULL_HAMMER,
        id_of_key(109930172681) == DEKU_LEAF,
        id_of_key(123918340252) == BOW_WITH_FIRE_AND_ICE_ARROWS,
        id_of_key(123918340245) == BOW_WITH_LIGHT_ARROWS,
        id_of_key(107874963979) == HEROS_SWORD,
        id_of_key(107799614806) == UNCHARGED_MASTER_SWORD,
        id_of_key(107782623769) == HALF_CHARGED_MASTER_SWORD,
        id_of_key(107812049420) == HEROS_SHIELD,
        id_of_key(107724034893) == MIRROR_SHIELD,
        id_of_key(107812311450) == FULLY_CHARGED_MASTER_SWORD,
        id_of_key(117173801997) == PIRATES_CHARM,
        id_of_key(117475725835) == HEROS_CHARM,
        id_of_key(108873307342) == SKULL_NECKLACE,
        id_of_key(107787047054) == BOKO_BABA_SEED,
        id_of_key(122701992398) == GOLDEN_FEATHER,
        id_of_key(124690076365) == KNIGHTS_CREST,
        id_of_key(130058638477) == RED_CHU_JELLY,
        id_of_key(130360840655) == GREEN_CHU_JELLY,
        id_of_key(130415267982) == BLUE_CHU_JELLY,
        id_of_key(120260678467) == MAP,
        id_of_key(123482132679) == COMPASS,
        id_of_key(129924485255) == BIG_KEY,
        id_of_key(108915282252) == EMPTY_BOTTLE,
        id_of_key(118553662602) == RED_POTION,
        id_of_key(118579040716) == GREEN_POTION,
        id_of_key(118599913611) == BLUE_POTION,
        id_of_key(109871567184) == ELIXIR_SOUP_HALF,
        id_of_key(120608985419) == ELIXIR_SOUP,
        id_of_key(122408162757) == WATER,
        id_of_key(129924354437) == FAIRY,
        id_of_key(130218185102) == FOREST_FIREFLY,
        id_of_key(122773295500) == FOREST_WATER,
        id_of_key(53038847248) == TRIFORCE_PIECE_1,
        id_of_key(54112589072) == TRIFORCE_PIECE_2,
        id_of_key(55186330896) == TRIFORCE_PIECE_3,
        id_of_key(56260072720) == TRIFORCE_PIECE_4,
        id_of_key(57333814544) == TRIFORCE_PIECE_5,
        id_of_key(58407556368) == TRIFORCE_PIECE_6,
        id_of_key(59481298192) == TRIFORCE_PIECE_7,
        id_of_key(60555040016) == TRIFORCE_PIECE_8,
        id_of_key(116301255564) == NAYRUS_PEARL,
        id_of_key(116372689162) == DINS_PEARL,
        id_of_key(116099928461) == FARORES_PEARL,
        id_of_key(115965711556) == SAIL,
        id_of_key(124979549454) == TRIFORCE_CHART,
        id_of_key(125025587280) == ALL_PURPOSE_BAIT,
        id_of_key(122815402505) == HYOI_PEAR,
        id_of_key(122873959691) == TOWN_FLOWER,
        id_of_key(122907350218) == SEA_FLOWER,
        id_of_key(122702139725) == EXOTIC_FLOWER,
        id_of_key(111050052106) == HEROS_FLAG,
        id_of_key(111012368526) == BIG_CATCH_FLAG,
        id_of_key(111020757133) == BIG_SALE_FLAG,
        id_of_key(116418827272) == PINWHEEL,
        id_of_key(110920094928) == SICKLE_MOON_FLAG,
        id_of_key(116431443152) == SKULL_TOWER_IDOL,
        id_of_key(116427313549) == FOUNTAIN_IDOL,
        id_of_key(108583965710) == POSTMAN_STATUE,
        id_of_key(108927784144) == SHOP_GURU_STATUE,
        id_of_key(122542379406) == FATHERS_LETTER,
        id_of_key(117173900171) == NOTE_TO_MOM,
        id_of_key(122542379854) == MAGGIES_LETTER,
        id_of_key(122542609230) == MOBLINS_LETTER,
        id_of_key(107660988619) == CABANA_DEED,
        id_of_key(107799630032) == COMPLIMENTARY_ID,
        id_of_key(118247543182) == FILL_UP_COUPON,
        id_of_key(107728327122) == GOLDEN_TINGLE_HEAD,
        id_of_key(0) == EMPTY,
{
}

/// The key of each item's name; every other id is named `"???"`.
proof fn lemma_item_name_keys(b: u8)
    ensures
        b == HEART_DROP ==> name_key(item_name(b)) == 120738894346,
        b == GREEN_RUPEE_DROP ==> name_key(item_name(b)) == 120751690192,
        b == BLUE_RUPEE_DROP ==> name_key(item_name(b)) == 120730620047,
        b == YELLOW_RUPEE_DROP ==> name_key(item_name(b)) == 120604677713,
        b == RED_RUPEE_DROP ==> name_key(item_name(b)) == 120684369038,
        b == PURPLE_RUPEE_DROP ==> name_key(item_name(b)) == 120604939281,
        b == ORANGE_RUPEE_DROP ==> name_key(item_name(b)) == 120604890065,
        b == HEART_PIECE ==> name_key(item_name(b)) == 108889985547,
        b == HEART_CONTAINER ==> name_key(item_name(b)) == 122873795087,
        b == SMALL_MAGIC_DROP ==> name_key(item_name(b)) == 120667722960,
        b == LARGE_MAGIC_DROP ==> name_key(item_name(b)) == 120667525904,
        b == BOMB_DROP ==> name_key(item_name(b)) == 120726474889,
        b == SILVER_RUPEE_DROP ==> name_key(item_name(b)) == 120604742865,
        b == SINGLE_ARROW_DROP ==> name_key(item_name(b)) == 120533439697,
        b == DOUBLE_ARROW_DROP ==> name_key(item_name(b)) == 120533537041,
        b == TRIPLE_ARROW_DROP ==> name_key(item_name(b)) == 120533587217,
        b == KEY_DROP ==> name_key(item_name(b)) == 120730505928,
        b == FAIRY_DROP ==> name_key(item_name(b)) == 120738828682,
        b == TRIPLE_HEART_DROP ==> name_key(item_name(b)) == 120562947345,
        b == JOY_PENDANT ==> name_key(item_name(b)) == 124975305355,
        b == TELESCOPE ==> name_key(item_name(b)) == 108919346441,
        b == TINGLE_TUNER ==> name_key(item_name(b)) == 122760615180,
        b == WIND_WAKER ==> name_key(item_name(b)) == 122857084362,
        b == PICTO_BOX ==> name_key(item_name(b)) == 129316312073,
        b == SPOILS_BAG ==> name_key(item_name(b)) == 110874072266,
        b == GRAPPLING_HOOK ==> name_key(item_name(b)) == 115353620942,
        b == DELUXE_PICTO_BOX ==> name_key(item_name(b)) == 129186222352,
        b == BOW ==> name_key(item_name(b)) == 127777099907,
        b == POWER_BRACELETS ==> name_key(item_name(b)) == 123960284175,
        b == IRON_BOOTS ==> name_key(item_name(b)) == 123947749962,
        b == MAGIC_ARMOR ==> name_key(item_name(b)) == 122886312779,
        b == WATER_BOOTS ==> name_key(item_name(b)) == 123947472331,
        b == BAIT_BAG ==> name_key(item_name(b)) == 111029014664,
        b == BOOMERANG ==> name_key(item_name(b)) == 111058604169,
        b == HOOKSHOT ==> name_key(item_name(b)) == 125042414088,
        b == DELIVERY_BAG ==> name_key(item_name(b)) == 111104577804,
        b == BOMBS ==> name_key(item_name(b)) == 123482132613,
        b == TUNIC ==> name_key(item_name(b)) == 106302362885,
        b == SKULL_HAMMER ==> name_key(item_name(b)) == 122815173836,
        b == DEKU_LEAF ==> name_key(item_name(b)) == 109930172681,
        b == BOW_WITH_FIRE_AND_ICE_ARROWS ==> name_key(item_name(b)) == 123918340252,
        b == BOW_WITH_LIGHT_ARROWS ==> name_key(item_name(b)) == 123918340245,
        b == HEROS_SWORD ==> name_key(item_name(b)) == 107874963979,
        b == UNCHARGED_MASTER_SWORD ==> name_key(item_name(b)) == 107799614806,
        b == HALF_CHARGED_MASTER_SWORD ==> name_key(item_name(b)) == 107782623769,
        b == HEROS_SHIELD ==> name_key(item_name(b)) == 107812049420,
        b == MIRROR_SHIELD ==> name_key(item_name(b)) == 107724034893,
        b == FULLY_CHARGED_MASTER_SWORD ==> name_key(item_name(b)) == 107812311450,
        b == PIRATES_CHARM ==> name_key(item_name(b)) == 117173801997,
        b == HEROS_CHARM ==> name_key(item_name(b)) == 117475725835,
        b == SKULL_NECKLACE ==> name_key(item_name(b)) == 108873307342,
        b == BOKO_BABA_SEED ==> name_key(item_name(b)) == 107787047054,
        b == GOLDEN_FEATHER ==> name_key(item_name(b)) == 122701992398,
        b == KNIGHTS_CREST ==> name_key(item_name(b)) == 124690076365,
        b == RED_CHU_JELLY ==> name_key(item_name(b)) == 130058638477,
        b == GREEN_CHU_JELLY ==> name_key(item_name(b)) == 130360840655,
        b == BLUE_CHU_JELLY ==> name_key(item_name(b)) == 130415267982,
        b == MAP ==> name_key(item_name(b)) == 120260678467,
        b == COMPASS ==> name_key(item_name(b)) == 123482132679,
        b == BIG_KEY ==> name_key(item_name(b)) == 129924485255,
        b == EMPTY_BOTTLE ==> name_key(item_name(b)) == 108915282252,
        b == RED_POTION ==> name_key(item_name(b)) == 118553662602,
        b == GREEN_POTION ==> name_key(item_name(b)) == 118579040716,
        b == BLUE_POTION ==> name_key(item_name(b)) == 118599913611,
        b == ELIXIR_SOUP_HALF ==> name_key(item_name(b)) == 109871567184,
        b == ELIXIR_SOUP ==> name_key(item_name(b)) == 120608985419,
        b == WATER ==> name_key(item_name(b)) == 122408162757,
        b == FAIRY ==> name_key(item_name(b)) == 129924354437,
        b == FOREST_FIREFLY ==> name_key(item_name(b)) == 130218185102,
        b == FOREST_WATER ==> name_key(item_name(b)) == 122773295500,
        b == TRIFORCE_PIECE_1 ==> name_key(item_name(b)) == 53038847248,
        b == TRIFORCE_PIECE_2 ==> name_key(item_name(b)) == 54112589072,
        b == TRIFORCE_PIECE_3 ==> name_key(item_name(b)) == 55186330896,
        b == TRIFORCE_PIECE_4 ==> name_key(item_name(b)) == 56260072720,
        b == TRIFORCE_PIECE_5 ==> name_key(item_name(b)) == 57333814544,
        b == TRIFORCE_PIECE_6 ==> name_key(item_name(b)) == 58407556368,
        b == TRIFORCE_PIECE_7 ==> name_key(item_name(b)) == 59481298192,
        b == TRIFORCE_PIECE_8 ==> name_key(item_name(b)) == 60555040016,
        b == NAYRUS_PEARL ==> name_key(item_name(b)) == 116301255564,
        b == DINS_PEARL ==> name_key(item_name(b)) == 116372689162,
        b == FARORES_PEARL ==> name_key(item_name(b)) == 116099928461,
        b == SAIL ==> name_key(item_name(b)) == 115965711556,
        b == TRIFORCE_CHART ==> name_key(item_name(b)) == 124979549454,
        b == ALL_PURPOSE_BAIT ==> name_key(item_name(b)) == 125025587280,
        b == HYOI_PEAR ==> name_key(item_name(b)) == 122815402505,
        b == TOWN_FLOWER ==> name_key(item_name(b)) == 122873959691,
        b == SEA_FLOWER ==> name_key(item_name(b)) == 122907350218,
        b == EXOTIC_FLOWER ==> name_key(item_name(b)) == 122702139725,
        b == HEROS_FLAG ==> name_key(item_name(b)) == 111050052106,
        b == BIG_CATCH_FLAG ==> name_key(item_name(b)) == 111012368526,
        b == BIG_SALE_FLAG ==> name_key(item_name(b)) == 111020757133,
        b == PINWHEEL ==> name_key(item_name(b)) == 116418827272,
        b == SICKLE_MOON_FLAG ==> name_key(item_name(b)) == 110920094928,
        b == SKULL_TOWER_IDOL ==> name_key(item_name(b)) == 116431443152,
        b == FOUNTAIN_IDOL ==> name_key(item_name(b)) == 116427313549,
        b == POSTMAN_STATUE ==> name_key(item_name(b)) == 108583965710,
        b == SHOP_GURU_STATUE ==> name_key(item_name(b)) == 108927784144,
        b == FATHERS_LETTER ==> name_key(item_name(b)) == 122542379406,
        b == NOTE_TO_MOM ==> name_key(item_name(b)) == 117173900171,
        b == MAGGIES_LETTER ==> name_key(item_name(b)) == 122542379854,
        b == MOBLINS_LETTER ==> name_key(item_name(b)) == 122542609230,
        b == CABANA_DEED ==> name_key(item_name(b)) == 107660988619,
        b == COMPLIMENTARY_ID ==> name_key(item_name(b)) == 107799630032,
        b == FILL_UP_COUPON ==> name_key(item_name(b)) == 118247543182,
        b == GOLDEN_TINGLE_HEAD ==> name_key(item_name(b)) == 107728327122,
        b == EMPTY ==> name_key(item_name(b)) == 0,
        b != HEART_DROP && b != GREEN_RUPEE_DROP && b != BLUE_RUPEE_DROP && b != YELLOW_RUPEE_DROP && b != RED_RUPEE_DROP && b != PURPLE_RUPEE_DROP && b != ORANGE_RUPEE_DROP && b != HEART_PIECE && b != HEART_CONTAINER && b != SMALL_MAGIC_DROP && b != LARGE_MAGIC_DROP && b != BOMB_DROP && b != SILVER_RUPEE_DROP && b != SINGLE_ARROW_DROP && b != DOUBLE_ARROW_DROP && b != TRIPLE_ARROW_DROP && b != KEY_DROP && b != FAIRY_DROP && b != TRIPLE_HEART_DROP && b != JOY_PENDANT && b != TELESCOPE && b != TINGLE_TUNER && b != WIND_WAKER && b != PICTO_BOX && b != SPOILS_BAG && b != GRAPPLING_HOOK && b != DELUXE_PICTO_BOX && b != BOW && b != POWER_BRACELETS && b != IRON_BOOTS && b != MAGIC_ARMOR && b != WATER_BOOTS && b != BAIT_BAG && b != BOOMERANG && b != HOOKSHOT && b != DELIVERY_BAG && b != BOMBS && b != TUNIC && b != SKULL_HAMMER && b != DEKU_LEAF && b != BOW_WITH_FIRE_AND_ICE_ARROWS && b != BOW_WITH_LIGHT_ARROWS && b != HEROS_SWORD && b != UNCHARGED_MASTER_SWORD && b != HALF_CHARGED_MASTER_SWORD && b != HEROS_SHIELD && b != MIRROR_SHIELD && b != FULLY_CHARGED_MASTER_SWORD && b != PIRATES_CHARM && b != HEROS_CHARM && b != SKULL_NECKLACE && b != BOKO_BABA_SEED && b != GOLDEN_FEATHER && b != KNIGHTS_CREST && b != RED_CHU_JELLY && b != GREEN_CHU_JELLY && b != BLUE_CHU_JELLY && b != MAP && b != COMPASS && b != BIG_KEY && b != EMPTY_BOTTLE && b != RED_POTION && b != GREEN_POTION && b != BLUE_POTION && b != ELIXIR_SOUP_HALF && b != ELIXIR_SOUP && b != WATER && b != FAIRY && b != FOREST_FIREFLY && b != FOREST_WATER && b != TRIFORCE_PIECE_1 && b != TRIFORCE_PIECE_2 && b != TRIFORCE_PIECE_3 && b != TRIFORCE_PIECE_4 && b != TRIFORCE_PIECE_5 && b != TRIFORCE_PIECE_6 && b != TRIFORCE_PIECE_7 && b != TRIFORCE_PIECE_8 && b != NAYRUS_PEARL && b != DINS_PEARL && b != FARORES_PEARL && b != SAIL && b != TRIFORCE_CHART && b != ALL_PURPOSE_BAIT && b != HYOI_PEAR && b != TOWN_FLOWER && b != SEA_FLOWER && b != EXOTIC_FLOWER && b != HEROS_FLAG && b != BIG_CATCH_FLAG && b != BIG_SALE_FLAG && b != PINWHEEL && b != SICKLE_MOON_FLAG && b != SKULL_TOWER_IDOL && b != FOUNTAIN_IDOL && b != POSTMAN_STATUE && b != SHOP_GURU_STATUE && b != FATHERS_LETTER && b != NOTE_TO_MOM && b != MAGGIES_LETTER && b != MOBLINS_LETTER && b != CABANA_DEED && b != COMPLIMENTARY_ID && b != FILL_UP_COUPON && b != GOLDEN_TINGLE_HEAD && b != EMPTY ==> item_name(b) == "???"@,
{
    reveal_strlit("");
    reveal_strlit("???");
    reveal_strlit("All Purpose Bait");
    reveal_strlit("Bait Bag");
    reveal_strlit("Big Catch Flag");
    reveal_strlit("Big Key");
    reveal_strlit("Big Sale Flag");
    reveal_strlit("Blue Chu Jelly");
    reveal_strlit("Blue Potion");
    reveal_strlit("Blue Rupee Drop");
    reveal_strlit("Boko Baba Seed");
    reveal_strlit("Bomb Drop");
    reveal_strlit("Bombs");
    reveal_strlit("Boomerang");
    reveal_strlit("Bow");
    reveal_strlit("Bow With Fire And Ice Arrows");
    reveal_strlit("Bow With Light Arrows");
    reveal_strlit("Cabana Deed");
    reveal_strlit("Compass");
    reveal_strlit("Complimentary Id");
    reveal_strlit("Deku Leaf");
    reveal_strlit("Delivery Bag");
    reveal_strlit("Deluxe Picto Box");
    reveal_strlit("Dins Pearl");
    reveal_strlit("Double Arrow Drop");
    reveal_strlit("Elixir Soup");
    reveal_strlit("Elixir Soup Half");
    reveal_strlit("Empty Bottle");
    reveal_strlit("Exotic Flower");
    reveal_strlit("Fairy");
    reveal_strlit("Fairy Drop");
    reveal_strlit("Farores Pearl");
    reveal_strlit("Fathers Letter");
    reveal_strlit("Fill Up Coupon");
    reveal_strlit("Forest Firefly");
    reveal_strlit("Forest Water");
    reveal_strlit("Fountain Idol");
    reveal_strlit("Fully Charged Master Sword");
    reveal_strlit("Golden Feather");
    reveal_strlit("Golden Tingle Head");
    reveal_strlit("Grappling Hook");
    reveal_strlit("Green Chu Jelly");
    reveal_strlit("Green Potion");
    reveal_strlit("Green Rupee Drop");
    reveal_strlit("Half Charged Master Sword");
    reveal_strlit("Heart Container");
    reveal_strlit("Heart Drop");
    reveal_strlit("Heart Piece");
    reveal_strlit("Heros Charm");
    reveal_strlit("Heros Flag");
    reveal_strlit("Heros Shield");
    reveal_strlit("Heros Sword");
    reveal_strlit("Hookshot");
    reveal_strlit("Hyoi Pear");
    reveal_strlit("Iron Boots");
    reveal_strlit("Joy Pendant");
    reveal_strlit("Key Drop");
    reveal_strlit("Knights Crest");
    reveal_strlit("Large Magic Drop");
    reveal_strlit("Maggies Letter");
    reveal_strlit("Magic Armor");
    reveal_strlit("Map");
    reveal_strlit("Mirror Shield");
    reveal_strlit("Moblins Letter");
    reveal_strlit("Nayrus Pearl");
    reveal_strlit("Note To Mom");
    reveal_strlit("Orange Rupee Drop");
    reveal_strlit("Picto Box");
    reveal_strlit("Pinwheel");
    reveal_strlit("Pirates Charm");
    reveal_strlit("Postman Statue");
    reveal_strlit("Power Bracelets");
    reveal_strlit("Purple Rupee Drop");
    reveal_strlit("Red Chu Jelly");
    reveal_strlit("Red Potion");
    reveal_strlit("Red Rupee Drop");
    reveal_strlit("Sail");
    reveal_strlit("Sea Flower");
    reveal_strlit("Shop Guru Statue");
    reveal_strlit("Sickle Moon Flag");
    reveal_strlit("Silver Rupee Drop");
    reveal_strlit("Single Arrow Drop");
    reveal_strlit("Skull Hammer");
    reveal_strlit("Skull Necklace");
    reveal_strlit("Skull Tower Idol");
    reveal_strlit("Small Magic Drop");
    reveal_strlit("Spoils Bag");
    reveal_strlit("Telescope");
    reveal_strlit("Tingle Tuner");
    reveal_strlit("Town Flower");
    reveal_strlit("Triforce Chart");
    reveal_strlit("Triforce Piece 1");
    reveal_strlit("Triforce Piece 2");
    reveal_strlit("Triforce Piece 3");
    reveal_strlit("Triforce Piece 4");
    reveal_strlit("Triforce Piece 5");
    reveal_strlit("Triforce Piece 6");
    reveal_strlit("Triforce Piece 7");
    reveal_strlit("Triforce Piece 8");
    reveal_strlit("Triple Arrow Drop");
    reveal_strlit("Triple Heart Drop");
    reveal_strlit("Tunic");
    reveal_strlit("Uncharged Master Sword");
    reveal_strlit("Water");
    reveal_strlit("Water Boots");
    reveal_strlit("Wind Waker");
    reveal_strlit("Yellow Rupee Drop");
}

/// Different items have different names: no name of an item (any id
/// whose name is not `"???"`) is the name of another id.
pub proof fn lemma_item_names_distinct(a: u8, b: u8)
    requires
        a != b,
        item_name(a) != "???"@,
    ensures
        item_name(a) != item_name(b),
{
    lemma_id_of_key();
    lemma_item_name_keys(a);
    lemma_item_name_keys(b);
    assert(id_of_key(name_key(item_name(a))) == a);
    if item_name(b) != "???"@ {
        assert(id_of_key(name_key(item_name(b))) == b);
    }
}

} // verus!
