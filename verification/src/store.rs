use vstd::prelude::*;

use crate::inventory::{data_view, Inventory, InventorySlot, SlotView};
use crate::names::stripped;
use vstd::arithmetic::div_mod::{lemma_basic_div, lemma_div_denominator, lemma_fundamental_div_mod};
use crate::text::str_eq;

verus! {

/// The most homes one player may keep.
pub const MAX_HOMES: usize = 16;

/// The world of named locations.
pub const OVERWORLD: &'static str = "minecraft:overworld";

/// Why stored player data is refused or a storage request is turned down.
#[derive(Debug)]
pub enum PlayerStoreError {
    InvalidInventorySlot,
    InvalidSelectedHotbarSlot,
    InvalidLocation,
    HomeLimitExceeded,
    InvalidGameMode(String),
}

/// A slot may be stored when its id is not negative and it holds something.
pub open spec fn storable_slot(s: SlotView) -> bool {
    s.slot >= 0 && s.count != 0
}

/// Checks an inventory before it is stored or after it is loaded: the selected hotbar slot is
/// a hotbar slot, and every slot has a non-negative id and holds something.
pub fn validate_inventory(inventory: &Inventory) -> (r: Result<(), PlayerStoreError>)
    ensures
        inventory@.selected > 8 ==> r matches Err(PlayerStoreError::InvalidSelectedHotbarSlot),
        inventory@.selected <= 8 && (forall|i: int|
            0 <= i < inventory@.slots.len() ==> storable_slot(#[trigger] inventory@.slots[i]))
            ==> r is Ok,
        inventory@.selected <= 8 && !(forall|i: int|
            0 <= i < inventory@.slots.len() ==> storable_slot(#[trigger] inventory@.slots[i]))
            ==> r matches Err(PlayerStoreError::InvalidInventorySlot),
{
    if inventory.selected_hotbar_slot > 8 {
        return Err(PlayerStoreError::InvalidSelectedHotbarSlot);
    }
    let n = inventory.slots.len();
    let mut i: usize = 0;
    while i < n
        invariant
            n == inventory@.slots.len(),
            inventory@.selected <= 8,
            i <= n,
            forall|j: int| 0 <= j < i ==> storable_slot(#[trigger] inventory@.slots[j]),
        decreases n - i,
    {
        assert(inventory@.slots[i as int] == inventory.slots@[i as int]@);
        if inventory.slots[i].slot < 0 || inventory.slots[i].count == 0 {
            assert(!storable_slot(inventory@.slots[i as int]));
            return Err(PlayerStoreError::InvalidInventorySlot);
        }
        i += 1;
    }
    Ok(())
}

/// Checks a named location: its name is not empty and its world is the overworld.
pub fn validate_location(name: &str, world: &str) -> (r: Result<(), PlayerStoreError>)
    ensures
        r is Ok == (name@.len() > 0 && world@ == OVERWORLD@),
        r matches Err(e) ==> e is InvalidLocation,
{
    if name.unicode_len() == 0 || !str_eq(world, OVERWORLD) {
        Err(PlayerStoreError::InvalidLocation)
    } else {
        Ok(())
    }
}

/// Reads a stored number as a byte.
pub fn checked_u8(value: i64) -> (r: Result<u8, PlayerStoreError>)
    ensures
        match r {
            Ok(b) => 0 <= value <= 255 && b == value,
            Err(e) => !(0 <= value <= 255) && e is InvalidInventorySlot,
        },
{
    if 0 <= value && value <= 255 {
        Ok(value as u8)
    } else {
        Err(PlayerStoreError::InvalidInventorySlot)
    }
}

/// Reads a stored selected hotbar slot.
pub fn checked_hotbar(value: i64) -> (r: Result<u8, PlayerStoreError>)
    ensures
        match r {
            Ok(b) => 0 <= value <= 8 && b == value,
            Err(e) => if 0 <= value <= 255 {
                e is InvalidSelectedHotbarSlot
            } else {
                e is InvalidInventorySlot
            },
        },
{
    let slot = checked_u8(value)?;
    if slot <= 8 {
        Ok(slot)
    } else {
        Err(PlayerStoreError::InvalidSelectedHotbarSlot)
    }
}

/// Builds an inventory slot from a stored row (slot, item, count, data).
pub fn slot_from_row(row: (i32, String, i64, Option<String>)) -> (r: Result<InventorySlot, PlayerStoreError>)
    ensures
        match r {
            Ok(s) => 0 <= row.2 <= 255 && row.0 >= 0 && row.2 != 0 && s@ == (SlotView {
                slot: row.0,
                item_id: row.1@,
                count: row.2 as u8,
                data: data_view(row.3),
            }),
            Err(e) => e is InvalidInventorySlot && !(0 <= row.2 <= 255 && row.0 >= 0 && row.2 != 0),
        },
{
    let (slot, item_id, count, data) = row;
    let count = checked_u8(count)?;
    if slot < 0 || count == 0 {
        return Err(PlayerStoreError::InvalidInventorySlot);
    }
    Ok(InventorySlot { slot, item_id, count, data })
}

/// The statement that stores or updates a profile row.
pub fn profile_upsert_sql() -> (r: &'static str)
    ensures
        r@ == "INSERT INTO player_profiles
     (uuid, name, game_mode, x, y, z, yaw, pitch, selected_hotbar_slot,
      health, hunger, saturation)
     VALUES (?1, ?2, ?3, ?4, ?5, ?6, ?7, ?8, ?9, ?10, ?11, ?12)
     ON CONFLICT(uuid) DO UPDATE SET
     name=excluded.name, game_mode=excluded.game_mode, x=excluded.x,
     y=excluded.y, z=excluded.z, yaw=excluded.yaw, pitch=excluded.pitch,
     selected_hotbar_slot=excluded.selected_hotbar_slot,
     health=excluded.health, hunger=excluded.hunger,
     saturation=excluded.saturation"@,
{
    "INSERT INTO player_profiles
     (uuid, name, game_mode, x, y, z, yaw, pitch, selected_hotbar_slot,
      health, hunger, saturation)
     VALUES (?1, ?2, ?3, ?4, ?5, ?6, ?7, ?8, ?9, ?10, ?11, ?12)
     ON CONFLICT(uuid) DO UPDATE SET
     name=excluded.name, game_mode=excluded.game_mode, x=excluded.x,
     y=excluded.y, z=excluded.z, yaw=excluded.yaw, pitch=excluded.pitch,
     selected_hotbar_slot=excluded.selected_hotbar_slot,
     health=excluded.health, hunger=excluded.hunger,
     saturation=excluded.saturation"
}

/// Allows saving a home unless the player already keeps the most homes and the home is new.
pub fn check_home_limit(home_exists: bool, home_count: usize) -> (r: Result<(), PlayerStoreError>)
    ensures
        r is Ok == (home_exists || home_count < MAX_HOMES),
        r matches Err(e) ==> e is HomeLimitExceeded,
{
    if !home_exists && home_count >= MAX_HOMES {
        Err(PlayerStoreError::HomeLimitExceeded)
    } else {
        Ok(())
    }
}

/// 16 to the power `k`.
pub open spec fn pow16(k: nat) -> int
    decreases k,
{
    if k == 0 {
        1
    } else {
        16 * pow16((k - 1) as nat)
    }
}

/// The lowercase hexadecimal digit of `n`.
pub open spec fn hex_digit(n: int) -> char {
    if n < 10 {
        (48 + n) as char
    } else {
        (87 + n) as char
    }
}

/// Which of the 32 hex digits stands at character `i` of the hyphenated form.
pub open spec fn uuid_digit_index(i: int) -> int {
    if i < 8 {
        i
    } else if i < 13 {
        i - 1
    } else if i < 18 {
        i - 2
    } else if i < 23 {
        i - 3
    } else {
        i - 4
    }
}

/// The hyphenated lowercase form of a uuid: its 32 hex digits, most significant first, in
/// groups of 8, 4, 4, 4 and 12 joined by hyphens.
pub open spec fn hyphenated(u: u128) -> Seq<char> {
    Seq::new(
        36,
        |i: int|
            if i == 8 || i == 13 || i == 18 || i == 23 {
                '-'
            } else {
                hex_digit((u as int / pow16((31 - uuid_digit_index(i)) as nat)) % 16)
            },
    )
}

/// Formats a uuid with the `uuid` crate's `Display` (`Uuid::from_u128(u).to_string()`), which
/// writes the hyphenated lowercase form of its big-endian bytes.
#[verifier::external_body]
fn uuid_text(uuid: u128) -> (r: String)
    ensures
        r@ == hyphenated(uuid),
{
    uuid::Uuid::from_u128(uuid).to_string()
}

/// The storage key of a player's profile: the uuid in its hyphenated lowercase form.
pub fn profile_key(uuid: u128) -> (r: String)
    ensures
        r@ == hyphenated(uuid),
{
    uuid_text(uuid)
}

/// The key prefix of a player's homes.
pub open spec fn spec_home_prefix(uuid: u128) -> Seq<char> {
    hyphenated(uuid) + "/"@
}

/// The key prefix of a player's homes: the uuid and a slash.
pub fn home_prefix(uuid: u128) -> (r: String)
    ensures
        r@ == spec_home_prefix(uuid),
{
    let mut key = uuid_text(uuid);
    key.append("/");
    key
}

/// The storage key of a player's home: the uuid, a slash and the home's name.
pub fn home_key(uuid: u128, name: &str) -> (r: String)
    ensures
        r@ == spec_home_prefix(uuid) + name@,
{
    let mut key = home_prefix(uuid);
    key.append(name);
    key
}

/// A home that was saved is listed among its owner's home names: whatever else the homes table
/// holds, stripping the owner's key prefix from its keys yields the home's name.
pub proof fn lemma_saved_home_is_listed(keys: Seq<Seq<char>>, uuid: u128, name: Seq<char>)
    requires
        keys.contains(spec_home_prefix(uuid) + name),
    ensures
        stripped(keys, spec_home_prefix(uuid)).contains(name),
    decreases keys.len(),
{
    let prefix = spec_home_prefix(uuid);
    let key = prefix + name;
    let last = keys.last();
    let rest = keys.drop_last();
    if last == key {
        assert(key.subrange(0, prefix.len() as int) =~= prefix);
        assert(key.subrange(prefix.len() as int, key.len() as int) =~= name);
        let listed = stripped(keys, prefix);
        assert(listed == stripped(rest, prefix).push(name));
        assert(listed[listed.len() - 1] == name);
    } else {
        let j = choose|j: int| 0 <= j < keys.len() && keys[j] == key;
        assert(j < keys.len() - 1);
        assert(rest[j] == key);
        lemma_saved_home_is_listed(rest, uuid, name);
        let inner = stripped(rest, prefix);
        let k = choose|k: int| 0 <= k < inner.len() && inner[k] == name;
        let listed = stripped(keys, prefix);
        if prefix.len() <= last.len() && last.subrange(0, prefix.len() as int) == prefix {
            assert(listed == inner.push(last.subrange(prefix.len() as int, last.len() as int)));
            assert(listed[k] == name);
        } else {
            assert(listed == inner);
        }
    }
}

/// The home limit holds across saves: a store that keeps at most `MAX_HOMES` homes for a player
/// still keeps at most that many after any save that `check_home_limit` lets through.
pub proof fn lemma_home_limit_is_kept(home_exists: bool, home_count: usize)
    requires
        home_count <= MAX_HOMES,
        home_exists || home_count < MAX_HOMES,
    ensures
        (if home_exists { home_count as int } else { home_count + 1 }) <= MAX_HOMES,
{
}

proof fn lemma_pow16_positive(k: nat)
    ensures
        pow16(k) > 0,
    decreases k,
{
    if k > 0 {
        lemma_pow16_positive((k - 1) as nat);
    }
}

proof fn lemma_hex_digit_injective(n: int, m: int)
    requires
        0 <= n < 16,
        0 <= m < 16,
        hex_digit(n) == hex_digit(m),
    ensures
        n == m,
{
    assert(hex_digit(n) as int == if n < 10 { 48 + n } else { 87 + n });
    assert(hex_digit(m) as int == if m < 10 { 48 + m } else { 87 + m });
}

/// Two values below 16 to the power 32 whose hex digits agree at every position agree from
/// position `j` upwards.
proof fn lemma_digits_agree_above(u: u128, v: u128, j: nat)
    requires
        j <= 32,
        forall|k: nat| k < 32 ==> #[trigger] ((u as int / pow16(k)) % 16) == (v as int / pow16(k)) % 16,
    ensures
        u as int / pow16(j) == v as int / pow16(j),
    decreases 32 - j,
{
    lemma_pow16_positive(j);
    if j == 32 {
        assert(pow16(32) == 0x1_0000_0000_0000_0000_0000_0000_0000_0000) by {
            reveal_with_fuel(pow16, 33);
        }
        lemma_basic_div(u as int, pow16(32));
        lemma_basic_div(v as int, pow16(32));
    } else {
        lemma_digits_agree_above(u, v, j + 1);
        let x = u as int / pow16(j);
        let y = v as int / pow16(j);
        assert(pow16(j + 1) == pow16(j) * 16);
        lemma_div_denominator(u as int, pow16(j), 16);
        lemma_div_denominator(v as int, pow16(j), 16);
        lemma_fundamental_div_mod(x, 16);
        lemma_fundamental_div_mod(y, 16);
        assert((u as int / pow16(j)) % 16 == (v as int / pow16(j)) % 16);
    }
}

/// The hyphenated form tells uuids apart.
proof fn lemma_hyphenated_injective(u: u128, v: u128)
    requires
        hyphenated(u) == hyphenated(v),
    ensures
        u == v,
{
    assert forall|k: nat| k < 32 implies #[trigger] ((u as int / pow16(k)) % 16) == (v as int / pow16(k)) % 16 by {
        let t: int = 31 - k;
        let i: int = if t < 8 {
            t
        } else if t < 12 {
            t + 1
        } else if t < 16 {
            t + 2
        } else if t < 20 {
            t + 3
        } else {
            t + 4
        };
        assert(uuid_digit_index(i) == t);
        assert((31 - uuid_digit_index(i)) as nat == k);
        lemma_pow16_positive(k);
        assert(i != 8 && i != 13 && i != 18 && i != 23 && 0 <= i < 36);
        assert(hyphenated(u)[i] == hex_digit((u as int / pow16(k)) % 16));
        assert(hyphenated(v)[i] == hex_digit((v as int / pow16(k)) % 16));
        lemma_hex_digit_injective((u as int / pow16(k)) % 16, (v as int / pow16(k)) % 16);
    }
    lemma_digits_agree_above(u, v, 0);
}

/// Homes are kept per player: saving a home for one player leaves every other player's list of
/// home names as it was.
pub proof fn lemma_homes_are_per_player(keys: Seq<Seq<char>>, owner: u128, other: u128, name: Seq<char>)
    requires
        owner != other,
    ensures
        stripped(keys.push(spec_home_prefix(owner) + name), spec_home_prefix(other))
            == stripped(keys, spec_home_prefix(other)),
{
    let key = spec_home_prefix(owner) + name;
    let prefix = spec_home_prefix(other);
    let all = keys.push(key);
    assert(all.drop_last() =~= keys);
    assert(all.last() == key);
    if prefix.len() <= key.len() && key.subrange(0, prefix.len() as int) == prefix {
        assert(hyphenated(owner) =~= key.subrange(0, 36));
        assert(hyphenated(other) =~= prefix.subrange(0, 36));
        assert(key.subrange(0, 36) =~= key.subrange(0, prefix.len() as int).subrange(0, 36));
        lemma_hyphenated_injective(owner, other);
    }
}

} // verus!
