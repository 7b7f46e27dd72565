//! Save slots: slot checks, checksums and save summaries. Reading and
//! writing the files is left to the caller.

use vstd::prelude::*;
use vstd::string::StringSliceAdditionalSpecFns;

use crate::game::state::{GameState, Wind};
use crate::text::{decimal, decimal_string};

verus! {

pub const MAX_SAVE_SLOTS: usize = 3;

/// A summary of a save: slot, wind and round, currency, and when.
#[derive(Clone, Debug)]
pub struct SaveMeta {
    pub slot: usize,
    pub wind: String,
    pub round: u8,
    pub currency: u32,
    pub timestamp: String,
}

pub const FNV_OFFSET: u64 = 0xcbf29ce484222325;

pub const FNV_PRIME: u64 = 0x100000001b3;

/// FNV-1a over `bytes`: start from the offset basis; for each byte, xor
/// it in and multiply by the prime, wrapping.
pub open spec fn fnv1a(bytes: Seq<u8>) -> u64
    decreases bytes.len(),
{
    if bytes.len() == 0 {
        FNV_OFFSET
    } else {
        (fnv1a(bytes.drop_last()) ^ (bytes.last() as u64)).wrapping_mul(FNV_PRIME)
    }
}

/// Simple FNV-1a hash of a string's UTF-8 bytes, for checksums.
pub fn simple_hash(s: &str) -> (h: u64)
    ensures
        h == fnv1a(s.spec_bytes()),
{
    let bytes = s.as_bytes();
    let mut hash: u64 = FNV_OFFSET;
    let mut i: usize = 0;
    while i < bytes.len()
        invariant
            i <= bytes@.len(),
            hash == fnv1a(bytes@.take(i as int)),
        decreases bytes@.len() - i,
    {
        proof {
            assert(bytes@.take(i + 1).drop_last() =~= bytes@.take(i as int));
        }
        hash = hash ^ (bytes[i] as u64);
        hash = hash.wrapping_mul(FNV_PRIME);
        i = i + 1;
    }
    assert(bytes@.take(i as int) =~= bytes@);
    hash
}

/// A slot that saving accepts: 0, 1 or 2; else the error message.
pub fn check_save_slot(slot: usize) -> (r: Result<(), String>)
    ensures
        slot < MAX_SAVE_SLOTS <==> r is Ok,
        r matches Err(e) ==> e@ == "存档位 "@ + decimal(slot as nat) + " 无效 (0-2)"@,
{
    if slot >= MAX_SAVE_SLOTS {
        let mut msg = String::from_str("存档位 ");
        let n = decimal_string(slot as u64);
        msg.append(n.as_str());
        msg.append(" 无效 (0-2)");
        return Err(msg);
    }
    Ok(())
}

/// A slot that loading accepts: 0, 1 or 2; else the error message.
pub fn check_load_slot(slot: usize) -> (r: Result<(), String>)
    ensures
        slot < MAX_SAVE_SLOTS <==> r is Ok,
        r matches Err(e) ==> e@ == "存档位 "@ + decimal(slot as nat) + " 无效"@,
{
    if slot >= MAX_SAVE_SLOTS {
        let mut msg = String::from_str("存档位 ");
        let n = decimal_string(slot as u64);
        msg.append(n.as_str());
        msg.append(" 无效");
        return Err(msg);
    }
    Ok(())
}

/// The file name of a slot: `slot_N.json`.
pub fn slot_file_name(slot: usize) -> (name: String)
    ensures
        name@ == "slot_"@ + decimal(slot as nat) + ".json"@,
{
    let mut name = String::from_str("slot_");
    let n = decimal_string(slot as u64);
    name.append(n.as_str());
    name.append(".json");
    name
}

/// Checks a saved checksum against the hash of the re-serialised data.
pub fn verify_checksum(data_json: &str, checksum: u64) -> (r: Result<(), String>)
    ensures
        r is Ok <==> fnv1a(data_json.spec_bytes()) == checksum,
        r matches Err(e) ==> e@ == "存档校验失败 — 文件可能已损坏"@,
{
    let computed = simple_hash(data_json);
    if computed != checksum {
        return Err(String::from_str("存档校验失败 — 文件可能已损坏"));
    }
    Ok(())
}

/// The name of a wind as it is written in saves and views.
pub open spec fn wind_label(w: Wind) -> Seq<char> {
    match w {
        Wind::East => "East"@,
        Wind::South => "South"@,
        Wind::West => "West"@,
        Wind::North => "North"@,
    }
}

pub fn wind_name(w: Wind) -> (s: String)
    ensures
        s@ == wind_label(w),
{
    match w {
        Wind::East => String::from_str("East"),
        Wind::South => String::from_str("South"),
        Wind::West => String::from_str("West"),
        Wind::North => String::from_str("North"),
    }
}

impl GameState {
    /// The summary of this state saved in `slot` at `timestamp`.
    pub fn save_meta(&self, slot: usize, timestamp: String) -> (m: SaveMeta)
        ensures
            m.slot == slot,
            m.wind@ == wind_label(self.current_wind),
            m.round == self.current_round,
            m.currency == self.currency,
            m.timestamp == timestamp,
    {
        SaveMeta {
            slot,
            wind: wind_name(self.current_wind),
            round: self.current_round,
            currency: self.currency,
            timestamp,
        }
    }
}

} // verus!
