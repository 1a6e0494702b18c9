//! Metadata of an encrypted vault.
use vstd::prelude::*;
use chrono::Utc;

verus! {

/// Relies on `chrono::Utc::now`, written out with `DateTime::format` as
/// `%Y-%m-%dT%H:%M:%SZ`: the current time from the system clock; nothing is
/// known of which time. `Utc::now` panics if the clock reads before 1970.
#[verifier::external_body]
fn now_iso() -> String {
    Utc::now().format("%Y-%m-%dT%H:%M:%SZ").to_string()
}

/// Metadata stored inside a vault.
#[derive(Clone)]
pub struct AeroVaultMeta {
    pub version: u32,
    pub created: String,
    pub modified: String,
    pub description: Option<String>,
    pub file_count: u32,
}

/// Fresh metadata for a vault holding `entries`: format version 1, no
/// description, the current time as creation and modification time, and
/// the number of entries as file count.
pub fn update_meta_count(entries: &[(String, Vec<u8>)]) -> (r: AeroVaultMeta)
    ensures
        r.version == 1,
        r.description is None,
        r.file_count == entries@.len() as u32,
{
    let n = entries.len();
    AeroVaultMeta {
        version: 1,
        created: now_iso(),
        modified: now_iso(),
        description: None,
        file_count: #[verifier::truncate]
        (n as u32),
    }
}

} // verus!
