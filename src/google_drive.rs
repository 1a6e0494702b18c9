//! Configuration of the Google Drive storage provider.
use vstd::prelude::*;

verus! {

/// OAuth client credentials of the Google Drive provider.
#[derive(Debug, Clone)]
pub struct GoogleDriveConfig {
    pub client_id: String,
    pub client_secret: String,
}

impl GoogleDriveConfig {
    /// A configuration holding copies of the two credentials.
    pub fn new(client_id: &str, client_secret: &str) -> (r: Self)
        ensures
            r.client_id@ == client_id@,
            r.client_secret@ == client_secret@,
    {
        GoogleDriveConfig {
            client_id: String::from_str(client_id),
            client_secret: String::from_str(client_secret),
        }
    }
}

} // verus!
