pub mod aerovault;
pub mod google_drive;
pub mod master_password;
pub mod paths;
pub mod sync;
pub mod sync_lemmas;
pub mod watcher;
