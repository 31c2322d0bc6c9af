use vstd::prelude::*;

pub mod clean;
pub mod db;
pub mod import;
pub mod photodb_error;
pub mod raw_photo;
pub mod sync;
pub mod util;
pub mod verify;

use util::{join, push_component};

verus! {

/// The directory, under an archive root, that holds the archive's own files.
pub const CONFIG_ROOT: &'static str = ".photodb";

/// The name of the ledger's database file in `CONFIG_ROOT`.
pub const DB_PATH: &'static str = "photo.db";

/// Where the ledger of the archive rooted at `db_root` is stored:
/// `db_root/.photodb/photo.db`.
pub fn build_config_path(db_root: &String) -> (r: String)
    ensures
        r@ == join(join(db_root@, CONFIG_ROOT@), DB_PATH@),
{
    let mut r = db_root.clone();
    push_component(&mut r, CONFIG_ROOT);
    push_component(&mut r, DB_PATH);
    r
}

} // verus!
