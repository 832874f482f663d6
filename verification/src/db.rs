//! The embedded database that holds the records of the dispute store.
//!
//! The database is sled's, opened as a temporary one. What is said here of
//! its methods is taken on trust from its source; everything built on it
//! is proved from that. A handle is never cloned, so that what a database
//! holds changes only through the handle that these functions are given.

use vstd::prelude::*;

verus! {

/// `sled::Db`, a handle to a database. Nothing inside it is visible here.
#[verifier::external_type_specification]
#[verifier::external_body]
pub struct ExDb(sled::Db);

/// `sled::Error`, what the database reports when it fails. Nothing inside
/// it is visible here.
#[verifier::external_type_specification]
#[verifier::external_body]
pub struct ExDbError(sled::Error);

/// What a database holds: its values by their keys.
pub uninterp spec fn db_entries(db: sled::Db) -> Map<Seq<u8>, Seq<u8>>;

/// A database that holds nothing.
pub open spec fn no_entries() -> Map<Seq<u8>, Seq<u8>> {
    Map::empty()
}

/// `sled::Config::open` on a configuration that is the default but for
/// `temporary(true)`: a database in a directory of its own, removed when the
/// database is dropped. Nothing is claimed of what it holds.
#[verifier::external_body]
pub(crate) fn db_open() -> (r: Result<sled::Db, sled::Error>) {
    sled::Config::new().temporary(true).open()
}

/// `sled::Tree::clear` on the database's default tree: when it succeeds,
/// every entry has been removed.
#[verifier::external_body]
pub(crate) fn db_clear(db: &mut sled::Db) -> (r: Result<(), sled::Error>)
    ensures
        r is Ok ==> db_entries(*final(db)) == no_entries(),
{
    db.clear()
}

/// `sled::Tree::get` on the database's default tree: the value under the
/// key, if there is one; the database holds what it held.
#[verifier::external_body]
pub(crate) fn db_get(db: &sled::Db, key: &Vec<u8>) -> (r: Result<Option<Vec<u8>>, sled::Error>)
    ensures
        match r {
            Ok(Some(value)) => db_entries(*db).contains_key(key@) && db_entries(*db)[key@]
                == value@,
            Ok(None) => !db_entries(*db).contains_key(key@),
            Err(_) => true,
        },
{
    match db.get(key) {
        Ok(found) => Ok(found.map(|value| value.to_vec())),
        Err(e) => Err(e),
    }
}

/// `sled::Tree::insert` on the database's default tree: when it succeeds,
/// the key holds the new value and every other key what it held. When it
/// fails, the write has either taken place as a whole or not at all.
#[verifier::external_body]
pub(crate) fn db_insert(db: &mut sled::Db, key: &Vec<u8>, value: Vec<u8>) -> (r: Result<
    (),
    sled::Error,
>)
    ensures
        match r {
            Ok(()) => db_entries(*final(db)) == db_entries(*old(db)).insert(key@, value@),
            Err(_) => db_entries(*final(db)) == db_entries(*old(db)) || db_entries(*final(db))
                == db_entries(*old(db)).insert(key@, value@),
        },
{
    match db.insert(key, value) {
        Ok(_) => Ok(()),
        Err(e) => Err(e),
    }
}

/// `sled::Tree::remove` on the database's default tree: when it succeeds,
/// the key is gone and every other key holds what it held. When it fails,
/// the removal has either taken place as a whole or not at all.
#[verifier::external_body]
pub(crate) fn db_remove(db: &mut sled::Db, key: &Vec<u8>) -> (r: Result<(), sled::Error>)
    ensures
        match r {
            Ok(()) => db_entries(*final(db)) == db_entries(*old(db)).remove(key@),
            Err(_) => db_entries(*final(db)) == db_entries(*old(db)) || db_entries(*final(db))
                == db_entries(*old(db)).remove(key@),
        },
{
    match db.remove(key) {
        Ok(_) => Ok(()),
        Err(e) => Err(e),
    }
}

} // verus!
