//! The embedded key-value engine, over byte-string keys and values.
//!
//! A store is the only writer of its database, so what the database holds
//! changes only through the `&mut` operations here.
use crate::keys::lex_lt;
use vstd::prelude::*;

verus! {

#[verifier::external_type_specification]
#[verifier::external_body]
pub struct ExDb(sled::Db);

#[verifier::external_type_specification]
#[verifier::external_body]
pub struct ExSledError(sled::Error);

/// The key-value pairs that the database holds.
pub uninterp spec fn db_contents(db: sled::Db) -> Map<Seq<u8>, Seq<u8>>;

/// What the database's files hold: the entries that a crash would leave.
pub uninterp spec fn db_durable(db: sled::Db) -> Map<Seq<u8>, Seq<u8>>;

/// `es` lists every entry of `m` once, in ascending lexicographic key order.
pub open spec fn scan_of(es: Seq<(Vec<u8>, Vec<u8>)>, m: Map<Seq<u8>, Seq<u8>>) -> bool {
    &&& forall|i: int, j: int|
        0 <= i < j < es.len() ==> lex_lt(#[trigger] es[i].0@, #[trigger] es[j].0@)
    &&& forall|i: int|
        0 <= i < es.len() ==> m.contains_key(#[trigger] es[i].0@) && m[es[i].0@] == es[i].1@
    &&& forall|k: Seq<u8>|
        #[trigger] m.contains_key(k) ==> exists|i: int| 0 <= i < es.len() && #[trigger] es[i].0@ == k
}

/// Relies on `sled::Config::temporary` and `sled::Config::open`: a temporary
/// database lives in a fresh file and starts empty.
#[verifier::external_body]
pub(crate) fn open_temporary() -> (r: Result<sled::Db, sled::Error>)
    ensures
        r is Ok ==> db_contents(r->Ok_0).dom() == Set::<Seq<u8>>::empty(),
{
    sled::Config::new().temporary(true).open()
}

/// Relies on `sled::open`: opens, or creates, the database kept at `path`.
#[verifier::external_body]
pub(crate) fn open_path(path: &str) -> (r: Result<sled::Db, sled::Error>) {
    sled::open(path)
}

/// Relies on `sled::Tree::get`: the value stored under `key`, if any.
#[verifier::external_body]
pub(crate) fn db_get(db: &sled::Db, key: &[u8]) -> (r: Result<Option<Vec<u8>>, sled::Error>)
    ensures
        r is Ok ==> (r->Ok_0 is Some <==> db_contents(*db).contains_key(key@)),
        r is Ok && r->Ok_0 is Some ==> r->Ok_0->Some_0@ == db_contents(*db)[key@],
{
    db.get(key).map(|v| v.map(|x| x.to_vec()))
}

/// Relies on `sled::Tree::insert`: on success `key` maps to `value`, and no
/// other key changes.
#[verifier::external_body]
pub(crate) fn db_insert(db: &mut sled::Db, key: &[u8], value: &[u8]) -> (r: Result<(), sled::Error>)
    ensures
        r is Ok ==> db_contents(*final(db)) == db_contents(*old(db)).insert(key@, value@),
{
    db.insert(key, value).map(|_| ())
}

/// Relies on `sled::Tree::remove`: on success `key` is gone, no other key
/// changes, and the value it held is returned.
#[verifier::external_body]
pub(crate) fn db_remove(db: &mut sled::Db, key: &[u8]) -> (r: Result<Option<Vec<u8>>, sled::Error>)
    ensures
        r is Ok ==> db_contents(*final(db)) == db_contents(*old(db)).remove(key@),
        r is Ok ==> (r->Ok_0 is Some <==> db_contents(*old(db)).contains_key(key@)),
{
    db.remove(key).map(|v| v.map(|x| x.to_vec()))
}

/// Relies on `sled::Tree::flush`: writes buffered changes to disk and calls
/// fsync; on success every earlier write would survive a crash. What the
/// database holds stays as it is.
#[verifier::external_body]
pub(crate) fn db_flush(db: &mut sled::Db) -> (r: Result<(), sled::Error>)
    ensures
        db_contents(*final(db)) == db_contents(*old(db)),
        r is Ok ==> db_durable(*final(db)) == db_contents(*final(db)),
{
    db.flush().map(|_| ())
}

/// Relies on `sled::Tree::iter`: it yields every entry once, in ascending
/// lexicographic order of keys.
#[verifier::external_body]
pub(crate) fn db_scan(db: &sled::Db) -> (r: Result<Vec<(Vec<u8>, Vec<u8>)>, sled::Error>)
    ensures
        r is Ok ==> scan_of(r->Ok_0@, db_contents(*db)),
{
    let mut out = Vec::new();
    for item in db.iter() {
        let (k, v) = item?;
        out.push((k.to_vec(), v.to_vec()));
    }
    Ok(out)
}

} // verus!
