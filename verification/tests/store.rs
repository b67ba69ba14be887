//! The four operations driven end to end against an in-memory stand-in for
//! the document collection, which applies the atomic per-document update,
//! insert, find-with-projection and delete operations the storage layer
//! offers.

use std::collections::BTreeMap;

use atom_perms::error::StoreError;
use atom_perms::perm::{Perms, SetPlan};

/// One document per subject: the identity value and the stored fields
/// (encoded key, level), in insertion order.
struct Coll {
    docs: Vec<(String, Vec<(String, u32)>)>,
}

impl Coll {
    fn new() -> Self {
        Coll { docs: Vec::new() }
    }

    /// Atomic update of the one document matching `id`: assign the plan's
    /// fields, unset its cleared fields. Returns whether a document matched.
    fn update_one(&mut self, id: &str, plan: &SetPlan) -> bool {
        for doc in self.docs.iter_mut() {
            if doc.0 == id {
                for (field, level) in plan.assign.iter() {
                    if let Some(slot) = doc.1.iter_mut().find(|f| f.0 == *field) {
                        slot.1 = *level;
                    } else {
                        doc.1.push((field.clone(), *level));
                    }
                }
                doc.1.retain(|f| !plan.clear.contains(&f.0));
                return true;
            }
        }
        false
    }

    /// Insert a new document; a duplicate identity is a storage fault.
    fn insert_one(&mut self, id: &str, fields: &[(String, u32)]) -> Result<(), StoreError> {
        if self.docs.iter().any(|d| d.0 == id) {
            return Err(StoreError::StorageFault {
                reason: "duplicate key".to_string(),
            });
        }
        self.docs.push((id.to_string(), fields.to_vec()));
        Ok(())
    }

    /// Fetch the document for `id`, restricted to the projected fields when
    /// a projection is given; the identity field is always included.
    fn find_one(&self, id: &str, projection: Option<&[String]>) -> Option<Vec<(String, u32)>> {
        let doc = self.docs.iter().find(|d| d.0 == id)?;
        let mut fields = vec![("_id".to_string(), 0u32)];
        for (name, level) in doc.1.iter() {
            let keep = match projection {
                Some(proj) => proj.contains(name),
                None => true,
            };
            if keep {
                fields.push((name.clone(), *level));
            }
        }
        Some(fields)
    }

    /// Delete the document for `id`, if present.
    fn delete_one(&mut self, id: &str) {
        self.docs.retain(|d| d.0 != id);
    }
}

fn do_set(c: &mut Coll, id: &str, entries: Vec<(String, u32)>) -> Result<(), StoreError> {
    let plan = Perms::set_plan(&entries)?;
    if c.update_one(id, &plan) {
        Ok(())
    } else {
        c.insert_one(id, &plan.assign)
    }
}

fn do_get(c: &Coll, id: &str, keys: Vec<String>) -> Result<BTreeMap<String, u32>, StoreError> {
    let proj = Perms::projection_plan(&keys)?;
    let doc = c.find_one(id, Some(&proj)).unwrap_or_default();
    let entries = Perms::read_record(&doc)?;
    Ok(entries.into_iter().collect())
}

fn do_list(c: &Coll, id: &str) -> Result<BTreeMap<String, u32>, StoreError> {
    let doc = c.find_one(id, None).unwrap_or_default();
    let entries = Perms::read_record(&doc)?;
    Ok(entries.into_iter().collect())
}

fn do_wipe(c: &mut Coll, id: &str) -> Result<(), StoreError> {
    c.delete_one(id);
    Ok(())
}

fn entries(pairs: &[(&str, u32)]) -> Vec<(String, u32)> {
    pairs.iter().map(|(k, v)| (k.to_string(), *v)).collect()
}

fn keys(names: &[&str]) -> Vec<String> {
    names.iter().map(|k| k.to_string()).collect()
}

fn map(pairs: &[(&str, u32)]) -> BTreeMap<String, u32> {
    pairs.iter().map(|(k, v)| (k.to_string(), *v)).collect()
}

#[test]
fn set_plan_partitions_and_encodes() {
    let plan = Perms::set_plan(&entries(&[("read", 1), ("write", 0), ("a.b", 2), ("$", 0)]))
        .unwrap();
    assert_eq!(
        plan.assign,
        vec![("read".to_string(), 1), ("a$pb".to_string(), 2)]
    );
    assert_eq!(plan.clear, vec!["write".to_string(), "$d".to_string()]);
}

#[test]
fn set_plan_rejects_any_bad_key() {
    assert_eq!(
        Perms::set_plan(&entries(&[("ok", 1), ("", 2)])),
        Err(StoreError::BadKey)
    );
    assert_eq!(
        Perms::set_plan(&entries(&[("_id", 7)])),
        Err(StoreError::BadKey)
    );
}

#[test]
fn projection_plan_encodes_requested_keys() {
    let proj = Perms::projection_plan(&keys(&["read", "a.b"])).unwrap();
    assert_eq!(proj, vec!["read".to_string(), "a$pb".to_string()]);
    assert_eq!(
        Perms::projection_plan(&keys(&["read", "_id"])),
        Err(StoreError::BadKey)
    );
}

#[test]
fn read_record_strips_identity_and_decodes() {
    let doc = vec![
        ("_id".to_string(), 0u32),
        ("a$pb".to_string(), 3u32),
        ("read".to_string(), 1u32),
    ];
    let out = Perms::read_record(&doc).unwrap();
    assert_eq!(out, vec![("a.b".to_string(), 3), ("read".to_string(), 1)]);
}

#[test]
fn read_record_faults_on_foreign_field() {
    let doc = vec![("_id".to_string(), 0u32), ("$x".to_string(), 1u32)];
    assert_eq!(
        Perms::read_record(&doc),
        Err(StoreError::DecodeInconsistency)
    );
}

#[test]
fn zero_means_absent() {
    let mut c = Coll::new();
    do_set(&mut c, "s1", entries(&[("k", 0)])).unwrap();
    assert_eq!(do_get(&c, "s1", keys(&["k"])).unwrap(), map(&[]));
    assert_eq!(do_list(&c, "s1").unwrap(), map(&[]));
}

#[test]
fn setting_zero_removes_a_stored_key() {
    let mut c = Coll::new();
    do_set(&mut c, "s1", entries(&[("k", 4), ("j", 2)])).unwrap();
    do_set(&mut c, "s1", entries(&[("k", 0)])).unwrap();
    assert_eq!(do_list(&c, "s1").unwrap(), map(&[("j", 2)]));
}

#[test]
fn idempotent_wipe() {
    let mut c = Coll::new();
    do_set(&mut c, "s1", entries(&[("k", 3)])).unwrap();
    let first = do_wipe(&mut c, "s1");
    let second = do_wipe(&mut c, "s1");
    assert_eq!(first, Ok(()));
    assert_eq!(second, Ok(()));
    assert_eq!(do_list(&c, "s1").unwrap(), map(&[]));
    // an id that never existed also wipes without fault
    assert_eq!(do_wipe(&mut c, "ghost-id"), Ok(()));
}

#[test]
fn upsert_then_update() {
    let mut c = Coll::new();
    do_set(&mut c, "s1", entries(&[("k", 5)])).unwrap();
    assert_eq!(c.docs.len(), 1);
    do_set(&mut c, "s1", entries(&[("k", 7)])).unwrap();
    assert_eq!(c.docs.len(), 1, "update must not create a second document");
    assert_eq!(do_list(&c, "s1").unwrap(), map(&[("k", 7)]));
}

#[test]
fn partial_projection() {
    let mut c = Coll::new();
    do_set(&mut c, "s1", entries(&[("a", 1), ("b", 2), ("c", 3)])).unwrap();
    assert_eq!(
        do_get(&c, "s1", keys(&["a", "c", "z"])).unwrap(),
        map(&[("a", 1), ("c", 3)])
    );
}

#[test]
fn bad_key_rejection_leaves_record_unchanged() {
    let mut c = Coll::new();
    do_set(&mut c, "s1", entries(&[("a", 1)])).unwrap();
    assert_eq!(
        do_set(&mut c, "s1", entries(&[("", 1)])),
        Err(StoreError::BadKey)
    );
    assert_eq!(
        do_set(&mut c, "s1", entries(&[("_id", 1)])),
        Err(StoreError::BadKey)
    );
    assert_eq!(
        do_set(&mut c, "s1", entries(&[("b", 2), ("_id", 1)])),
        Err(StoreError::BadKey)
    );
    assert_eq!(do_list(&c, "s1").unwrap(), map(&[("a", 1)]));
}

#[test]
fn reserved_characters_survive_storage() {
    let mut c = Coll::new();
    do_set(&mut c, "s1", entries(&[("a.b", 9), ("c$d", 8)])).unwrap();
    assert_eq!(
        do_list(&c, "s1").unwrap(),
        map(&[("a.b", 9), ("c$d", 8)])
    );
    assert_eq!(
        do_get(&c, "s1", keys(&["a.b"])).unwrap(),
        map(&[("a.b", 9)])
    );
}

#[test]
fn insert_race_surfaces_duplicate_fault() {
    let mut c = Coll::new();
    do_set(&mut c, "s1", entries(&[("k", 1)])).unwrap();
    // a second insert for the same identity is the storage layer's fault
    let plan = Perms::set_plan(&entries(&[("k", 2)])).unwrap();
    assert_eq!(
        c.insert_one("s1", &plan.assign),
        Err(StoreError::StorageFault {
            reason: "duplicate key".to_string()
        })
    );
}

#[test]
fn end_to_end_scenario() {
    let mut c = Coll::new();
    do_set(&mut c, "u1", entries(&[("read", 1), ("write", 2)])).unwrap();
    assert_eq!(
        do_list(&c, "u1").unwrap(),
        map(&[("read", 1), ("write", 2)])
    );
    do_set(&mut c, "u1", entries(&[("write", 0)])).unwrap();
    assert_eq!(do_list(&c, "u1").unwrap(), map(&[("read", 1)]));
    do_wipe(&mut c, "u1").unwrap();
    assert_eq!(do_list(&c, "u1").unwrap(), map(&[]));
}
