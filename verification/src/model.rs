//! The mathematical model of the permission store.
//!
//! A record is a map from decoded permission keys to nonzero levels; the
//! store is a map from subject identifiers to records. The functions here
//! say what each of the four operations leaves behind when the storage layer
//! succeeds, and the lemmas state the store's laws over that model.

use vstd::prelude::*;

use crate::codec::encode_spec;

verus! {

/// A permission key is legal when it is non-empty and is not the reserved
/// identity field name.
pub open spec fn key_ok(k: Seq<char>) -> bool {
    k.len() > 0 && k != "_id"@
}

/// Every key of an entry sequence is legal.
pub open spec fn all_keys_ok(es: Seq<(Seq<char>, u32)>) -> bool {
    forall|i: int| 0 <= i < es.len() ==> key_ok(#[trigger] es[i].0)
}

/// The encoded fields a `set` request assigns: its nonzero entries, in
/// order, each key encoded.
pub open spec fn assign_fields(es: Seq<(Seq<char>, u32)>) -> Seq<(Seq<char>, u32)>
    decreases es.len(),
{
    if es.len() == 0 {
        Seq::empty()
    } else {
        let rest = assign_fields(es.drop_last());
        if es.last().1 == 0 {
            rest
        } else {
            rest.push((encode_spec(es.last().0), es.last().1))
        }
    }
}

/// The encoded fields a `set` request clears: its zero entries, in order,
/// each key encoded.
pub open spec fn clear_fields(es: Seq<(Seq<char>, u32)>) -> Seq<Seq<char>>
    decreases es.len(),
{
    if es.len() == 0 {
        Seq::empty()
    } else {
        let rest = clear_fields(es.drop_last());
        if es.last().1 == 0 {
            rest.push(encode_spec(es.last().0))
        } else {
            rest
        }
    }
}

/// The assignments a `set` request makes, as a map over decoded keys; a
/// later entry for the same key overrides an earlier one.
pub open spec fn upd_of(es: Seq<(Seq<char>, u32)>) -> Map<Seq<char>, u32>
    decreases es.len(),
{
    if es.len() == 0 {
        Map::empty()
    } else {
        let rest = upd_of(es.drop_last());
        if es.last().1 == 0 {
            rest
        } else {
            rest.insert(es.last().0, es.last().1)
        }
    }
}

/// The decoded keys a `set` request clears: those given level zero.
pub open spec fn zeroed_of(es: Seq<(Seq<char>, u32)>) -> Set<Seq<char>>
    decreases es.len(),
{
    if es.len() == 0 {
        Set::empty()
    } else {
        let rest = zeroed_of(es.drop_last());
        if es.last().1 == 0 {
            rest.insert(es.last().0)
        } else {
            rest
        }
    }
}

/// A subject's record after a successful `set`: the zeroed keys removed,
/// the nonzero assignments applied. Meaningful when every key is legal and
/// no key is both assigned and cleared by the same request (the storage
/// layer faults on such a conflicting update).
pub open spec fn record_after_set(r: Map<Seq<char>, u32>, es: Seq<(Seq<char>, u32)>) -> Map<
    Seq<char>,
    u32,
> {
    r.remove_keys(zeroed_of(es)).union_prefer_right(upd_of(es))
}

/// The record stored for a subject; a subject without a document reads as
/// an empty record.
pub open spec fn stored_record(
    s: Map<Seq<char>, Map<Seq<char>, u32>>,
    id: Seq<char>,
) -> Map<Seq<char>, u32> {
    if s.contains_key(id) {
        s[id]
    } else {
        Map::empty()
    }
}

/// The store after a successful `set`: the one document for `id` updated in
/// place, or created when absent (created from the empty record, so only the
/// nonzero assignments are stored).
pub open spec fn store_set(
    s: Map<Seq<char>, Map<Seq<char>, u32>>,
    id: Seq<char>,
    es: Seq<(Seq<char>, u32)>,
) -> Map<Seq<char>, Map<Seq<char>, u32>> {
    s.insert(id, record_after_set(stored_record(s, id), es))
}

/// What a successful `get` returns: the subject's record restricted to the
/// requested keys; requested keys that are absent are omitted, not padded
/// with zero.
pub open spec fn store_get(
    s: Map<Seq<char>, Map<Seq<char>, u32>>,
    id: Seq<char>,
    keys: Seq<Seq<char>>,
) -> Map<Seq<char>, u32> {
    stored_record(s, id).restrict(keys.to_set())
}

/// What a successful `list` returns: the subject's whole record.
pub open spec fn store_list(
    s: Map<Seq<char>, Map<Seq<char>, u32>>,
    id: Seq<char>,
) -> Map<Seq<char>, u32> {
    stored_record(s, id)
}

/// The store after a successful `wipe`: the subject's document removed,
/// whether or not one existed.
pub open spec fn store_wipe(
    s: Map<Seq<char>, Map<Seq<char>, u32>>,
    id: Seq<char>,
) -> Map<Seq<char>, Map<Seq<char>, u32>> {
    s.remove(id)
}

/// The decoded entries of a fetched document: the identity field dropped,
/// every other field name decoded, order kept. `None` when any remaining
/// field name does not follow the codec's grammar.
pub open spec fn decoded_fields(fs: Seq<(Seq<char>, u32)>) -> Option<Seq<(Seq<char>, u32)>>
    decreases fs.len(),
{
    if fs.len() == 0 {
        Option::Some(Seq::empty())
    } else {
        let rest = decoded_fields(fs.drop_last());
        if fs.last().0 == "_id"@ {
            rest
        } else {
            match crate::codec::decode_spec(fs.last().0) {
                Option::None => Option::None,
                Option::Some(k) => match rest {
                    Option::None => Option::None,
                    Option::Some(t) => Option::Some(t.push((k, fs.last().1))),
                },
            }
        }
    }
}

/// The decoded nonzero entries of a request, in order: what a `set` on a
/// fresh subject stores, named by the original keys.
pub open spec fn nonzero_entries(es: Seq<(Seq<char>, u32)>) -> Seq<(Seq<char>, u32)>
    decreases es.len(),
{
    if es.len() == 0 {
        Seq::empty()
    } else {
        let rest = nonzero_entries(es.drop_last());
        if es.last().1 == 0 {
            rest
        } else {
            rest.push((es.last().0, es.last().1))
        }
    }
}

/// Storage round trip for a created document: the encoded fields a `set`
/// stores for a fresh subject decode back to exactly its nonzero entries,
/// under their original keys — nothing is lost or renamed between a `set`
/// and a later `list`.
pub proof fn lemma_stored_fields_decode(es: Seq<(Seq<char>, u32)>)
    requires
        all_keys_ok(es),
    ensures
        decoded_fields(assign_fields(es)) == Option::Some(nonzero_entries(es)),
    decreases es.len(),
{
    if es.len() == 0 {
        assert(assign_fields(es) =~= Seq::<(Seq<char>, u32)>::empty());
        assert(nonzero_entries(es) =~= Seq::<(Seq<char>, u32)>::empty());
    } else {
        let pre = es.drop_last();
        assert forall|i: int| 0 <= i < pre.len() implies key_ok((#[trigger] pre[i]).0) by {
            assert(pre[i] == es[i]);
            assert(key_ok(es[i].0));
        }
        lemma_stored_fields_decode(pre);
        if es.last().1 == 0 {
            assert(assign_fields(es) == assign_fields(pre));
            assert(nonzero_entries(es) == nonzero_entries(pre));
        } else {
            let k = es.last().0;
            let v = es.last().1;
            let f = encode_spec(k);
            let afs = assign_fields(es);
            assert(afs == assign_fields(pre).push((f, v)));
            assert(afs.drop_last() =~= assign_fields(pre));
            assert(afs.last() == (f, v));
            assert(key_ok(es[es.len() - 1].0));
            crate::codec::lemma_encode_never_identity(k);
            crate::codec::lemma_decode_encode(k);
            assert(nonzero_entries(es) == nonzero_entries(pre).push((k, v)));
        }
    }
}

/// Once a prefix of a document fails to decode, the whole document fails.
pub proof fn lemma_decoded_fields_none(fs: Seq<(Seq<char>, u32)>, m: int)
    requires
        0 <= m <= fs.len(),
        decoded_fields(fs.take(m)) is None,
    ensures
        decoded_fields(fs) is None,
    decreases fs.len() - m,
{
    if m == fs.len() {
        assert(fs.take(m) =~= fs);
    } else {
        assert(fs.take(m + 1).drop_last() =~= fs.take(m));
        assert(fs.take(m + 1).last() == fs[m]);
        lemma_decoded_fields_none(fs, m + 1);
    }
}

/// Zero means absent: setting a key to level zero on a previously absent
/// subject leaves a record in which the key is not present, so neither a
/// `get` for that key nor a `list` shows it.
pub proof fn lemma_zero_means_absent(
    s: Map<Seq<char>, Map<Seq<char>, u32>>,
    id: Seq<char>,
    k: Seq<char>,
)
    requires
        !s.contains_key(id),
        key_ok(k),
    ensures
        !store_get(store_set(s, id, seq![(k, 0u32)]), id, seq![k]).contains_key(k),
        !store_list(store_set(s, id, seq![(k, 0u32)]), id).contains_key(k),
{
    let es = seq![(k, 0u32)];
    assert(es.drop_last() =~= Seq::<(Seq<char>, u32)>::empty());
    assert(upd_of(Seq::<(Seq<char>, u32)>::empty()) == Map::<Seq<char>, u32>::empty());
    assert(zeroed_of(Seq::<(Seq<char>, u32)>::empty()) == Set::<Seq<char>>::empty());
    let rec = record_after_set(Map::empty(), es);
    assert(!rec.contains_key(k));
}

/// Wipe is idempotent: wiping a subject twice leaves exactly the store that
/// wiping it once leaves, whether or not a document existed beforehand.
pub proof fn lemma_wipe_idempotent(s: Map<Seq<char>, Map<Seq<char>, u32>>, id: Seq<char>)
    ensures
        store_wipe(store_wipe(s, id), id) == store_wipe(s, id),
{
    assert(s.remove(id).remove(id) =~= s.remove(id));
}

/// Upsert then update: a `set` of one nonzero level on an absent subject
/// creates its one document, holding exactly that entry; a second `set` of
/// the same key updates that document in place, so the store holds no other
/// document for the subject and `list` shows the later level.
pub proof fn lemma_upsert_then_update(
    s: Map<Seq<char>, Map<Seq<char>, u32>>,
    id: Seq<char>,
    k: Seq<char>,
    v1: u32,
    v2: u32,
)
    requires
        !s.contains_key(id),
        key_ok(k),
        v1 != 0,
        v2 != 0,
    ensures
        ({
            let s1 = store_set(s, id, seq![(k, v1)]);
            let s2 = store_set(s1, id, seq![(k, v2)]);
            &&& s1.contains_key(id)
            &&& s1[id] == map![k => v1]
            &&& s2.dom() == s.dom().insert(id)
            &&& s2.dom() == s1.dom()
            &&& store_list(s2, id) == map![k => v2]
        }),
{
    let e1 = seq![(k, v1)];
    let e2 = seq![(k, v2)];
    assert(e1.drop_last() =~= Seq::<(Seq<char>, u32)>::empty());
    assert(e2.drop_last() =~= Seq::<(Seq<char>, u32)>::empty());
    assert(upd_of(Seq::<(Seq<char>, u32)>::empty()) == Map::<Seq<char>, u32>::empty());
    assert(zeroed_of(Seq::<(Seq<char>, u32)>::empty()) == Set::<Seq<char>>::empty());
    let s1 = store_set(s, id, e1);
    let rec1 = record_after_set(Map::empty(), e1);
    assert(rec1 =~= map![k => v1]);
    assert(s1[id] == rec1);
    let s2 = store_set(s1, id, e2);
    let rec2 = record_after_set(rec1, e2);
    assert(rec2 =~= map![k => v2]);
    assert(s2[id] == rec2);
    assert(s2.dom() =~= s.dom().insert(id));
    assert(s2.dom() =~= s1.dom());
}

} // verus!
