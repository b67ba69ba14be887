//! The permission store's verified core: key validation, the executable
//! codec, and the pure halves of the four operations — what a `set` request
//! assigns and clears, which encoded fields a `get` projects, and how a
//! fetched document is decoded back into permission entries.

use vstd::prelude::*;

use crate::codec::{decode_spec, enc_char, encode_spec, lemma_encode_push, prepend_char};
use crate::error::StoreError;
use crate::model::{
    all_keys_ok, assign_fields, clear_fields, decoded_fields, key_ok, lemma_decoded_fields_none,
};

verus! {

/// Does this field name equal the reserved identity field?
fn is_id_field(s: &str) -> (b: bool)
    ensures
        b == (s@ == "_id"@),
{
    proof {
        reveal_strlit("_id");
    }
    let n = s.unicode_len();
    if n != 3 {
        return false;
    }
    let b = s.get_char(0) == '_' && s.get_char(1) == 'i' && s.get_char(2) == 'd';
    proof {
        if b {
            assert(s@ =~= "_id"@);
        }
    }
    b
}

/// Prefix a decoded prefix onto the decoding of a remainder, if any.
pub open spec fn prepend_seq(p: Seq<char>, rest: Option<Seq<char>>) -> Option<Seq<char>> {
    match rest {
        Option::Some(t) => Option::Some(p + t),
        Option::None => Option::None,
    }
}

/// The decoded view of owned entries: each key replaced by its characters.
pub open spec fn dec_entries(es: Seq<(String, u32)>) -> Seq<(Seq<char>, u32)> {
    es.map_values(|e: (String, u32)| (e.0@, e.1))
}

/// The decoded view of owned keys.
pub open spec fn dec_keys(ks: Seq<String>) -> Seq<Seq<char>> {
    ks.map_values(|k: String| k@)
}

/// The one atomic update a `set` request issues: the encoded fields to
/// assign with their nonzero levels, and the encoded fields to clear.
#[derive(Debug, PartialEq)]
pub struct SetPlan {
    pub assign: Vec<(String, u32)>,
    pub clear: Vec<String>,
}

/// The permission store's operations on plain values.
pub struct Perms;

impl Perms {
    /// Is this a legal permission key: non-empty and not the reserved
    /// identity field name?
    pub fn check_key(k: &str) -> (b: bool)
        ensures
            b == key_ok(k@),
    {
        let n = k.unicode_len();
        n != 0 && !is_id_field(k)
    }

    /// Encode a permission key as a storage-safe field name.
    pub fn encode(s: &str) -> (r: String)
        ensures
            r@ == encode_spec(s@),
    {
        let n = s.unicode_len();
        let mut out = String::new();
        let mut i: usize = 0;
        proof {
            assert(s@.take(0) =~= Seq::<char>::empty());
        }
        while i < n
            invariant
                n == s@.len(),
                i <= n,
                out@ == encode_spec(s@.take(i as int)),
            decreases n - i,
        {
            let c = s.get_char(i);
            if c == '$' {
                out.append("$d");
                proof {
                    reveal_strlit("$d");
                    assert("$d"@ =~= enc_char(c));
                }
            } else if c == '.' {
                out.append("$p");
                proof {
                    reveal_strlit("$p");
                    assert("$p"@ =~= enc_char(c));
                }
            } else {
                let piece = s.substring_char(i, i + 1);
                out.append(piece);
                proof {
                    assert(piece@ =~= enc_char(c));
                }
            }
            proof {
                lemma_encode_push(s@.take(i as int), c);
                assert(s@.take(i as int).push(c) =~= s@.take(i as int + 1));
            }
            i = i + 1;
        }
        proof {
            assert(s@.take(n as int) =~= s@);
        }
        out
    }

    /// Decode a stored field name back into the permission key it encodes.
    /// Fails exactly on field names the codec never produces: a trailing
    /// escape marker, or a selector other than the two recognized ones.
    pub fn decode(s: &str) -> (r: Result<String, StoreError>)
        ensures
            r is Ok <==> decode_spec(s@) is Some,
            r matches Ok(k) ==> Option::Some(k@) == decode_spec(s@),
            r matches Err(e) ==> e == StoreError::DecodeInconsistency,
    {
        let n = s.unicode_len();
        let mut out = String::new();
        let mut i: usize = 0;
        proof {
            assert(s@.skip(0) =~= s@);
            if decode_spec(s@) is Some {
                let t = decode_spec(s@)->Some_0;
                assert(out@ + t =~= t);
            }
        }
        while i < n
            invariant
                n == s@.len(),
                i <= n,
                decode_spec(s@) == prepend_seq(out@, decode_spec(s@.skip(i as int))),
            decreases n - i,
        {
            let ghost pre = out@;
            let ghost tail = s@.skip(i as int);
            proof {
                assert(tail[0] == s@[i as int]);
                assert(tail.len() == n - i);
            }
            let c = s.get_char(i);
            if c == '$' {
                if i + 1 == n {
                    proof {
                        assert(decode_spec(tail) is None);
                    }
                    return Err(StoreError::DecodeInconsistency);
                }
                let sel = s.get_char(i + 1);
                proof {
                    assert(tail[1] == s@[i as int + 1]);
                    assert(tail.skip(2) =~= s@.skip(i as int + 2));
                }
                if sel == 'd' {
                    out.append("$");
                    proof {
                        reveal_strlit("$");
                        assert(decode_spec(tail) == prepend_char('$', decode_spec(tail.skip(2))));
                        assert(out@ =~= pre + seq!['$']);
                        if decode_spec(tail.skip(2)) is Some {
                            let t = decode_spec(tail.skip(2))->Some_0;
                            assert(pre + (seq!['$'] + t) =~= out@ + t);
                        }
                    }
                } else if sel == 'p' {
                    out.append(".");
                    proof {
                        reveal_strlit(".");
                        assert(decode_spec(tail) == prepend_char('.', decode_spec(tail.skip(2))));
                        assert(out@ =~= pre + seq!['.']);
                        if decode_spec(tail.skip(2)) is Some {
                            let t = decode_spec(tail.skip(2))->Some_0;
                            assert(pre + (seq!['.'] + t) =~= out@ + t);
                        }
                    }
                } else {
                    proof {
                        assert(decode_spec(tail) is None);
                    }
                    return Err(StoreError::DecodeInconsistency);
                }
                i = i + 2;
            } else {
                let piece = s.substring_char(i, i + 1);
                out.append(piece);
                proof {
                    assert(piece@ =~= seq![c]);
                    assert(tail.drop_first() =~= s@.skip(i as int + 1));
                    assert(decode_spec(tail) == prepend_char(c, decode_spec(tail.drop_first())));
                    assert(out@ =~= pre + seq![c]);
                    if decode_spec(tail.drop_first()) is Some {
                        let t = decode_spec(tail.drop_first())->Some_0;
                        assert(pre + (seq![c] + t) =~= out@ + t);
                    }
                }
                i = i + 1;
            }
        }
        proof {
            assert(s@.skip(n as int) =~= Seq::<char>::empty());
            assert(out@ + Seq::<char>::empty() =~= out@);
        }
        Ok(out)
    }

    /// Validate and translate a `set` request: reject it whole if any key is
    /// illegal, otherwise partition its entries into the encoded fields to
    /// assign (nonzero levels) and to clear (zero levels), in request order.
    pub fn set_plan(entries: &Vec<(String, u32)>) -> (r: Result<SetPlan, StoreError>)
        ensures
            r is Ok <==> all_keys_ok(dec_entries(entries@)),
            r matches Err(e) ==> e == StoreError::BadKey,
            r matches Ok(p) ==> ({
                let es = dec_entries(entries@);
                &&& p.assign@.len() == assign_fields(es).len()
                &&& (forall|i: int|
                    0 <= i < p.assign@.len() ==> (#[trigger] p.assign@[i]).0@ == assign_fields(
                        es,
                    )[i].0 && p.assign@[i].1 == assign_fields(es)[i].1)
                &&& p.clear@.len() == clear_fields(es).len()
                &&& (forall|i: int|
                    0 <= i < p.clear@.len() ==> (#[trigger] p.clear@[i])@ == clear_fields(es)[i])
            }),
    {
        let ghost es = dec_entries(entries@);
        let mut assign: Vec<(String, u32)> = Vec::new();
        let mut clear: Vec<String> = Vec::new();
        let n = entries.len();
        let mut j: usize = 0;
        proof {
            assert(es.take(0) =~= Seq::<(Seq<char>, u32)>::empty());
        }
        while j < n
            invariant
                n == entries@.len(),
                j <= n,
                es == dec_entries(entries@),
                es.len() == n,
                all_keys_ok(es.take(j as int)),
                assign@.len() == assign_fields(es.take(j as int)).len(),
                forall|i: int|
                    0 <= i < assign@.len() ==> (#[trigger] assign@[i]).0@ == assign_fields(
                        es.take(j as int),
                    )[i].0 && assign@[i].1 == assign_fields(es.take(j as int))[i].1,
                clear@.len() == clear_fields(es.take(j as int)).len(),
                forall|i: int|
                    0 <= i < clear@.len() ==> (#[trigger] clear@[i])@ == clear_fields(
                        es.take(j as int),
                    )[i],
            decreases n - j,
        {
            let k = &entries[j].0;
            let v = entries[j].1;
            proof {
                assert(es[j as int] == (k@, v));
            }
            if !Self::check_key(k.as_str()) {
                proof {
                    assert(!key_ok(es[j as int].0));
                    assert(!all_keys_ok(es));
                }
                return Err(StoreError::BadKey);
            }
            let enc = Self::encode(k.as_str());
            let ghost pre = es.take(j as int);
            let ghost pre1 = es.take(j as int + 1);
            proof {
                assert(pre1.drop_last() =~= pre);
                assert(pre1.last() == es[j as int]);
            }
            if v == 0 {
                clear.push(enc);
                proof {
                    assert(clear_fields(pre1) == clear_fields(pre).push(encode_spec(k@)));
                    assert(assign_fields(pre1) == assign_fields(pre));
                }
            } else {
                assign.push((enc, v));
                proof {
                    assert(assign_fields(pre1) == assign_fields(pre).push((encode_spec(k@), v)));
                    assert(clear_fields(pre1) == clear_fields(pre));
                }
            }
            proof {
                assert forall|i: int| 0 <= i < pre1.len() implies key_ok(
                    (#[trigger] pre1[i]).0,
                ) by {
                    if i < j {
                        assert(pre1[i] == pre[i]);
                        assert(key_ok(pre[i].0));
                    } else {
                        assert(pre1[i] == es[j as int]);
                    }
                }
            }
            j = j + 1;
        }
        proof {
            assert(es.take(n as int) =~= es);
        }
        Ok(SetPlan { assign, clear })
    }

    /// Validate and translate a `get` request: reject it whole if any
    /// requested key is illegal, otherwise encode each requested key into
    /// the field the projection fetches.
    pub fn projection_plan(entries: &Vec<String>) -> (r: Result<Vec<String>, StoreError>)
        ensures
            r is Ok <==> (forall|i: int| 0 <= i < entries@.len() ==> key_ok(
                (#[trigger] entries@[i])@,
            )),
            r matches Err(e) ==> e == StoreError::BadKey,
            r matches Ok(p) ==> p@.len() == entries@.len() && (forall|i: int|
                0 <= i < p@.len() ==> (#[trigger] p@[i])@ == encode_spec(entries@[i]@)),
    {
        let mut fields: Vec<String> = Vec::new();
        let n = entries.len();
        let mut j: usize = 0;
        while j < n
            invariant
                n == entries@.len(),
                j <= n,
                fields@.len() == j,
                forall|i: int| 0 <= i < j ==> key_ok((#[trigger] entries@[i])@),
                forall|i: int|
                    0 <= i < j ==> (#[trigger] fields@[i])@ == encode_spec(entries@[i]@),
            decreases n - j,
        {
            let k = &entries[j];
            if !Self::check_key(k.as_str()) {
                return Err(StoreError::BadKey);
            }
            fields.push(Self::encode(k.as_str()));
            j = j + 1;
        }
        Ok(fields)
    }

    /// Decode a fetched document into permission entries: drop the identity
    /// field, decode every other field name, keep the stored order. Fails
    /// exactly when some remaining field was written by an incompatible
    /// codec.
    pub fn read_record(fields: &Vec<(String, u32)>) -> (r: Result<Vec<(String, u32)>, StoreError>)
        ensures
            r is Ok <==> decoded_fields(dec_entries(fields@)) is Some,
            r matches Ok(out) ==> Option::Some(dec_entries(out@)) == decoded_fields(
                dec_entries(fields@),
            ),
            r matches Err(e) ==> e == StoreError::DecodeInconsistency,
    {
        let ghost fs = dec_entries(fields@);
        let mut out: Vec<(String, u32)> = Vec::new();
        let n = fields.len();
        let mut j: usize = 0;
        proof {
            assert(fs.take(0) =~= Seq::<(Seq<char>, u32)>::empty());
            assert(dec_entries(out@) =~= Seq::<(Seq<char>, u32)>::empty());
        }
        while j < n
            invariant
                n == fields@.len(),
                j <= n,
                fs == dec_entries(fields@),
                fs.len() == n,
                decoded_fields(fs.take(j as int)) == Option::Some(dec_entries(out@)),
            decreases n - j,
        {
            let name = &fields[j].0;
            let v = fields[j].1;
            let ghost pre = fs.take(j as int);
            let ghost pre1 = fs.take(j as int + 1);
            proof {
                assert(fs[j as int] == (name@, v));
                assert(pre1.drop_last() =~= pre);
                assert(pre1.last() == fs[j as int]);
            }
            if is_id_field(name.as_str()) {
                proof {
                    assert(decoded_fields(pre1) == decoded_fields(pre));
                }
            } else {
                match Self::decode(name.as_str()) {
                    Ok(k) => {
                        let ghost old_out = dec_entries(out@);
                        out.push((k, v));
                        proof {
                            assert(decoded_fields(pre1) == Option::Some(
                                old_out.push((k@, v)),
                            ));
                            assert(dec_entries(out@) =~= old_out.push((k@, v)));
                        }
                    },
                    Err(e) => {
                        proof {
                            assert(decoded_fields(pre1) is None);
                            lemma_decoded_fields_none(fs, j as int + 1);
                        }
                        return Err(e);
                    },
                }
            }
            j = j + 1;
        }
        proof {
            assert(fs.take(n as int) =~= fs);
        }
        Ok(out)
    }
}

} // verus!
