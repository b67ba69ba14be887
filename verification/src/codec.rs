//! Key codec: a reversible escape scheme turning an arbitrary permission key
//! into a field name the storage layer accepts.
//!
//! The storage layer reserves two characters in field names: `$` (operator
//! prefix) and `.` (path separator). The codec replaces each with a
//! two-character escape, `$d` and `$p`, and leaves every other character
//! unchanged. Decoding scans for the `$` marker and reconstructs the reserved
//! character from the selector that follows; a field that does not follow the
//! escape grammar has no decoding.

use vstd::prelude::*;

verus! {

/// What a single key character contributes to the encoded field name.
pub open spec fn enc_char(c: char) -> Seq<char> {
    if c == '$' {
        seq!['$', 'd']
    } else if c == '.' {
        seq!['$', 'p']
    } else {
        seq![c]
    }
}

/// The encoded field name of a key: each character's escape, concatenated.
pub open spec fn encode_spec(s: Seq<char>) -> Seq<char>
    decreases s.len(),
{
    if s.len() == 0 {
        Seq::empty()
    } else {
        enc_char(s[0]) + encode_spec(s.drop_first())
    }
}

/// Prefix a decoded character onto the decoding of the remainder, if any.
pub open spec fn prepend_char(c: char, rest: Option<Seq<char>>) -> Option<Seq<char>> {
    match rest {
        Option::Some(t) => Option::Some(seq![c] + t),
        Option::None => Option::None,
    }
}

/// The decoding of a field name: `None` when the field does not follow the
/// escape grammar (a trailing marker, or a selector other than `d` or `p`),
/// otherwise the unique key that encodes to it.
pub open spec fn decode_spec(s: Seq<char>) -> Option<Seq<char>>
    decreases s.len(),
{
    if s.len() == 0 {
        Option::Some(Seq::empty())
    } else if s[0] == '$' {
        if s.len() == 1 {
            Option::None
        } else if s[1] == 'd' {
            prepend_char('$', decode_spec(s.skip(2)))
        } else if s[1] == 'p' {
            prepend_char('.', decode_spec(s.skip(2)))
        } else {
            Option::None
        }
    } else {
        prepend_char(s[0], decode_spec(s.drop_first()))
    }
}

/// Encoding one more character appends its escape to the encoded prefix.
pub proof fn lemma_encode_push(s: Seq<char>, c: char)
    ensures
        encode_spec(s.push(c)) == encode_spec(s) + enc_char(c),
    decreases s.len(),
{
    if s.len() == 0 {
        assert(s.push(c).drop_first() =~= Seq::<char>::empty());
        assert(s.push(c)[0] == c);
        assert(enc_char(c) + encode_spec(Seq::<char>::empty()) =~= enc_char(c));
        assert(encode_spec(s) + enc_char(c) =~= enc_char(c));
    } else {
        lemma_encode_push(s.drop_first(), c);
        assert(s.push(c)[0] == s[0]);
        assert(s.push(c).drop_first() =~= s.drop_first().push(c));
        assert(enc_char(s[0]) + (encode_spec(s.drop_first()) + enc_char(c)) =~= (enc_char(s[0])
            + encode_spec(s.drop_first())) + enc_char(c));
    }
}

/// Decoding is the exact left inverse of encoding: every key, whatever
/// characters it holds, is recovered unchanged from its encoded field name.
pub proof fn lemma_decode_encode(s: Seq<char>)
    ensures
        decode_spec(encode_spec(s)) == Option::Some(s),
    decreases s.len(),
{
    if s.len() == 0 {
        assert(encode_spec(s) =~= Seq::<char>::empty());
        assert(s =~= Seq::<char>::empty());
    } else {
        let c = s[0];
        let rest = s.drop_first();
        lemma_decode_encode(rest);
        let er = encode_spec(rest);
        let e = encode_spec(s);
        assert(e == enc_char(c) + er);
        if c == '$' {
            assert(e =~= seq!['$', 'd'] + er);
            assert(e[0] == '$');
            assert(e[1] == 'd');
            assert(e.skip(2) =~= er);
            assert(seq!['$'] + rest =~= s);
        } else if c == '.' {
            assert(e =~= seq!['$', 'p'] + er);
            assert(e[0] == '$');
            assert(e[1] == 'p');
            assert(e.skip(2) =~= er);
            assert(seq!['.'] + rest =~= s);
        } else {
            assert(e =~= seq![c] + er);
            assert(e[0] == c);
            assert(e.drop_first() =~= er);
            assert(seq![c] + rest =~= s);
        }
    }
}

/// Encoding is injective: two distinct keys never collide in storage.
pub proof fn lemma_encode_injective(k1: Seq<char>, k2: Seq<char>)
    requires
        k1 != k2,
    ensures
        encode_spec(k1) != encode_spec(k2),
{
    if encode_spec(k1) == encode_spec(k2) {
        lemma_decode_encode(k1);
        lemma_decode_encode(k2);
        assert(false);
    }
}

/// An encoded field name never collides with the reserved identity field:
/// `_id` holds no reserved character, so it encodes to itself, and encoding
/// is injective.
pub proof fn lemma_encode_never_identity(k: Seq<char>)
    requires
        k != "_id"@,
    ensures
        encode_spec(k) != "_id"@,
{
    reveal_strlit("_id");
    let s = "_id"@;
    let s1 = s.drop_first();
    let s2 = s1.drop_first();
    let s3 = s2.drop_first();
    assert(s.len() == 3 && s[0] == '_' && s[1] == 'i' && s[2] == 'd');
    assert(s1.len() == 2 && s1[0] == 'i' && s1[1] == 'd');
    assert(s2.len() == 1 && s2[0] == 'd');
    assert(s3.len() == 0);
    assert(encode_spec(s3) =~= Seq::<char>::empty());
    assert(encode_spec(s2) =~= seq!['d']);
    assert(encode_spec(s1) =~= seq!['i', 'd']);
    assert(encode_spec(s) =~= s);
    lemma_encode_injective(k, s);
}

} // verus!
