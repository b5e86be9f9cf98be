//! Comparison of strings through their UTF-8 bytes, and the facts about UTF-8
//! that carry a result on bytes over to the characters.

use vstd::prelude::*;
use vstd::string::*;
use vstd::utf8::*;

verus! {

/// Two texts have the same UTF-8 encoding only if they are the same text.
pub proof fn lemma_encode_utf8_injective(a: Seq<char>, b: Seq<char>)
    requires
        encode_utf8(a) == encode_utf8(b),
    ensures
        a == b,
{
    encode_utf8_decode_utf8(a);
    encode_utf8_decode_utf8(b);
}

/// The encoding of a concatenation is the concatenation of the encodings.
pub proof fn lemma_encode_utf8_concat(a: Seq<char>, b: Seq<char>)
    ensures
        encode_utf8(a + b) == encode_utf8(a) + encode_utf8(b),
    decreases a.len(),
{
    if a.len() == 0 {
        assert(a + b =~= b);
        assert(encode_utf8(a) + encode_utf8(b) =~= encode_utf8(b));
    } else {
        assert((a + b).drop_first() =~= a.drop_first() + b);
        lemma_encode_utf8_concat(a.drop_first(), b);
        assert(encode_utf8(a + b) =~= encode_utf8(a) + encode_utf8(b));
    }
}

/// One text is a prefix of another exactly if its bytes are a prefix of the
/// other's bytes.
pub proof fn lemma_encode_utf8_prefix(prefix: Seq<char>, text: Seq<char>)
    ensures
        encode_utf8(prefix).is_prefix_of(encode_utf8(text)) <==> prefix.is_prefix_of(text),
    decreases prefix.len(),
{
    if prefix.is_prefix_of(text) {
        let rest = text.skip(prefix.len() as int);
        assert(text =~= prefix + rest);
        lemma_encode_utf8_concat(prefix, rest);
        assert(encode_utf8(prefix).is_prefix_of(encode_utf8(text)));
    }
    if encode_utf8(prefix).is_prefix_of(encode_utf8(text)) {
        if prefix.len() > 0 {
            let p = encode_utf8(prefix);
            let t = encode_utf8(text);
            encode_utf8_first_scalar(prefix);
            assert(text.len() > 0);
            encode_utf8_first_scalar(text);
            assert(forall|i: int| 0 <= i < p.len() ==> p[i] == t[i]);
            let scalar = decode_first_scalar(p);
            assert(decode_first_scalar(t) == scalar);
            char_u32_cast(prefix[0], scalar);
            char_u32_cast(text[0], scalar);
            assert(prefix[0] == text[0]);
            let n = encode_scalar(prefix[0] as u32).len() as int;
            assert(p.skip(n) =~= encode_utf8(prefix.drop_first()));
            assert(t.skip(n) =~= encode_utf8(text.drop_first()));
            assert(p.skip(n).is_prefix_of(t.skip(n)));
            lemma_encode_utf8_prefix(prefix.drop_first(), text.drop_first());
            assert forall|i: int| 0 <= i < prefix.len() implies prefix[i] == text[i] by {
                if i > 0 {
                    assert(prefix[i] == prefix.drop_first()[i - 1]);
                    assert(text[i] == text.drop_first()[i - 1]);
                }
            }
            assert(prefix.len() == prefix.drop_first().len() + 1);
            assert(prefix =~= text.subrange(0, prefix.len() as int));
        } else {
            assert(prefix =~= text.subrange(0, 0));
        }
    }
}

/// Whether `text` begins with `prefix`.
pub fn starts_with(text: &str, prefix: &str) -> (r: bool)
    ensures
        r == prefix@.is_prefix_of(text@),
{
    proof {
        lemma_encode_utf8_prefix(prefix@, text@);
    }
    let t: &[u8] = text.as_bytes();
    let p: &[u8] = prefix.as_bytes();
    if p.len() > t.len() {
        return false;
    }
    let mut i: usize = 0;
    while i < p.len()
        invariant
            i <= p@.len() <= t@.len(),
            forall|j: int| 0 <= j < i ==> p@[j] == t@[j],
            p@ == encode_utf8(prefix@),
            t@ == encode_utf8(text@),
            encode_utf8(prefix@).is_prefix_of(encode_utf8(text@)) <==> prefix@.is_prefix_of(text@),
        decreases p@.len() - i,
    {
        if p[i] != t[i] {
            assert(t@.subrange(0, p@.len() as int)[i as int] == t@[i as int]);
            return false;
        }
        i += 1;
    }
    assert(p@ =~= t@.subrange(0, p@.len() as int));
    true
}

/// Whether two strings hold the same text.
pub fn same_text(a: &str, b: &str) -> (r: bool)
    ensures
        r == (a@ == b@),
{
    if a.as_bytes().len() != b.as_bytes().len() {
        return false;
    }
    let r: bool = starts_with(a, b);
    proof {
        if r {
            lemma_encode_utf8_prefix(b@, a@);
            assert(encode_utf8(a@) =~= encode_utf8(b@));
            lemma_encode_utf8_injective(a@, b@);
        } else {
            assert(a@ != b@) by {
                if a@ == b@ {
                    assert(b@ =~= a@.subrange(0, b@.len() as int));
                }
            }
        }
    }
    r
}

} // verus!
