use vstd::prelude::*;
use crate::text::push_char;

verus! {

/// What one character of a key becomes in a directory name: `%` and `/` are
/// written as `%25` and `%2F`, every other character stands for itself.
pub open spec fn escape_char(c: char) -> Seq<char> {
    if c == '%' {
        seq!['%', '2', '5']
    } else if c == '/' {
        seq!['%', '2', 'F']
    } else {
        seq![c]
    }
}

/// The directory name that holds the cached responses of a key.
pub open spec fn encode_spec(k: Seq<char>) -> Seq<char>
    decreases k.len(),
{
    if k.len() == 0 {
        Seq::empty()
    } else {
        escape_char(k[0]) + encode_spec(k.skip(1))
    }
}

/// Reads a directory name back into the key it was made from.
pub open spec fn decode_spec(t: Seq<char>) -> Seq<char>
    decreases t.len(),
{
    if t.len() == 0 {
        Seq::empty()
    } else if t.len() >= 3 && t[0] == '%' && t[1] == '2' && t[2] == '5' {
        seq!['%'] + decode_spec(t.skip(3))
    } else if t.len() >= 3 && t[0] == '%' && t[1] == '2' && t[2] == 'F' {
        seq!['/'] + decode_spec(t.skip(3))
    } else {
        seq![t[0]] + decode_spec(t.skip(1))
    }
}

proof fn lemma_encode_push(k: Seq<char>, c: char)
    ensures
        encode_spec(k.push(c)) == encode_spec(k) + escape_char(c),
    decreases k.len(),
{
    if k.len() == 0 {
        assert(k.push(c).skip(1) =~= Seq::<char>::empty());
        assert(k.push(c)[0] == c);
        assert(encode_spec(k.push(c).skip(1)) =~= Seq::<char>::empty());
        assert(encode_spec(k.push(c)) =~= encode_spec(k) + escape_char(c));
    } else {
        assert(k.push(c).skip(1) =~= k.skip(1).push(c));
        lemma_encode_push(k.skip(1), c);
        assert(k.push(c)[0] == k[0]);
        assert(encode_spec(k.push(c)) =~= encode_spec(k) + escape_char(c));
    }
}

proof fn lemma_decode_escape(c: char, rest: Seq<char>)
    ensures
        decode_spec(escape_char(c) + rest) == seq![c] + decode_spec(rest),
{
    let t = escape_char(c) + rest;
    assert(t.skip(escape_char(c).len() as int) =~= rest);
}

/// Decoding a directory name gives back the key it was encoded from.
pub proof fn lemma_decode_encode(k: Seq<char>)
    ensures
        decode_spec(encode_spec(k)) == k,
    decreases k.len(),
{
    if k.len() > 0 {
        lemma_decode_encode(k.skip(1));
        lemma_decode_escape(k[0], encode_spec(k.skip(1)));
        assert(seq![k[0]] + k.skip(1) =~= k);
    }
}

/// No directory name made from a key holds a `/`.
pub proof fn lemma_encode_has_no_slash(k: Seq<char>)
    ensures
        forall|i: int| 0 <= i < encode_spec(k).len() ==> encode_spec(k)[i] != '/',
    decreases k.len(),
{
    if k.len() > 0 {
        lemma_encode_has_no_slash(k.skip(1));
        let e = escape_char(k[0]);
        let r = encode_spec(k.skip(1));
        assert forall|i: int| 0 <= i < (e + r).len() implies (e + r)[i] != '/' by {
            if i >= e.len() {
                assert((e + r)[i] == r[i - e.len()]);
            }
        }
    }
}

/// Two distinct keys never share a cache directory.
pub proof fn lemma_encode_injective(k1: Seq<char>, k2: Seq<char>)
    requires
        k1 != k2,
    ensures
        encode_spec(k1) != encode_spec(k2),
{
    lemma_decode_encode(k1);
    lemma_decode_encode(k2);
}

/// The directory name under which the responses for `key` are cached.
pub fn encode_key(key: &str) -> (r: String)
    ensures
        r@ == encode_spec(key@),
        forall|i: int| 0 <= i < r@.len() ==> r@[i] != '/',
{
    let n = key.unicode_len();
    let mut r = String::new();
    let mut i: usize = 0;
    proof {
        reveal_strlit("%25");
        reveal_strlit("%2F");
        assert(key@.take(0) =~= Seq::<char>::empty());
    }
    while i < n
        invariant
            n == key@.len(),
            i <= n,
            r@ == encode_spec(key@.take(i as int)),
        decreases n - i,
    {
        let c = key.get_char(i);
        proof {
            reveal_strlit("%25");
            reveal_strlit("%2F");
            lemma_encode_push(key@.take(i as int), c);
            assert(key@.take(i as int).push(c) =~= key@.take(i + 1));
        }
        if c == '%' {
            r.append("%25");
        } else if c == '/' {
            r.append("%2F");
        } else {
            push_char(&mut r, c);
        }
        i = i + 1;
    }
    proof {
        assert(key@.take(n as int) =~= key@);
        lemma_encode_has_no_slash(key@);
    }
    r
}

} // verus!
