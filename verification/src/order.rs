//! The order in which names are listed: strings compared byte by byte in
//! their UTF-8 encoding, a proper prefix before its extensions.

use vstd::prelude::*;
use vstd::string::StringSliceAdditionalSpecFns;

verus! {

/// `a` comes no later than `b` in the lexicographic order of byte strings.
pub open spec fn bytes_le(a: Seq<u8>, b: Seq<u8>) -> bool
    decreases a.len(),
{
    if a.len() == 0 {
        true
    } else if b.len() == 0 {
        false
    } else if a[0] != b[0] {
        a[0] < b[0]
    } else {
        bytes_le(a.drop_first(), b.drop_first())
    }
}

/// `a` comes no later than `b` when names are sorted.
pub open spec fn name_le(a: Seq<char>, b: Seq<char>) -> bool {
    bytes_le(vstd::utf8::encode_utf8(a), vstd::utf8::encode_utf8(b))
}

/// `prefix` is an initial segment of `text`.
pub open spec fn bytes_start_with(text: Seq<u8>, prefix: Seq<u8>) -> bool {
    prefix.len() <= text.len() && text.subrange(0, prefix.len() as int) == prefix
}

/// The name `text` starts with `prefix`.
pub open spec fn name_starts_with(text: Seq<char>, prefix: Seq<char>) -> bool {
    prefix.is_prefix_of(text)
}

/// A text starts with another exactly when its UTF-8 encoding starts with
/// the encoding of the other.
pub proof fn lemma_prefix_of_encoding(text: Seq<char>, prefix: Seq<char>)
    ensures
        bytes_start_with(vstd::utf8::encode_utf8(text), vstd::utf8::encode_utf8(prefix))
            <==> prefix.is_prefix_of(text),
    decreases prefix.len(),
{
    let whole = vstd::utf8::encode_utf8(text);
    let start = vstd::utf8::encode_utf8(prefix);
    if prefix.len() == 0 {
        assert(whole.subrange(0, 0) =~= start);
        assert(prefix =~= text.subrange(0, 0));
    } else {
        let first = vstd::utf8::encode_scalar(prefix[0] as u32);
        let rest = prefix.drop_first();
        vstd::utf8::encode_utf8_first_scalar(prefix);
        let width = first.len() as int;
        assert(1 <= width <= 4);
        assert(start.skip(width) =~= vstd::utf8::encode_utf8(rest));
        if text.len() == 0 {
            assert(!prefix.is_prefix_of(text));
        } else {
            let head = vstd::utf8::encode_scalar(text[0] as u32);
            let tail = text.drop_first();
            vstd::utf8::encode_utf8_first_scalar(text);
            assert(whole.skip(head.len() as int) =~= vstd::utf8::encode_utf8(tail));
            lemma_prefix_of_encoding(tail, rest);
            if prefix.is_prefix_of(text) {
                assert(prefix[0] == text.subrange(0, prefix.len() as int)[0]);
                assert(rest =~= tail.subrange(0, rest.len() as int)) by {
                    assert forall|i: int| 0 <= i < rest.len() implies rest[i] == tail[i] by {
                        assert(prefix[i + 1] == text.subrange(0, prefix.len() as int)[i + 1]);
                    }
                }
                assert(rest.is_prefix_of(tail));
                let more = vstd::utf8::encode_utf8(rest);
                let most = vstd::utf8::encode_utf8(tail);
                assert(more == most.subrange(0, more.len() as int));
                assert(start =~= first + more);
                assert(whole =~= first + most);
                assert(whole.subrange(0, start.len() as int) =~= start) by {
                    assert forall|i: int| 0 <= i < start.len() implies whole[i] == start[i] by {
                        if i >= width {
                            assert(more[i - width] == most.subrange(0, more.len() as int)[i - width]);
                        }
                    }
                }
            }
            if bytes_start_with(whole, start) {
                assert forall|i: int| 0 <= i < start.len() implies start[i] == whole[i] by {
                    assert(whole.subrange(0, start.len() as int)[i] == whole[i]);
                }
                assert(start[0] == whole[0]);
                assert(head.len() == width);
                assert(vstd::utf8::decode_first_scalar(start) == vstd::utf8::decode_first_scalar(
                    whole,
                ));
                vstd::utf8::char_u32_cast(prefix[0], prefix[0] as u32);
                vstd::utf8::char_u32_cast(text[0], text[0] as u32);
                assert(prefix[0] == text[0]);
                let more = start.skip(width);
                let most = whole.skip(width);
                assert(most.subrange(0, more.len() as int) =~= more);
                assert(rest.is_prefix_of(tail));
                assert(prefix =~= text.subrange(0, prefix.len() as int)) by {
                    assert forall|i: int| 0 <= i < prefix.len() implies prefix[i] == text[i] by {
                        if i > 0 {
                            assert(rest[i - 1] == tail.subrange(0, rest.len() as int)[i - 1]);
                        }
                    }
                }
            }
        }
    }
}

/// Any two byte strings are comparable.
pub proof fn lemma_bytes_le_total(a: Seq<u8>, b: Seq<u8>)
    ensures
        bytes_le(a, b) || bytes_le(b, a),
    decreases a.len(),
{
    if a.len() > 0 && b.len() > 0 && a[0] == b[0] {
        lemma_bytes_le_total(a.drop_first(), b.drop_first());
    }
}

/// The order is transitive.
pub proof fn lemma_bytes_le_transitive(a: Seq<u8>, b: Seq<u8>, c: Seq<u8>)
    requires
        bytes_le(a, b),
        bytes_le(b, c),
    ensures
        bytes_le(a, c),
    decreases a.len(),
{
    if a.len() > 0 && b.len() > 0 && c.len() > 0 && a[0] == b[0] && b[0] == c[0] {
        lemma_bytes_le_transitive(a.drop_first(), b.drop_first(), c.drop_first());
    }
}

/// Every byte string is comparable with itself.
pub proof fn lemma_bytes_le_reflexive(a: Seq<u8>)
    ensures
        bytes_le(a, a),
    decreases a.len(),
{
    if a.len() > 0 {
        lemma_bytes_le_reflexive(a.drop_first());
    }
}

/// Two byte strings that come no later than each other are the same.
pub proof fn lemma_bytes_le_antisymmetric(a: Seq<u8>, b: Seq<u8>)
    requires
        bytes_le(a, b),
        bytes_le(b, a),
    ensures
        a == b,
    decreases a.len(),
{
    if a.len() > 0 && b.len() > 0 {
        lemma_bytes_le_antisymmetric(a.drop_first(), b.drop_first());
        assert(a =~= seq![a[0]] + a.drop_first());
        assert(b =~= seq![b[0]] + b.drop_first());
    } else {
        assert(a =~= b);
    }
}

/// Comparing from position `from` on decides the whole comparison when the
/// two strings agree before it.
proof fn lemma_bytes_le_skip(a: Seq<u8>, b: Seq<u8>, from: int)
    requires
        0 <= from <= a.len(),
        from <= b.len(),
        a.subrange(0, from) == b.subrange(0, from),
    ensures
        bytes_le(a, b) == bytes_le(a.subrange(from, a.len() as int), b.subrange(from, b.len() as int)),
    decreases from,
{
    if from == 0 {
        assert(a.subrange(0, a.len() as int) =~= a);
        assert(b.subrange(0, b.len() as int) =~= b);
    } else {
        assert(a[0] == a.subrange(0, from)[0]);
        assert(b[0] == b.subrange(0, from)[0]);
        let a1 = a.drop_first();
        let b1 = b.drop_first();
        assert(a1.subrange(0, from - 1) =~= a.subrange(0, from).drop_first());
        assert(b1.subrange(0, from - 1) =~= b.subrange(0, from).drop_first());
        lemma_bytes_le_skip(a1, b1, from - 1);
        assert(a1.subrange(from - 1, a1.len() as int) =~= a.subrange(from, a.len() as int));
        assert(b1.subrange(from - 1, b1.len() as int) =~= b.subrange(from, b.len() as int));
    }
}

/// Whether `a` comes no later than `b` when names are sorted.
pub fn name_precedes(a: &str, b: &str) -> (r: bool)
    ensures
        r == name_le(a@, b@),
{
    let x = a.as_bytes();
    let y = b.as_bytes();
    let mut i: usize = 0;
    while i < x.len() && i < y.len()
        invariant
            x@ == a.spec_bytes(),
            y@ == b.spec_bytes(),
            i <= x.len(),
            i <= y.len(),
            x@.subrange(0, i as int) == y@.subrange(0, i as int),
        decreases x.len() - i,
    {
        if x[i] != y[i] {
            proof {
                lemma_bytes_le_skip(x@, y@, i as int);
                assert(x@.subrange(i as int, x.len() as int)[0] == x@[i as int]);
                assert(y@.subrange(i as int, y.len() as int)[0] == y@[i as int]);
            }
            return x[i] < y[i];
        }
        proof {
            assert(x@.subrange(0, i + 1) =~= x@.subrange(0, i as int).push(x@[i as int]));
            assert(y@.subrange(0, i + 1) =~= y@.subrange(0, i as int).push(y@[i as int]));
        }
        i += 1;
    }
    proof {
        lemma_bytes_le_skip(x@, y@, i as int);
    }
    i == x.len()
}

/// Whether `a` and `b` are the same name.
pub fn same_name(a: &str, b: &str) -> (r: bool)
    ensures
        r == (a@ == b@),
{
    let x = a.as_bytes();
    let y = b.as_bytes();
    proof {
        vstd::utf8::encode_utf8_decode_utf8(a@);
        vstd::utf8::encode_utf8_decode_utf8(b@);
    }
    if x.len() != y.len() {
        return false;
    }
    let mut i: usize = 0;
    while i < x.len()
        invariant
            x@ == a.spec_bytes(),
            y@ == b.spec_bytes(),
            vstd::utf8::decode_utf8(a.spec_bytes()) == a@,
            vstd::utf8::decode_utf8(b.spec_bytes()) == b@,
            x.len() == y.len(),
            i <= x.len(),
            forall|k: int| 0 <= k < i ==> x@[k] == y@[k],
        decreases x.len() - i,
    {
        if x[i] != y[i] {
            return false;
        }
        i += 1;
    }
    proof {
        assert(x@ =~= y@);
    }
    true
}

/// Whether the name `text` starts with `prefix`.
pub fn starts_with(text: &str, prefix: &str) -> (r: bool)
    ensures
        r == name_starts_with(text@, prefix@),
{
    let x = text.as_bytes();
    let y = prefix.as_bytes();
    proof {
        lemma_prefix_of_encoding(text@, prefix@);
    }
    if y.len() > x.len() {
        return false;
    }
    let mut i: usize = 0;
    while i < y.len()
        invariant
            x@ == text.spec_bytes(),
            y@ == prefix.spec_bytes(),
            bytes_start_with(x@, y@) <==> name_starts_with(text@, prefix@),
            i <= y.len(),
            y.len() <= x.len(),
            x@.subrange(0, i as int) == y@.subrange(0, i as int),
        decreases y.len() - i,
    {
        if x[i] != y[i] {
            proof {
                assert(x@.subrange(0, y.len() as int)[i as int] != y@[i as int]);
            }
            return false;
        }
        proof {
            assert(x@.subrange(0, i + 1) =~= x@.subrange(0, i as int).push(x@[i as int]));
            assert(y@.subrange(0, i + 1) =~= y@.subrange(0, i as int).push(y@[i as int]));
        }
        i += 1;
    }
    proof {
        assert(y@.subrange(0, y.len() as int) =~= y@);
    }
    true
}

} // verus!
