//! Splitting a text at its first `:`, without copying.
use vstd::prelude::*;
use vstd::string::*;
use vstd::utf8::*;

use crate::utf8_facts::{
    lemma_ascii_char_in_encoding, lemma_encode_ascii_char, lemma_encode_concat,
    lemma_encode_injective,
};

verus! {

broadcast use vstd::utf8::group_utf8_lib;

/// The separator between the fields of an ARN.
pub const COLON: u8 = 0x3A;

/// `s` holds no `:`.
pub open spec fn colon_free(s: Seq<char>) -> bool {
    forall|i: int| 0 <= i < s.len() ==> s[i] != ':'
}

/// `head` and `tail` with a `:` between them.
#[verifier::opaque]
pub open spec fn join_colon(head: Seq<char>, tail: Seq<char>) -> Seq<char> {
    head + seq![':'] + tail
}

/// Where `s` splits at its first `:`: the text before it and the text after it,
/// or `None` when `s` holds no `:`.
#[verifier::opaque]
pub open spec fn split_once(s: Seq<char>) -> Option<(Seq<char>, Seq<char>)> {
    if colon_free(s) {
        None
    } else {
        let i = choose|i: int| 0 <= i < s.len() && s[i] == ':' && colon_free(s.take(i));
        Some((s.take(i), s.skip(i + 1)))
    }
}

/// A text made of a colon-free head, a `:` and a tail splits into that head and tail.
pub proof fn lemma_split_once_unique(s: Seq<char>, head: Seq<char>, tail: Seq<char>)
    requires
        s == join_colon(head, tail),
        colon_free(head),
    ensures
        split_once(s) == Some((head, tail)),
{
    reveal(join_colon);
    reveal(split_once);
    let n = head.len() as int;
    assert(s[n] == ':');
    assert(s.take(n) =~= head);
    assert(!colon_free(s));
    let i = choose|i: int| 0 <= i < s.len() && s[i] == ':' && colon_free(s.take(i));
    if i < n {
        assert(head[i] == ':');
    } else if i > n {
        assert(s.take(i)[n] == ':');
    }
    assert(s.skip(n + 1) =~= tail);
}

/// Where `s` holds a `:` at `k`, it holds a first `:`, at `k` or before.
proof fn lemma_first_colon_exists(s: Seq<char>, k: int)
    requires
        0 <= k < s.len(),
        s[k] == ':',
    ensures
        exists|i: int| 0 <= i < s.len() && s[i] == ':' && colon_free(#[trigger] s.take(i)),
    decreases k,
{
    if colon_free(s.take(k)) {
        assert(s.take(k) == s.take(k));
    } else {
        let j = choose|j: int| 0 <= j < s.take(k).len() && s.take(k)[j] == ':';
        lemma_first_colon_exists(s, j);
    }
}

/// What `split_once` gives is the text around the first `:`.
pub proof fn lemma_split_once_parts(s: Seq<char>)
    ensures
        match split_once(s) {
            Some((head, tail)) => s == join_colon(head, tail) && colon_free(head),
            None => colon_free(s),
        },
{
    reveal(split_once);
    if !colon_free(s) {
        let k = choose|k: int| 0 <= k < s.len() && s[k] == ':';
        lemma_first_colon_exists(s, k);
        let i = choose|i: int| 0 <= i < s.len() && s[i] == ':' && colon_free(s.take(i));
        let joined = s.take(i) + seq![':'] + s.skip(i + 1);
        assert(joined.len() == s.len());
        assert forall|j: int| 0 <= j < s.len() implies joined[j] == s[j] by {
            if j < i {
                assert(joined[j] == s.take(i)[j]);
            } else if j > i {
                assert(joined[j] == s.skip(i + 1)[j - i - 1]);
            }
        }
        assert(s =~= joined);
        reveal(join_colon);
    }
}

/// Splits `s` at its first `:`: the text before it, and the text after it if there is one.
pub fn split_at_colon<'a>(s: &'a str) -> (r: (&'a str, Option<&'a str>))
    ensures
        match split_once(s@) {
            Some((head, tail)) => r.0@ == head && r.1 is Some && r.1.unwrap()@ == tail,
            None => r.0@ == s@ && r.1 is None,
        },
{
    reveal(split_once);
    let bytes = s.as_bytes();
    let ghost b = s.spec_bytes();
    let mut i: usize = 0;
    while i < bytes.len() && bytes[i] != COLON
        invariant
            bytes@ == b,
            i <= b.len(),
            forall|j: int| 0 <= j < i ==> b[j] != COLON,
        decreases b.len() - i,
    {
        i = i + 1;
    }
    if i == bytes.len() {
        proof {
            if !colon_free(s@) {
                let k = choose|k: int| 0 <= k < s@.len() && s@[k] == ':';
                lemma_ascii_char_in_encoding(s@, ':', k);
            }
            assert(split_once(s@) is None);
        }
        (s, None)
    } else {
        proof {
            encode_utf8_valid_utf8(s@);
            is_char_boundary_iff_not_is_continuation_byte(b, i as int);
        }
        let (head, rest) = s.split_at(i);
        proof {
            lemma_encode_concat(head@, rest@);
            assert(b =~= head.spec_bytes() + rest.spec_bytes());
            lemma_encode_injective(s@, head@ + rest@);
            encode_utf8_valid_utf8(rest@);
            let rb = rest.spec_bytes();
            assert(rb[0] == COLON);
            if rb.len() > 1 {
                is_char_boundary_iff_not_is_continuation_byte(rb, 1);
                assert(is_char_boundary(rb, 1)) by {
                    reveal_with_fuel(is_char_boundary, 2);
                }
            } else {
                is_char_boundary_start_end_of_seq(rb);
            }
        }
        let (sep, tail) = rest.split_at(1);
        proof {
            lemma_encode_concat(sep@, tail@);
            assert(rest.spec_bytes() =~= sep.spec_bytes() + tail.spec_bytes());
            lemma_encode_injective(rest@, sep@ + tail@);
            lemma_encode_ascii_char(':');
            assert(sep.spec_bytes() =~= seq![COLON]);
            lemma_encode_injective(sep@, seq![':']);
            if !colon_free(head@) {
                let k = choose|k: int| 0 <= k < head@.len() && head@[k] == ':';
                lemma_ascii_char_in_encoding(head@, ':', k);
                assert(head.spec_bytes() =~= b.subrange(0, i as int));
            }
            reveal(join_colon);
            assert(s@ =~= join_colon(head@, tail@));
            lemma_split_once_unique(s@, head@, tail@);
        }
        (head, Some(tail))
    }
}

} // verus!
