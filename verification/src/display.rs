//! How paths are shown as text.
use crate::component::{PathStyle, PathView};
use crate::path::FilePath;
use vstd::prelude::*;
use vstd::utf8::{
    decode_first_codepoint, decode_utf8, length_of_first_scalar, pop_first_scalar,
    valid_first_scalar, valid_utf8, valid_utf8_concat,
};

verus! {

/// The text that `String::from_utf8_lossy` makes of bytes.
pub uninterp spec fn lossy_text(bytes: Seq<u8>) -> Seq<char>;

/// `String::from_utf8_lossy` reads bytes as UTF-8. Its result depends on the bytes alone, and on
/// valid UTF-8 it is the text that they encode; what replaces invalid bytes is left unsaid.
#[verifier::external_body]
fn from_utf8_lossy(bytes: &[u8]) -> (r: String)
    ensures
        r@ == lossy_text(bytes@),
        valid_utf8(bytes@) ==> r@ == decode_utf8(bytes@),
{
    String::from_utf8_lossy(bytes).into_owned()
}

/// Whether bytes begin with an unpaired surrogate, which a path of Windows may hold: it is encoded
/// in three bytes as a character would be.
pub open spec fn begins_with_surrogate(s: Seq<u8>) -> bool {
    s.len() >= 3 && s[0] == 237u8 && 160 <= s[1] <= 191 && 128 <= s[2] <= 191
}

/// The bytes of the replacement character.
pub open spec fn replacement() -> Seq<u8> {
    seq![239u8, 191u8, 189u8]
}

/// Bytes with the replacement character in place of each unpaired surrogate.
pub open spec fn without_surrogates(s: Seq<u8>) -> Seq<u8>
    decreases s.len(),
{
    if s.len() == 0 {
        Seq::empty()
    } else if begins_with_surrogate(s) {
        replacement() + without_surrogates(s.skip(3))
    } else {
        seq![s[0]] + without_surrogates(s.drop_first())
    }
}

/// The bytes that a path is shown by.
pub open spec fn shown_bytes(p: PathView) -> Seq<u8> {
    match p.style {
        PathStyle::Unix => p.bytes,
        PathStyle::Windows => without_surrogates(p.bytes),
    }
}

/// A path as text.
pub open spec fn shown_text(p: PathView) -> Seq<char> {
    lossy_text(shown_bytes(p))
}

/// The first character of a text is none that is replaced.
proof fn lemma_first_scalar(s: Seq<u8>)
    requires
        valid_first_scalar(s),
    ensures
        0 < length_of_first_scalar(s) <= s.len(),
        without_surrogates(s) == s.take(length_of_first_scalar(s)) + without_surrogates(
            s.skip(length_of_first_scalar(s)),
        ),
{
    let n = length_of_first_scalar(s);
    if begins_with_surrogate(s) {
        let a = s[1];
        let b = s[2];
        assert(0xD800u32 <= ((((237u8 & 0x0F) as u32) << 12) | (((a & 0x3f) as u32) << 6) | ((b
            & 0x3f) as u32)) <= 0xDFFFu32) by (bit_vector)
            requires
                160 <= a <= 191,
                128 <= b <= 191,
        ;
        assert(0xD800 <= decode_first_codepoint(s) <= 0xDFFF);
    }
    assert(!begins_with_surrogate(s));
    lemma_plain_bytes(s, n);
}

/// Bytes before which no unpaired surrogate begins stay as they are.
proof fn lemma_plain_bytes(s: Seq<u8>, n: int)
    requires
        0 <= n <= s.len(),
        forall|i: int| 0 <= i < n ==> !begins_with_surrogate(#[trigger] s.skip(i)),
    ensures
        without_surrogates(s) == s.take(n) + without_surrogates(s.skip(n)),
    decreases n,
{
    if n == 0 {
        assert(s.skip(0) =~= s);
        assert(s.take(0) + without_surrogates(s) =~= without_surrogates(s));
    } else {
        let rest = s.drop_first();
        assert(s.skip(0) =~= s);
        assert forall|i: int| 0 <= i < n - 1 implies !begins_with_surrogate(
            #[trigger] rest.skip(i),
        ) by {
            assert(rest.skip(i) =~= s.skip(i + 1));
        }
        lemma_plain_bytes(rest, n - 1);
        assert(rest.skip(n - 1) =~= s.skip(n));
        assert(seq![s[0]] + (rest.take(n - 1) + without_surrogates(s.skip(n))) =~= s.take(n)
            + without_surrogates(s.skip(n)));
    }
}

/// A text before other bytes stays as it is.
proof fn lemma_text_before(a: Seq<u8>, b: Seq<u8>)
    requires
        valid_utf8(a),
    ensures
        without_surrogates(a + b) == a + without_surrogates(b),
    decreases a.len(),
{
    if a.len() == 0 {
        assert(a + b =~= b);
        assert(a + without_surrogates(b) =~= without_surrogates(b));
    } else {
        let n = length_of_first_scalar(a);
        let rest = pop_first_scalar(a);
        assert(valid_first_scalar(a + b));
        lemma_first_scalar(a + b);
        assert((a + b).take(n) =~= a.take(n));
        assert((a + b).skip(n) =~= rest + b);
        lemma_text_before(rest, b);
        assert(a.take(n) + (rest + without_surrogates(b)) =~= a + without_surrogates(b));
    }
}

/// A path that is valid text is shown by that text.
proof fn lemma_text_is_shown(p: PathView)
    requires
        valid_utf8(p.bytes),
    ensures
        shown_bytes(p) == p.bytes,
{
    let none = Seq::<u8>::empty();
    lemma_text_before(p.bytes, none);
    assert(p.bytes + none =~= p.bytes);
    assert(p.bytes + without_surrogates(none) =~= p.bytes);
}

proof fn lemma_decode_concat(a: Seq<u8>, b: Seq<u8>)
    requires
        valid_utf8(a),
        valid_utf8(b),
    ensures
        decode_utf8(a + b) == decode_utf8(a) + decode_utf8(b),
    decreases a.len(),
{
    valid_utf8_concat(a, b);
    if a.len() == 0 {
        assert(a + b =~= b);
        assert(decode_utf8(a) + decode_utf8(b) =~= decode_utf8(b));
    } else {
        let rest = pop_first_scalar(a);
        lemma_decode_concat(rest, b);
        assert(pop_first_scalar(a + b) =~= rest + b);
        assert(decode_first_codepoint(a + b) == decode_first_codepoint(a));
        assert(decode_utf8(a + b) =~= decode_utf8(a) + decode_utf8(b));
    }
}

proof fn lemma_replacement()
    ensures
        valid_utf8(replacement()),
        decode_utf8(replacement()) == seq!['\u{fffd}'],
{
    let s = replacement();
    assert((((239u8 & 0x0F) as u32) << 12) | (((191u8 & 0x3f) as u32) << 6) | ((189u8 & 0x3f) as u32)
        == 0xFFFDu32) by (bit_vector);
    assert(decode_first_codepoint(s) == 0xFFFDu32);
    assert(pop_first_scalar(s) =~= Seq::empty());
    assert(valid_utf8(pop_first_scalar(s)));
    assert(decode_utf8(pop_first_scalar(s)) =~= Seq::empty());
    assert(decode_utf8(s) =~= seq!['\u{fffd}']);
}

/// On Windows, each unpaired surrogate of a path is shown by one replacement character, and what
/// stands before it as it is.
pub proof fn surrogate_is_shown_once(a: Seq<u8>, surrogate: Seq<u8>, rest: Seq<u8>)
    requires
        valid_utf8(a),
        surrogate.len() == 3,
        begins_with_surrogate(surrogate),
        valid_utf8(without_surrogates(rest)),
    ensures
        ({
            let shown = shown_bytes(
                PathView { style: PathStyle::Windows, bytes: a + surrogate + rest },
            );
            &&& valid_utf8(shown)
            &&& decode_utf8(shown) == decode_utf8(a) + seq!['\u{fffd}'] + decode_utf8(
                without_surrogates(rest),
            )
        }),
{
    let b = surrogate + rest;
    let tail = without_surrogates(rest);
    assert(a + surrogate + rest =~= a + b);
    lemma_text_before(a, b);
    assert(b.skip(3) =~= rest);
    lemma_replacement();
    valid_utf8_concat(replacement(), tail);
    valid_utf8_concat(a, replacement() + tail);
    lemma_decode_concat(replacement(), tail);
    lemma_decode_concat(a, replacement() + tail);
    assert(decode_utf8(a) + (seq!['\u{fffd}'] + decode_utf8(tail)) =~= decode_utf8(a)
        + seq!['\u{fffd}'] + decode_utf8(tail));
}

fn replaced(v: &Vec<u8>) -> (r: Vec<u8>)
    ensures
        r@ == without_surrogates(v@),
{
    let mut r: Vec<u8> = Vec::new();
    let mut i: usize = 0;
    assert(v@.skip(0) =~= v@);
    while i < v.len()
        invariant
            i <= v@.len(),
            r@ + without_surrogates(v@.skip(i as int)) == without_surrogates(v@),
        decreases v@.len() - i,
    {
        let ghost rest = v@.skip(i as int);
        let ghost before = r@;
        if v.len() - i >= 3 && v[i] == 237u8 && 160u8 <= v[i + 1] && v[i + 1] <= 191u8 && 128u8
            <= v[i + 2] && v[i + 2] <= 191u8 {
            r.push(239u8);
            r.push(191u8);
            r.push(189u8);
            assert(rest.skip(3) =~= v@.skip(i + 3));
            assert(r@ + without_surrogates(v@.skip(i + 3)) =~= before + without_surrogates(rest));
            i = i + 3;
        } else {
            r.push(v[i]);
            assert(rest.drop_first() =~= v@.skip(i + 1));
            assert(r@ + without_surrogates(v@.skip(i + 1)) =~= before + without_surrogates(rest));
            i = i + 1;
        }
    }
    assert(r@ + without_surrogates(v@.skip(i as int)) =~= r@);
    r
}

impl FilePath {
    /// The path as text.
    pub fn display(&self) -> (r: String)
        ensures
            r@ == shown_text(self@),
            valid_utf8(shown_bytes(self@)) ==> r@ == decode_utf8(shown_bytes(self@)),
            valid_utf8(self@.bytes) ==> r@ == decode_utf8(self@.bytes),
    {
        proof {
            if valid_utf8(self@.bytes) {
                lemma_text_is_shown(self@);
            }
        }
        match self.style {
            PathStyle::Unix => from_utf8_lossy(self.bytes.as_slice()),
            PathStyle::Windows => from_utf8_lossy(replaced(&self.bytes).as_slice()),
        }
    }
}

} // verus!
