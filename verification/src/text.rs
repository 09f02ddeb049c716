use vstd::prelude::*;
use vstd::string::StringSliceAdditionalSpecFns;
use vstd::utf8::encode_utf8_decode_utf8;

verus! {

/// Two strings hold the same characters exactly when they hold the same bytes.
pub proof fn lemma_same_bytes_same_chars(a: Seq<char>, b: Seq<char>)
    requires
        vstd::utf8::encode_utf8(a) == vstd::utf8::encode_utf8(b),
    ensures
        a == b,
{
    encode_utf8_decode_utf8(a);
    encode_utf8_decode_utf8(b);
}

/// Compares two string slices character by character.
pub fn str_eq(a: &str, b: &str) -> (r: bool)
    ensures
        r == (a@ == b@),
{
    let x = a.as_bytes();
    let y = b.as_bytes();
    if x.len() != y.len() {
        return false;
    }
    let mut i: usize = 0;
    while i < x.len()
        invariant
            x@ == a.spec_bytes(),
            y@ == b.spec_bytes(),
            x@.len() == y@.len(),
            i <= x@.len(),
            forall|k: int| 0 <= k < i ==> x@[k] == y@[k],
        decreases x@.len() - i,
    {
        if x[i] != y[i] {
            return false;
        }
        i += 1;
    }
    proof {
        assert(x@ =~= y@);
        lemma_same_bytes_same_chars(a@, b@);
    }
    true
}

/// What is left of a text once the white space at both of its ends is taken
/// away.
pub uninterp spec fn trimmed(text: Seq<char>) -> Seq<char>;

/// Whether a text holds nothing but white space.
pub open spec fn blank(text: Seq<char>) -> bool {
    trimmed(text).len() == 0
}

/// `str::trim` of the standard library. The contract names the slice that it
/// returns and claims one thing of it: taking white space away never makes a
/// text longer.
#[verifier::external_body]
fn trim(text: &str) -> (r: &str)
    ensures
        r@ == trimmed(text@),
        r@.len() <= text@.len(),
{
    text.trim()
}

/// Tells whether a text is empty once trimmed.
pub fn is_blank(text: &str) -> (r: bool)
    ensures
        r == blank(text@),
        text@.len() == 0 ==> r,
{
    trim(text).is_empty()
}

/// The characters of an optional text.
pub open spec fn opt_text(o: Option<String>) -> Option<Seq<char>> {
    match o {
        Some(s) => Some(s@),
        None => None,
    }
}

/// The characters of each text of a list.
pub open spec fn texts(list: Seq<String>) -> Seq<Seq<char>> {
    list.map_values(|s: String| s@)
}

/// Copies an optional text.
pub fn clone_opt_text(o: &Option<String>) -> (r: Option<String>)
    ensures
        r == *o,
{
    match o {
        Some(s) => Some(s.clone()),
        None => None,
    }
}

/// Two tests that agree on every item of a list keep the same items of it.
pub proof fn lemma_filter_agrees<A>(list: Seq<A>, p: spec_fn(A) -> bool, q: spec_fn(A) -> bool)
    requires
        forall|i: int| 0 <= i < list.len() ==> p(#[trigger] list[i]) == q(list[i]),
    ensures
        list.filter(p) == list.filter(q),
    decreases list.len(),
{
    reveal(Seq::filter);
    if list.len() > 0 {
        assert(p(list[list.len() - 1]) == q(list[list.len() - 1]));
        assert forall|i: int| 0 <= i < list.drop_last().len() implies p(#[trigger] list.drop_last()[i])
            == q(list.drop_last()[i]) by {
            assert(list.drop_last()[i] == list[i]);
        }
        lemma_filter_agrees(list.drop_last(), p, q);
    }
}

/// A test that no item of a list passes keeps nothing of it.
pub proof fn lemma_filter_keeps_nothing<A>(list: Seq<A>, p: spec_fn(A) -> bool)
    requires
        forall|i: int| 0 <= i < list.len() ==> !p(#[trigger] list[i]),
    ensures
        list.filter(p) == Seq::<A>::empty(),
    decreases list.len(),
{
    reveal(Seq::filter);
    if list.len() > 0 {
        assert(!p(list[list.len() - 1]));
        assert forall|i: int| 0 <= i < list.drop_last().len() implies !p(
            #[trigger] list.drop_last()[i],
        ) by {
            assert(list.drop_last()[i] == list[i]);
        }
        lemma_filter_keeps_nothing(list.drop_last(), p);
    } else {
        assert(list.filter(p) =~= Seq::<A>::empty());
    }
}

} // verus!
