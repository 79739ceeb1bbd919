//! Request headers, and the `Authorization` header among them.
use vstd::prelude::*;

verus! {

/// One header of a request: its name and its raw value, both as bytes.
pub struct Header {
    pub name: Vec<u8>,
    pub value: Vec<u8>,
}

/// The header name `authorization`, in lower case, as ASCII bytes.
pub open spec fn authorization_name() -> Seq<u8> {
    seq![97, 117, 116, 104, 111, 114, 105, 122, 97, 116, 105, 111, 110]
}

/// A byte with ASCII upper case (`A` is 65, `Z` is 90) folded to lower case.
pub open spec fn ascii_lower(b: u8) -> u8 {
    if 65 <= b && b <= 90 {
        (b + 32) as u8
    } else {
        b
    }
}

/// Header names compare without regard to ASCII case.
pub open spec fn is_authorization_name(name: Seq<u8>) -> bool {
    &&& name.len() == authorization_name().len()
    &&& forall|i: int| 0 <= i < name.len() ==> ascii_lower(#[trigger] name[i]) == authorization_name()[i]
}

/// The value of the first `Authorization` header, if there is one.
pub open spec fn first_authorization(hs: Seq<Header>) -> Option<Seq<u8>>
    decreases hs.len(),
{
    if hs.len() == 0 {
        None
    } else {
        match first_authorization(hs.drop_last()) {
            Some(v) => Some(v),
            None => if is_authorization_name(hs.last().name@) {
                Some(hs.last().value@)
            } else {
                None
            },
        }
    }
}

/// The headers with every `Authorization` header taken out, in their order.
pub open spec fn without_authorization(hs: Seq<Header>) -> Seq<Header>
    decreases hs.len(),
{
    if hs.len() == 0 {
        hs
    } else {
        let kept = without_authorization(hs.drop_last());
        if is_authorization_name(hs.last().name@) {
            kept
        } else {
            kept.push(hs.last())
        }
    }
}

/// The byte sequence held by an optional value.
pub open spec fn bytes_of(o: Option<Vec<u8>>) -> Option<Seq<u8>> {
    match o {
        Some(v) => Some(v@),
        None => None,
    }
}

fn lower(b: u8) -> (r: u8)
    ensures
        r == ascii_lower(b),
{
    if 65 <= b && b <= 90 {
        b + 32
    } else {
        b
    }
}

/// Whether a header name is `Authorization`, in any ASCII case.
pub fn is_authorization(name: &Vec<u8>) -> (r: bool)
    ensures
        r == is_authorization_name(name@),
{
    let target: [u8; 13] = [
        97, 117, 116, 104, 111, 114, 105, 122, 97, 116, 105, 111, 110,
    ];
    assert(target@ =~= authorization_name());
    if name.len() != 13 {
        return false;
    }
    let mut i: usize = 0;
    while i < 13
        invariant
            name@.len() == 13,
            target@ == authorization_name(),
            i <= 13,
            forall|j: int| 0 <= j < i ==> ascii_lower(#[trigger] name@[j]) == authorization_name()[j],
        decreases 13 - i,
    {
        if lower(name[i]) != target[i] {
            return false;
        }
        i = i + 1;
    }
    true
}

/// Takes every `Authorization` header out of `headers`, keeping the others in
/// their order, and returns the value of the first one taken out.
pub fn remove_authorization(headers: &mut Vec<Header>) -> (r: Option<Vec<u8>>)
    ensures
        final(headers)@ == without_authorization(old(headers)@),
        bytes_of(r) == first_authorization(old(headers)@),
{
    let ghost orig = headers@;
    let mut first: Option<Vec<u8>> = None;
    let mut i: usize = 0;
    let ghost mut k: int = 0;
    while i < headers.len()
        invariant
            0 <= k <= orig.len(),
            headers@ == without_authorization(orig.take(k)) + orig.skip(k),
            i == without_authorization(orig.take(k)).len(),
            bytes_of(first) == first_authorization(orig.take(k)),
        decreases orig.len() - k,
    {
        proof {
            assert(orig.take(k + 1).drop_last() =~= orig.take(k));
            assert(orig.take(k + 1).last() == orig[k]);
            assert(headers@[i as int] == orig[k]);
        }
        if is_authorization(&headers[i].name) {
            let h = headers.remove(i);
            if first.is_none() {
                first = Some(h.value);
            }
            proof {
                assert(headers@ =~= without_authorization(orig.take(k + 1)) + orig.skip(k + 1));
                k = k + 1;
            }
        } else {
            i = i + 1;
            proof {
                assert(headers@ =~= without_authorization(orig.take(k + 1)) + orig.skip(k + 1));
                k = k + 1;
            }
        }
    }
    proof {
        assert(orig.skip(k).len() == 0);
        assert(orig.take(k) =~= orig);
        assert(headers@ =~= without_authorization(orig));
    }
    first
}

/// Once the `Authorization` headers are taken out, none is left, whatever case
/// their names were written in.
pub proof fn lemma_without_authorization_has_none(hs: Seq<Header>)
    ensures
        forall|i: int|
            0 <= i < without_authorization(hs).len() ==> !is_authorization_name(
                #[trigger] without_authorization(hs)[i].name@,
            ),
        first_authorization(without_authorization(hs)) is None,
    decreases hs.len(),
{
    if hs.len() > 0 {
        lemma_without_authorization_has_none(hs.drop_last());
    }
    lemma_no_match_no_first(without_authorization(hs));
}

proof fn lemma_no_match_no_first(hs: Seq<Header>)
    requires
        forall|i: int| 0 <= i < hs.len() ==> !is_authorization_name(#[trigger] hs[i].name@),
    ensures
        first_authorization(hs) is None,
    decreases hs.len(),
{
    if hs.len() > 0 {
        assert forall|i: int| 0 <= i < hs.drop_last().len() implies !is_authorization_name(
            #[trigger] hs.drop_last()[i].name@,
        ) by {
            assert(hs.drop_last()[i] == hs[i]);
        }
        lemma_no_match_no_first(hs.drop_last());
    }
}

} // verus!
