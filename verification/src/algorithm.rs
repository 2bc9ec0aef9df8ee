//! Password algorithms, and the list of them inside the PASSWORD-ALGORITHM
//! and PASSWORD-ALGORITHMS attributes.

use crate::error::{spec_prepend, DecodeError};
use crate::wire::{
    bytes_eq, lemma_padded_len, lemma_u16_roundtrip, padded_len, push_bytes, push_padding, push_u16,
    read_u16, spec_padded_len, spec_u16_at, spec_u16_be, spec_zeros, MAX_LENGTH,
};
use vstd::prelude::*;
use vstd::slice::{slice_subrange, slice_to_vec};
use vstd::std_specs::cmp::PartialEqSpecImpl;

verus! {

/// A password algorithm: its number and its parameters.
#[derive(Debug, Clone)]
pub struct PasswordAlgorithm {
    pub algorithm: u16,
    pub parameters: Vec<u8>,
}

/// The mathematical value of a [`PasswordAlgorithm`].
pub struct PasswordAlgorithmView {
    pub algorithm: u16,
    pub parameters: Seq<u8>,
}

impl View for PasswordAlgorithm {
    type V = PasswordAlgorithmView;

    open spec fn view(&self) -> PasswordAlgorithmView {
        PasswordAlgorithmView { algorithm: self.algorithm, parameters: self.parameters@ }
    }
}

impl PasswordAlgorithmView {
    /// Whether the parameters fit their 16-bit length field.
    pub open spec fn wf(self) -> bool {
        self.parameters.len() <= MAX_LENGTH
    }

    /// One entry on the wire: the algorithm, the length of the parameters,
    /// the parameters, and zero bytes up to the next 4-byte boundary.
    pub open spec fn spec_encode(self) -> Seq<u8> {
        spec_u16_be(self.algorithm) + spec_u16_be(self.parameters.len() as u16) + self.parameters
            + spec_zeros(spec_padded_len(self.parameters.len() as int) - self.parameters.len())
    }
}

/// The mathematical values of a list of algorithms.
pub open spec fn spec_algorithm_views(list: Seq<PasswordAlgorithm>) -> Seq<PasswordAlgorithmView> {
    Seq::new(list.len(), |i: int| list[i]@)
}

/// Whether every algorithm of a list fits its length field.
pub open spec fn spec_algorithms_wf(list: Seq<PasswordAlgorithmView>) -> bool {
    forall|i: int| 0 <= i < list.len() ==> (#[trigger] list[i]).wf()
}

/// The entries of a list of algorithms, one after the other.
pub open spec fn spec_encode_algorithms(list: Seq<PasswordAlgorithmView>) -> Seq<u8>
    decreases list.len(),
{
    if list.len() == 0 {
        Seq::empty()
    } else {
        list.first().spec_encode() + spec_encode_algorithms(list.drop_first())
    }
}

/// The entry that starts at `pos`, given that it lies inside the value.
pub open spec fn spec_algorithm_at(value: Seq<u8>, pos: int) -> PasswordAlgorithmView {
    PasswordAlgorithmView {
        algorithm: spec_u16_at(value, pos),
        parameters: value.subrange(pos + 4, pos + 4 + spec_u16_at(value, pos + 2)),
    }
}

/// The list of algorithms that the value of an attribute of type `typ` holds
/// from `pos` on. Every entry must lie inside the value together with its
/// padding.
pub open spec fn spec_decode_algorithms(typ: u16, value: Seq<u8>, pos: int) -> Result<
    Seq<PasswordAlgorithmView>,
    DecodeError,
>
    decreases value.len() - pos,
{
    if pos >= value.len() {
        Ok(Seq::empty())
    } else if value.len() - pos < 4 {
        Err(DecodeError::InvalidAttributeLength(typ))
    } else {
        let next = pos + 4 + spec_padded_len(spec_u16_at(value, pos + 2) as int);
        if next > value.len() {
            Err(DecodeError::InvalidAttributeLength(typ))
        } else {
            spec_prepend(
                seq![spec_algorithm_at(value, pos)],
                spec_decode_algorithms(typ, value, next),
            )
        }
    }
}

/// The length of an entry is four bytes more than its padded parameters.
pub proof fn lemma_algorithm_len(a: PasswordAlgorithmView)
    ensures
        a.spec_encode().len() == 4 + spec_padded_len(a.parameters.len() as int),
{
    lemma_padded_len(a.parameters.len() as int);
}

/// The entries of a list are the first entry followed by the others.
pub proof fn lemma_encode_algorithms_skip(list: Seq<PasswordAlgorithmView>, i: int)
    requires
        0 <= i < list.len(),
    ensures
        spec_encode_algorithms(list.skip(i)) == list[i].spec_encode() + spec_encode_algorithms(
            list.skip(i + 1),
        ),
{
    assert(list.skip(i).drop_first() =~= list.skip(i + 1));
}

/// Reading the entries of a list of algorithms gives the list: where the
/// bytes of `value` from `pos` on are the entries of `list`, and every
/// algorithm fits its length field, decoding from `pos` yields `list`.
pub proof fn lemma_algorithms_roundtrip(
    typ: u16,
    value: Seq<u8>,
    pos: int,
    list: Seq<PasswordAlgorithmView>,
)
    requires
        0 <= pos <= value.len(),
        value.subrange(pos, value.len() as int) == spec_encode_algorithms(list),
        spec_algorithms_wf(list),
    ensures
        spec_decode_algorithms(typ, value, pos) == Ok::<Seq<PasswordAlgorithmView>, DecodeError>(
            list,
        ),
    decreases list.len(),
{
    let tail = value.subrange(pos, value.len() as int);
    if list.len() == 0 {
        assert(tail.len() == 0);
        assert(list =~= Seq::empty());
    } else {
        let a = list.first();
        let rest = list.drop_first();
        let entry = a.spec_encode();
        let plen = a.parameters.len() as int;
        assert(a.wf());
        lemma_algorithm_len(a);
        lemma_padded_len(plen);
        lemma_u16_roundtrip(a.algorithm);
        lemma_u16_roundtrip(plen as u16);
        assert(tail == entry + spec_encode_algorithms(rest));
        assert(tail.len() >= entry.len());
        assert(forall|k: int| 0 <= k < entry.len() ==> value[pos + k] == tail[k]);
        assert(forall|k: int| 0 <= k < entry.len() ==> tail[k] == entry[k]);
        assert(value[pos] == tail[0] && tail[0] == entry[0]);
        assert(value[pos + 1] == tail[1] && tail[1] == entry[1]);
        assert(value[pos + 2] == tail[2] && tail[2] == entry[2]);
        assert(value[pos + 3] == tail[3] && tail[3] == entry[3]);
        assert(entry[0] == spec_u16_be(a.algorithm)[0]);
        assert(entry[1] == spec_u16_be(a.algorithm)[1]);
        assert(entry[2] == spec_u16_be(plen as u16)[0]);
        assert(entry[3] == spec_u16_be(plen as u16)[1]);
        assert(spec_u16_at(value, pos) == a.algorithm);
        assert(spec_u16_at(value, pos + 2) == plen);
        let next = pos + 4 + spec_padded_len(plen);
        assert(next == pos + entry.len());
        assert(value.subrange(pos + 4, pos + 4 + plen) =~= a.parameters) by {
            assert(forall|k: int| 0 <= k < plen ==> entry[4 + k] == a.parameters[k]);
        }
        assert(spec_algorithm_at(value, pos) == a);
        assert(tail.subrange(entry.len() as int, tail.len() as int) =~= spec_encode_algorithms(
            rest,
        ));
        assert(value.subrange(next, value.len() as int) =~= tail.subrange(
            entry.len() as int,
            tail.len() as int,
        ));
        assert(spec_algorithms_wf(rest)) by {
            assert(forall|i: int| 0 <= i < rest.len() ==> rest[i] == list[i + 1]);
        }
        lemma_algorithms_roundtrip(typ, value, next, rest);
        assert(seq![a] + rest =~= list);
    }
}

/// A decoded list of algorithms can be encoded again, into as many bytes as
/// it was decoded from.
pub proof fn lemma_decoded_algorithms_wf(typ: u16, value: Seq<u8>, pos: int)
    requires
        0 <= pos <= value.len(),
        spec_decode_algorithms(typ, value, pos) is Ok,
    ensures
        spec_algorithms_wf(spec_decode_algorithms(typ, value, pos)->Ok_0),
        spec_encode_algorithms(spec_decode_algorithms(typ, value, pos)->Ok_0).len() == value.len()
            - pos,
    decreases value.len() - pos,
{
    let list = spec_decode_algorithms(typ, value, pos)->Ok_0;
    if pos >= value.len() {
        assert(list =~= Seq::empty());
    } else {
        let plen = spec_u16_at(value, pos + 2) as int;
        let next = pos + 4 + spec_padded_len(plen);
        let a = spec_algorithm_at(value, pos);
        lemma_padded_len(plen);
        lemma_decoded_algorithms_wf(typ, value, next);
        let rest = spec_decode_algorithms(typ, value, next)->Ok_0;
        assert(list == seq![a] + rest);
        assert(a.parameters.len() == plen);
        lemma_algorithm_len(a);
        assert(list.first() == a);
        assert(list.drop_first() =~= rest);
        assert forall|i: int| 0 <= i < list.len() implies (#[trigger] list[i]).wf() by {
            if i > 0 {
                assert(list[i] == rest[i - 1]);
            }
        }
    }
}

impl PasswordAlgorithm {
    /// Appends the entry of this algorithm.
    pub fn encode(&self, out: &mut Vec<u8>)
        requires
            self@.wf(),
        ensures
            final(out)@ == old(out)@ + self@.spec_encode(),
    {
        let len: usize = self.parameters.len();
        push_u16(out, self.algorithm);
        push_u16(out, len as u16);
        push_bytes(out, self.parameters.as_slice());
        push_padding(out, len);
        assert(out@ =~= old(out)@ + self@.spec_encode());
    }
}

/// The number of bytes that the entries of a list take, where every
/// algorithm fits its length field and the entries fit the length field of an
/// attribute; otherwise nothing.
pub fn algorithms_len(list: &Vec<PasswordAlgorithm>) -> (len: Option<usize>)
    ensures
        len is Some <==> spec_algorithms_wf(spec_algorithm_views(list@)) && spec_encode_algorithms(
            spec_algorithm_views(list@),
        ).len() <= MAX_LENGTH,
        len matches Some(n) ==> n == spec_encode_algorithms(spec_algorithm_views(list@)).len(),
{
    let ghost views = spec_algorithm_views(list@);
    let mut total: usize = 0;
    let mut i: usize = 0;
    assert(views.skip(0) =~= views);
    while i < list.len()
        invariant
            i <= list@.len(),
            views == spec_algorithm_views(list@),
            total <= MAX_LENGTH,
            total + spec_encode_algorithms(views.skip(i as int)).len() == spec_encode_algorithms(
                views,
            ).len(),
            forall|j: int| 0 <= j < i ==> (#[trigger] views[j]).wf(),
        decreases list@.len() - i,
    {
        let plen: usize = list[i].parameters.len();
        proof {
            lemma_encode_algorithms_skip(views, i as int);
            lemma_algorithm_len(views[i as int]);
            lemma_padded_len(plen as int);
        }
        if plen > MAX_LENGTH {
            assert(!views[i as int].wf());
            return None;
        }
        let entry: usize = 4 + padded_len(plen);
        if entry > MAX_LENGTH - total {
            return None;
        }
        total += entry;
        i += 1;
    }
    assert(views.skip(i as int) =~= Seq::empty());
    Some(total)
}

/// Appends the entries of a list of algorithms.
pub fn encode_algorithms(list: &Vec<PasswordAlgorithm>, out: &mut Vec<u8>)
    requires
        spec_algorithms_wf(spec_algorithm_views(list@)),
    ensures
        final(out)@ == old(out)@ + spec_encode_algorithms(spec_algorithm_views(list@)),
{
    let ghost views = spec_algorithm_views(list@);
    let mut i: usize = 0;
    assert(views.skip(0) =~= views);
    while i < list.len()
        invariant
            i <= list@.len(),
            views == spec_algorithm_views(list@),
            spec_algorithms_wf(views),
            out@ + spec_encode_algorithms(views.skip(i as int)) == old(out)@
                + spec_encode_algorithms(views),
        decreases list@.len() - i,
    {
        let ghost before = out@;
        proof {
            lemma_encode_algorithms_skip(views, i as int);
            assert(views[i as int].wf());
        }
        list[i].encode(out);
        assert(out@ + spec_encode_algorithms(views.skip(i + 1)) =~= before
            + spec_encode_algorithms(views.skip(i as int)));
        i += 1;
    }
    assert(views.skip(i as int) =~= Seq::empty());
    assert(out@ =~= out@ + spec_encode_algorithms(views.skip(i as int)));
}

/// Reads the list of algorithms that the value of an attribute of type `typ`
/// holds.
pub fn decode_algorithms(typ: u16, value: &[u8]) -> (decoded: Result<
    Vec<PasswordAlgorithm>,
    DecodeError,
>)
    ensures
        match decoded {
            Ok(list) => spec_decode_algorithms(typ, value@, 0) == Ok::<
                Seq<PasswordAlgorithmView>,
                DecodeError,
            >(spec_algorithm_views(list@)),
            Err(e) => spec_decode_algorithms(typ, value@, 0) == Err::<
                Seq<PasswordAlgorithmView>,
                DecodeError,
            >(e),
        },
{
    let mut list: Vec<PasswordAlgorithm> = Vec::new();
    let mut pos: usize = 0;
    let len: usize = value.len();
    assert(spec_algorithm_views(list@) =~= Seq::empty());
    assert(spec_decode_algorithms(typ, value@, 0) == spec_prepend(
        Seq::<PasswordAlgorithmView>::empty(),
        spec_decode_algorithms(typ, value@, 0),
    )) by {
        match spec_decode_algorithms(typ, value@, 0) {
            Ok(items) => {
                assert(Seq::<PasswordAlgorithmView>::empty() + items =~= items);
            },
            Err(e) => {},
        }
    }
    while pos < len
        invariant
            pos <= len,
            len == value@.len(),
            spec_decode_algorithms(typ, value@, 0) == spec_prepend(
                spec_algorithm_views(list@),
                spec_decode_algorithms(typ, value@, pos as int),
            ),
        decreases len - pos,
    {
        if len - pos < 4 {
            return Err(DecodeError::InvalidAttributeLength(typ));
        }
        let algorithm: u16 = read_u16(value, pos);
        let plen: usize = read_u16(value, pos + 2) as usize;
        let padded: usize = padded_len(plen);
        proof {
            lemma_padded_len(plen as int);
        }
        if padded > len - pos - 4 {
            return Err(DecodeError::InvalidAttributeLength(typ));
        }
        let parameters: Vec<u8> = slice_to_vec(slice_subrange(value, pos + 4, pos + 4 + plen));
        let ghost before = spec_algorithm_views(list@);
        let ghost next: int = pos + 4 + padded;
        list.push(PasswordAlgorithm { algorithm, parameters });
        proof {
            let entry = spec_algorithm_at(value@, pos as int);
            assert(spec_algorithm_views(list@) =~= before + seq![entry]);
            match spec_decode_algorithms(typ, value@, next) {
                Ok(items) => {
                    assert(before + (seq![entry] + items) =~= (before + seq![entry]) + items);
                },
                Err(e) => {},
            }
        }
        pos = pos + 4 + padded;
    }
    assert(spec_algorithm_views(list@) + Seq::<PasswordAlgorithmView>::empty()
        =~= spec_algorithm_views(list@));
    Ok(list)
}

impl PartialEq for PasswordAlgorithm {
    /// Two algorithms are equal where their numbers and their parameters
    /// are.
    fn eq(&self, other: &Self) -> (equal: bool) {
        self.algorithm == other.algorithm && bytes_eq(&self.parameters, &other.parameters)
    }
}

impl PartialEqSpecImpl for PasswordAlgorithm {
    open spec fn obeys_eq_spec() -> bool {
        true
    }

    open spec fn eq_spec(&self, other: &Self) -> bool {
        self@ == other@
    }
}

/// Whether two lists hold the same algorithms in the same order.
pub fn algorithms_eq(a: &Vec<PasswordAlgorithm>, b: &Vec<PasswordAlgorithm>) -> (equal: bool)
    ensures
        equal == (spec_algorithm_views(a@) == spec_algorithm_views(b@)),
{
    let ghost va = spec_algorithm_views(a@);
    let ghost vb = spec_algorithm_views(b@);
    if a.len() != b.len() {
        assert(va.len() != vb.len());
        return false;
    }
    let mut i: usize = 0;
    while i < a.len()
        invariant
            i <= a@.len(),
            a@.len() == b@.len(),
            va == spec_algorithm_views(a@),
            vb == spec_algorithm_views(b@),
            forall|j: int| 0 <= j < i ==> va[j] == vb[j],
        decreases a@.len() - i,
    {
        if !(a[i] == b[i]) {
            assert(va[i as int] != vb[i as int]);
            return false;
        }
        assert(va[i as int] == vb[i as int]);
        i += 1;
    }
    assert(va =~= vb);
    true
}

} // verus!
