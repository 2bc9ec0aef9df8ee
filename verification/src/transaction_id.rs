//! The 96-bit token that pairs a response with its request.

use vstd::prelude::*;
use vstd::std_specs::cmp::PartialEqSpecImpl;

verus! {

/// Twelve opaque bytes, fixed when the value is made.
#[derive(Debug, Clone, Copy)]
pub struct TransactionId {
    bytes: [u8; 12],
}

impl View for TransactionId {
    type V = Seq<u8>;

    closed spec fn view(&self) -> Seq<u8> {
        self.bytes@
    }
}

/// Fills twelve bytes from the thread-local generator of the `rand` crate,
/// by `rand::thread_rng` and `rand::Rng::fill`. Nothing is claimed of the
/// bytes: every value may come back. The call takes no input, so no
/// precondition can leave a failure out: the generator stops the program
/// where the operating system gives it no entropy, when a thread first uses
/// it or when it reseeds, and where its fork handler cannot be registered.
#[verifier::external_body]
fn random_bytes() -> (bytes: [u8; 12]) {
    let mut bytes = [0u8; 12];
    rand::Rng::fill(&mut rand::thread_rng(), &mut bytes[..]);
    bytes
}

impl TransactionId {
    /// A transaction id is always twelve bytes long.
    pub proof fn lemma_len(self)
        ensures
            self@.len() == 12,
    {
    }

    /// A fresh transaction id from an unpredictable source.
    pub fn new() -> (id: Self)
        ensures
            id@.len() == 12,
    {
        let bytes: [u8; 12] = random_bytes();
        Self { bytes }
    }

    /// Wraps twelve received bytes as they are.
    pub fn from(data: &[u8; 12]) -> (id: Self)
        ensures
            id@ == data@,
            id@.len() == 12,
    {
        Self { bytes: *data }
    }

    /// The twelve bytes.
    pub fn as_bytes(&self) -> (bytes: &[u8])
        ensures
            bytes@ == self@,
            bytes@.len() == 12,
    {
        self.bytes.as_slice()
    }

    /// Copies the twelve bytes that start at `pos`.
    pub fn read(data: &[u8], pos: usize) -> (id: Self)
        requires
            pos + 12 <= data@.len(),
        ensures
            id@ == data@.subrange(pos as int, pos + 12),
    {
        let len: usize = data.len();
        let bytes: [u8; 12] = [
            data[pos],
            data[pos + 1],
            data[pos + 2],
            data[pos + 3],
            data[pos + 4],
            data[pos + 5],
            data[pos + 6],
            data[pos + 7],
            data[pos + 8],
            data[pos + 9],
            data[pos + 10],
            data[pos + 11],
        ];
        assert(bytes@ =~= data@.subrange(pos as int, pos + 12));
        Self { bytes }
    }
}

impl PartialEq for TransactionId {
    /// Two transaction ids are equal where their bytes are.
    fn eq(&self, other: &Self) -> (equal: bool) {
        let mut i: usize = 0;
        while i < 12
            invariant
                i <= 12,
                forall|j: int| 0 <= j < i ==> self.bytes@[j] == other.bytes@[j],
            decreases 12 - i,
        {
            if self.bytes[i] != other.bytes[i] {
                return false;
            }
            i += 1;
        }
        assert(self.bytes@ =~= other.bytes@);
        true
    }
}

impl PartialEqSpecImpl for TransactionId {
    open spec fn obeys_eq_spec() -> bool {
        true
    }

    open spec fn eq_spec(&self, other: &Self) -> bool {
        self@ == other@
    }
}

} // verus!
