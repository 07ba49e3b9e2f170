//! Hashing the decimal text of a candidate with a SHA-256 state and a
//! formatting buffer that are both reused from one candidate to the next.
use vstd::prelude::*;
use sha2::Digest;

verus! {

/// A SHA-256 state of `sha2`. Verus refuses to declare `sha2::Sha256`, a
/// nest of generic wrappers, so it is held here and seen through `absorbed`.
#[verifier::external_body]
pub struct Sha256State {
    inner: sha2::Sha256,
}

#[verifier::external_type_specification]
#[verifier::external_body]
pub struct ExItoaBuffer(itoa::Buffer);

/// The SHA-256 digest of `data`.
pub uninterp spec fn sha256(data: Seq<u8>) -> Seq<u8>;

/// The bytes that a SHA-256 state has absorbed since it was created or last reset.
pub uninterp spec fn absorbed(h: Sha256State) -> Seq<u8>;

/// ASCII decimal digits of `n`, without sign or leading zeros.
pub open spec fn decimal_digits(n: nat) -> Seq<u8>
    decreases n,
{
    if n < 10 {
        seq![(48 + n) as u8]
    } else {
        decimal_digits(n / 10).push((48 + n % 10) as u8)
    }
}

/// Relies on `sha2::Sha256::new` (through `Digest::new`): a fresh state has
/// absorbed nothing.
#[verifier::external_body]
fn sha256_new() -> (h: Sha256State)
    ensures
        absorbed(h) == Seq::<u8>::empty(),
{
    Sha256State { inner: sha2::Sha256::new() }
}

/// Relies on `Digest::update` for `sha2::Sha256`: the bytes are appended to
/// what the state has absorbed.
#[verifier::external_body]
fn sha256_update(h: &mut Sha256State, data: &[u8])
    ensures
        absorbed(*final(h)) == absorbed(*old(h)) + data@,
{
    Digest::update(&mut h.inner, data);
}

/// Relies on `Digest::finalize_reset` for `sha2::Sha256`: it returns the
/// 32-byte digest of the absorbed bytes and puts the state back to its
/// initial value.
#[verifier::external_body]
fn sha256_finalize_reset(h: &mut Sha256State) -> (r: [u8; 32])
    ensures
        r@ == sha256(absorbed(*old(h))),
        absorbed(*final(h)) == Seq::<u8>::empty(),
{
    let out = Digest::finalize_reset(&mut h.inner);
    let mut r = [0u8; 32];
    r.copy_from_slice(out.as_slice());
    r
}

/// Relies on `itoa::Buffer::new`: an empty formatting buffer.
#[verifier::external_body]
fn decimal_buffer_new() -> (b: itoa::Buffer) {
    itoa::Buffer::new()
}

/// Relies on `itoa::Buffer::format` for `u64`: the shortest decimal text of
/// `i`, written into the buffer.
#[verifier::external_body]
fn format_decimal<'a>(buf: &'a mut itoa::Buffer, i: u64) -> (r: &'a [u8])
    ensures
        r@ == decimal_digits(i as nat),
{
    buf.format(i).as_bytes()
}

/// A worker's reusable hashing state: a SHA-256 state that holds no pending
/// input between candidates, and a decimal formatting buffer.
pub struct CandidateHasher {
    state: Sha256State,
    buffer: itoa::Buffer,
}

impl CandidateHasher {
    /// The hasher is ready for the next candidate.
    pub closed spec fn wf(&self) -> bool {
        absorbed(self.state) == Seq::<u8>::empty()
    }

    pub fn new() -> (r: CandidateHasher)
        ensures
            r.wf(),
    {
        CandidateHasher { state: sha256_new(), buffer: decimal_buffer_new() }
    }

    /// The SHA-256 digest of the decimal text of `i`.
    pub fn digest_of(&mut self, i: u64) -> (r: [u8; 32])
        requires
            old(self).wf(),
        ensures
            final(self).wf(),
            r@ == sha256(decimal_digits(i as nat)),
    {
        let text = format_decimal(&mut self.buffer, i);
        sha256_update(&mut self.state, text);
        assert(Seq::<u8>::empty() + decimal_digits(i as nat) =~= decimal_digits(i as nat));
        sha256_finalize_reset(&mut self.state)
    }
}

} // verus!
