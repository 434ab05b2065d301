//! Program-derived-account seeds: a short byte string zero-padded to the
//! runtime's 32-byte seed width.
use vstd::prelude::*;

verus! {

/// `s` cut or zero-padded to exactly 32 bytes.
pub open spec fn spec_padded(s: Seq<u8>) -> Seq<u8> {
    Seq::new(32, |i: int| if i < s.len() { s[i] } else { 0u8 })
}

/// Copy up to 32 bytes of `s` into a zeroed 32-byte seed.
pub fn padded(s: &[u8]) -> (out: [u8; 32])
    ensures
        out@ == spec_padded(s@),
{
    let mut out = [0u8; 32];
    let mut i: usize = 0;
    while i < s.len() && i < 32
        invariant
            i <= 32,
            i <= s@.len(),
            forall|k: int| 0 <= k < i ==> out@[k] == s@[k],
            forall|k: int| i <= k < 32 ==> out@[k] == 0u8,
        decreases 32 - i,
    {
        out[i] = s[i];
        i += 1;
    }
    assert(out@ =~= spec_padded(s@));
    out
}

/// The ASCII bytes of `config`.
pub open spec fn config_seed_text() -> Seq<u8> {
    seq![0x63u8, 0x6f, 0x6e, 0x66, 0x69, 0x67]
}

/// Seed of the lending program's `Config` PDA: `"config"`, zero-padded.
pub fn config_seed() -> (seed: [u8; 32])
    ensures
        seed@ == spec_padded(config_seed_text()),
{
    let text: [u8; 6] = [0x63, 0x6f, 0x6e, 0x66, 0x69, 0x67];
    assert(text@ =~= config_seed_text());
    padded(&text)
}

/// The ASCII bytes of `argo-spike/` followed by `tail`.
pub open spec fn spike_seed_text(tail: Seq<u8>) -> Seq<u8> {
    seq![0x61u8, 0x72, 0x67, 0x6f, 0x2d, 0x73, 0x70, 0x69, 0x6b, 0x65, 0x2f] + tail
}

/// The ASCII bytes of `state`.
pub open spec fn state_text() -> Seq<u8> {
    seq![0x73u8, 0x74, 0x61, 0x74, 0x65]
}

/// The ASCII bytes of `vault`.
pub open spec fn vault_text() -> Seq<u8> {
    seq![0x76u8, 0x61, 0x75, 0x6c, 0x74]
}

/// The ASCII bytes of `wrong`.
pub open spec fn wrong_text() -> Seq<u8> {
    seq![0x77u8, 0x72, 0x6f, 0x6e, 0x67]
}

/// `argo-spike/` followed by a five-byte tail, zero-padded to a seed.
fn spike_seed(tail: [u8; 5]) -> (seed: [u8; 32])
    ensures
        seed@ == spec_padded(spike_seed_text(tail@)),
{
    let text: [u8; 16] = [
        0x61,
        0x72,
        0x67,
        0x6f,
        0x2d,
        0x73,
        0x70,
        0x69,
        0x6b,
        0x65,
        0x2f,
        tail[0],
        tail[1],
        tail[2],
        tail[3],
        tail[4],
    ];
    assert(text@ =~= spike_seed_text(tail@));
    padded(&text)
}

/// Seed of the vault program's state PDA: `"argo-spike/state"`, zero-padded.
pub fn state_seed() -> (seed: [u8; 32])
    ensures
        seed@ == spec_padded(spike_seed_text(state_text())),
{
    let tail: [u8; 5] = [0x73, 0x74, 0x61, 0x74, 0x65];
    assert(tail@ =~= state_text());
    spike_seed(tail)
}

/// Seed of the vault PDA: `"argo-spike/vault"`, zero-padded.
pub fn vault_seed() -> (seed: [u8; 32])
    ensures
        seed@ == spec_padded(spike_seed_text(vault_text())),
{
    let tail: [u8; 5] = [0x76, 0x61, 0x75, 0x6c, 0x74];
    assert(tail@ =~= vault_text());
    spike_seed(tail)
}

/// A seed no account was derived from: `"argo-spike/wrong"`, zero-padded.
pub fn wrong_seed() -> (seed: [u8; 32])
    ensures
        seed@ == spec_padded(spike_seed_text(wrong_text())),
{
    let tail: [u8; 5] = [0x77, 0x72, 0x6f, 0x6e, 0x67];
    assert(tail@ =~= wrong_text());
    spike_seed(tail)
}

/// A padded seed holds the first 32 bytes of the text, in order, and zero
/// after the text ends.
pub proof fn lemma_padded_layout(s: Seq<u8>)
    ensures
        spec_padded(s).len() == 32,
        forall|i: int| 0 <= i < 32 && i < s.len() ==> #[trigger] spec_padded(s)[i] == s[i],
        forall|i: int| s.len() <= i < 32 ==> #[trigger] spec_padded(s)[i] == 0,
{
}

} // verus!
