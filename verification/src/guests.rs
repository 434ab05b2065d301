//! The guests the harness can deploy, chosen by name.
use vstd::prelude::*;
use vstd::utf8::{encode_utf8, encode_utf8_decode_utf8, is_ascii_chars, is_ascii_chars_encode_utf8};

verus! {

/// A deployable guest program.
#[derive(Debug, Clone, Copy, PartialEq, Eq, Structural)]
pub enum GuestKind {
    /// The Argo lending program.
    ArgoLending,
    /// The vault probe program.
    SpikeVault,
}

/// The name `argo_lending`.
pub open spec fn argo_lending_name() -> Seq<char> {
    seq!['a', 'r', 'g', 'o', '_', 'l', 'e', 'n', 'd', 'i', 'n', 'g']
}

/// The name `spike_vault`.
pub open spec fn spike_vault_name() -> Seq<char> {
    seq!['s', 'p', 'i', 'k', 'e', '_', 'v', 'a', 'u', 'l', 't']
}

/// Whether two byte strings are equal.
fn bytes_equal(a: &[u8], b: &[u8]) -> (r: bool)
    ensures
        r == (a@ == b@),
{
    if a.len() != b.len() {
        return false;
    }
    let mut i: usize = 0;
    while i < a.len()
        invariant
            i <= a@.len(),
            a@.len() == b@.len(),
            forall|k: int| 0 <= k < i ==> a@[k] == b@[k],
        decreases a@.len() - i,
    {
        if a[i] != b[i] {
            return false;
        }
        i += 1;
    }
    assert(a@ =~= b@);
    true
}

/// `name` spells `lit` exactly when its UTF-8 bytes are the ASCII bytes of `lit`.
proof fn lemma_name_bytes(name: Seq<char>, lit: Seq<char>, bytes: Seq<u8>)
    requires
        is_ascii_chars(lit),
        bytes.len() == lit.len(),
        forall|i: int| 0 <= i < lit.len() ==> #[trigger] bytes[i] == lit[i] as u8,
    ensures
        (encode_utf8(name) == bytes) <==> (name == lit),
{
    is_ascii_chars_encode_utf8(lit);
    assert(encode_utf8(lit) =~= bytes);
    encode_utf8_decode_utf8(name);
    encode_utf8_decode_utf8(lit);
}

/// The guest a command-line name selects, if any.
pub fn guest_kind(name: &str) -> (r: Option<GuestKind>)
    ensures
        r == (if name@ == argo_lending_name() {
            Some(GuestKind::ArgoLending)
        } else if name@ == spike_vault_name() {
            Some(GuestKind::SpikeVault)
        } else {
            None
        }),
{
    let bytes = name.as_bytes();
    let argo_lending: [u8; 12] = [0x61, 0x72, 0x67, 0x6f, 0x5f, 0x6c, 0x65, 0x6e, 0x64, 0x69, 0x6e, 0x67];
    let spike_vault: [u8; 11] = [0x73, 0x70, 0x69, 0x6b, 0x65, 0x5f, 0x76, 0x61, 0x75, 0x6c, 0x74];
    proof {
        lemma_name_bytes(name@, argo_lending_name(), argo_lending@);
        lemma_name_bytes(name@, spike_vault_name(), spike_vault@);
    }
    if bytes_equal(bytes, &argo_lending) {
        Some(GuestKind::ArgoLending)
    } else if bytes_equal(bytes, &spike_vault) {
        Some(GuestKind::SpikeVault)
    } else {
        None
    }
}

} // verus!
