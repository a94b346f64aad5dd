//! Federation identifiers, their short prefixes and their hexadecimal text form.
//!
//! A federation identifier is a 32-byte value. It is written as 64 hexadecimal
//! digits and ordered byte by byte, which is the order in which the registry
//! lists its federations.

use crate::hex::{decode, hex_decode, hex_encode, lemma_hex_round_trip, push_hex};
use vstd::prelude::*;

verus! {

/// Identifier of one federation: the primary key of the registry.
#[derive(Clone, Copy, Debug, PartialEq, Eq, PartialOrd, Ord, Hash)]
pub struct FederationId(pub [u8; 32]);

/// The first four bytes of a [`FederationId`], used as a short handle.
#[derive(Clone, Copy, Debug, PartialEq, Eq, PartialOrd, Ord, Hash)]
pub struct FederationIdPrefix(pub [u8; 4]);

impl View for FederationId {
    type V = Seq<u8>;

    open spec fn view(&self) -> Seq<u8> {
        self.0@
    }
}

impl View for FederationIdPrefix {
    type V = Seq<u8>;

    open spec fn view(&self) -> Seq<u8> {
        self.0@
    }
}

/// The identifier of the federation that the text of an invite code names,
/// as `fedimint_core::invite_code::InviteCode` reads it: `None` where the
/// text is not an invite code. The text alone decides.
pub uninterp spec fn invite_code_federation(code: Seq<char>) -> Option<Seq<u8>>;

/// Reads an invite code with `InviteCode::from_str` of `fedimint_core` and
/// hands back the identifier that its `federation_id` gives. The contract
/// says no more than that this is what the text stands for.
#[verifier::external_body]
fn federation_of_invite_code(code: &str) -> (r: Option<FederationId>)
    ensures
        r is Some <==> invite_code_federation(code@) is Some,
        r matches Some(id) ==> invite_code_federation(code@) == Some(id@),
{
    match <fedimint_core::invite_code::InviteCode as std::str::FromStr>::from_str(code) {
        Ok(invite) => Some(
            FederationId(fedimint_core::BitcoinHash::to_byte_array(invite.federation_id().0)),
        ),
        Err(_) => None,
    }
}

/// An invite code: the text that tells how to reach a federation, and the
/// identifier of the federation that it names. Only [`InviteCode::from_str`]
/// makes one, so that the identifier is always the one that the text names.
#[derive(Debug, PartialEq, Eq)]
pub struct InviteCode {
    code: String,
    federation_id: FederationId,
}

/// What an [`InviteCode`] says.
pub struct InviteCodeView {
    pub code: Seq<char>,
    pub federation_id: Seq<u8>,
}

impl View for InviteCode {
    type V = InviteCodeView;

    closed spec fn view(&self) -> InviteCodeView {
        InviteCodeView { code: self.code@, federation_id: self.federation_id@ }
    }
}

impl Clone for InviteCode {
    fn clone(&self) -> (copy: Self)
        ensures
            copy@ == self@,
    {
        proof {
            use_type_invariant(self);
        }
        InviteCode { code: self.code.clone(), federation_id: self.federation_id }
    }
}

impl InviteCode {
    #[verifier::type_invariant]
    spec fn names_its_federation(&self) -> bool {
        invite_code_federation(self.code@) == Some(self.federation_id@)
    }

    /// Reads an invite code from its text: `None` where the text is not an
    /// invite code.
    pub fn from_str(code: &str) -> (r: Option<InviteCode>)
        ensures
            r is Some <==> invite_code_federation(code@) is Some,
            r matches Some(invite) ==> invite@.code == code@ && invite_code_federation(code@)
                == Some(invite@.federation_id),
    {
        match federation_of_invite_code(code) {
            Some(federation_id) => Some(InviteCode { code: code.to_owned(), federation_id }),
            None => None,
        }
    }

    /// The text of the invite code.
    pub fn code(&self) -> (code: &String)
        ensures
            code@ == self@.code,
    {
        &self.code
    }

    /// The identifier of the federation that the code invites to: the one
    /// that its text names.
    pub fn federation_id(&self) -> (id: FederationId)
        ensures
            id@ == self@.federation_id,
            invite_code_federation(self@.code) == Some(id@),
    {
        proof {
            use_type_invariant(self);
        }
        self.federation_id
    }
}

/// Byte-wise lexicographic order on identifiers of equal length: `a` comes
/// before `b` when they first differ at a byte that is smaller in `a`.
pub open spec fn id_lt(a: Seq<u8>, b: Seq<u8>) -> bool {
    exists|k: int| #[trigger] first_difference(a, b, k) && a[k] < b[k]
}

/// `k` is the first position at which `a` and `b` differ.
pub open spec fn first_difference(a: Seq<u8>, b: Seq<u8>, k: int) -> bool {
    &&& 0 <= k < a.len()
    &&& k < b.len()
    &&& a[k] != b[k]
    &&& a.subrange(0, k) == b.subrange(0, k)
}

/// Two sequences that agree up to `k` agree at every earlier index.
proof fn lemma_prefix_agrees(a: Seq<u8>, b: Seq<u8>, k: int, j: int)
    requires
        0 <= j < k <= a.len(),
        k <= b.len(),
        a.subrange(0, k) == b.subrange(0, k),
    ensures
        a[j] == b[j],
{
    assert(a.subrange(0, k)[j] == a[j]);
    assert(b.subrange(0, k)[j] == b[j]);
}

/// Two sequences differ first at no more than one position.
proof fn lemma_first_difference_unique(a: Seq<u8>, b: Seq<u8>, k1: int, k2: int)
    requires
        first_difference(a, b, k1),
        first_difference(a, b, k2),
    ensures
        k1 == k2,
{
    if k1 < k2 {
        lemma_prefix_agrees(a, b, k2, k1);
    } else if k2 < k1 {
        lemma_prefix_agrees(a, b, k1, k2);
    }
}

/// No identifier comes before itself.
pub proof fn lemma_id_lt_irreflexive(a: Seq<u8>)
    ensures
        !id_lt(a, a),
{
}

/// The order is asymmetric: of two identifiers at most one comes first.
pub proof fn lemma_id_lt_asymmetric(a: Seq<u8>, b: Seq<u8>)
    requires
        id_lt(a, b),
    ensures
        !id_lt(b, a),
{
    let k = choose|k: int| #[trigger] first_difference(a, b, k) && a[k] < b[k];
    if id_lt(b, a) {
        let j = choose|j: int| #[trigger] first_difference(b, a, j) && b[j] < a[j];
        assert(first_difference(a, b, j));
        lemma_first_difference_unique(a, b, k, j);
    }
}

/// The order is transitive.
pub proof fn lemma_id_lt_transitive(a: Seq<u8>, b: Seq<u8>, c: Seq<u8>)
    requires
        id_lt(a, b),
        id_lt(b, c),
    ensures
        id_lt(a, c),
{
    let k1 = choose|k: int| #[trigger] first_difference(a, b, k) && a[k] < b[k];
    let k2 = choose|k: int| #[trigger] first_difference(b, c, k) && b[k] < c[k];
    let k = if k1 <= k2 {
        k1
    } else {
        k2
    };
    assert forall|j: int| 0 <= j < k implies a[j] == c[j] by {
        lemma_prefix_agrees(a, b, k1, j);
        lemma_prefix_agrees(b, c, k2, j);
    }
    assert(a.subrange(0, k) =~= c.subrange(0, k));
    if k1 < k2 {
        lemma_prefix_agrees(b, c, k2, k1);
    } else if k2 < k1 {
        lemma_prefix_agrees(a, b, k1, k2);
    }
    assert(first_difference(a, c, k));
}

/// The order is total on identifiers of one length: two different
/// identifiers are ordered one way or the other.
pub proof fn lemma_id_lt_total(a: Seq<u8>, b: Seq<u8>)
    requires
        a.len() == b.len(),
        a != b,
    ensures
        id_lt(a, b) || id_lt(b, a),
{
    assert(a.subrange(0, a.len() as int) =~= a);
    assert(b.subrange(0, b.len() as int) =~= b);
    let k = lemma_differing_index(a, b, a.len() as int);
    assert(first_difference(a, b, k));
    assert(b.subrange(0, k) == a.subrange(0, k));
    assert(first_difference(b, a, k));
}

/// Sequences that differ somewhere below `n` have a first differing index.
proof fn lemma_differing_index(a: Seq<u8>, b: Seq<u8>, n: int) -> (k: int)
    requires
        0 <= n <= a.len(),
        n <= b.len(),
        a.subrange(0, n) != b.subrange(0, n),
    ensures
        first_difference(a, b, k),
        k < n,
    decreases n,
{
    if n == 0 {
        assert(a.subrange(0, 0) =~= b.subrange(0, 0));
        0
    } else if a.subrange(0, n - 1) != b.subrange(0, n - 1) {
        lemma_differing_index(a, b, n - 1)
    } else {
        if a[n - 1] == b[n - 1] {
            assert forall|j: int| 0 <= j < n implies a.subrange(0, n)[j] == b.subrange(0, n)[j] by {
                if j < n - 1 {
                    lemma_prefix_agrees(a, b, n - 1, j);
                }
            }
            assert(a.subrange(0, n) =~= b.subrange(0, n));
        }
        n - 1
    }
}

/// The identifier that a text stands for: `None` unless the text is exactly
/// 64 hexadecimal digits, of either case.
pub open spec fn parse_federation_id(s: Seq<char>) -> Option<Seq<u8>> {
    match hex_decode(s) {
        Some(bytes) => if bytes.len() == 32 {
            Some(bytes)
        } else {
            None
        },
        None => None,
    }
}

/// An identifier's text reads back as the identifier.
pub proof fn lemma_federation_id_round_trip(id: FederationId)
    ensures
        parse_federation_id(hex_encode(id@)) == Some(id@),
{
    lemma_hex_round_trip(id@);
}

impl FederationId {
    /// Reads an identifier from its text of 64 hexadecimal digits.
    pub fn from_str(s: &str) -> (r: Option<FederationId>)
        ensures
            r is Some <==> parse_federation_id(s@) is Some,
            r matches Some(id) ==> parse_federation_id(s@) == Some(id@),
    {
        match decode(s) {
            Some(bytes) => {
                if bytes.len() != 32 {
                    return None;
                }
                let mut id = [0u8; 32];
                let mut i: usize = 0;
                while i < 32
                    invariant
                        i <= 32,
                        bytes@.len() == 32,
                        forall|j: int| 0 <= j < i ==> id@[j] == bytes@[j],
                    decreases 32 - i,
                {
                    id[i] = bytes[i];
                    i += 1;
                }
                assert(id@ =~= bytes@);
                Some(FederationId(id))
            },
            None => None,
        }
    }

    /// The identifier as 64 lower-case hexadecimal digits.
    pub fn to_hex(&self) -> (text: String)
        ensures
            text@ == hex_encode(self@),
    {
        let mut text = String::new();
        push_hex(&mut text, self.0.as_slice());
        assert(text@ =~= hex_encode(self@));
        text
    }

    /// Whether two identifiers are the same 32 bytes.
    pub fn same(&self, other: &FederationId) -> (r: bool)
        ensures
            r == (self@ == other@),
    {
        let mut i: usize = 0;
        while i < 32
            invariant
                i <= 32,
                self@.subrange(0, i as int) == other@.subrange(0, i as int),
            decreases 32 - i,
        {
            if self.0[i] != other.0[i] {
                return false;
            }
            assert(self@.subrange(0, i + 1) =~= self@.subrange(0, i as int).push(self@[i as int]));
            assert(other@.subrange(0, i + 1) =~= other@.subrange(0, i as int).push(
                other@[i as int],
            ));
            i += 1;
        }
        assert(self@ =~= self@.subrange(0, 32));
        assert(other@ =~= other@.subrange(0, 32));
        true
    }

    /// Whether this identifier comes before `other` in byte-wise order.
    pub fn precedes(&self, other: &FederationId) -> (r: bool)
        ensures
            r == id_lt(self@, other@),
    {
        let mut i: usize = 0;
        while i < 32
            invariant
                i <= 32,
                self@.subrange(0, i as int) == other@.subrange(0, i as int),
            decreases 32 - i,
        {
            if self.0[i] != other.0[i] {
                proof {
                    assert(first_difference(self@, other@, i as int));
                    assert(first_difference(other@, self@, i as int));
                    if self.0[i as int] > other.0[i as int] {
                        lemma_id_lt_asymmetric(other@, self@);
                    }
                }
                return self.0[i] < other.0[i];
            }
            assert(self@.subrange(0, i + 1) =~= self@.subrange(0, i as int).push(self@[i as int]));
            assert(other@.subrange(0, i + 1) =~= other@.subrange(0, i as int).push(
                other@[i as int],
            ));
            i += 1;
        }
        proof {
            assert(self@ =~= self@.subrange(0, 32));
            assert(other@ =~= other@.subrange(0, 32));
            lemma_id_lt_irreflexive(self@);
        }
        false
    }

    /// The prefix of this identifier: its first four bytes.
    pub fn to_prefix(&self) -> (prefix: FederationIdPrefix)
        ensures
            prefix@ == self@.subrange(0, 4),
    {
        let prefix = FederationIdPrefix([self.0[0], self.0[1], self.0[2], self.0[3]]);
        assert(prefix@ =~= self@.subrange(0, 4));
        prefix
    }
}

impl FederationIdPrefix {
    /// Whether two prefixes are the same four bytes.
    pub fn same(&self, other: &FederationIdPrefix) -> (r: bool)
        ensures
            r == (self@ == other@),
    {
        let r = self.0[0] == other.0[0] && self.0[1] == other.0[1] && self.0[2] == other.0[2]
            && self.0[3] == other.0[3];
        if r {
            assert(self@ =~= other@);
        }
        r
    }
}

} // verus!
