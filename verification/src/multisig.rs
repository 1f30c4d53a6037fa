//! Threshold keys: "k of n" over a fixed, ordered list of member keys.

use vstd::prelude::*;
use crate::algorithm::{address_of, keys_view, AlgorithmId, PublicKey, PublicKeyView};
use crate::bytes::{append_bytes, be32, write_be32};
use crate::error::KeyringError;
use crate::lex::{
    bytes_before, is_before, lemma_before_irreflexive, lemma_before_transitive,
    lemma_not_before_chain, same_bytes,
};

verus! {

/// The mathematical value of a [`MultisigPubKey`].
pub struct MultisigView {
    pub threshold: u32,
    pub members: Seq<PublicKeyView>,
}

/// A threshold public key. At least one signature is required and never
/// more than there are members.
#[derive(Debug)]
pub struct MultisigPubKey {
    threshold: u32,
    members: Vec<PublicKey>,
}

impl View for MultisigPubKey {
    type V = MultisigView;

    closed spec fn view(&self) -> MultisigView {
        MultisigView { threshold: self.threshold, members: keys_view(self.members@) }
    }
}

/// The byte that stands for an algorithm in the bytes of a threshold key.
pub open spec fn algorithm_tag(id: AlgorithmId) -> u8 {
    match id {
        AlgorithmId::Secp256k1 => 1,
        AlgorithmId::Ed25519 => 2,
    }
}

/// The bytes of the members: for each its algorithm's tag and its bytes.
pub open spec fn members_bytes(members: Seq<PublicKeyView>) -> Seq<u8>
    decreases members.len(),
{
    if members.len() == 0 {
        Seq::empty()
    } else {
        members_bytes(members.drop_last()) + seq![algorithm_tag(members.last().algorithm)]
            + members.last().bytes
    }
}

/// The bytes that stand for a threshold key where a single public key is
/// asked for: the threshold in four bytes, and the members behind it.
pub open spec fn multisig_bytes(key: MultisigView) -> Seq<u8> {
    be32(key.threshold) + members_bytes(key.members)
}

/// Whether two members at different positions hold the same bytes.
pub open spec fn has_duplicate(members: Seq<PublicKeyView>) -> bool {
    exists|i: int, j: int|
        0 <= i < j < members.len() && (#[trigger] members[i]).bytes == (#[trigger] members[j]).bytes
}

/// Where `key` goes in `sorted`: behind every member whose address does not
/// come after its own, so that members with equal addresses keep the order
/// in which they arrived.
pub open spec fn slot_for(sorted: Seq<PublicKeyView>, key: PublicKeyView) -> int
    decreases sorted.len(),
{
    if sorted.len() == 0 {
        0
    } else if bytes_before(address_of(key), address_of(sorted.last())) {
        slot_for(sorted.drop_last(), key)
    } else {
        sorted.len() as int
    }
}

/// The members in ascending order of address, members with equal addresses
/// in their given order.
pub open spec fn sorted_by_address(members: Seq<PublicKeyView>) -> Seq<PublicKeyView>
    decreases members.len(),
{
    if members.len() == 0 {
        members
    } else {
        let front = sorted_by_address(members.drop_last());
        front.insert(slot_for(front, members.last()), members.last())
    }
}

/// Whether no member's address comes before that of a member ahead of it.
pub open spec fn ascending_by_address(members: Seq<PublicKeyView>) -> bool {
    forall|i: int, j: int|
        0 <= i < j < members.len() ==> !bytes_before(
            address_of(#[trigger] members[j]),
            address_of(#[trigger] members[i]),
        )
}

/// What composing a threshold key yields: the threshold is checked first,
/// duplicates second and only when sorting is asked for.
pub open spec fn compose_result(
    members: Seq<PublicKeyView>,
    threshold: u32,
    sort: bool,
) -> Result<MultisigView, KeyringError> {
    if threshold == 0 || threshold > members.len() {
        Err(KeyringError::InvalidThreshold)
    } else if sort && has_duplicate(members) {
        Err(KeyringError::DuplicateMember)
    } else if sort {
        Ok(MultisigView { threshold, members: sorted_by_address(members) })
    } else {
        Ok(MultisigView { threshold, members })
    }
}

proof fn lemma_slot_bounds(sorted: Seq<PublicKeyView>, key: PublicKeyView)
    ensures
        0 <= slot_for(sorted, key) <= sorted.len(),
        forall|i: int|
            slot_for(sorted, key) <= i < sorted.len() ==> bytes_before(
                address_of(key),
                address_of(#[trigger] sorted[i]),
            ),
        slot_for(sorted, key) > 0 ==> !bytes_before(
            address_of(key),
            address_of(sorted[slot_for(sorted, key) - 1]),
        ),
    decreases sorted.len(),
{
    if sorted.len() > 0 && bytes_before(address_of(key), address_of(sorted.last())) {
        let rest = sorted.drop_last();
        lemma_slot_bounds(rest, key);
        assert forall|i: int| slot_for(sorted, key) <= i < sorted.len() implies bytes_before(
            address_of(key),
            address_of(#[trigger] sorted[i]),
        ) by {
            if i < rest.len() {
                assert(sorted[i] == rest[i]);
            }
        }
        if slot_for(sorted, key) > 0 {
            assert(sorted[slot_for(sorted, key) - 1] == rest[slot_for(rest, key) - 1]);
        }
    }
}

proof fn lemma_insert_keeps_ascending(sorted: Seq<PublicKeyView>, key: PublicKeyView)
    requires
        ascending_by_address(sorted),
    ensures
        ascending_by_address(sorted.insert(slot_for(sorted, key), key)),
{
    lemma_slot_bounds(sorted, key);
    let p = slot_for(sorted, key);
    let out = sorted.insert(p, key);
    assert forall|i: int, j: int| 0 <= i < j < out.len() implies !bytes_before(
        address_of(#[trigger] out[j]),
        address_of(#[trigger] out[i]),
    ) by {
        let a = address_of(out[i]);
        let b = address_of(out[j]);
        if j == p {
            // out[i] is a member ahead of the slot; the one just ahead of the
            // slot does not come after the key.
            assert(out[i] == sorted[i]);
            if i < p - 1 {
                assert(!bytes_before(address_of(sorted[p - 1]), address_of(sorted[i])));
                lemma_not_before_chain(a, address_of(sorted[p - 1]), b);
            }
        } else if i == p {
            assert(out[j] == sorted[j - 1]);
            assert(bytes_before(a, b));
            if bytes_before(b, a) {
                lemma_before_transitive(a, b, a, 0);
                lemma_before_irreflexive(a, 0);
            }
        } else {
            let si = if i < p { i } else { i - 1 };
            let sj = if j < p { j } else { j - 1 };
            assert(out[i] == sorted[si]);
            assert(out[j] == sorted[sj]);
        }
    }
}

/// Sorting by address rearranges the members and loses none: the outcome
/// holds each member as often as the input does, and its addresses ascend.
pub proof fn lemma_sorted_is_ascending_permutation(members: Seq<PublicKeyView>)
    ensures
        sorted_by_address(members).to_multiset() == members.to_multiset(),
        sorted_by_address(members).len() == members.len(),
        ascending_by_address(sorted_by_address(members)),
    decreases members.len(),
{
    broadcast use vstd::seq_lib::group_to_multiset_ensures;

    if members.len() > 0 {
        let rest = members.drop_last();
        let front = sorted_by_address(rest);
        lemma_sorted_is_ascending_permutation(rest);
        lemma_slot_bounds(front, members.last());
        lemma_insert_keeps_ascending(front, members.last());
        assert(members =~= rest.push(members.last()));
    }
}

/// Composing the same members twice gives the same key: the outcome depends
/// on the members, the threshold and the flag alone.
pub proof fn lemma_compose_is_repeatable(
    first: Seq<PublicKeyView>,
    second: Seq<PublicKeyView>,
    threshold: u32,
    sort: bool,
)
    requires
        first == second,
    ensures
        compose_result(first, threshold, sort) == compose_result(second, threshold, sort),
{
}

/// A threshold of zero, or one above the number of members, is refused
/// whatever else is asked.
pub proof fn lemma_bad_threshold_is_refused(members: Seq<PublicKeyView>, threshold: u32, sort: bool)
    requires
        threshold == 0 || threshold > members.len(),
    ensures
        compose_result(members, threshold, sort) == Err::<MultisigView, KeyringError>(
            KeyringError::InvalidThreshold,
        ),
{
}

/// Decides whether two members hold the same bytes.
fn find_duplicate(members: &Vec<PublicKey>) -> (found: bool)
    ensures
        found == has_duplicate(keys_view(members@)),
{
    let ghost views = keys_view(members@);
    let mut j: usize = 0;
    while j < members.len()
        invariant
            j <= members@.len(),
            views == keys_view(members@),
            forall|a: int, b: int|
                0 <= a < b < j ==> (#[trigger] views[a]).bytes != (#[trigger] views[b]).bytes,
        decreases members@.len() - j,
    {
        let mut i: usize = 0;
        while i < j
            invariant
                i <= j < members@.len(),
                views == keys_view(members@),
                forall|a: int| 0 <= a < i ==> (#[trigger] views[a]).bytes != views[j as int].bytes,
            decreases j - i,
        {
            if same_bytes(members[i].bytes.as_slice(), members[j].bytes.as_slice()) {
                assert(views[i as int].bytes == views[j as int].bytes);
                return true;
            }
            i = i + 1;
        }
        j = j + 1;
    }
    false
}

/// Finds where `key` goes among members that are already in order.
fn find_slot(out: &Vec<PublicKey>, addresses: &Vec<Vec<u8>>, key: &PublicKey, address: &Vec<u8>) -> (slot:
    usize)
    requires
        addresses@.len() == out@.len(),
        address@ == address_of(key@),
        forall|i: int| 0 <= i < out@.len() ==> (#[trigger] addresses@[i])@ == address_of(out@[i]@),
    ensures
        slot as int == slot_for(keys_view(out@), key@),
        slot <= out@.len(),
{
    let ghost front = keys_view(out@);
    let mut slot: usize = out.len();
    assert(front.take(slot as int) =~= front);
    while slot > 0 && is_before(address.as_slice(), addresses[slot - 1].as_slice())
        invariant
            slot <= out@.len(),
            front == keys_view(out@),
            addresses@.len() == out@.len(),
            address@ == address_of(key@),
            forall|i: int| 0 <= i < out@.len() ==> (#[trigger] addresses@[i])@ == address_of(out@[i]@),
            slot_for(front, key@) == slot_for(front.take(slot as int), key@),
        decreases slot,
    {
        assert(front.take(slot as int).last() == out@[slot - 1]@);
        assert(front.take(slot as int).drop_last() =~= front.take(slot - 1));
        slot = slot - 1;
    }
    proof {
        if slot > 0 {
            assert(front.take(slot as int).last() == out@[slot - 1]@);
        }
    }
    slot
}

/// Puts the members in ascending order of address.
fn sort_members(members: &Vec<PublicKey>) -> (out: Vec<PublicKey>)
    ensures
        keys_view(out@) == sorted_by_address(keys_view(members@)),
{
    let ghost views = keys_view(members@);
    let mut out: Vec<PublicKey> = Vec::new();
    let mut addresses: Vec<Vec<u8>> = Vec::new();
    let mut n: usize = 0;
    assert(views.take(0) =~= Seq::<PublicKeyView>::empty());
    assert(keys_view(out@) =~= sorted_by_address(views.take(0)));
    while n < members.len()
        invariant
            n <= members@.len(),
            views == keys_view(members@),
            keys_view(out@) == sorted_by_address(views.take(n as int)),
            addresses@.len() == out@.len(),
            forall|i: int| 0 <= i < out@.len() ==> (#[trigger] addresses@[i])@ == address_of(out@[i]@),
        decreases members@.len() - n,
    {
        let key = members[n].clone();
        let address = key.address();
        let ghost front = keys_view(out@);
        let ghost before = out@;
        let ghost before_addresses = addresses@;
        let slot = find_slot(&out, &addresses, &key, &address);
        proof {
            assert(views.take(n + 1).drop_last() =~= views.take(n as int));
            assert(views.take(n + 1).last() == key@);
        }
        let ghost key_view = key@;
        out.insert(slot, key);
        addresses.insert(slot, address);
        proof {
            assert(out@ == before.insert(slot as int, out@[slot as int]));
            assert(keys_view(out@) =~= front.insert(slot as int, key_view));
            assert forall|i: int| 0 <= i < out@.len() implies (#[trigger] addresses@[i])@
                == address_of(out@[i]@) by {
                if i < slot {
                    assert(addresses@[i] == before_addresses[i]);
                    assert(out@[i] == before[i]);
                } else if i > slot {
                    assert(addresses@[i] == before_addresses[i - 1]);
                    assert(out@[i] == before[i - 1]);
                }
            }
        }
        n = n + 1;
    }
    assert(views.take(n as int) =~= views);
    out
}

/// Builds a threshold key from member keys.
///
/// The threshold must be at least one and at most the number of members.
/// With `sort` the members are put in ascending order of address, and two
/// members with the same bytes are refused; without it the given order is
/// kept as it is.
pub fn compose(members: Vec<PublicKey>, threshold: u32, sort: bool) -> (r: Result<
    MultisigPubKey,
    KeyringError,
>)
    ensures
        match r {
            Ok(key) => compose_result(keys_view(members@), threshold, sort) == Ok::<
                MultisigView,
                KeyringError,
            >(key@),
            Err(e) => compose_result(keys_view(members@), threshold, sort) == Err::<
                MultisigView,
                KeyringError,
            >(e),
        },
{
    if threshold == 0 || threshold as usize > members.len() {
        return Err(KeyringError::InvalidThreshold);
    }
    if !sort {
        return Ok(MultisigPubKey { threshold, members });
    }
    if find_duplicate(&members) {
        return Err(KeyringError::DuplicateMember);
    }
    let sorted = sort_members(&members);
    proof {
        lemma_sorted_is_ascending_permutation(keys_view(members@));
    }
    Ok(MultisigPubKey { threshold, members: sorted })
}

impl Clone for MultisigPubKey {
    fn clone(&self) -> (r: Self)
        ensures
            r@ == self@,
    {
        proof {
            use_type_invariant(self);
        }
        let mut members: Vec<PublicKey> = Vec::new();
        let mut i: usize = 0;
        while i < self.members.len()
            invariant
                i <= self.members@.len(),
                members@.len() == i,
                forall|j: int| 0 <= j < i ==> (#[trigger] members@[j])@ == self.members@[j]@,
            decreases self.members@.len() - i,
        {
            members.push(self.members[i].clone());
            i = i + 1;
        }
        assert(keys_view(members@) =~= keys_view(self.members@));
        MultisigPubKey { threshold: self.threshold, members }
    }
}

impl MultisigPubKey {
    #[verifier::type_invariant]
    spec fn well_formed(self) -> bool {
        1 <= self.threshold <= self.members@.len()
    }

    /// How many signatures are required.
    pub fn threshold(&self) -> (t: u32)
        ensures
            t == self@.threshold,
            1 <= t <= self@.members.len(),
    {
        proof {
            use_type_invariant(self);
        }
        self.threshold
    }

    /// The bytes that stand for this key where a single public key is
    /// asked for.
    pub fn to_bytes(&self) -> (out: Vec<u8>)
        ensures
            out@ == multisig_bytes(self@),
    {
        let mut out: Vec<u8> = Vec::new();
        write_be32(&mut out, self.threshold);
        let ghost views = keys_view(self.members@);
        let mut i: usize = 0;
        assert(views.take(0) =~= Seq::<PublicKeyView>::empty());
        while i < self.members.len()
            invariant
                i <= self.members@.len(),
                views == keys_view(self.members@),
                out@ == be32(self.threshold) + members_bytes(views.take(i as int)),
            decreases self.members@.len() - i,
        {
            let ghost before = out@;
            let member = &self.members[i];
            let tag: u8 = match member.algorithm {
                AlgorithmId::Secp256k1 => 1,
                AlgorithmId::Ed25519 => 2,
            };
            out.push(tag);
            append_bytes(&mut out, member.bytes.as_slice());
            proof {
                assert(views.take(i + 1).drop_last() =~= views.take(i as int));
                assert(views.take(i + 1).last() == member@);
                assert(out@ =~= be32(self.threshold) + members_bytes(views.take(i + 1)));
            }
            i = i + 1;
        }
        assert(views.take(i as int) =~= views);
        out
    }

    /// The member keys, in their canonical order.
    pub fn members(&self) -> (m: &Vec<PublicKey>)
        ensures
            keys_view(m@) == self@.members,
            m@.len() >= 1,
    {
        proof {
            use_type_invariant(self);
        }
        &self.members
    }
}

} // verus!
