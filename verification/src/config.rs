//! The static configuration that the protocol around the store consumes:
//! its timing parameters and the committee of participants with their stake.

use crate::text::{decimal, labelled};
use vstd::prelude::*;

verus! {

/// The voting weight of a participant.
pub type Stake = u32;

/// The number of an epoch.
pub type EpochNumber = u128;

/// Timing parameters, in milliseconds.
#[derive(Clone, Copy, Debug, PartialEq, Eq)]
pub struct Parameters {
    pub timeout_delay: u64,
    pub sync_retry_delay: u64,
}

impl Default for Parameters {
    /// One second for each delay.
    fn default() -> (parameters: Self)
        ensures
            parameters.timeout_delay == 1000,
            parameters.sync_retry_delay == 1000,
    {
        Parameters { timeout_delay: 1000, sync_retry_delay: 1000 }
    }
}

impl Parameters {
    /// The lines that report the parameters, one for each, ready to be
    /// handed to a logger.
    pub fn log(&self) -> (lines: Vec<String>)
        ensures
            lines@.len() == 2,
            lines@[0]@ == "Timeout delay: "@ + decimal(self.timeout_delay as nat),
            lines@[1]@ == "Sync retry delay: "@ + decimal(self.sync_retry_delay as nat),
    {
        let mut lines: Vec<String> = Vec::new();
        lines.push(labelled("Timeout delay: ", self.timeout_delay));
        lines.push(labelled("Sync retry delay: ", self.sync_retry_delay));
        lines
    }
}

/// The name of a participant: the 32 bytes of its public key.
#[derive(Clone, Copy, Debug, PartialEq, Eq, Hash)]
pub struct PublicKey(pub [u8; 32]);

impl View for PublicKey {
    type V = Seq<u8>;

    open spec fn view(&self) -> Seq<u8> {
        self.0@
    }
}

impl PublicKey {
    /// Whether two names hold the same bytes.
    pub fn same_as(&self, other: &PublicKey) -> (same: bool)
        ensures
            same == (self@ == other@),
    {
        let mut i: usize = 0;
        while i < 32
            invariant
                i <= 32,
                forall|j: int| 0 <= j < i ==> self.0@[j] == other.0@[j],
            decreases 32 - i,
        {
            if self.0[i] != other.0[i] {
                return false;
            }
            i += 1;
        }
        assert(self.0@ =~= other.0@);
        true
    }
}

/// The network address of a participant: an IP address of either family
/// with a port.
#[derive(Clone, Copy, Debug, PartialEq, Eq)]
pub enum Address {
    V4 { octets: [u8; 4], port: u16 },
    V6 { segments: [u16; 8], port: u16, flowinfo: u32, scope_id: u32 },
}

/// What the committee knows of one participant.
#[derive(Clone, Copy, Debug, PartialEq, Eq)]
pub struct Authority {
    pub stake: Stake,
    pub address: Address,
}

/// No two members bear the same name.
pub open spec fn names_distinct(members: Seq<(PublicKey, Authority)>) -> bool {
    forall|i: int, j: int|
        0 <= i < j < members.len() ==> (#[trigger] members[i]).0@ != (#[trigger] members[j]).0@
}

/// The place of the member named `name`, if there is one. Among members
/// with distinct names at most one place qualifies.
pub open spec fn place_of(members: Seq<(PublicKey, Authority)>, name: Seq<u8>) -> Option<int>
    decreases members.len(),
{
    if members.len() == 0 {
        None
    } else if members.last().0@ == name {
        Some(members.len() - 1)
    } else {
        place_of(members.drop_last(), name)
    }
}

/// What the committee knows of the member named `name`, if there is one.
pub open spec fn authority_of(members: Seq<(PublicKey, Authority)>, name: Seq<u8>) -> Option<
    Authority,
> {
    match place_of(members, name) {
        Some(i) => Some(members[i].1),
        None => None,
    }
}

/// The members after `entry` has been enrolled: a member of that name has
/// its stake and address replaced, and a new name joins at the end.
pub open spec fn enrol(members: Seq<(PublicKey, Authority)>, entry: (PublicKey, Stake, Address)) -> Seq<
    (PublicKey, Authority),
> {
    let authority = Authority { stake: entry.1, address: entry.2 };
    match place_of(members, entry.0@) {
        Some(i) => members.update(i, (members[i].0, authority)),
        None => members.push((entry.0, authority)),
    }
}

/// The members that a list of entries makes, enrolled first to last.
pub open spec fn enrolled(info: Seq<(PublicKey, Stake, Address)>) -> Seq<(PublicKey, Authority)>
    decreases info.len(),
{
    if info.len() == 0 {
        Seq::empty()
    } else {
        enrol(enrolled(info.drop_last()), info.last())
    }
}

/// The sum of the members' stakes.
pub open spec fn total_stake(members: Seq<(PublicKey, Authority)>) -> nat
    decreases members.len(),
{
    if members.len() == 0 {
        0
    } else {
        total_stake(members.drop_last()) + members.last().1.stake as nat
    }
}

/// The stake that a quorum must hold when `total` is held in all: two
/// thirds of the total, rounded up, and one more.
pub open spec fn quorum_of(total: nat) -> nat {
    (2 * total + 2) / 3 + 1
}

/// The names and addresses of all members but the one named `myself`, in
/// the members' order.
pub open spec fn others(members: Seq<(PublicKey, Authority)>, myself: Seq<u8>) -> Seq<
    (PublicKey, Address),
>
    decreases members.len(),
{
    if members.len() == 0 {
        Seq::empty()
    } else if members.last().0@ == myself {
        others(members.drop_last(), myself)
    } else {
        others(members.drop_last(), myself).push((members.last().0, members.last().1.address))
    }
}

/// A name that no member bears has no place.
pub proof fn lemma_place_of_stranger(members: Seq<(PublicKey, Authority)>, name: Seq<u8>)
    requires
        forall|i: int| 0 <= i < members.len() ==> (#[trigger] members[i]).0@ != name,
    ensures
        place_of(members, name) is None,
    decreases members.len(),
{
    if members.len() > 0 {
        assert(members[members.len() - 1].0@ != name);
        let rest = members.drop_last();
        assert forall|i: int| 0 <= i < rest.len() implies (#[trigger] rest[i]).0@ != name by {
            assert(rest[i] == members[i]);
        }
        lemma_place_of_stranger(rest, name);
    }
}

/// Among distinct names, the place of a member's name is that member's.
pub proof fn lemma_place_of_member(members: Seq<(PublicKey, Authority)>, i: int)
    requires
        names_distinct(members),
        0 <= i < members.len(),
    ensures
        place_of(members, members[i].0@) == Some(i),
    decreases members.len(),
{
    let name = members[i].0@;
    if i == members.len() - 1 {
    } else {
        assert(members[i].0@ != members[members.len() - 1].0@);
        let rest = members.drop_last();
        assert(rest[i] == members[i]);
        assert(names_distinct(rest)) by {
            assert forall|a: int, b: int| 0 <= a < b < rest.len() implies (#[trigger] rest[a]).0@
                != (#[trigger] rest[b]).0@ by {
                assert(rest[a] == members[a]);
                assert(rest[b] == members[b]);
            }
        }
        lemma_place_of_member(rest, i);
    }
}

/// A place that `place_of` gives is a member's, and that member bears the
/// name.
pub proof fn lemma_place_of_is_named(members: Seq<(PublicKey, Authority)>, name: Seq<u8>)
    ensures
        match place_of(members, name) {
            Some(i) => 0 <= i < members.len() && members[i].0@ == name,
            None => forall|i: int| 0 <= i < members.len() ==> (#[trigger] members[i]).0@ != name,
        },
    decreases members.len(),
{
    if members.len() > 0 {
        let rest = members.drop_last();
        lemma_place_of_is_named(rest, name);
        if members.last().0@ != name {
            match place_of(rest, name) {
                Some(i) => {
                    assert(rest[i] == members[i]);
                },
                None => {
                    assert forall|i: int| 0 <= i < members.len() implies (#[trigger] members[i]).0@
                        != name by {
                        if i < rest.len() {
                            assert(rest[i] == members[i]);
                        }
                    }
                },
            }
        }
    }
}

/// Enrolling an entry keeps the names distinct.
pub proof fn lemma_enrol_keeps_names_distinct(
    members: Seq<(PublicKey, Authority)>,
    entry: (PublicKey, Stake, Address),
)
    requires
        names_distinct(members),
    ensures
        names_distinct(enrol(members, entry)),
{
    lemma_place_of_is_named(members, entry.0@);
    let after = enrol(members, entry);
    assert forall|a: int, b: int| 0 <= a < b < after.len() implies (#[trigger] after[a]).0@ != (
    #[trigger] after[b]).0@ by {
        match place_of(members, entry.0@) {
            Some(i) => {
                assert(after[a].0@ == members[a].0@);
                assert(after[b].0@ == members[b].0@);
            },
            None => {
                if b == after.len() - 1 {
                    assert(after[a] == members[a]);
                } else {
                    assert(after[a] == members[a]);
                    assert(after[b] == members[b]);
                }
            },
        }
    }
}

/// The members that any list of entries makes bear distinct names.
pub proof fn lemma_enrolled_names_distinct(info: Seq<(PublicKey, Stake, Address)>)
    ensures
        names_distinct(enrolled(info)),
    decreases info.len(),
{
    if info.len() > 0 {
        lemma_enrolled_names_distinct(info.drop_last());
        lemma_enrol_keeps_names_distinct(enrolled(info.drop_last()), info.last());
    }
}

/// The committee of an epoch: its members, each with a stake and an
/// address, no two of the same name.
pub struct Committee {
    members: Vec<(PublicKey, Authority)>,
    epoch: EpochNumber,
}

impl View for Committee {
    type V = Seq<(PublicKey, Authority)>;

    closed spec fn view(&self) -> Seq<(PublicKey, Authority)> {
        self.members@
    }
}

impl Committee {
    #[verifier::type_invariant]
    spec fn well_formed(&self) -> bool {
        names_distinct(self.members@)
    }

    /// The epoch that the committee serves.
    pub closed spec fn spec_epoch(&self) -> EpochNumber {
        self.epoch
    }

    /// The committee of `epoch` made of the entries of `info`, enrolled
    /// first to last: where a name comes twice, the later entry's stake and
    /// address replace the earlier one's.
    pub fn new(info: Vec<(PublicKey, Stake, Address)>, epoch: EpochNumber) -> (committee: Self)
        ensures
            committee@ == enrolled(info@),
            committee.spec_epoch() == epoch,
            names_distinct(committee@),
    {
        let mut members: Vec<(PublicKey, Authority)> = Vec::new();
        let mut k: usize = 0;
        while k < info.len()
            invariant
                k <= info.len(),
                members@ == enrolled(info@.take(k as int)),
                names_distinct(members@),
            decreases info.len() - k,
        {
            let name = info[k].0;
            let authority = Authority { stake: info[k].1, address: info[k].2 };
            let ghost before = members@;
            proof {
                assert(info@.take(k + 1).drop_last() =~= info@.take(k as int));
                assert(info@.take(k + 1).last() == info@[k as int]);
                lemma_enrol_keeps_names_distinct(before, info@[k as int]);
            }
            match find_member(&members, &name) {
                Some(i) => {
                    let kept = members[i].0;
                    members.set(i, (kept, authority));
                },
                None => {
                    members.push((name, authority));
                },
            }
            k += 1;
        }
        assert(info@.take(info.len() as int) =~= info@);
        Committee { members, epoch }
    }

    /// The epoch that the committee serves.
    pub fn epoch(&self) -> (epoch: EpochNumber)
        ensures
            epoch == self.spec_epoch(),
    {
        self.epoch
    }

    /// The members, each with what the committee knows of it, in the order
    /// in which their names were first enrolled.
    pub fn members(&self) -> (members: Vec<(PublicKey, Authority)>)
        ensures
            members@ == self@,
            names_distinct(members@),
    {
        proof {
            use_type_invariant(self);
        }
        let mut members: Vec<(PublicKey, Authority)> = Vec::new();
        let mut i: usize = 0;
        while i < self.members.len()
            invariant
                i <= self.members@.len(),
                members@ == self.members@.take(i as int),
            decreases self.members@.len() - i,
        {
            members.push(self.members[i]);
            i += 1;
            assert(members@ =~= self.members@.take(i as int));
        }
        assert(self.members@.take(self.members@.len() as int) =~= self.members@);
        members
    }

    /// The number of members.
    pub fn size(&self) -> (n: usize)
        ensures
            n == self@.len(),
            names_distinct(self@),
    {
        proof {
            use_type_invariant(self);
        }
        self.members.len()
    }

    /// The stake of the member named `name`; zero where no member bears
    /// the name.
    pub fn stake(&self, name: &PublicKey) -> (stake: Stake)
        ensures
            stake == match authority_of(self@, name@) {
                Some(authority) => authority.stake,
                None => 0,
            },
    {
        proof {
            use_type_invariant(self);
        }
        match find_member(&self.members, name) {
            Some(i) => self.members[i].1.stake,
            None => 0,
        }
    }

    /// The sum of the members' stakes.
    pub fn total_stake(&self) -> (total: u128)
        ensures
            total == total_stake(self@),
            total <= self@.len() * 0xffff_ffff,
            total < 0x1_0000_0000_0000_0000_0000_0000,
    {
        let mut total: u128 = 0;
        let mut i: usize = 0;
        while i < self.members.len()
            invariant
                i <= self.members@.len(),
                total == total_stake(self.members@.take(i as int)),
                total <= i * 0xffff_ffff,
            decreases self.members@.len() - i,
        {
            proof {
                assert(self.members@.take(i + 1).drop_last() =~= self.members@.take(i as int));
                assert(self.members@.take(i + 1).last() == self.members@[i as int]);
            }
            total = total + self.members[i].1.stake as u128;
            i += 1;
        }
        assert(self.members@.take(self.members@.len() as int) =~= self.members@);
        total
    }

    /// The stake that a quorum must hold: two thirds of the total stake,
    /// rounded up, and one more.
    pub fn qourum_threshold(&self) -> (threshold: Stake)
        requires
            quorum_of(total_stake(self@)) <= u32::MAX,
        ensures
            threshold == quorum_of(total_stake(self@)),
    {
        let total: u128 = self.total_stake();
        ((2 * total + 2) / 3 + 1) as u32
    }

    /// The stake that a quorum must hold, where that number fits the type
    /// of a stake, and `None` where it does not.
    pub fn checked_qourum_threshold(&self) -> (threshold: Option<Stake>)
        ensures
            threshold == if quorum_of(total_stake(self@)) <= u32::MAX {
                Some(quorum_of(total_stake(self@)) as Stake)
            } else {
                None::<Stake>
            },
    {
        let total: u128 = self.total_stake();
        if (2 * total + 2) / 3 + 1 <= 0xffff_ffff {
            Some(self.qourum_threshold())
        } else {
            None
        }
    }

    /// The address of the member named `name`, if there is one.
    pub fn address(&self, name: &PublicKey) -> (address: Option<Address>)
        ensures
            address == match authority_of(self@, name@) {
                Some(authority) => Some(authority.address),
                None => None,
            },
    {
        proof {
            use_type_invariant(self);
        }
        match find_member(&self.members, name) {
            Some(i) => Some(self.members[i].1.address),
            None => None,
        }
    }

    /// The names and addresses of all members but the one named `myself`.
    pub fn boardcast_addresses(&self, myself: &PublicKey) -> (peers: Vec<(PublicKey, Address)>)
        ensures
            peers@ == others(self@, myself@),
    {
        let mut peers: Vec<(PublicKey, Address)> = Vec::new();
        let mut i: usize = 0;
        while i < self.members.len()
            invariant
                i <= self.members@.len(),
                peers@ == others(self.members@.take(i as int), myself@),
            decreases self.members@.len() - i,
        {
            proof {
                assert(self.members@.take(i + 1).drop_last() =~= self.members@.take(i as int));
                assert(self.members@.take(i + 1).last() == self.members@[i as int]);
            }
            if !self.members[i].0.same_as(myself) {
                peers.push((self.members[i].0, self.members[i].1.address));
            }
            i += 1;
        }
        assert(self.members@.take(self.members@.len() as int) =~= self.members@);
        peers
    }
}

/// The place of the member named `name` among `members`, if there is one.
fn find_member(members: &Vec<(PublicKey, Authority)>, name: &PublicKey) -> (found: Option<usize>)
    requires
        names_distinct(members@),
    ensures
        match found {
            Some(i) => place_of(members@, name@) == Some(i as int) && i < members@.len(),
            None => place_of(members@, name@) is None,
        },
{
    let mut i: usize = 0;
    while i < members.len()
        invariant
            i <= members@.len(),
            names_distinct(members@),
            forall|j: int| 0 <= j < i ==> (#[trigger] members@[j]).0@ != name@,
        decreases members@.len() - i,
    {
        if members[i].0.same_as(name) {
            proof {
                lemma_place_of_member(members@, i as int);
            }
            return Some(i);
        }
        i += 1;
    }
    proof {
        lemma_place_of_stranger(members@, name@);
    }
    None
}

} // verus!
