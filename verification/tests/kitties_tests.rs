use registries::dna::combine_dna;
use registries::dna::random_value;
use registries::kitties::Kitty;
use registries::kitties::KittyError;
use registries::kitties::KittyEvent;
use registries::kitties::KittyRegistry;
use registries::kitties::ReserveCurrency;

/// A currency that always has funds; it records every reservation made.
struct AmpleCurrency {
    reserved: Vec<(u64, u64)>,
}

impl AmpleCurrency {
    fn new() -> AmpleCurrency {
        AmpleCurrency { reserved: Vec::new() }
    }
}

impl ReserveCurrency for AmpleCurrency {
    fn reserve(&mut self, who: u64, amount: u64) -> Result<(), ()> {
        self.reserved.push((who, amount));
        Ok(())
    }
}

/// A currency that can never cover a deposit.
struct BrokeCurrency;

impl ReserveCurrency for BrokeCurrency {
    fn reserve(&mut self, _who: u64, _amount: u64) -> Result<(), ()> {
        Err(())
    }
}

const DEPOSIT: u64 = 100;

fn seed(b: u8) -> [u8; 32] {
    [b; 32]
}

#[test]
fn create_kitty() {
    let mut reg = KittyRegistry::new();
    let mut cur = AmpleCurrency::new();
    assert!(reg.create(1, DEPOSIT, &seed(0), Some(0), &mut cur).is_ok());
}

#[test]
fn create_assigns_sequential_ids() {
    let mut reg = KittyRegistry::new();
    let mut cur = AmpleCurrency::new();
    assert_eq!(reg.create(1, DEPOSIT, &seed(0), Some(0), &mut cur), Ok(0));
    assert_eq!(reg.create(2, DEPOSIT, &seed(0), Some(1), &mut cur), Ok(1));
    assert_eq!(reg.create(1, DEPOSIT, &seed(1), Some(2), &mut cur), Ok(2));
    assert_eq!(reg.kitties_count(), 3);
    assert_eq!(reg.kitty_owner(0), Some(1));
    assert_eq!(reg.kitty_owner(1), Some(2));
    assert_eq!(reg.kitty_owner(2), Some(1));
    assert_eq!(reg.kitty_total(1), vec![0, 2]);
    assert_eq!(reg.kitty_total(2), vec![1]);
}

#[test]
fn create_reserves_the_deposit() {
    let mut reg = KittyRegistry::new();
    let mut cur = AmpleCurrency::new();
    assert_eq!(reg.create(7, DEPOSIT, &seed(3), Some(0), &mut cur), Ok(0));
    assert_eq!(cur.reserved, vec![(7, DEPOSIT)]);
}

#[test]
fn create_without_funds_is_refused() {
    let mut reg = KittyRegistry::new();
    let mut cur = BrokeCurrency;
    assert_eq!(
        reg.create(1, DEPOSIT, &seed(0), Some(0), &mut cur),
        Err(KittyError::MoneyNotEnough)
    );
    assert_eq!(reg.kitties_count(), 0);
}

#[test]
fn derived_entropy_matches_the_specified_payload() {
    // Builds the payload by hand — seed bytes, caller in little-endian,
    // tagged index — and hashes it with the host function directly. This
    // fails if the encoding wrapper returned anything but the specified
    // bytes, or the digest wrapper anything but the Blake2b-128 digest.
    let s = seed(7);
    let caller: u64 = 42;
    let mut payload = Vec::new();
    payload.extend_from_slice(&s);
    payload.extend_from_slice(&caller.to_le_bytes());
    payload.push(1u8);
    payload.extend_from_slice(&5u32.to_le_bytes());
    let expect = sp_io::hashing::blake2_128(&payload);
    assert_eq!(random_value(&s, caller, Some(5)), expect);

    let mut payload_none = Vec::new();
    payload_none.extend_from_slice(&s);
    payload_none.extend_from_slice(&caller.to_le_bytes());
    payload_none.push(0u8);
    let expect_none = sp_io::hashing::blake2_128(&payload_none);
    assert_eq!(random_value(&s, caller, None), expect_none);
    assert_ne!(expect, expect_none);
}

#[test]
fn combine_dna_muxes_bits() {
    // selector 0b0110 takes those bits from the first parent and the rest
    // from the second: (0b0110 & 0b1100) | (!0b0110 & 0b1010) == 0b1100.
    assert_eq!(combine_dna(0b1100, 0b1010, 0b0110), 0b1100);
    assert_eq!(combine_dna(0xff, 0x00, 0xf0), 0xf0);
    assert_eq!(combine_dna(0xab, 0xab, 0x5c), 0xab);
}

#[test]
fn breeding_follows_the_genome_formula() {
    let mut reg = KittyRegistry::new();
    let mut cur = AmpleCurrency::new();
    assert_eq!(reg.create(1, DEPOSIT, &seed(1), Some(0), &mut cur), Ok(0));
    assert_eq!(reg.create(1, DEPOSIT, &seed(1), Some(1), &mut cur), Ok(1));
    let d1 = reg.kitties(0).unwrap().0;
    let d2 = reg.kitties(1).unwrap().0;
    assert_eq!(reg.breed(1, 0, 1, &seed(2), Some(2)), Ok(2));
    let selector = random_value(&seed(2), 1, Some(2));
    let child = reg.kitties(2).unwrap().0;
    for i in 0..16 {
        assert_eq!(child[i], combine_dna(d1[i], d2[i], selector[i]));
        // every bit comes from one of the parents
        assert_eq!((child[i] ^ d1[i]) & (child[i] ^ d2[i]), 0);
    }
}

#[test]
fn breeding_is_deterministic() {
    let run = || {
        let mut reg = KittyRegistry::new();
        let mut cur = AmpleCurrency::new();
        reg.create(1, DEPOSIT, &seed(1), Some(0), &mut cur).unwrap();
        reg.create(1, DEPOSIT, &seed(1), Some(1), &mut cur).unwrap();
        reg.breed(1, 0, 1, &seed(2), Some(2)).unwrap();
        reg.kitties(2).unwrap().0
    };
    assert_eq!(run(), run());
}

#[test]
fn breeding_updates_the_relationship_maps() {
    let mut reg = KittyRegistry::new();
    let mut cur = AmpleCurrency::new();
    assert_eq!(reg.create(1, DEPOSIT, &seed(1), Some(0), &mut cur), Ok(0));
    assert_eq!(reg.create(2, DEPOSIT, &seed(1), Some(1), &mut cur), Ok(1));
    // breeding does not ask the caller to own either parent
    assert_eq!(reg.breed(3, 0, 1, &seed(2), Some(2)), Ok(2));
    assert_eq!(reg.breed(3, 0, 1, &seed(3), Some(3)), Ok(3));
    assert_eq!(reg.kitty_owner(2), Some(3));
    assert_eq!(reg.kitty_parents(2), Some((0, 1)));
    assert_eq!(reg.kitty_parents(3), Some((0, 1)));
    assert_eq!(reg.kitty_parents(0), None);
    assert_eq!(reg.kitty_children(0, 1), vec![2, 3]);
    assert_eq!(reg.kitty_children(1, 0), Vec::<u32>::new());
    assert_eq!(reg.kitty_sibling(3), vec![2]);
    assert_eq!(reg.kitty_sibling(2), vec![3]);
    assert_eq!(reg.kitty_partner(0), vec![1, 1]);
    assert_eq!(reg.kitty_partner(1), vec![0, 0]);
    assert_eq!(reg.kitty_partner(2), Vec::<u32>::new());
}

#[test]
fn breeding_identical_parents_is_refused() {
    let mut reg = KittyRegistry::new();
    let mut cur = AmpleCurrency::new();
    assert_eq!(reg.create(1, DEPOSIT, &seed(0), Some(0), &mut cur), Ok(0));
    assert_eq!(reg.breed(1, 0, 0, &seed(1), Some(1)), Err(KittyError::RequireDifferentParent));
    assert_eq!(reg.kitties_count(), 1);
}

#[test]
fn breeding_a_missing_parent_is_refused() {
    let mut reg = KittyRegistry::new();
    let mut cur = AmpleCurrency::new();
    assert_eq!(reg.create(1, DEPOSIT, &seed(0), Some(0), &mut cur), Ok(0));
    assert_eq!(reg.breed(1, 0, 9, &seed(1), Some(1)), Err(KittyError::InvalidKittyId));
    assert_eq!(reg.breed(1, 9, 0, &seed(1), Some(1)), Err(KittyError::InvalidKittyId));
}

#[test]
fn transfer_moves_exactly_the_target() {
    let mut reg = KittyRegistry::new();
    let mut cur = AmpleCurrency::new();
    for i in 0..3u32 {
        assert_eq!(reg.create(1, DEPOSIT, &seed(0), Some(i), &mut cur), Ok(i));
    }
    assert_eq!(reg.transfer(1, 2, 1), Ok(()));
    // the holdings index loses the transferred id and nothing else
    assert_eq!(reg.kitty_total(1), vec![0, 2]);
    assert_eq!(reg.kitty_total(2), vec![1]);
    assert_eq!(reg.kitty_owner(1), Some(2));
}

#[test]
fn transfer_changes_no_genome_and_no_count() {
    let mut reg = KittyRegistry::new();
    let mut cur = AmpleCurrency::new();
    assert_eq!(reg.create(1, DEPOSIT, &seed(4), Some(0), &mut cur), Ok(0));
    assert_eq!(reg.create(1, DEPOSIT, &seed(4), Some(1), &mut cur), Ok(1));
    let g0 = reg.kitties(0).unwrap().0;
    let g1 = reg.kitties(1).unwrap().0;
    assert_eq!(reg.transfer(1, 2, 0), Ok(()));
    assert_eq!(reg.kitties_count(), 2);
    assert_eq!(reg.kitties(0).unwrap().0, g0);
    assert_eq!(reg.kitties(1).unwrap().0, g1);
}

#[test]
fn transfer_to_self_is_refused_without_change() {
    let mut reg = KittyRegistry::new();
    let mut cur = AmpleCurrency::new();
    assert_eq!(reg.create(1, DEPOSIT, &seed(0), Some(0), &mut cur), Ok(0));
    assert_eq!(reg.transfer(1, 1, 0), Err(KittyError::TransferToSelf));
    assert_eq!(reg.kitty_owner(0), Some(1));
    assert_eq!(reg.kitty_total(1), vec![0]);
}

#[test]
fn transfer_by_non_owner_is_refused_without_change() {
    let mut reg = KittyRegistry::new();
    let mut cur = AmpleCurrency::new();
    assert_eq!(reg.create(1, DEPOSIT, &seed(0), Some(0), &mut cur), Ok(0));
    assert_eq!(reg.transfer(2, 3, 0), Err(KittyError::NotKittyOwner));
    assert_eq!(reg.kitty_owner(0), Some(1));
    assert_eq!(reg.kitty_total(1), vec![0]);
    assert_eq!(reg.kitty_total(3), Vec::<u32>::new());
}

#[test]
fn transfer_of_a_missing_creature_is_refused() {
    let mut reg = KittyRegistry::new();
    assert_eq!(reg.transfer(1, 2, 0), Err(KittyError::KittyNotExists));
}

#[test]
fn end_to_end_scenario() {
    let mut reg = KittyRegistry::new();
    let mut cur = AmpleCurrency::new();
    // account 1 creates creature X: deposit reserved, id 0 assigned
    assert_eq!(reg.create(1, DEPOSIT, &seed(9), Some(0), &mut cur), Ok(0));
    assert_eq!(cur.reserved, vec![(1, DEPOSIT)]);
    // account 1 breeds X with itself: rejected
    assert_eq!(reg.breed(1, 0, 0, &seed(9), Some(1)), Err(KittyError::RequireDifferentParent));
    // account 1 creates creature Y: id 1
    assert_eq!(reg.create(1, DEPOSIT, &seed(9), Some(1), &mut cur), Ok(1));
    // account 1 breeds X and Y: creature Z with id 2, owned by account 1
    assert_eq!(reg.breed(1, 0, 1, &seed(9), Some(2)), Ok(2));
    assert_eq!(reg.kitty_owner(2), Some(1));
    assert_eq!(reg.kitty_parents(2), Some((0, 1)));
    assert_eq!(reg.kitty_children(0, 1), vec![2]);
    // the event log holds one record per successful transition, in order;
    // the refused breeding left none
    assert_eq!(
        reg.events,
        vec![
            KittyEvent::Created { owner: 1, kitty_id: 0 },
            KittyEvent::Created { owner: 1, kitty_id: 1 },
            KittyEvent::Breed { owner: 1, kitty_id: 2 },
        ]
    );
}

#[test]
fn transfer_emits_its_event_and_failures_emit_none() {
    let mut reg = KittyRegistry::new();
    let mut cur = AmpleCurrency::new();
    assert_eq!(reg.create(1, DEPOSIT, &seed(0), Some(0), &mut cur), Ok(0));
    assert_eq!(reg.transfer(2, 3, 0), Err(KittyError::NotKittyOwner));
    assert_eq!(reg.transfer(1, 2, 0), Ok(()));
    assert_eq!(
        reg.events,
        vec![
            KittyEvent::Created { owner: 1, kitty_id: 0 },
            KittyEvent::Transferred { from: 1, to: 2, kitty_id: 0 },
        ]
    );
}

#[test]
fn genomes_have_sixteen_bytes() {
    let k = Kitty([5u8; 16]);
    assert_eq!(k.0.len(), 16);
}
