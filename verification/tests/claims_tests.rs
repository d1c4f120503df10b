use registries::claims::ClaimError;
use registries::claims::ClaimEvent;
use registries::claims::ClaimRegistry;

#[test]
fn claim_transitions_emit_their_events() {
    let mut reg = ClaimRegistry::new();
    assert_eq!(reg.create_claim(1, vec![1, 2], 5), Ok(()));
    assert_eq!(reg.transfer_claim(1, vec![1, 2], 2, 6), Ok(()));
    assert_eq!(reg.revoke_claim(2, vec![1, 2]), Ok(()));
    // one record per successful transition, in order; a refused call adds none
    assert_eq!(reg.create_claim(1, vec![9], 7), Err(ClaimError::ClaimTooShort));
    assert_eq!(
        reg.events,
        vec![
            ClaimEvent::ClaimCreated { owner: 1, claim: vec![1, 2] },
            ClaimEvent::ClaimTransfer { from: 1, claim: vec![1, 2], to: 2 },
            ClaimEvent::ClaimRevoked { owner: 2, claim: vec![1, 2] },
        ]
    );
}

#[test]
fn claim_length_boundaries() {
    let mut reg = ClaimRegistry::new();
    assert_eq!(reg.create_claim(1, vec![9], 5), Err(ClaimError::ClaimTooShort));
    assert_eq!(reg.create_claim(1, vec![], 5), Err(ClaimError::ClaimTooShort));
    assert_eq!(reg.create_claim(1, vec![1, 2], 5), Ok(()));
    assert_eq!(reg.create_claim(1, vec![0, 1, 2, 3, 4, 5, 6, 7, 8, 9], 5), Ok(()));
    assert_eq!(
        reg.create_claim(1, vec![0, 1, 2, 3, 4, 5, 6, 7, 8, 9, 10], 5),
        Err(ClaimError::ClaimTooLong)
    );
}

#[test]
fn duplicate_claim_is_refused() {
    let mut reg = ClaimRegistry::new();
    assert_eq!(reg.create_claim(1, vec![1, 2, 3], 5), Ok(()));
    assert_eq!(reg.create_claim(2, vec![1, 2, 3], 6), Err(ClaimError::ClaimAlreadyExist));
    assert_eq!(reg.get_claim(&vec![1, 2, 3]), Some((1, 5)));
}

#[test]
fn claim_lifecycle_roundtrip() {
    let mut reg = ClaimRegistry::new();
    let c = vec![4u8, 5, 6];
    assert_eq!(reg.create_claim(1, c.clone(), 5), Ok(()));
    assert_eq!(reg.revoke_claim(1, c.clone()), Ok(()));
    assert_eq!(reg.get_claim(&c), None);
    // any other account may attest the freed key again
    assert_eq!(reg.create_claim(2, c.clone(), 9), Ok(()));
    assert_eq!(reg.get_claim(&c), Some((2, 9)));
}

#[test]
fn revoke_is_owner_only() {
    let mut reg = ClaimRegistry::new();
    assert_eq!(reg.create_claim(1, vec![1, 2], 5), Ok(()));
    assert_eq!(reg.revoke_claim(2, vec![1, 2]), Err(ClaimError::NotClaimOwner));
    assert_eq!(reg.revoke_claim(1, vec![9, 9]), Err(ClaimError::ClaimNotExist));
    assert_eq!(reg.get_claim(&vec![1, 2]), Some((1, 5)));
}

#[test]
fn transfer_claim_rewrites_owner_and_height() {
    let mut reg = ClaimRegistry::new();
    assert_eq!(reg.create_claim(1, vec![1, 2], 5), Ok(()));
    assert_eq!(reg.transfer_claim(1, vec![1, 2], 2, 8), Ok(()));
    // the recorded height becomes the transfer height
    assert_eq!(reg.get_claim(&vec![1, 2]), Some((2, 8)));
    // and the new owner may pass it on
    assert_eq!(reg.transfer_claim(2, vec![1, 2], 3, 9), Ok(()));
    assert_eq!(reg.get_claim(&vec![1, 2]), Some((3, 9)));
}

#[test]
fn transfer_claim_to_self_is_refused_without_change() {
    let mut reg = ClaimRegistry::new();
    assert_eq!(reg.create_claim(1, vec![1, 2], 5), Ok(()));
    assert_eq!(reg.transfer_claim(1, vec![1, 2], 1, 8), Err(ClaimError::NotTransferToSelf));
    assert_eq!(reg.get_claim(&vec![1, 2]), Some((1, 5)));
}

#[test]
fn transfer_claim_is_owner_only() {
    let mut reg = ClaimRegistry::new();
    assert_eq!(reg.create_claim(1, vec![1, 2], 5), Ok(()));
    assert_eq!(reg.transfer_claim(2, vec![1, 2], 3, 8), Err(ClaimError::NotClaimOwner));
    assert_eq!(reg.transfer_claim(1, vec![7, 7], 3, 8), Err(ClaimError::ClaimNotExist));
    assert_eq!(reg.get_claim(&vec![1, 2]), Some((1, 5)));
}
