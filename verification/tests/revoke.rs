use mpl_core::instructions::revoke::mpl_asset_id;
use mpl_core::instructions::revoke::AccountMeta;
use mpl_core::instructions::revoke::Revoke;
use mpl_core::instructions::revoke::RevokeBuilder;
use mpl_core::instructions::revoke::RevokeInstructionData;
use mpl_core::state::Pubkey;

fn key(byte: u8) -> Pubkey {
    Pubkey::new_from_array([byte; 32])
}

fn readonly(pubkey: Pubkey) -> AccountMeta {
    AccountMeta { pubkey, is_signer: false, is_writable: false }
}

#[test]
fn discriminator_of_revoke_is_2() {
    assert_eq!(RevokeInstructionData::new().discriminator, 2);
}

#[test]
fn account_metas_are_writable_or_not() {
    assert_eq!(
        AccountMeta::new(key(1), true),
        AccountMeta { pubkey: key(1), is_signer: true, is_writable: true }
    );
    assert_eq!(AccountMeta::new_readonly(key(1), false), readonly(key(1)));
}

#[test]
fn revoke_lists_its_seven_accounts_in_order() {
    let revoke = Revoke {
        asset_address: key(1),
        collection: Some(key(2)),
        owner: key(3),
        payer: Some(key(4)),
        delegate: key(5),
        system_program: key(6),
        log_wrapper: Some(key(7)),
    };
    let instruction = revoke.instruction();
    assert_eq!(instruction.program_id, mpl_asset_id());
    assert_eq!(instruction.data, vec![2]);
    assert_eq!(
        instruction.accounts,
        vec![
            AccountMeta { pubkey: key(1), is_signer: false, is_writable: true },
            readonly(key(2)),
            AccountMeta { pubkey: key(3), is_signer: true, is_writable: true },
            AccountMeta { pubkey: key(4), is_signer: true, is_writable: true },
            readonly(key(5)),
            readonly(key(6)),
            readonly(key(7)),
        ]
    );
}

#[test]
fn missing_optional_accounts_are_the_program_itself() {
    let revoke = Revoke {
        asset_address: key(1),
        collection: None,
        owner: key(3),
        payer: None,
        delegate: key(5),
        system_program: key(6),
        log_wrapper: None,
    };
    let extra = vec![AccountMeta::new(key(8), false), AccountMeta::new_readonly(key(9), true)];
    let instruction = revoke.instruction_with_remaining_accounts(&extra);
    assert_eq!(instruction.accounts.len(), 9);
    assert_eq!(instruction.accounts[1], readonly(mpl_asset_id()));
    assert_eq!(instruction.accounts[3], readonly(mpl_asset_id()));
    assert_eq!(instruction.accounts[6], readonly(mpl_asset_id()));
    assert_eq!(&instruction.accounts[7..], &extra[..]);
    assert_eq!(instruction.data, vec![2]);
}

#[test]
fn builder_builds_the_same_instruction() {
    let mut builder = RevokeBuilder::new();
    builder.asset_address(key(1));
    builder.collection(Some(key(2)));
    builder.owner(key(3));
    builder.payer(None);
    builder.delegate(key(5));
    builder.log_wrapper(Some(key(7)));
    builder.add_remaining_account(AccountMeta::new(key(8), false));
    builder.add_remaining_accounts(&vec![readonly(key(9)), readonly(key(10))]);
    let built = builder.instruction();

    let revoke = Revoke {
        asset_address: key(1),
        collection: Some(key(2)),
        owner: key(3),
        payer: None,
        delegate: key(5),
        system_program: Pubkey::new_from_array([0; 32]),
        log_wrapper: Some(key(7)),
    };
    let extra =
        vec![AccountMeta::new(key(8), false), readonly(key(9)), readonly(key(10))];
    assert_eq!(built, revoke.instruction_with_remaining_accounts(&extra));

    builder.system_program(key(6));
    assert_eq!(builder.instruction().accounts[5], readonly(key(6)));
}

#[test]
fn builder_calls_can_be_chained() {
    let extra = vec![readonly(key(9))];
    let built = RevokeBuilder::new()
        .asset_address(key(1))
        .collection(None)
        .owner(key(3))
        .payer(Some(key(4)))
        .delegate(key(5))
        .system_program(key(6))
        .log_wrapper(None)
        .add_remaining_account(AccountMeta::new(key(8), true))
        .add_remaining_accounts(&extra)
        .instruction();
    let revoke = Revoke {
        asset_address: key(1),
        collection: None,
        owner: key(3),
        payer: Some(key(4)),
        delegate: key(5),
        system_program: key(6),
        log_wrapper: None,
    };
    let all = vec![AccountMeta::new(key(8), true), readonly(key(9))];
    assert_eq!(built, revoke.instruction_with_remaining_accounts(&all));
}

#[test]
fn system_program_has_the_all_zero_address() {
    let system = solana_program::system_program::id();
    assert_eq!(Pubkey::new_from_array([0; 32]).to_bytes(), system.to_bytes().to_vec());
}
