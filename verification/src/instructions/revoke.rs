//! The revoke instruction: the list of its accounts and its data.

use crate::codec::borsh_u8;
use crate::state::Pubkey;
use vstd::prelude::*;

verus! {

/// How an instruction refers to an account.
#[derive(Clone, Copy, Debug, PartialEq, Eq, Structural, Hash)]
pub struct AccountMeta {
    /// The address of the account.
    pub pubkey: Pubkey,
    /// Whether the account must sign the transaction.
    pub is_signer: bool,
    /// Whether the instruction may change the account.
    pub is_writable: bool,
}

impl AccountMeta {
    /// An account that the instruction may change.
    pub fn new(pubkey: Pubkey, is_signer: bool) -> (meta: AccountMeta)
        ensures
            meta == (AccountMeta { pubkey, is_signer, is_writable: true }),
    {
        AccountMeta { pubkey, is_signer, is_writable: true }
    }

    /// An account that the instruction only reads.
    pub fn new_readonly(pubkey: Pubkey, is_signer: bool) -> (meta: AccountMeta)
        ensures
            meta == (AccountMeta { pubkey, is_signer, is_writable: false }),
    {
        AccountMeta { pubkey, is_signer, is_writable: false }
    }
}

/// An instruction: the program it is for, its accounts and its data.
#[derive(Clone, Debug, PartialEq, Eq)]
pub struct Instruction {
    pub program_id: Pubkey,
    pub accounts: Vec<AccountMeta>,
    pub data: Vec<u8>,
}

/// The address of the program, `CoREENxT6tW1HoK8ypY1SxRMZTcVPm7R94rH4PZNhX7d`.
/// It also stands in the account list for an optional account that is not
/// given.
pub open spec fn program_id() -> Pubkey {
    Pubkey {
        w0: 0x42a5_97bd_10ab_54af,
        w1: 0x0cdd_8998_b3f7_9ea0,
        w2: 0xcda6_dfe9_cca4_94d3,
        w3: 0x48a7_5b23_2dbe_7ec9,
    }
}

/// The address of the program.
pub fn mpl_asset_id() -> (id: Pubkey)
    ensures
        id == program_id(),
{
    Pubkey {
        w0: 0x42a5_97bd_10ab_54af,
        w1: 0x0cdd_8998_b3f7_9ea0,
        w2: 0xcda6_dfe9_cca4_94d3,
        w3: 0x48a7_5b23_2dbe_7ec9,
    }
}

/// The address of the system program: all bytes zero.
pub open spec fn system_program_id() -> Pubkey {
    Pubkey { w0: 0, w1: 0, w2: 0, w3: 0 }
}

/// Accounts.
#[derive(Clone, Copy, Debug, PartialEq, Eq, Structural, Hash)]
pub struct Revoke {
    /// The address of the asset
    pub asset_address: Pubkey,
    /// The collection to which the asset belongs
    pub collection: Option<Pubkey>,
    /// The owner of the asset
    pub owner: Pubkey,
    /// The account paying for the storage fees
    pub payer: Option<Pubkey>,
    /// The delegate to be revoked for the asset
    pub delegate: Pubkey,
    /// The system program
    pub system_program: Pubkey,
    /// The SPL Noop Program
    pub log_wrapper: Option<Pubkey>,
}

/// The entry for an optional account that is only read: the account when
/// it is given, the program itself when it is not.
pub open spec fn optional_readonly(key: Option<Pubkey>) -> AccountMeta {
    match key {
        Some(key) => AccountMeta { pubkey: key, is_signer: false, is_writable: false },
        None => AccountMeta { pubkey: program_id(), is_signer: false, is_writable: false },
    }
}

impl Revoke {
    /// The seven accounts of the instruction, in their order.
    pub open spec fn metas(self) -> Seq<AccountMeta> {
        seq![
            AccountMeta { pubkey: self.asset_address, is_signer: false, is_writable: true },
            optional_readonly(self.collection),
            AccountMeta { pubkey: self.owner, is_signer: true, is_writable: true },
            match self.payer {
                Some(payer) => AccountMeta { pubkey: payer, is_signer: true, is_writable: true },
                None => AccountMeta {
                    pubkey: program_id(),
                    is_signer: false,
                    is_writable: false,
                },
            },
            AccountMeta { pubkey: self.delegate, is_signer: false, is_writable: false },
            AccountMeta { pubkey: self.system_program, is_signer: false, is_writable: false },
            optional_readonly(self.log_wrapper),
        ]
    }

    /// The instruction without further accounts.
    pub fn instruction(&self) -> (instruction: Instruction)
        ensures
            instruction.program_id == program_id(),
            instruction.accounts@ == self.metas(),
            instruction.data@ == seq![2u8],
    {
        let none: Vec<AccountMeta> = Vec::new();
        let instruction = self.instruction_with_remaining_accounts(&none);
        assert(self.metas() + none@ =~= self.metas());
        instruction
    }

    /// The instruction with `remaining_accounts` after its own seven.
    pub fn instruction_with_remaining_accounts(
        &self,
        remaining_accounts: &Vec<AccountMeta>,
    ) -> (instruction: Instruction)
        ensures
            instruction.program_id == program_id(),
            instruction.accounts@ == self.metas() + remaining_accounts@,
            instruction.data@ == seq![2u8],
    {
        let mut accounts: Vec<AccountMeta> = Vec::new();
        accounts.push(AccountMeta::new(self.asset_address, false));
        match self.collection {
            Some(collection) => {
                accounts.push(AccountMeta::new_readonly(collection, false));
            },
            None => {
                accounts.push(AccountMeta::new_readonly(mpl_asset_id(), false));
            },
        }
        accounts.push(AccountMeta::new(self.owner, true));
        match self.payer {
            Some(payer) => {
                accounts.push(AccountMeta::new(payer, true));
            },
            None => {
                accounts.push(AccountMeta::new_readonly(mpl_asset_id(), false));
            },
        }
        accounts.push(AccountMeta::new_readonly(self.delegate, false));
        accounts.push(AccountMeta::new_readonly(self.system_program, false));
        match self.log_wrapper {
            Some(log_wrapper) => {
                accounts.push(AccountMeta::new_readonly(log_wrapper, false));
            },
            None => {
                accounts.push(AccountMeta::new_readonly(mpl_asset_id(), false));
            },
        }
        assert(accounts@ =~= self.metas());
        let mut i: usize = 0;
        while i < remaining_accounts.len()
            invariant
                i <= remaining_accounts.len(),
                accounts@ == self.metas() + remaining_accounts@.take(i as int),
            decreases remaining_accounts.len() - i,
        {
            accounts.push(remaining_accounts[i]);
            assert(accounts@ =~= self.metas() + remaining_accounts@.take(i + 1));
            i += 1;
        }
        assert(remaining_accounts@.take(remaining_accounts@.len() as int)
            =~= remaining_accounts@);
        let data = borsh_u8(RevokeInstructionData::new().discriminator);
        Instruction { program_id: mpl_asset_id(), accounts, data }
    }
}

/// The data of the revoke instruction: its discriminator.
#[derive(Clone, Copy, Debug, PartialEq, Eq, Structural, Hash)]
pub struct RevokeInstructionData {
    pub discriminator: u8,
}

impl RevokeInstructionData {
    /// The data of the revoke instruction, whose discriminator is 2.
    pub fn new() -> (data: RevokeInstructionData)
        ensures
            data.discriminator == 2,
    {
        RevokeInstructionData { discriminator: 2 }
    }
}

/// Instruction builder.
#[derive(Clone, Debug, PartialEq, Eq)]
pub struct RevokeBuilder {
    pub asset_address: Option<Pubkey>,
    pub collection: Option<Pubkey>,
    pub owner: Option<Pubkey>,
    pub payer: Option<Pubkey>,
    pub delegate: Option<Pubkey>,
    pub system_program: Option<Pubkey>,
    pub log_wrapper: Option<Pubkey>,
    pub __remaining_accounts: Vec<AccountMeta>,
}

impl Default for RevokeBuilder {
    /// A builder with nothing set.
    fn default() -> (builder: RevokeBuilder)
        ensures
            builder.is_new(),
    {
        RevokeBuilder {
            asset_address: None,
            collection: None,
            owner: None,
            payer: None,
            delegate: None,
            system_program: None,
            log_wrapper: None,
            __remaining_accounts: Vec::new(),
        }
    }
}

impl RevokeBuilder {
    /// Whether nothing is set.
    pub open spec fn is_new(self) -> bool {
        &&& self.asset_address is None
        &&& self.collection is None
        &&& self.owner is None
        &&& self.payer is None
        &&& self.delegate is None
        &&& self.system_program is None
        &&& self.log_wrapper is None
        &&& self.__remaining_accounts@.len() == 0
    }

    /// A builder with nothing set.
    pub fn new() -> (builder: RevokeBuilder)
        ensures
            builder.is_new(),
    {
        Self::default()
    }

    /// The address of the asset
    pub fn asset_address(&mut self, asset_address: Pubkey) -> (builder: &mut Self)
        ensures
            *builder == (RevokeBuilder { asset_address: Some(asset_address), ..*old(self) }),
            *final(self) == *final(builder),
    {
        self.asset_address = Some(asset_address);
        self
    }

    /// `[optional account]`
    /// The collection to which the asset belongs
    pub fn collection(&mut self, collection: Option<Pubkey>) -> (builder: &mut Self)
        ensures
            *builder == (RevokeBuilder { collection, ..*old(self) }),
            *final(self) == *final(builder),
    {
        self.collection = collection;
        self
    }

    /// The owner of the asset
    pub fn owner(&mut self, owner: Pubkey) -> (builder: &mut Self)
        ensures
            *builder == (RevokeBuilder { owner: Some(owner), ..*old(self) }),
            *final(self) == *final(builder),
    {
        self.owner = Some(owner);
        self
    }

    /// `[optional account]`
    /// The account paying for the storage fees
    pub fn payer(&mut self, payer: Option<Pubkey>) -> (builder: &mut Self)
        ensures
            *builder == (RevokeBuilder { payer, ..*old(self) }),
            *final(self) == *final(builder),
    {
        self.payer = payer;
        self
    }

    /// The delegate to be revoked for the asset
    pub fn delegate(&mut self, delegate: Pubkey) -> (builder: &mut Self)
        ensures
            *builder == (RevokeBuilder { delegate: Some(delegate), ..*old(self) }),
            *final(self) == *final(builder),
    {
        self.delegate = Some(delegate);
        self
    }

    /// `[optional account, default to '11111111111111111111111111111111']`
    /// The system program
    pub fn system_program(&mut self, system_program: Pubkey) -> (builder: &mut Self)
        ensures
            *builder == (RevokeBuilder { system_program: Some(system_program), ..*old(self) }),
            *final(self) == *final(builder),
    {
        self.system_program = Some(system_program);
        self
    }

    /// `[optional account]`
    /// The SPL Noop Program
    pub fn log_wrapper(&mut self, log_wrapper: Option<Pubkey>) -> (builder: &mut Self)
        ensures
            *builder == (RevokeBuilder { log_wrapper, ..*old(self) }),
            *final(self) == *final(builder),
    {
        self.log_wrapper = log_wrapper;
        self
    }

    /// Add an aditional account to the instruction.
    pub fn add_remaining_account(&mut self, account: AccountMeta) -> (builder: &mut Self)
        ensures
            builder.__remaining_accounts@ == old(self).__remaining_accounts@.push(account),
            builder.same_accounts(*old(self)),
            *final(self) == *final(builder),
    {
        self.__remaining_accounts.push(account);
        self
    }

    /// Add additional accounts to the instruction.
    pub fn add_remaining_accounts(&mut self, accounts: &Vec<AccountMeta>) -> (builder: &mut Self)
        ensures
            builder.__remaining_accounts@ == old(self).__remaining_accounts@ + accounts@,
            builder.same_accounts(*old(self)),
            *final(self) == *final(builder),
    {
        let mut i: usize = 0;
        while i < accounts.len()
            invariant
                i <= accounts.len(),
                self.__remaining_accounts@ == old(self).__remaining_accounts@ + accounts@.take(
                    i as int,
                ),
                self.same_accounts(*old(self)),
            decreases accounts.len() - i,
        {
            self.__remaining_accounts.push(accounts[i]);
            assert(self.__remaining_accounts@ =~= old(self).__remaining_accounts@ + accounts@.take(
                i + 1,
            ));
            i += 1;
        }
        assert(accounts@.take(accounts@.len() as int) =~= accounts@);
        self
    }

    /// Whether the two builders name the same accounts, whatever further
    /// accounts they hold.
    pub open spec fn same_accounts(self, other: RevokeBuilder) -> bool {
        &&& self.asset_address == other.asset_address
        &&& self.collection == other.collection
        &&& self.owner == other.owner
        &&& self.payer == other.payer
        &&& self.delegate == other.delegate
        &&& self.system_program == other.system_program
        &&& self.log_wrapper == other.log_wrapper
    }

    /// The accounts that the builder stands for. The system program is the
    /// one with the all-zero address unless another is set.
    pub open spec fn accounts(self) -> Revoke {
        Revoke {
            asset_address: self.asset_address.unwrap(),
            collection: self.collection,
            owner: self.owner.unwrap(),
            payer: self.payer,
            delegate: self.delegate.unwrap(),
            system_program: match self.system_program {
                Some(system_program) => system_program,
                None => system_program_id(),
            },
            log_wrapper: self.log_wrapper,
        }
    }

    /// The instruction. The asset, the owner and the delegate must be set.
    pub fn instruction(&self) -> (instruction: Instruction)
        requires
            self.asset_address is Some,
            self.owner is Some,
            self.delegate is Some,
        ensures
            instruction.program_id == program_id(),
            instruction.accounts@ == self.accounts().metas() + self.__remaining_accounts@,
            instruction.data@ == seq![2u8],
    {
        let accounts = Revoke {
            asset_address: self.asset_address.unwrap(),
            collection: self.collection,
            owner: self.owner.unwrap(),
            payer: self.payer,
            delegate: self.delegate.unwrap(),
            system_program: match self.system_program {
                Some(system_program) => system_program,
                None => Pubkey { w0: 0, w1: 0, w2: 0, w3: 0 },
            },
            log_wrapper: self.log_wrapper,
        };
        accounts.instruction_with_remaining_accounts(&self.__remaining_accounts)
    }
}

} // verus!
