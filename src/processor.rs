use vstd::prelude::*;
use crate::error::TokenError;
use crate::instruction::{TokenInstruction, instruction_from_bytes};
use crate::state::{Key, Token, TokenModel, KEY_LEN, TOKEN_LEN, initialized, token_from_bytes, store, lemma_store_then_read};

verus! {

/// What the host hands over for one account.
pub struct Account {
    /// The account's own identifier.
    pub key: Key,
    /// The program that owns the account.
    pub owner: Key,
    /// Whether the host attests that this account signed the instruction.
    pub is_signer: bool,
    /// The account's buffer.
    pub data: Vec<u8>,
}

/// An account with its identifiers and buffer as sequences.
pub struct AccountModel {
    pub key: Seq<u8>,
    pub owner: Seq<u8>,
    pub is_signer: bool,
    pub data: Seq<u8>,
}

impl View for Account {
    type V = AccountModel;

    open spec fn view(&self) -> AccountModel {
        AccountModel {
            key: self.key@,
            owner: self.owner@,
            is_signer: self.is_signer,
            data: self.data@,
        }
    }
}

pub open spec fn accounts_model(accounts: Seq<Account>) -> Seq<AccountModel> {
    accounts.map_values(|a: Account| a@)
}

/// The record held by an account's buffer.
pub open spec fn record_of(a: AccountModel) -> TokenModel {
    token_from_bytes(a.data)
}

/// `a` with `t` encoded into its buffer.
pub open spec fn with_record(a: AccountModel, t: TokenModel) -> AccountModel {
    AccountModel { data: store(a.data, t), ..a }
}

/// Mint over accounts `[authority, token]`: the accounts after it, or why
/// it was refused.
pub open spec fn mint_result(program_id: Seq<u8>, accounts: Seq<AccountModel>, amount: u64)
    -> Result<Seq<AccountModel>, TokenError>
{
    if accounts.len() < 2 {
        Err(TokenError::NotEnoughAccounts)
    } else if accounts[1].owner != program_id {
        Err(TokenError::IncorrectOwner)
    } else if accounts[1].data.len() < TOKEN_LEN {
        Err(TokenError::Malformed)
    } else if initialized(record_of(accounts[1])) {
        Err(TokenError::AlreadyInitialized)
    } else {
        let authority = accounts[0].key;
        let minted = TokenModel { mint: authority, owner: authority, amount };
        Ok(accounts.update(1, with_record(accounts[1], minted)))
    }
}

/// Transfer over accounts `[source, destination, authority]`: the accounts
/// after it, or why it was refused.
pub open spec fn transfer_result(accounts: Seq<AccountModel>, amount: u64)
    -> Result<Seq<AccountModel>, TokenError>
{
    if accounts.len() < 3 {
        Err(TokenError::NotEnoughAccounts)
    } else if !accounts[2].is_signer {
        Err(TokenError::MissingSignature)
    } else if accounts[0].data.len() < TOKEN_LEN {
        Err(TokenError::Malformed)
    } else if !initialized(record_of(accounts[0])) {
        Err(TokenError::Uninitialized)
    } else if accounts[1].data.len() < TOKEN_LEN {
        Err(TokenError::Malformed)
    } else if record_of(accounts[0]).amount < amount {
        Err(TokenError::InsufficientFunds)
    } else if record_of(accounts[1]).amount + amount > u64::MAX {
        Err(TokenError::Overflow)
    } else {
        let source = record_of(accounts[0]);
        let destination = record_of(accounts[1]);
        let debited = TokenModel { amount: (source.amount - amount) as u64, ..source };
        let credited = TokenModel { amount: (destination.amount + amount) as u64, ..destination };
        Ok(accounts.update(0, with_record(accounts[0], debited)).update(
            1,
            with_record(accounts[1], credited),
        ))
    }
}

/// A whole instruction: decode the payload, then run its handler.
pub open spec fn process_result(program_id: Seq<u8>, accounts: Seq<AccountModel>, data: Seq<u8>)
    -> Result<Seq<AccountModel>, TokenError>
{
    match instruction_from_bytes(data) {
        Err(e) => Err(e),
        Ok(TokenInstruction::Mint { amount }) => mint_result(program_id, accounts, amount),
        Ok(TokenInstruction::Transfer { amount }) => transfer_result(accounts, amount),
    }
}

/// The accounts after a call agree with `expected`: on success they are the
/// accounts it gives, and on failure they are as they were.
pub open spec fn settles(
    expected: Result<Seq<AccountModel>, TokenError>,
    r: Result<(), TokenError>,
    before: Seq<Account>,
    after: Seq<Account>,
) -> bool {
    match expected {
        Ok(accounts) => r is Ok && accounts_model(after) == accounts,
        Err(e) => r == Err::<(), TokenError>(e) && after == before,
    }
}

/// Initialises the record in `accounts[1]` with `amount`, naming
/// `accounts[0]` as both mint and owner. The authority is not asked to have
/// signed: whoever sends the instruction chooses the identifier recorded.
pub fn mint_tokens(program_id: &Key, accounts: &mut Vec<Account>, amount: u64) -> (r: Result<
    (),
    TokenError,
>)
    ensures
        settles(
            mint_result(program_id@, accounts_model(old(accounts)@), amount),
            r,
            old(accounts)@,
            final(accounts)@,
        ),
{
    if accounts.len() < 2 {
        return Err(TokenError::NotEnoughAccounts);
    }
    let authority = accounts[0].key;
    if !accounts[1].owner.equals(program_id) {
        return Err(TokenError::IncorrectOwner);
    }
    let mut token = Token::unpack_from_slice(accounts[1].data.as_slice())?;
    if token.is_initialized() {
        return Err(TokenError::AlreadyInitialized);
    }
    token.mint = authority;
    token.owner = authority;
    token.amount = amount;
    let ghost before = accounts_model(accounts@);
    token.pack_into_slice(&mut accounts[1].data);
    assert(accounts_model(accounts@) =~= before.update(1, with_record(before[1], token@)));
    Ok(())
}

/// Moves `amount` from the record in `accounts[0]` to the one in
/// `accounts[1]`, authorised by the signer `accounts[2]`. Any signer will do:
/// it is not compared with the source record's owner. The destination may be
/// uninitialised, and then keeps its zero mint and owner. The program
/// identifier is not consulted; the host lets only the owning program write.
pub fn transfer_tokens(_program_id: &Key, accounts: &mut Vec<Account>, amount: u64) -> (r: Result<
    (),
    TokenError,
>)
    ensures
        settles(
            transfer_result(accounts_model(old(accounts)@), amount),
            r,
            old(accounts)@,
            final(accounts)@,
        ),
{
    if accounts.len() < 3 {
        return Err(TokenError::NotEnoughAccounts);
    }
    if !accounts[2].is_signer {
        return Err(TokenError::MissingSignature);
    }
    let mut source = Token::unpack(accounts[0].data.as_slice())?;
    let mut destination = Token::unpack_from_slice(accounts[1].data.as_slice())?;
    if source.amount < amount {
        return Err(TokenError::InsufficientFunds);
    }
    let credited = match destination.amount.checked_add(amount) {
        Some(v) => v,
        None => return Err(TokenError::Overflow),
    };
    source.amount = source.amount - amount;
    destination.amount = credited;
    let ghost before = accounts_model(accounts@);
    source.pack_into_slice(&mut accounts[0].data);
    destination.pack_into_slice(&mut accounts[1].data);
    assert(accounts_model(accounts@) =~= before.update(0, with_record(before[0], source@)).update(
        1,
        with_record(before[1], destination@),
    ));
    Ok(())
}

/// Decodes `instruction_data` and runs the instruction it names.
pub fn process_instruction(
    program_id: &Key,
    accounts: &mut Vec<Account>,
    instruction_data: &[u8],
) -> (r: Result<(), TokenError>)
    ensures
        settles(
            process_result(program_id@, accounts_model(old(accounts)@), instruction_data@),
            r,
            old(accounts)@,
            final(accounts)@,
        ),
{
    match TokenInstruction::unpack(instruction_data)? {
        TokenInstruction::Mint { amount } => mint_tokens(program_id, accounts, amount),
        TokenInstruction::Transfer { amount } => transfer_tokens(program_id, accounts, amount),
    }
}

/// Mint succeeds exactly once on a record this program owns. On an
/// uninitialised record it stores `{mint: authority, owner: authority,
/// amount}` and changes no other account; on an initialised one it is
/// refused with `AlreadyInitialized`; and after a mint of a nonzero amount,
/// every further mint on that record is refused.
pub proof fn lemma_mint_once(
    program_id: Key,
    accounts: Seq<Account>,
    amount: u64,
    later_amount: u64,
)
    requires
        accounts.len() >= 2,
        accounts[1].owner@ == program_id@,
        accounts[1].data@.len() >= TOKEN_LEN,
    ensures
        ({
            let before = accounts_model(accounts);
            &&& initialized(record_of(before[1])) ==> mint_result(program_id@, before, amount)
                == Err::<Seq<AccountModel>, TokenError>(TokenError::AlreadyInitialized)
            &&& !initialized(record_of(before[1])) ==> {
                &&& mint_result(program_id@, before, amount) is Ok
                &&& minted_as(before, mint_result(program_id@, before, amount)->Ok_0, amount)
            }
            &&& !initialized(record_of(before[1])) && amount > 0 ==> mint_result(
                program_id@,
                mint_result(program_id@, before, amount)->Ok_0,
                later_amount,
            ) == Err::<Seq<AccountModel>, TokenError>(TokenError::AlreadyInitialized)
        }),
{
    let before = accounts_model(accounts);
    let authority = before[0].key;
    assert(authority.len() == KEY_LEN);
    let minted = TokenModel { mint: authority, owner: authority, amount };
    lemma_store_then_read(before[1].data, minted);
}

/// `after` is `before` with the record of `before[1]` set to
/// `{mint: authority, owner: authority, amount}`, where the authority is
/// `before[0]`, and nothing else changed.
pub open spec fn minted_as(before: Seq<AccountModel>, after: Seq<AccountModel>, amount: u64) -> bool {
    &&& after.len() == before.len()
    &&& record_of(after[1]) == (TokenModel { mint: before[0].key, owner: before[0].key, amount })
    &&& after[1].data.len() == before[1].data.len()
    &&& after[1].key == before[1].key
    &&& after[1].owner == before[1].owner
    &&& after[1].is_signer == before[1].is_signer
    &&& forall|i: int| 0 <= i < before.len() && i != 1 ==> after[i] == before[i]
}

/// A transfer that succeeds moves exactly `amount` from source to
/// destination: their balances go from `A` and `B` to `A - amount` and
/// `B + amount`, so their sum is kept, and it needs `amount <= A`. With a
/// signer and two well-formed buffers of which the source is initialised, an
/// `amount` above `A` is refused with `InsufficientFunds`.
pub proof fn lemma_transfer_conserves(accounts: Seq<Account>, amount: u64)
    requires
        accounts.len() >= 2,
    ensures
        ({
            let before = accounts_model(accounts);
            let a = record_of(before[0]).amount;
            let b = record_of(before[1]).amount;
            &&& transfer_result(before, amount) is Ok ==> {
                let after = transfer_result(before, amount)->Ok_0;
                &&& amount <= a
                &&& record_of(after[0]).amount == a - amount
                &&& record_of(after[1]).amount == b + amount
                &&& record_of(after[0]).amount + record_of(after[1]).amount == a + b
            }
            &&& before.len() >= 3 && before[2].is_signer && before[0].data.len() >= TOKEN_LEN
                && before[1].data.len() >= TOKEN_LEN && initialized(record_of(before[0])) && a
                < amount ==> transfer_result(before, amount) == Err::<
                Seq<AccountModel>,
                TokenError,
            >(TokenError::InsufficientFunds)
        }),
{
    let before = accounts_model(accounts);
    if transfer_result(before, amount) is Ok {
        let source = record_of(before[0]);
        let destination = record_of(before[1]);
        assert(source.mint.len() == KEY_LEN && source.owner.len() == KEY_LEN);
        assert(destination.mint.len() == KEY_LEN && destination.owner.len() == KEY_LEN);
        let debited = TokenModel { amount: (source.amount - amount) as u64, ..source };
        let credited = TokenModel { amount: (destination.amount + amount) as u64, ..destination };
        lemma_store_then_read(before[0].data, debited);
        lemma_store_then_read(before[1].data, credited);
    }
}

/// Without a signing authority, transfer is refused with `MissingSignature`
/// whatever the buffers hold, so none of them is read or written.
pub proof fn lemma_signature_gate(accounts: Seq<Account>, amount: u64)
    requires
        accounts.len() >= 3,
        !accounts[2].is_signer,
    ensures
        transfer_result(accounts_model(accounts), amount) == Err::<
            Seq<AccountModel>,
            TokenError,
        >(TokenError::MissingSignature),
{
}

/// A payload shorter than nine bytes, or with an opcode other than 0 and 1,
/// is refused with `InvalidInstruction` before any account is looked at.
pub proof fn lemma_bad_payload_rejected(program_id: Key, accounts: Seq<Account>, data: Seq<u8>)
    requires
        data.len() < 9 || data[0] > 1,
    ensures
        process_result(program_id@, accounts_model(accounts), data) == Err::<
            Seq<AccountModel>,
            TokenError,
        >(TokenError::InvalidInstruction),
{
}

} // verus!
