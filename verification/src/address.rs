//! Addresses that programs derive from seeds.
use crate::market::ErrorCode;
use crate::pubkey::Pubkey;
use vstd::prelude::*;

verus! {

/// `solana_program::pubkey::PubkeyError`, the reason why no address can be derived; nothing in it is
/// read.
#[verifier::external_type_specification]
#[verifier::external_body]
pub struct ExPubkeyError(solana_program::pubkey::PubkeyError);

/// The address that a program derives from seeds: none where the seeds are too many or too long,
/// or lead to an address that has a private key.
pub uninterp spec fn program_address(seeds: Seq<Seq<u8>>, program_id: Seq<u8>) -> Option<Seq<u8>>;

/// Calls `solana_program::pubkey::Pubkey::create_program_address` with four seeds. Whether there
/// is an address, and which, depends on the seeds and the program alone.
#[verifier::external_body]
fn create_program_address(
    first: &[u8],
    second: &[u8],
    third: &[u8],
    last: &[u8],
    program_id: &[u8; 32],
) -> (r: Result<[u8; 32], solana_program::pubkey::PubkeyError>)
    ensures
        match program_address(seq![first@, second@, third@, last@], program_id@) {
            Some(bytes) => r matches Ok(address) && address@ == bytes,
            None => r is Err,
        },
{
    let program = solana_program::pubkey::Pubkey::new_from_array(*program_id);
    match solana_program::pubkey::Pubkey::create_program_address(&[first, second, third, last], &program) {
        Ok(address) => Ok(address.to_bytes()),
        Err(e) => Err(e),
    }
}

/// The programs that keep accounts of tokens.
#[derive(Clone, Copy, Debug)]
pub struct TokenPrograms {
    pub token: Pubkey,
    pub associated_token: Pubkey,
    pub security_token: Pubkey,
}

impl TokenPrograms {
    /// The seeds of the account of an owner for the tokens of a mint.
    pub open spec fn seeds(self, owner: Pubkey, mint: Pubkey, nonce: u8) -> Seq<Seq<u8>> {
        seq![owner.bytes@, self.token.bytes@, mint.bytes@, seq![nonce]]
    }

    /// The account of an owner for the tokens of a mint, if the nonce gives one.
    pub open spec fn spec_associated(self, owner: Pubkey, mint: Pubkey, nonce: u8) -> Option<Pubkey> {
        match program_address(self.seeds(owner, mint, nonce), self.associated_token.bytes@) {
            Some(bytes) => Some(Pubkey::of(bytes)),
            None => None,
        }
    }

    /// The account of an owner for the tokens of a mint.
    pub fn associated(&self, owner: &Pubkey, mint: &Pubkey, nonce: u8) -> (r: Option<Pubkey>)
        ensures
            r == self.spec_associated(*owner, *mint, nonce),
    {
        let bump: [u8; 1] = [nonce];
        let derived = create_program_address(
            vstd::array::array_as_slice(&owner.bytes),
            vstd::array::array_as_slice(&self.token.bytes),
            vstd::array::array_as_slice(&mint.bytes),
            vstd::array::array_as_slice(&bump),
            &self.associated_token.bytes,
        );
        assert(bump@ =~= seq![nonce]);
        match derived {
            Ok(bytes) => {
                let key = Pubkey::new(bytes);
                proof {
                    Pubkey::lemma_of(key);
                }
                Some(key)
            },
            Err(_) => None,
        }
    }
}

/// Checks that the account of a vault is the one that was derived for it.
pub fn verify_vault(derived: &Option<Pubkey>, vault: &Pubkey) -> (r: Result<(), ErrorCode>)
    ensures
        r == if *derived == Some(*vault) {
            Ok::<(), ErrorCode>(())
        } else {
            Err(ErrorCode::InvalidDerivedAccount)
        },
{
    match derived {
        Some(key) => {
            if *key != *vault {
                return Err(ErrorCode::InvalidDerivedAccount);
            }
            Ok(())
        },
        None => Err(ErrorCode::InvalidDerivedAccount),
    }
}

} // verus!
