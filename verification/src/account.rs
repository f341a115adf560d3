//! Account handles as the hosting runtime supplies them.
use vstd::prelude::*;
use crate::codec::append_range;
use crate::identity::Identity;

verus! {

/// One account of a call: who it is, who owns it, its stored state, and what
/// the caller may do with it.
#[derive(Debug, PartialEq, Eq)]
pub struct Account {
    pub identity: Identity,
    pub owner: Identity,
    pub data: Vec<u8>,
    pub writable: bool,
    pub signer: bool,
    pub balance: u64,
}

/// What an `Account` holds.
pub struct AccountView {
    pub identity: Seq<u8>,
    pub owner: Seq<u8>,
    pub data: Seq<u8>,
    pub writable: bool,
    pub signer: bool,
    pub balance: u64,
}

impl View for Account {
    type V = AccountView;

    open spec fn view(&self) -> AccountView {
        AccountView {
            identity: self.identity@,
            owner: self.owner@,
            data: self.data@,
            writable: self.writable,
            signer: self.signer,
            balance: self.balance,
        }
    }
}

impl Clone for Account {
    fn clone(&self) -> (copy: Account)
        ensures
            copy@ == self@,
    {
        let mut data: Vec<u8> = Vec::new();
        append_range(&mut data, self.data.as_slice(), 0, self.data.len());
        assert(data@ =~= self.data@);
        Account {
            identity: self.identity,
            owner: self.owner,
            data,
            writable: self.writable,
            signer: self.signer,
            balance: self.balance,
        }
    }
}

/// The views of a list of accounts.
pub open spec fn accounts_view(accounts: Seq<Account>) -> Seq<AccountView> {
    Seq::new(accounts.len(), |i: int| accounts[i]@)
}

} // verus!
