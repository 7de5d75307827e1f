use vstd::prelude::*;

verus! {

/// The kinds of account a component can target.
#[derive(Clone, Copy, Debug, PartialEq, Eq, Structural, PartialOrd, Ord, Hash)]
pub enum AccountType {
    FungibleFaucet,
    NonFungibleFaucet,
    RegularAccountImmutableCode,
    RegularAccountUpdatableCode,
}

/// A string that names no account type.
#[derive(Clone, Debug, PartialEq, Eq)]
pub struct InvalidAccountType {
    /// The offending input, lowercased.
    pub found: String,
}

/// What `str::to_lowercase` makes of a string.
pub uninterp spec fn lowercase_of(s: Seq<char>) -> Seq<char>;

/// Relies on `str::to_lowercase`: its result depends on the characters alone.
#[verifier::external_body]
fn lowercase(s: &str) -> (r: String)
    ensures
        r@ == lowercase_of(s@),
{
    s.to_lowercase()
}

/// The account type whose lowercased name is `s`.
pub open spec fn account_type_of_lowercase(s: Seq<char>) -> Option<AccountType> {
    if s == "fungiblefaucet"@ {
        Some(AccountType::FungibleFaucet)
    } else if s == "nonfungiblefaucet"@ {
        Some(AccountType::NonFungibleFaucet)
    } else if s == "regularaccountimmutablecode"@ {
        Some(AccountType::RegularAccountImmutableCode)
    } else if s == "regularaccountupdatablecode"@ {
        Some(AccountType::RegularAccountUpdatableCode)
    } else {
        None
    }
}

/// The canonical name written for each account type.
pub open spec fn canonical_name(t: AccountType) -> Seq<char> {
    match t {
        AccountType::FungibleFaucet => "FungibleFaucet"@,
        AccountType::NonFungibleFaucet => "NonFungibleFaucet"@,
        AccountType::RegularAccountImmutableCode => "RegularAccountImmutableCode"@,
        AccountType::RegularAccountUpdatableCode => "RegularAccountUpdatableCode"@,
    }
}

impl AccountType {
    /// The canonical name of this account type.
    pub fn as_str(&self) -> (r: &'static str)
        ensures
            r@ == canonical_name(*self),
    {
        match self {
            AccountType::FungibleFaucet => "FungibleFaucet",
            AccountType::NonFungibleFaucet => "NonFungibleFaucet",
            AccountType::RegularAccountImmutableCode => "RegularAccountImmutableCode",
            AccountType::RegularAccountUpdatableCode => "RegularAccountUpdatableCode",
        }
    }

    /// Decodes an already lowercased name; anything else is rejected with the input.
    pub fn from_lowercase(s: &str) -> (r: Result<AccountType, InvalidAccountType>)
        ensures
            match account_type_of_lowercase(s@) {
                Some(t) => r == Ok::<AccountType, InvalidAccountType>(t),
                None => r matches Err(e) && e.found@ == s@,
            },
    {
        let owned = s.to_owned();
        if owned == String::from_str("fungiblefaucet") {
            Ok(AccountType::FungibleFaucet)
        } else if owned == String::from_str("nonfungiblefaucet") {
            Ok(AccountType::NonFungibleFaucet)
        } else if owned == String::from_str("regularaccountimmutablecode") {
            Ok(AccountType::RegularAccountImmutableCode)
        } else if owned == String::from_str("regularaccountupdatablecode") {
            Ok(AccountType::RegularAccountUpdatableCode)
        } else {
            Err(InvalidAccountType { found: owned })
        }
    }

    /// Decodes an account type name, ignoring case.
    pub fn from_name(s: &str) -> (r: Result<AccountType, InvalidAccountType>)
        ensures
            match account_type_of_lowercase(lowercase_of(s@)) {
                Some(t) => r == Ok::<AccountType, InvalidAccountType>(t),
                None => r matches Err(e) && e.found@ == lowercase_of(s@),
            },
    {
        let lower = lowercase(s);
        AccountType::from_lowercase(lower.as_str())
    }
}

impl InvalidAccountType {
    /// A description of the rejection, naming the input and what was expected.
    pub fn message(&self) -> (r: String)
        ensures
            r@ == "invalid value: string \""@ + self.found@ + "\", expected a valid account type"@,
    {
        let mut m = String::from_str("invalid value: string \"");
        m.append(self.found.as_str());
        m.append("\", expected a valid account type");
        m
    }
}

} // verus!
