//! Plain data types around the sale: fungible-token parameters, per-account
//! mint allowances, the sale phases, and the sale summaries shown to users.

use vstd::prelude::*;

verus! {

/// Conversion and discount parameters of a whitelisted fungible token.
/// `token_near` is the conversion rate expressed in thousandths;
/// `token_boost` is the complement of the shown discount, as a percentage.
pub struct TokenParameters {
    pub token_near: u128,
    pub token_boost: u32,
    pub decimals: u8,
}

impl TokenParameters {
    pub fn new(token_near: u128, token_boost: u32, decimals: u8) -> (r: TokenParameters)
        ensures
            r.token_near == token_near,
            r.token_boost == token_boost,
            r.decimals == decimals,
    {
        TokenParameters { token_near, token_boost, decimals }
    }
}

impl Default for TokenParameters {
    /// A token with no conversion rate set, no discount, and 24 decimals.
    fn default() -> (r: TokenParameters)
        ensures
            r.token_near == 0,
            r.token_boost == 100,
            r.decimals == 24,
    {
        TokenParameters { token_near: 0, token_boost: 100, decimals: 24 }
    }
}

/// A whitelisted token as shown to callers: the stored boost becomes the
/// complementary discount percentage.
pub struct TokenParametersOutput {
    pub token_near: u128,
    pub discount: u8,
    pub decimals: u8,
}

impl TokenParametersOutput {
    /// The outward form of `parameters`.
    pub fn from(parameters: TokenParameters) -> (r: TokenParametersOutput)
        requires
            parameters.token_boost <= 100,
        ensures
            r.token_near == parameters.token_near,
            r.discount == 100 - parameters.token_boost,
            r.decimals == parameters.decimals,
    {
        TokenParametersOutput {
            token_near: parameters.token_near,
            discount: (100 - parameters.token_boost) as u8,
            decimals: parameters.decimals,
        }
    }
}

/// The collection metadata a contract is created with.
pub struct InitialMetadata {
    pub name: String,
    pub symbol: String,
    pub uri: String,
    pub icon: Option<String>,
    pub spec_version: Option<String>,
    pub reference: Option<String>,
    pub reference_hash: Option<Vec<u8>>,
}

/// How many tokens one account may still mint: `used` never passes `max`.
pub struct Allowance {
    pub max: u16,
    pub used: u16,
}

impl Allowance {
    /// A fresh allowance of `max` mints, none used yet.
    pub fn new(max: u16) -> (r: Allowance)
        ensures
            r.max == max,
            r.used == 0,
    {
        Allowance { max, used: 0 }
    }

    /// How many mints are left.
    pub fn left(&self) -> (r: u16)
        requires
            self.used <= self.max,
        ensures
            r == self.max - self.used,
    {
        self.max - self.used
    }

    /// Spend `num` mints of the allowance.
    pub fn use_num(&mut self, num: u16)
        requires
            old(self).used + num <= u16::MAX,
        ensures
            final(self).used == old(self).used + num,
            final(self).max == old(self).max,
    {
        self.used = self.used + num;
    }

    /// Grant `num` more mints on top of the current ceiling.
    pub fn increase_max(&mut self, num: u16)
        requires
            old(self).max + num <= u16::MAX,
        ensures
            final(self).max == old(self).max + num,
            final(self).used == old(self).used,
    {
        self.max = self.max + num;
    }

    /// Raise the ceiling to `new_max` where that is higher; never lower it.
    pub fn raise_max(self, new_max: u16) -> (r: Allowance)
        ensures
            r.max == if new_max > self.max {
                new_max
            } else {
                self.max
            },
            r.used == self.used,
    {
        let max = if new_max > self.max {
            new_max
        } else {
            self.max
        };
        Allowance { max, used: self.used }
    }
}

/// The sale phase a contract is in.
#[derive(Clone, Copy, Debug, PartialEq, Eq, Structural)]
pub enum Status {
    /// Not open for any sales.
    Closed,
    /// Allowlisted accounts can mint.
    Presale,
    /// Any account can mint.
    Open,
    /// No more tokens to be minted.
    SoldOut,
}

/// The sale phase given the remaining supply, the two optional start times,
/// and the current time: sold out once nothing is left; open once the
/// public start has passed; in presale once the presale start has passed;
/// closed otherwise.
pub open spec fn spec_status(
    tokens_left: u32,
    presale_start: Option<u64>,
    public_sale_start: Option<u64>,
    now: u64,
) -> Status {
    if tokens_left == 0 {
        Status::SoldOut
    } else {
        let open_now = match public_sale_start {
            Some(p) => p < now,
            None => false,
        };
        let presale_now = match presale_start {
            Some(p) => p < now,
            None => false,
        };
        if open_now {
            Status::Open
        } else if presale_now {
            Status::Presale
        } else {
            Status::Closed
        }
    }
}

/// The sale phase right now; see `spec_status`.
pub fn get_status(
    tokens_left: u32,
    presale_start: Option<u64>,
    public_sale_start: Option<u64>,
    now: u64,
) -> (r: Status)
    ensures
        r == spec_status(tokens_left, presale_start, public_sale_start, now),
{
    if tokens_left == 0 {
        return Status::SoldOut;
    }
    match (presale_start, public_sale_start) {
        (_, Some(public)) if public < now => Status::Open,
        (Some(pre), _) if pre < now => Status::Presale,
        (_, _) => Status::Closed,
    }
}

/// Information about the current sale.
pub struct SaleInfo {
    /// Current sale phase.
    pub status: Status,
    /// Start of the allowlist-only sale.
    pub presale_start: u64,
    /// Start of the public sale.
    pub sale_start: u64,
    /// Total tokens that could be minted.
    pub token_final_supply: u64,
    /// Current price for one token, in yocto.
    pub price: u128,
}

/// Information about the current sale from one account's perspective.
pub struct UserSaleInfo {
    pub sale_info: SaleInfo,
    pub is_vip: bool,
    pub remaining_allowance: Option<u16>,
}

} // verus!
