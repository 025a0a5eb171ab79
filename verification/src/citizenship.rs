//! Citizenships and visas: records with a start, an expiry and a price.
//!
//! The functions here decide what a purchase costs and what the record
//! holds afterwards. Moving the payment is left to the caller, who is told
//! the amount.

use crate::address::Address;
use vstd::prelude::*;

verus! {

/// Why a visa purchase was refused.
#[derive(Clone, Copy, Debug, PartialEq, Eq, Hash, Structural)]
pub enum CustomError {
    /// Duration must be greater than 0.
    InvalidDuration,
    /// Visa duration cannot exceed 30 days.
    DurationTooLong,
}

/// The authority that is paid, and the four prices.
#[derive(Clone, Copy, Debug, PartialEq, Eq, Structural)]
pub struct ProgramState {
    pub authority: Address,
    pub normal_citizenship_price: u64,
    pub senior_citizenship_price: u64,
    pub normal_visa_price_per_hour: u64,
    pub senior_visa_price_per_hour: u64,
}

/// A citizenship: valid from `start_time` to `expiry_time`.
#[derive(Clone, Copy, Debug, PartialEq, Eq, Structural)]
pub struct Citizenship {
    pub owner: Address,
    pub is_senior: bool,
    pub start_time: i64,
    pub expiry_time: i64,
    pub is_active: bool,
}

/// A visa: valid from `start_time` to `expiry_time`.
#[derive(Clone, Copy, Debug, PartialEq, Eq, Structural)]
pub struct Visa {
    pub owner: Address,
    pub is_senior: bool,
    pub start_time: i64,
    pub expiry_time: i64,
    pub is_active: bool,
}

/// How long a citizenship lasts: one year of 365 days, in seconds.
pub const CITIZENSHIP_SECONDS: i64 = 31_536_000;

/// The longest visa: 30 days, in hours.
pub const MAX_VISA_HOURS: u64 = 720;

/// Seconds in an hour.
pub const SECONDS_PER_HOUR: i64 = 3600;

impl ProgramState {
    /// The price of a citizenship of the given kind.
    pub open spec fn citizenship_price(self, is_senior: bool) -> u64 {
        if is_senior {
            self.senior_citizenship_price
        } else {
            self.normal_citizenship_price
        }
    }

    /// The hourly price of a visa of the given kind.
    pub open spec fn visa_price_per_hour(self, is_senior: bool) -> u64 {
        if is_senior {
            self.senior_visa_price_per_hour
        } else {
            self.normal_visa_price_per_hour
        }
    }
}

/// A citizenship bought at `now` expires at a time that an `i64` holds.
pub open spec fn citizenship_fits(now: i64) -> bool {
    now + CITIZENSHIP_SECONDS <= i64::MAX
}

/// For a visa of an accepted duration, the price fits in a `u64` and the
/// expiry is a time that an `i64` holds.
pub open spec fn visa_fits(state: ProgramState, is_senior: bool, duration_hours: u64, now: i64) -> bool {
    0 < duration_hours <= MAX_VISA_HOURS ==> state.visa_price_per_hour(is_senior) * duration_hours
        <= u64::MAX && now + duration_hours * SECONDS_PER_HOUR <= i64::MAX
}

/// Whether a citizenship can be bought at `now`.
pub fn can_purchase_citizenship(now: i64) -> (ok: bool)
    ensures
        ok == citizenship_fits(now),
{
    now <= i64::MAX - CITIZENSHIP_SECONDS
}

/// Whether a visa of this kind and duration can be asked for at `now`: a
/// duration that will be refused can always be asked for.
pub fn can_purchase_visa(state: &ProgramState, is_senior: bool, duration_hours: u64, now: i64) -> (ok:
    bool)
    ensures
        ok == visa_fits(*state, is_senior, duration_hours, now),
{
    if duration_hours == 0 || duration_hours > MAX_VISA_HOURS {
        return true;
    }
    let price_per_hour = if is_senior {
        state.senior_visa_price_per_hour
    } else {
        state.normal_visa_price_per_hour
    };
    let span = (duration_hours as i64) * SECONDS_PER_HOUR;
    price_per_hour.checked_mul(duration_hours).is_some() && now <= i64::MAX - span
}

/// Sets the authority and the four prices.
pub fn initialize(
    state: &mut ProgramState,
    authority: Address,
    normal_citizenship_price: u64,
    senior_citizenship_price: u64,
    normal_visa_price_per_hour: u64,
    senior_visa_price_per_hour: u64,
) -> (done: Result<(), CustomError>)
    ensures
        done is Ok,
        *final(state) == (ProgramState {
            authority,
            normal_citizenship_price,
            senior_citizenship_price,
            normal_visa_price_per_hour,
            senior_visa_price_per_hour,
        }),
{
    state.authority = authority;
    state.normal_citizenship_price = normal_citizenship_price;
    state.senior_citizenship_price = senior_citizenship_price;
    state.normal_visa_price_per_hour = normal_visa_price_per_hour;
    state.senior_visa_price_per_hour = senior_visa_price_per_hour;
    Ok(())
}

/// Makes `payer` a citizen for one year from `now` and returns the price
/// that is due to the authority.
///
/// The expiry must be a time that an `i64` holds.
pub fn purchase_citizenship(
    state: &ProgramState,
    citizenship: &mut Citizenship,
    payer: Address,
    is_senior: bool,
    now: i64,
) -> (due: Result<u64, CustomError>)
    requires
        citizenship_fits(now),
    ensures
        due == Ok::<u64, CustomError>(state.citizenship_price(is_senior)),
        *final(citizenship) == (Citizenship {
            owner: payer,
            is_senior,
            start_time: now,
            expiry_time: (now + CITIZENSHIP_SECONDS) as i64,
            is_active: true,
        }),
{
    let price = if is_senior {
        state.senior_citizenship_price
    } else {
        state.normal_citizenship_price
    };
    citizenship.owner = payer;
    citizenship.is_senior = is_senior;
    citizenship.start_time = now;
    citizenship.expiry_time = now + CITIZENSHIP_SECONDS;
    citizenship.is_active = true;
    Ok(price)
}

/// Gives `payer` a visa for `duration_hours` hours from `now` and returns
/// the price that is due to the authority: the hourly price times the
/// hours.
///
/// A duration of zero, or of more than 30 days, is refused, and the visa
/// stays as it was. For an accepted duration the price must fit in a `u64`
/// and the expiry must be a time that an `i64` holds.
pub fn purchase_visa(
    state: &ProgramState,
    visa: &mut Visa,
    payer: Address,
    is_senior: bool,
    duration_hours: u64,
    now: i64,
) -> (due: Result<u64, CustomError>)
    requires
        visa_fits(*state, is_senior, duration_hours, now),
    ensures
        duration_hours == 0 ==> due == Err::<u64, CustomError>(CustomError::InvalidDuration),
        duration_hours > MAX_VISA_HOURS ==> due == Err::<u64, CustomError>(
            CustomError::DurationTooLong,
        ),
        0 < duration_hours <= MAX_VISA_HOURS ==> due == Ok::<u64, CustomError>(
            (state.visa_price_per_hour(is_senior) * duration_hours) as u64,
        ),
        due is Err ==> *final(visa) == *old(visa),
        due is Ok ==> *final(visa) == (Visa {
            owner: payer,
            is_senior,
            start_time: now,
            expiry_time: (now + duration_hours * SECONDS_PER_HOUR) as i64,
            is_active: true,
        }),
{
    if duration_hours == 0 {
        return Err(CustomError::InvalidDuration);
    }
    if duration_hours > MAX_VISA_HOURS {
        return Err(CustomError::DurationTooLong);
    }
    let price_per_hour = if is_senior {
        state.senior_visa_price_per_hour
    } else {
        state.normal_visa_price_per_hour
    };
    let total_price = price_per_hour * duration_hours;
    visa.owner = payer;
    visa.is_senior = is_senior;
    visa.start_time = now;
    visa.expiry_time = now + (duration_hours as i64) * SECONDS_PER_HOUR;
    visa.is_active = true;
    Ok(total_price)
}

} // verus!
