//! Plots that carry their own sale and rental listings.
//!
//! A plot of this kind lists a part of its rectangle for sale or for rent,
//! never both at once. Buying and renting move lamports from one balance to
//! another; every check is made before anything changes.

use crate::address::Address;
use crate::geometry::{rectangle_within, Rectangle};
use crate::payment::{area_price, checked_times, price_of_area};
use vstd::prelude::*;

verus! {

/// Why an operation on a listed plot was refused.
#[derive(Clone, Copy, Debug, PartialEq, Eq, Hash, Structural)]
pub enum LandError {
    /// Calculation error.
    CalculationError,
    /// Not the owner.
    NotOwner,
    /// Land is currently for sale.
    CurrentlyForSale,
    /// Land is already rented.
    AlreadyRented,
    /// Land is not for rent.
    NotForRent,
    /// Land is not for sale.
    NotForSale,
    /// Insufficient funds.
    InsufficientFunds,
    /// Invalid owner.
    InvalidOwner,
    /// Invalid dimensions.
    InvalidDimensions,
    /// Rental period has not expired yet.
    RentalNotExpired,
    /// Invalid rental duration.
    InvalidRentalDuration,
    /// Invalid price.
    InvalidPrice,
}

/// A plot together with what it offers for sale and for rent.
#[derive(Clone, Copy, Debug, PartialEq, Eq, Structural)]
pub struct LandPlot {
    pub owner: Address,
    pub start_x: u64,
    pub start_y: u64,
    pub width: u64,
    pub height: u64,
    pub is_for_sale: bool,
    pub is_for_rent: bool,
    pub price_per_unit: u64,
    pub sale_start_x: u64,
    pub sale_start_y: u64,
    pub sale_width: u64,
    pub sale_height: u64,
    pub rental_price: u64,
    pub rental_start_x: u64,
    pub rental_start_y: u64,
    pub rental_width: u64,
    pub rental_height: u64,
    pub rental_end_time: i64,
    pub renter: Address,
}

/// The two balances that a payment touches, after the payment.
#[derive(Clone, Copy, Debug, PartialEq, Eq, Structural)]
pub struct Balances {
    pub payer: u64,
    pub payee: u64,
}

/// Seconds in a day.
pub const SECONDS_PER_DAY: i64 = 86400;

impl LandPlot {
    /// The rectangle that the plot covers.
    pub open spec fn rect(self) -> Rectangle {
        Rectangle { x: self.start_x, y: self.start_y, width: self.width, height: self.height }
    }

    /// The part of the plot that is offered for sale.
    pub open spec fn sale_rect(self) -> Rectangle {
        Rectangle {
            x: self.sale_start_x,
            y: self.sale_start_y,
            width: self.sale_width,
            height: self.sale_height,
        }
    }

    /// The part of the plot that is offered for rent.
    pub open spec fn rental_rect(self) -> Rectangle {
        Rectangle {
            x: self.rental_start_x,
            y: self.rental_start_y,
            width: self.rental_width,
            height: self.rental_height,
        }
    }

    /// A plot with every field at zero, owned by nobody.
    pub open spec fn blank() -> LandPlot {
        LandPlot {
            owner: Address::zero(),
            start_x: 0,
            start_y: 0,
            width: 0,
            height: 0,
            is_for_sale: false,
            is_for_rent: false,
            price_per_unit: 0,
            sale_start_x: 0,
            sale_start_y: 0,
            sale_width: 0,
            sale_height: 0,
            rental_price: 0,
            rental_start_x: 0,
            rental_start_y: 0,
            rental_width: 0,
            rental_height: 0,
            rental_end_time: 0,
            renter: Address::zero(),
        }
    }
}

impl Default for LandPlot {
    fn default() -> (p: LandPlot)
        ensures
            p == LandPlot::blank(),
    {
        LandPlot {
            owner: Address::default(),
            start_x: 0,
            start_y: 0,
            width: 0,
            height: 0,
            is_for_sale: false,
            is_for_rent: false,
            price_per_unit: 0,
            sale_start_x: 0,
            sale_start_y: 0,
            sale_width: 0,
            sale_height: 0,
            rental_price: 0,
            rental_start_x: 0,
            rental_start_y: 0,
            rental_width: 0,
            rental_height: 0,
            rental_end_time: 0,
            renter: Address::default(),
        }
    }
}

/// What a payment of `amount` does to the payer's and the payee's balance.
///
/// When both are one account the amount leaves and comes back, so the
/// balance stays as it was, but it must still cover the amount.
pub open spec fn payment_outcome(
    payer: u64,
    payee: u64,
    same_account: bool,
    amount: u64,
) -> Result<Balances, LandError> {
    if payer < amount {
        Err(LandError::InsufficientFunds)
    } else if same_account {
        Ok(Balances { payer, payee: payer })
    } else if payee + amount > u64::MAX {
        Err(LandError::CalculationError)
    } else {
        Ok(Balances { payer: (payer - amount) as u64, payee: (payee + amount) as u64 })
    }
}

/// The number of days as the unsigned factor of a price: a negative count
/// stands for the value that it has when its bits are read as unsigned.
pub open spec fn duration_factor(days: i64) -> int {
    if days >= 0 {
        days as int
    } else {
        days + 0x1_0000_0000_0000_0000
    }
}

/// Moves `amount` from the payer to the payee, on the balances alone.
pub fn settle(payer: u64, payee: u64, same_account: bool, amount: u64) -> (outcome: Result<
    Balances,
    LandError,
>)
    ensures
        outcome == payment_outcome(payer, payee, same_account, amount),
{
    match payer.checked_sub(amount) {
        None => Err(LandError::InsufficientFunds),
        Some(left) => {
            if same_account {
                Ok(Balances { payer, payee: payer })
            } else {
                match payee.checked_add(amount) {
                    None => Err(LandError::CalculationError),
                    Some(grown) => Ok(Balances { payer: left, payee: grown }),
                }
            }
        },
    }
}

/// Records who owns a new plot and which rectangle it covers; the listing
/// fields stay as they were.
pub fn create_land_plot(
    land_plot: &mut LandPlot,
    creator: Address,
    start_x: u64,
    start_y: u64,
    width: u64,
    height: u64,
) -> (done: Result<(), LandError>)
    ensures
        done is Ok,
        *final(land_plot) == (LandPlot {
            owner: creator,
            start_x,
            start_y,
            width,
            height,
            ..*old(land_plot)
        }),
{
    land_plot.owner = creator;
    land_plot.start_x = start_x;
    land_plot.start_y = start_y;
    land_plot.width = width;
    land_plot.height = height;
    Ok(())
}

/// The reason for which a sale listing is refused, if any: the caller is
/// not the owner, the offered rectangle leaves the plot, or the plot is
/// listed for rent.
pub open spec fn sale_listing_refusal(plot: LandPlot, caller: Address, offered: Rectangle) -> Option<
    LandError,
> {
    if plot.owner != caller {
        Some(LandError::NotOwner)
    } else if !plot.rect().contains_rect(offered) {
        Some(LandError::InvalidDimensions)
    } else if plot.is_for_rent {
        Some(LandError::AlreadyRented)
    } else {
        None
    }
}

/// Offers the rectangle `(start_x, start_y, width, height)` of the plot for
/// sale at `price_per_unit`.
pub fn list_for_sale(
    land_plot: &mut LandPlot,
    owner: Address,
    start_x: u64,
    start_y: u64,
    width: u64,
    height: u64,
    price_per_unit: u64,
) -> (done: Result<(), LandError>)
    ensures
        match sale_listing_refusal(*old(land_plot), owner, Rectangle { x: start_x, y: start_y, width, height }) {
            Some(e) => done == Err::<(), LandError>(e) && *final(land_plot) == *old(land_plot),
            None => done is Ok && *final(land_plot) == (LandPlot {
                is_for_sale: true,
                sale_start_x: start_x,
                sale_start_y: start_y,
                sale_width: width,
                sale_height: height,
                price_per_unit,
                ..*old(land_plot)
            }),
        },
{
    if land_plot.owner != owner {
        return Err(LandError::NotOwner);
    }
    let whole = Rectangle {
        x: land_plot.start_x,
        y: land_plot.start_y,
        width: land_plot.width,
        height: land_plot.height,
    };
    if !rectangle_within(&whole, start_x, start_y, width, height) {
        return Err(LandError::InvalidDimensions);
    }
    if land_plot.is_for_rent {
        return Err(LandError::AlreadyRented);
    }
    land_plot.is_for_sale = true;
    land_plot.sale_start_x = start_x;
    land_plot.sale_start_y = start_y;
    land_plot.sale_width = width;
    land_plot.sale_height = height;
    land_plot.price_per_unit = price_per_unit;
    Ok(())
}

/// Withdraws the sale listing. Only the owner may do so.
pub fn remove_from_sale(land_plot: &mut LandPlot, owner: Address) -> (done: Result<(), LandError>)
    ensures
        old(land_plot).owner != owner ==> done == Err::<(), LandError>(LandError::NotOwner)
            && *final(land_plot) == *old(land_plot),
        old(land_plot).owner == owner ==> done is Ok && *final(land_plot) == (LandPlot {
            is_for_sale: false,
            price_per_unit: 0,
            sale_width: 0,
            sale_height: 0,
            ..*old(land_plot)
        }),
{
    if land_plot.owner != owner {
        return Err(LandError::NotOwner);
    }
    land_plot.is_for_sale = false;
    land_plot.price_per_unit = 0;
    land_plot.sale_width = 0;
    land_plot.sale_height = 0;
    Ok(())
}

/// The reason for which a rental listing is refused, if any: the caller is
/// not the owner, the offered rectangle leaves the plot, or the plot is
/// listed for sale.
pub open spec fn rental_listing_refusal(
    plot: LandPlot,
    caller: Address,
    offered: Rectangle,
) -> Option<LandError> {
    if plot.owner != caller {
        Some(LandError::NotOwner)
    } else if !plot.rect().contains_rect(offered) {
        Some(LandError::InvalidDimensions)
    } else if plot.is_for_sale {
        Some(LandError::CurrentlyForSale)
    } else {
        None
    }
}

/// Offers the rectangle `(start_x, start_y, width, height)` of the plot for
/// rent at `rental_price` per unit and day.
pub fn list_for_rent(
    land_plot: &mut LandPlot,
    owner: Address,
    start_x: u64,
    start_y: u64,
    width: u64,
    height: u64,
    rental_price: u64,
) -> (done: Result<(), LandError>)
    ensures
        match rental_listing_refusal(*old(land_plot), owner, Rectangle { x: start_x, y: start_y, width, height }) {
            Some(e) => done == Err::<(), LandError>(e) && *final(land_plot) == *old(land_plot),
            None => done is Ok && *final(land_plot) == (LandPlot {
                is_for_rent: true,
                rental_start_x: start_x,
                rental_start_y: start_y,
                rental_width: width,
                rental_height: height,
                rental_price,
                ..*old(land_plot)
            }),
        },
{
    if land_plot.owner != owner {
        return Err(LandError::NotOwner);
    }
    let whole = Rectangle {
        x: land_plot.start_x,
        y: land_plot.start_y,
        width: land_plot.width,
        height: land_plot.height,
    };
    if !rectangle_within(&whole, start_x, start_y, width, height) {
        return Err(LandError::InvalidDimensions);
    }
    if land_plot.is_for_sale {
        return Err(LandError::CurrentlyForSale);
    }
    land_plot.is_for_rent = true;
    land_plot.rental_start_x = start_x;
    land_plot.rental_start_y = start_y;
    land_plot.rental_width = width;
    land_plot.rental_height = height;
    land_plot.rental_price = rental_price;
    Ok(())
}

/// Withdraws the rental listing and forgets the renter. Only the owner may
/// do so.
pub fn remove_from_rent(land_plot: &mut LandPlot, owner: Address) -> (done: Result<(), LandError>)
    ensures
        old(land_plot).owner != owner ==> done == Err::<(), LandError>(LandError::NotOwner)
            && *final(land_plot) == *old(land_plot),
        old(land_plot).owner == owner ==> done is Ok && *final(land_plot) == (LandPlot {
            is_for_rent: false,
            rental_price: 0,
            rental_width: 0,
            rental_height: 0,
            rental_end_time: 0,
            renter: Address::zero(),
            ..*old(land_plot)
        }),
{
    if land_plot.owner != owner {
        return Err(LandError::NotOwner);
    }
    land_plot.is_for_rent = false;
    land_plot.rental_price = 0;
    land_plot.rental_width = 0;
    land_plot.rental_height = 0;
    land_plot.rental_end_time = 0;
    land_plot.renter = Address::default();
    Ok(())
}

/// What a purchase of `bought` out of `listing` comes to: the buyer's and
/// the seller's balance afterwards, or the reason for which it is refused.
///
/// The checks come in this order: the payee must be the plot's owner, the
/// plot must be for sale, the bought rectangle must lie in the offered one,
/// the price must fit in a `u64`, and the payment must go through.
pub open spec fn purchase_outcome(
    listing: LandPlot,
    buyer: Address,
    buyer_lamports: u64,
    current_owner: Address,
    owner_lamports: u64,
    bought: Rectangle,
) -> Result<Balances, LandError> {
    if current_owner != listing.owner {
        Err(LandError::InvalidOwner)
    } else if !listing.is_for_sale {
        Err(LandError::NotForSale)
    } else if !listing.sale_rect().contains_rect(bought) {
        Err(LandError::InvalidDimensions)
    } else {
        match area_price(listing.price_per_unit, bought.width, bought.height) {
            None => Err(LandError::CalculationError),
            Some(price) => payment_outcome(
                buyer_lamports,
                owner_lamports,
                buyer == current_owner,
                price as u64,
            ),
        }
    }
}

/// Sells the rectangle `(purchase_start_x, purchase_start_y, purchase_width,
/// purchase_height)` out of what `original_plot` offers.
///
/// The price is the unit price times width times height. On success the
/// new plot belongs to the buyer and covers the bought rectangle, and the
/// balances after the payment are returned. On failure nothing changes.
pub fn buy_land(
    original_plot: &LandPlot,
    new_plot: &mut LandPlot,
    buyer: Address,
    buyer_lamports: u64,
    current_owner: Address,
    owner_lamports: u64,
    purchase_start_x: u64,
    purchase_start_y: u64,
    purchase_width: u64,
    purchase_height: u64,
) -> (paid: Result<Balances, LandError>)
    ensures
        paid == purchase_outcome(
            *original_plot,
            buyer,
            buyer_lamports,
            current_owner,
            owner_lamports,
            Rectangle {
                x: purchase_start_x,
                y: purchase_start_y,
                width: purchase_width,
                height: purchase_height,
            },
        ),
        paid is Err ==> *final(new_plot) == *old(new_plot),
        paid is Ok ==> *final(new_plot) == (LandPlot {
            owner: buyer,
            start_x: purchase_start_x,
            start_y: purchase_start_y,
            width: purchase_width,
            height: purchase_height,
            is_for_sale: false,
            is_for_rent: false,
            ..*old(new_plot)
        }),
{
    if current_owner != original_plot.owner {
        return Err(LandError::InvalidOwner);
    }
    if !original_plot.is_for_sale {
        return Err(LandError::NotForSale);
    }
    let offered = Rectangle {
        x: original_plot.sale_start_x,
        y: original_plot.sale_start_y,
        width: original_plot.sale_width,
        height: original_plot.sale_height,
    };
    if !rectangle_within(
        &offered,
        purchase_start_x,
        purchase_start_y,
        purchase_width,
        purchase_height,
    ) {
        return Err(LandError::InvalidDimensions);
    }
    let total_price = match price_of_area(original_plot.price_per_unit, purchase_width, purchase_height) {
        None => {
            return Err(LandError::CalculationError);
        },
        Some(p) => p,
    };
    let balances = settle(buyer_lamports, owner_lamports, buyer == current_owner, total_price)?;
    new_plot.owner = buyer;
    new_plot.start_x = purchase_start_x;
    new_plot.start_y = purchase_start_y;
    new_plot.width = purchase_width;
    new_plot.height = purchase_height;
    new_plot.is_for_sale = false;
    new_plot.is_for_rent = false;
    Ok(balances)
}

/// What renting `rented` out of `listing` for `days` days from `now` comes
/// to: the renter's and the owner's balance afterwards, or the reason for
/// which it is refused.
///
/// The checks come in this order: the payee must be the plot's owner, the
/// plot must be for rent and not for sale, the rented rectangle must lie in
/// the offered one, the price must fit in a `u64`, the payment must go
/// through, and the end of the rental must be a time that an `i64` holds.
pub open spec fn rental_outcome(
    listing: LandPlot,
    renter: Address,
    renter_lamports: u64,
    owner: Address,
    owner_lamports: u64,
    rented: Rectangle,
    days: i64,
    now: i64,
) -> Result<Balances, LandError> {
    if owner != listing.owner {
        Err(LandError::InvalidOwner)
    } else if !listing.is_for_rent {
        Err(LandError::NotForRent)
    } else if listing.is_for_sale {
        Err(LandError::CurrentlyForSale)
    } else if !listing.rental_rect().contains_rect(rented) {
        Err(LandError::InvalidDimensions)
    } else {
        match checked_times(
            area_price(listing.rental_price, rented.width, rented.height),
            duration_factor(days) as u64,
        ) {
            None => Err(LandError::CalculationError),
            Some(price) => match payment_outcome(
                renter_lamports,
                owner_lamports,
                renter == owner,
                price as u64,
            ) {
                Err(e) => Err(e),
                Ok(balances) => if rental_end(days, now) is Some {
                    Ok(balances)
                } else {
                    Err(LandError::CalculationError)
                },
            },
        }
    }
}

/// The time at which a rental of `days` days that starts at `now` ends, or
/// `None` where the span in seconds, or the end itself, is no time that an
/// `i64` holds.
pub open spec fn rental_end(days: i64, now: i64) -> Option<int> {
    let span = days * SECONDS_PER_DAY;
    if i64::MIN <= span <= i64::MAX && i64::MIN <= now + span <= i64::MAX {
        Some(now + span)
    } else {
        None
    }
}

/// The day count as the unsigned factor of the rental price.
fn unsigned_days(days: i64) -> (factor: u64)
    ensures
        factor == duration_factor(days),
{
    if days >= 0 {
        days as u64
    } else {
        u64::MAX - ((-(days + 1)) as u64)
    }
}

/// Rents the rectangle `(rental_start_x, rental_start_y, rental_width,
/// rental_height)` out of what the plot offers, for `rental_duration_days`
/// days from `now`.
///
/// The price is the rental price times width times height times days. On
/// success the plot records the renter and the end of the rental and
/// leaves the rental listing while it is rented. On failure nothing
/// changes.
pub fn rent_land(
    land_plot: &mut LandPlot,
    renter: Address,
    renter_lamports: u64,
    owner: Address,
    owner_lamports: u64,
    rental_start_x: u64,
    rental_start_y: u64,
    rental_width: u64,
    rental_height: u64,
    rental_duration_days: i64,
    now: i64,
) -> (paid: Result<Balances, LandError>)
    ensures
        paid == rental_outcome(
            *old(land_plot),
            renter,
            renter_lamports,
            owner,
            owner_lamports,
            Rectangle {
                x: rental_start_x,
                y: rental_start_y,
                width: rental_width,
                height: rental_height,
            },
            rental_duration_days,
            now,
        ),
        paid is Err ==> *final(land_plot) == *old(land_plot),
        paid is Ok ==> *final(land_plot) == (LandPlot {
            renter,
            rental_end_time: rental_end(rental_duration_days, now).unwrap() as i64,
            is_for_rent: false,
            ..*old(land_plot)
        }),
{
    if owner != land_plot.owner {
        return Err(LandError::InvalidOwner);
    }
    if !land_plot.is_for_rent {
        return Err(LandError::NotForRent);
    }
    if land_plot.is_for_sale {
        return Err(LandError::CurrentlyForSale);
    }
    let offered = Rectangle {
        x: land_plot.rental_start_x,
        y: land_plot.rental_start_y,
        width: land_plot.rental_width,
        height: land_plot.rental_height,
    };
    if !rectangle_within(&offered, rental_start_x, rental_start_y, rental_width, rental_height) {
        return Err(LandError::InvalidDimensions);
    }
    let per_day = match price_of_area(land_plot.rental_price, rental_width, rental_height) {
        None => {
            return Err(LandError::CalculationError);
        },
        Some(p) => p,
    };
    let total_rental_price = match per_day.checked_mul(unsigned_days(rental_duration_days)) {
        None => {
            return Err(LandError::CalculationError);
        },
        Some(p) => p,
    };
    let balances = settle(renter_lamports, owner_lamports, renter == owner, total_rental_price)?;
    let end = match rental_duration_days.checked_mul(SECONDS_PER_DAY) {
        None => None,
        Some(span) => now.checked_add(span),
    };
    match end {
        None => Err(LandError::CalculationError),
        Some(end_time) => {
            land_plot.renter = renter;
            land_plot.rental_end_time = end_time;
            land_plot.is_for_rent = false;
            Ok(balances)
        },
    }
}

/// Ends a rental whose time has come: the renter is forgotten and the plot
/// is offered for rent again. Before the end time it is refused.
pub fn end_rental(land_plot: &mut LandPlot, now: i64) -> (done: Result<(), LandError>)
    ensures
        now < old(land_plot).rental_end_time ==> done == Err::<(), LandError>(
            LandError::RentalNotExpired,
        ) && *final(land_plot) == *old(land_plot),
        now >= old(land_plot).rental_end_time ==> done is Ok && *final(land_plot) == (LandPlot {
            renter: Address::zero(),
            rental_end_time: 0,
            is_for_rent: true,
            ..*old(land_plot)
        }),
{
    if now < land_plot.rental_end_time {
        return Err(LandError::RentalNotExpired);
    }
    land_plot.renter = Address::default();
    land_plot.rental_end_time = 0;
    land_plot.is_for_rent = true;
    Ok(())
}

} // verus!
