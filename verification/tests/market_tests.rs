use gtopia::address::Address;
use gtopia::market::{
    buy_land, create_land_plot, end_rental, list_for_rent, list_for_sale, remove_from_rent,
    remove_from_sale, rent_land, settle, Balances, LandError, LandPlot,
};

fn seller() -> Address {
    Address::new(0, 1)
}

fn buyer() -> Address {
    Address::new(0, 2)
}

fn owned_plot() -> LandPlot {
    let mut plot = LandPlot::default();
    create_land_plot(&mut plot, seller(), 10, 20, 30, 40).unwrap();
    plot
}

fn plot_for_sale() -> LandPlot {
    let mut plot = owned_plot();
    list_for_sale(&mut plot, seller(), 10, 20, 30, 40, 7).unwrap();
    plot
}

fn plot_for_rent() -> LandPlot {
    let mut plot = owned_plot();
    list_for_rent(&mut plot, seller(), 10, 20, 30, 40, 3).unwrap();
    plot
}

#[test]
fn default_plot_is_blank() {
    let plot = LandPlot::default();
    assert_eq!(plot.owner, Address::default());
    assert_eq!(plot.owner, Address::new(0, 0));
    assert_eq!((plot.start_x, plot.start_y, plot.width, plot.height), (0, 0, 0, 0));
    assert!(!plot.is_for_sale && !plot.is_for_rent);
    assert_eq!(plot.rental_end_time, 0);
}

#[test]
fn create_sets_owner_and_rectangle_only() {
    let mut plot = LandPlot::default();
    plot.rental_price = 99;
    assert_eq!(create_land_plot(&mut plot, seller(), 1, 2, 3, 4), Ok(()));
    let mut expected = LandPlot::default();
    expected.rental_price = 99;
    expected.owner = seller();
    expected.start_x = 1;
    expected.start_y = 2;
    expected.width = 3;
    expected.height = 4;
    assert_eq!(plot, expected);
}

#[test]
fn list_for_sale_records_the_offer() {
    let mut plot = owned_plot();
    assert_eq!(list_for_sale(&mut plot, seller(), 15, 25, 5, 5, 7), Ok(()));
    let mut expected = owned_plot();
    expected.is_for_sale = true;
    expected.sale_start_x = 15;
    expected.sale_start_y = 25;
    expected.sale_width = 5;
    expected.sale_height = 5;
    expected.price_per_unit = 7;
    assert_eq!(plot, expected);
}

#[test]
fn list_for_sale_by_a_stranger_is_refused() {
    let mut plot = owned_plot();
    assert_eq!(list_for_sale(&mut plot, buyer(), 15, 25, 5, 5, 7), Err(LandError::NotOwner));
    assert_eq!(plot, owned_plot());
}

#[test]
fn list_for_sale_outside_the_plot_is_refused() {
    let mut plot = owned_plot();
    assert_eq!(
        list_for_sale(&mut plot, seller(), 15, 25, 26, 5, 7),
        Err(LandError::InvalidDimensions)
    );
    assert_eq!(
        list_for_sale(&mut plot, seller(), 9, 25, 5, 5, 7),
        Err(LandError::InvalidDimensions)
    );
    assert_eq!(
        list_for_sale(&mut plot, seller(), u64::MAX, 25, 5, 5, 7),
        Err(LandError::InvalidDimensions)
    );
    assert_eq!(plot, owned_plot());
}

#[test]
fn list_for_sale_while_for_rent_is_refused() {
    let mut plot = plot_for_rent();
    assert_eq!(
        list_for_sale(&mut plot, seller(), 15, 25, 5, 5, 7),
        Err(LandError::AlreadyRented)
    );
    assert_eq!(plot, plot_for_rent());
}

#[test]
fn list_for_rent_while_for_sale_is_refused() {
    let mut plot = plot_for_sale();
    assert_eq!(
        list_for_rent(&mut plot, seller(), 15, 25, 5, 5, 7),
        Err(LandError::CurrentlyForSale)
    );
    assert_eq!(plot, plot_for_sale());
}

#[test]
fn list_for_rent_records_the_offer() {
    let mut plot = owned_plot();
    assert_eq!(list_for_rent(&mut plot, seller(), 10, 20, 30, 40, 3), Ok(()));
    assert!(plot.is_for_rent);
    assert_eq!(
        (plot.rental_start_x, plot.rental_start_y, plot.rental_width, plot.rental_height),
        (10, 20, 30, 40)
    );
    assert_eq!(plot.rental_price, 3);
    assert_eq!(
        list_for_rent(&mut plot, buyer(), 10, 20, 30, 40, 3),
        Err(LandError::NotOwner)
    );
    assert_eq!(
        list_for_rent(&mut plot, seller(), 10, 20, 31, 40, 3),
        Err(LandError::InvalidDimensions)
    );
}

#[test]
fn remove_from_sale_clears_price_and_extent() {
    let mut plot = plot_for_sale();
    assert_eq!(remove_from_sale(&mut plot, buyer()), Err(LandError::NotOwner));
    assert_eq!(plot, plot_for_sale());
    assert_eq!(remove_from_sale(&mut plot, seller()), Ok(()));
    let mut expected = plot_for_sale();
    expected.is_for_sale = false;
    expected.price_per_unit = 0;
    expected.sale_width = 0;
    expected.sale_height = 0;
    assert_eq!(plot, expected);
    assert_eq!(plot.sale_start_x, 10);
}

#[test]
fn remove_from_rent_clears_the_rental() {
    let mut plot = plot_for_rent();
    plot.renter = buyer();
    plot.rental_end_time = 77;
    assert_eq!(remove_from_rent(&mut plot, buyer()), Err(LandError::NotOwner));
    assert_eq!(remove_from_rent(&mut plot, seller()), Ok(()));
    let mut expected = plot_for_rent();
    expected.is_for_rent = false;
    expected.rental_price = 0;
    expected.rental_width = 0;
    expected.rental_height = 0;
    expected.rental_end_time = 0;
    expected.renter = Address::default();
    assert_eq!(plot, expected);
}

#[test]
fn settle_moves_the_amount() {
    assert_eq!(settle(100, 5, false, 30), Ok(Balances { payer: 70, payee: 35 }));
    assert_eq!(settle(100, 5, false, 100), Ok(Balances { payer: 0, payee: 105 }));
    assert_eq!(settle(100, 5, false, 101), Err(LandError::InsufficientFunds));
    assert_eq!(settle(100, u64::MAX - 29, false, 30), Err(LandError::CalculationError));
    assert_eq!(settle(100, u64::MAX - 30, false, 30), Ok(Balances { payer: 70, payee: u64::MAX }));
}

#[test]
fn settle_within_one_account_keeps_the_balance() {
    assert_eq!(settle(100, 0, true, 30), Ok(Balances { payer: 100, payee: 100 }));
    assert_eq!(settle(100, 0, true, 101), Err(LandError::InsufficientFunds));
    assert_eq!(settle(u64::MAX, 0, true, u64::MAX), Ok(Balances { payer: u64::MAX, payee: u64::MAX }));
}

#[test]
fn buy_land_charges_price_times_area() {
    let listing = plot_for_sale();
    let mut new_plot = LandPlot::default();
    let paid = buy_land(&listing, &mut new_plot, buyer(), 10_000, seller(), 50, 12, 22, 5, 6);
    assert_eq!(paid, Ok(Balances { payer: 10_000 - 7 * 5 * 6, payee: 50 + 7 * 5 * 6 }));
    let mut expected = LandPlot::default();
    expected.owner = buyer();
    expected.start_x = 12;
    expected.start_y = 22;
    expected.width = 5;
    expected.height = 6;
    assert_eq!(new_plot, expected);
    assert_eq!(listing, plot_for_sale());
}

#[test]
fn buy_land_checks_come_in_order() {
    let listing = plot_for_sale();
    let mut new_plot = LandPlot::default();
    assert_eq!(
        buy_land(&owned_plot(), &mut new_plot, buyer(), 10_000, buyer(), 50, 12, 22, 5, 6),
        Err(LandError::InvalidOwner)
    );
    assert_eq!(
        buy_land(&owned_plot(), &mut new_plot, buyer(), 10_000, seller(), 50, 12, 22, 5, 6),
        Err(LandError::NotForSale)
    );
    assert_eq!(
        buy_land(&listing, &mut new_plot, buyer(), 10_000, seller(), 50, 12, 22, 29, 6),
        Err(LandError::InvalidDimensions)
    );
    assert_eq!(
        buy_land(&listing, &mut new_plot, buyer(), 209, seller(), 50, 12, 22, 5, 6),
        Err(LandError::InsufficientFunds)
    );
    assert_eq!(
        buy_land(&listing, &mut new_plot, buyer(), 10_000, seller(), u64::MAX, 12, 22, 5, 6),
        Err(LandError::CalculationError)
    );
    assert_eq!(new_plot, LandPlot::default());
}

#[test]
fn buy_land_fails_when_the_price_overflows() {
    let mut listing = LandPlot::default();
    create_land_plot(&mut listing, seller(), 0, 0, u64::MAX, u64::MAX).unwrap();
    list_for_sale(&mut listing, seller(), 0, 0, u64::MAX, u64::MAX, 1 << 40).unwrap();
    let mut new_plot = LandPlot::default();
    assert_eq!(
        buy_land(&listing, &mut new_plot, buyer(), u64::MAX, seller(), 0, 0, 0, 1 << 30, 0),
        Err(LandError::CalculationError)
    );
    assert_eq!(
        buy_land(&listing, &mut new_plot, buyer(), u64::MAX, seller(), 0, 0, 0, 1 << 12, 1 << 12),
        Err(LandError::CalculationError)
    );
    assert_eq!(
        buy_land(&listing, &mut new_plot, buyer(), u64::MAX, seller(), 0, 0, 0, 1 << 12, 1 << 11),
        Ok(Balances { payer: u64::MAX - (1 << 63), payee: 1 << 63 })
    );
}

#[test]
fn buying_from_oneself_keeps_the_balance() {
    let listing = plot_for_sale();
    let mut new_plot = LandPlot::default();
    assert_eq!(
        buy_land(&listing, &mut new_plot, seller(), 500, seller(), 500, 12, 22, 5, 6),
        Ok(Balances { payer: 500, payee: 500 })
    );
    assert_eq!(new_plot.owner, seller());
}

#[test]
fn rent_land_charges_price_times_area_times_days() {
    let mut plot = plot_for_rent();
    let paid = rent_land(&mut plot, buyer(), 10_000, seller(), 0, 10, 20, 4, 5, 7, 1_000_000);
    assert_eq!(paid, Ok(Balances { payer: 10_000 - 3 * 4 * 5 * 7, payee: 3 * 4 * 5 * 7 }));
    let mut expected = plot_for_rent();
    expected.renter = buyer();
    expected.rental_end_time = 1_000_000 + 7 * 86400;
    expected.is_for_rent = false;
    assert_eq!(plot, expected);
}

#[test]
fn rent_land_checks_come_in_order() {
    let mut plot = plot_for_rent();
    assert_eq!(
        rent_land(&mut plot, buyer(), 10_000, buyer(), 0, 10, 20, 4, 5, 7, 0),
        Err(LandError::InvalidOwner)
    );
    let mut idle = owned_plot();
    assert_eq!(
        rent_land(&mut idle, buyer(), 10_000, seller(), 0, 10, 20, 4, 5, 7, 0),
        Err(LandError::NotForRent)
    );
    let mut both = plot_for_rent();
    both.is_for_sale = true;
    assert_eq!(
        rent_land(&mut both, buyer(), 10_000, seller(), 0, 10, 20, 4, 5, 7, 0),
        Err(LandError::CurrentlyForSale)
    );
    assert_eq!(
        rent_land(&mut plot, buyer(), 10_000, seller(), 0, 10, 20, 31, 5, 7, 0),
        Err(LandError::InvalidDimensions)
    );
    assert_eq!(
        rent_land(&mut plot, buyer(), 419, seller(), 0, 10, 20, 4, 5, 7, 0),
        Err(LandError::InsufficientFunds)
    );
    assert_eq!(
        rent_land(&mut plot, buyer(), 10_000, seller(), 0, 10, 20, 4, 5, 7, i64::MAX),
        Err(LandError::CalculationError)
    );
    assert_eq!(plot, plot_for_rent());
}

#[test]
fn rent_land_for_negative_days() {
    // A negative count of days is read as a very large number of days.
    let mut plot = plot_for_rent();
    assert_eq!(
        rent_land(&mut plot, buyer(), 10_000, seller(), 0, 10, 20, 4, 5, -1, 1_000_000),
        Err(LandError::CalculationError)
    );
    assert_eq!(plot, plot_for_rent());
    // With an empty rectangle the price is zero whatever the days are.
    assert_eq!(
        rent_land(&mut plot, buyer(), 10_000, seller(), 5, 10, 20, 0, 5, -1, 1_000_000),
        Ok(Balances { payer: 10_000, payee: 5 })
    );
    assert_eq!(plot.rental_end_time, 1_000_000 - 86400);
    assert_eq!(plot.renter, buyer());
}

#[test]
fn end_rental_waits_for_the_end_time() {
    let mut plot = plot_for_rent();
    rent_land(&mut plot, buyer(), 10_000, seller(), 0, 10, 20, 4, 5, 7, 1_000_000).unwrap();
    let rented = plot;
    assert_eq!(end_rental(&mut plot, 1_000_000 + 7 * 86400 - 1), Err(LandError::RentalNotExpired));
    assert_eq!(plot, rented);
    assert_eq!(end_rental(&mut plot, 1_000_000 + 7 * 86400), Ok(()));
    let mut expected = rented;
    expected.renter = Address::default();
    expected.rental_end_time = 0;
    expected.is_for_rent = true;
    assert_eq!(plot, expected);
}
