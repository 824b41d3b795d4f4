//! Store pricing: a tiered volume discount on the sticker price, then a
//! category tax on the discounted price.
//!
//! Amounts are exact fixed-point numbers: one currency unit is
//! `UNITS_PER_CURRENCY` units. With that scale every sticker price that is a
//! whole number of cents is discounted and taxed without any rounding.
use vstd::prelude::*;

verus! {

/// Number of units in one currency unit (seven decimal places).
pub const UNITS_PER_CURRENCY: u64 = 10_000_000;

/// Number of units in one cent.
pub const UNITS_PER_CENT: u64 = 100_000;

/// Sticker price from which the ten-percent discount applies (100.00).
pub const TEN_PERCENT_OFF_FLOOR: u64 = 1_000_000_000;

/// Sticker price from which the fifteen-percent discount applies (1000.00).
pub const FIFTEEN_PERCENT_OFF_FLOOR: u64 = 10_000_000_000;

/// Sales tax, in tenths of a percent (7.5%).
pub const SALES_TAX_PERMILLE: u64 = 75;

/// Sin tax on alcohol, in tenths of a percent (8%).
pub const SIN_TAX_PERMILLE: u64 = 80;

/// Category of merchandise; it decides the tax, and alcohol gets no discount.
#[derive(PartialEq, Eq, Structural, Clone, Copy, Debug)]
pub enum ProductType {
    Other,
    Food,
    Alcohol,
}

/// A purchased item: its price in units and its category. A charge can exceed
/// the largest price by the tax, so charges are `u128`.
#[derive(Clone, Copy, Debug)]
pub struct Item {
    pub price: u64,
    pub product_type: ProductType,
}

/// Discount in percent that an item with sticker price `price` gets.
pub open spec fn discount_percent(price: int, product_type: ProductType) -> int {
    if product_type == ProductType::Alcohol {
        0
    } else if price >= FIFTEEN_PERCENT_OFF_FLOOR {
        15
    } else if price >= TEN_PERCENT_OFF_FLOOR {
        10
    } else {
        0
    }
}

/// Tax in tenths of a percent for a category.
pub open spec fn tax_permille(product_type: ProductType) -> int {
    match product_type {
        ProductType::Food => 0,
        ProductType::Alcohol => SALES_TAX_PERMILLE + SIN_TAX_PERMILLE,
        ProductType::Other => SALES_TAX_PERMILLE as int,
    }
}

/// The sticker price after its discount, rounded down to a whole unit.
pub open spec fn discounted_price(price: int, product_type: ProductType) -> int {
    price * (100 - discount_percent(price, product_type)) / 100
}

/// An amount with its category's tax added, rounded down to a whole unit.
pub open spec fn taxed_price(price: int, product_type: ProductType) -> int {
    price * (1000 + tax_permille(product_type)) / 1000
}

/// What the customer pays: discount on the sticker price, then tax on the
/// discounted price.
pub open spec fn charge(price: int, product_type: ProductType) -> int {
    taxed_price(discounted_price(price, product_type), product_type)
}

/// What the customer would pay if tax came first and the discount tier were
/// chosen by the taxed price.
pub open spec fn charge_tax_first(price: int, product_type: ProductType) -> int {
    discounted_price(taxed_price(price, product_type), product_type)
}

/// Applies the volume discount to the sticker price of `item`.
pub fn discount(item: Item) -> (r: Item)
    ensures
        r.product_type == item.product_type,
        r.price == discounted_price(item.price as int, item.product_type),
{
    let percent: u64 = if item.product_type == ProductType::Alcohol {
        0
    } else if item.price >= FIFTEEN_PERCENT_OFF_FLOOR {
        15
    } else if item.price >= TEN_PERCENT_OFF_FLOOR {
        10
    } else {
        0
    };
    assert(item.price as u128 * (100 - percent) as u128 <= u64::MAX as u128 * 100) by (nonlinear_arith)
        requires
            percent <= 100,
    ;
    let scaled: u128 = item.price as u128 * (100 - percent) as u128;
    let discounted: u128 = scaled / 100;
    assert(discounted <= item.price) by (nonlinear_arith)
        requires
            scaled == item.price as u128 * (100 - percent) as u128,
            discounted == scaled / 100,
            percent <= 100,
    ;
    Item { price: discounted as u64, product_type: item.product_type }
}

/// Adds the tax of its category to the price of `item`.
pub fn calculate_tax(item: &Item) -> (r: u128)
    ensures
        r == taxed_price(item.price as int, item.product_type),
{
    let permille: u64 = match item.product_type {
        ProductType::Food => 0,
        ProductType::Alcohol => SALES_TAX_PERMILLE + SIN_TAX_PERMILLE,
        ProductType::Other => SALES_TAX_PERMILLE,
    };
    assert(item.price as u128 * (1000 + permille) as u128 <= u64::MAX as u128 * 1155) by (nonlinear_arith)
        requires
            permille <= 155,
    ;
    let scaled: u128 = item.price as u128 * (1000 + permille) as u128;
    scaled / 1000
}

/// The amount the customer is charged for `item`.
pub fn pricing(item: Item) -> (r: u128)
    ensures
        r == charge(item.price as int, item.product_type),
{
    calculate_tax(&discount(item))
}

/// From 1000.00 up, a sticker price in whole cents of an item that is not
/// alcohol is charged exactly `price * 0.85 * (1 + tax)`: fifteen percent
/// off, then its category's tax, with nothing lost to rounding.
pub proof fn lemma_fifteen_percent_tier(price: int, product_type: ProductType)
    requires
        price >= FIFTEEN_PERCENT_OFF_FLOOR,
        price % (UNITS_PER_CENT as int) == 0,
        product_type != ProductType::Alcohol,
    ensures
        charge(price, product_type) * 100_000 == price * 85 * (1000 + tax_permille(product_type)),
{
    let cents = price / (UNITS_PER_CENT as int);
    let t = tax_permille(product_type);
    assert(price == cents * 100_000);
    assert(price * 85 == (cents * 85_000) * 100) by (nonlinear_arith)
        requires
            price == cents * 100_000,
    ;
    assert(discounted_price(price, product_type) == cents * 85_000);
    assert((cents * 85_000) * (1000 + t) == (cents * 85 * (1000 + t)) * 1000) by (nonlinear_arith);
    assert(charge(price, product_type) == cents * 85 * (1000 + t));
    assert(cents * 85 * (1000 + t) * 100_000 == price * 85 * (1000 + t)) by (nonlinear_arith)
        requires
            price == cents * 100_000,
    ;
}

/// Taxes are computed on the discounted price, and the order matters: an
/// item of the `Other` category whose sticker price is under 1000.00 but whose
/// taxed sticker price reaches 1000.00 would be charged a different amount if
/// the tax came first.
pub proof fn lemma_tax_after_discount(price: int)
    requires
        TEN_PERCENT_OFF_FLOOR <= price < FIFTEEN_PERCENT_OFF_FLOOR,
        taxed_price(price, ProductType::Other) >= FIFTEEN_PERCENT_OFF_FLOOR,
    ensures
        charge(price, ProductType::Other) != charge_tax_first(price, ProductType::Other),
{
    let d = price * 90 / 100;
    let c1 = d * 1075 / 1000;
    let q = price * 1075 / 1000;
    let c2 = q * 85 / 100;
    assert(discounted_price(price, ProductType::Other) == d);
    assert(charge(price, ProductType::Other) == c1);
    assert(taxed_price(price, ProductType::Other) == q);
    assert(charge_tax_first(price, ProductType::Other) == c2);
    assert(100 * d > price * 90 - 100);
    assert(1000 * c1 > d * 1075 - 1000);
    assert(1000 * q <= price * 1075);
    assert(100 * c2 <= q * 85);
    assert(c1 > c2) by (nonlinear_arith)
        requires
            100 * d > price * 90 - 100,
            1000 * c1 > d * 1075 - 1000,
            1000 * q <= price * 1075,
            100 * c2 <= q * 85,
            price >= 1_000_000_000,
    ;
}

} // verus!
