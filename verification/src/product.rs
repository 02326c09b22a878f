//! The record types of the ledger and the payload validation rules.

use vstd::prelude::*;

verus! {

/// The closed set of product categories. `Bakery` is the documented
/// default, used when a caller supplies no category.
#[derive(Clone, Copy, Debug, PartialEq, Eq, Structural)]
pub enum Category {
    Bakery,
    Cake,
    Cookies,
}

impl Default for Category {
    fn default() -> (r: Self)
        ensures
            r == Category::Bakery,
    {
        Category::Bakery
    }
}

/// A single inventory record. `id` and `created_at` are assigned once at
/// creation and never change; `updated_at` is absent until the first
/// successful mutation after creation.
#[derive(Clone, Debug, PartialEq)]
pub struct Product {
    pub id: u64,
    pub name: String,
    pub category: Category,
    pub quantity: u32,
    pub created_at: u64,
    pub updated_at: Option<u64>,
}

impl Product {
    /// An owned copy of the record, equal to the original in every field.
    pub fn duplicate(&self) -> (r: Product)
        ensures
            r == *self,
    {
        Product {
            id: self.id,
            name: self.name.clone(),
            category: self.category,
            quantity: self.quantity,
            created_at: self.created_at,
            updated_at: self.updated_at,
        }
    }
}

/// The caller-supplied fields for creating or fully updating a product.
#[derive(Clone, Debug)]
pub struct ProductPayload {
    pub name: String,
    pub quantity: u32,
    pub category: Category,
}

/// The caller-supplied amount for a stock adjustment.
#[derive(Clone, Copy, Debug)]
pub struct StockPayload {
    pub amount: u32,
}

/// The two failure kinds of every operation. The message is a
/// human-readable diagnostic, not machine-parsed.
#[derive(Debug)]
pub enum Error {
    NotFound { msg: String },
    InvalidOperation { msg: String },
}

/// Whether a string consists of whitespace only (or is empty), i.e.
/// whether trimming leaves nothing.
pub uninterp spec fn spec_is_blank(s: Seq<char>) -> bool;

/// Relies on `str::trim` and `str::is_empty`: trimming removes exactly the
/// leading and trailing whitespace, so the trimmed string is empty precisely
/// when the string holds no non-whitespace character; trimming the empty
/// string leaves it empty.
#[verifier::external_body]
fn is_blank(s: &str) -> (r: bool)
    ensures
        r == spec_is_blank(s@),
        s@.len() == 0 ==> r,
{
    s.trim().is_empty()
}

/// A product payload is valid when its name is not blank after trimming
/// and its quantity is strictly positive.
pub open spec fn payload_valid(p: ProductPayload) -> bool {
    &&& !spec_is_blank(p.name@)
    &&& p.quantity > 0
}

/// A stock payload is valid when its amount is strictly positive.
pub open spec fn stock_valid(p: StockPayload) -> bool {
    p.amount > 0
}

/// Rejects a product payload whose name is empty after trimming, or whose
/// quantity is zero.
pub fn validate_product_payload(payload: &ProductPayload) -> (r: Result<(), Error>)
    ensures
        r is Ok <==> payload_valid(*payload),
        r matches Err(e) ==> e is InvalidOperation,
{
    if is_blank(payload.name.as_str()) {
        Err(Error::InvalidOperation { msg: "Product name cannot be empty.".to_owned() })
    } else if payload.quantity == 0 {
        Err(Error::InvalidOperation { msg: "Product quantity must be greater than zero.".to_owned() })
    } else {
        Ok(())
    }
}

/// Rejects a stock payload whose amount is zero.
pub fn validate_stock_payload(payload: &StockPayload) -> (r: Result<(), Error>)
    ensures
        r is Ok <==> stock_valid(*payload),
        r matches Err(e) ==> e is InvalidOperation,
{
    if payload.amount == 0 {
        Err(Error::InvalidOperation { msg: "Stock amount must be greater than zero.".to_owned() })
    } else {
        Ok(())
    }
}

} // verus!
