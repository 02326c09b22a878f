//! The inventory state: a monotonic id allocator and the product store,
//! held as one owned value and mutated only through the operations below.

use vstd::prelude::*;
use vstd::pervasive::VecAdditionalExecFns;

use crate::product::Category;
use crate::product::Error;
use crate::product::Product;
use crate::product::ProductPayload;
use crate::product::StockPayload;
use crate::product::payload_valid;
use crate::product::spec_is_blank;
use crate::product::stock_valid;
use crate::product::validate_product_payload;
use crate::product::validate_stock_payload;

verus! {

/// Whether the products of `s` are strictly ordered by id (which also
/// makes the ids pairwise distinct).
pub open spec fn sorted_by_id(s: Seq<Product>) -> bool {
    forall|i: int, j: int|
        0 <= i < j < s.len() ==> #[trigger] s[i].id < #[trigger] s[j].id
}

/// Whether some product of `s` carries the id `id`.
pub open spec fn has_id(s: Seq<Product>, id: u64) -> bool {
    exists|i: int| 0 <= i < s.len() && (#[trigger] s[i]).id == id
}

/// The index of the product of `s` that carries `id`; meaningful only when
/// `has_id(s, id)` holds and the ids of `s` are distinct.
pub open spec fn index_of_id(s: Seq<Product>, id: u64) -> int {
    choose|i: int| 0 <= i < s.len() && (#[trigger] s[i]).id == id
}

/// The product of `s` carrying `id`, if any.
pub open spec fn spec_find(s: Seq<Product>, id: u64) -> Option<Product> {
    if has_id(s, id) {
        Some(s[index_of_id(s, id)])
    } else {
        None
    }
}

/// The products of `s` whose category is `category`, in the order they
/// appear in `s`.
pub open spec fn filter_cat(s: Seq<Product>, category: Category) -> Seq<Product>
    decreases s.len(),
{
    if s.len() == 0 {
        Seq::empty()
    } else {
        let rest = filter_cat(s.drop_last(), category);
        if s.last().category == category {
            rest.push(s.last())
        } else {
            rest
        }
    }
}

/// In a strictly id-ordered sequence, at most one index carries a given id.
pub proof fn lemma_id_index_unique(s: Seq<Product>, i: int, j: int)
    requires
        sorted_by_id(s),
        0 <= i < s.len(),
        0 <= j < s.len(),
        s[i].id == s[j].id,
    ensures
        i == j,
{
    if i < j {
        assert(s[i].id < s[j].id);
    } else if j < i {
        assert(s[j].id < s[i].id);
    }
}

/// Stored ids are fresh and unique: every stored id lies strictly below
/// the allocator counter, and two distinct positions never carry the same
/// id. Since `add_product` returns the counter value as the new id and
/// then advances the counter, the ids returned by any sequence of
/// `add_product` calls are strictly increasing and pairwise distinct.
pub proof fn lemma_ids_fresh_and_unique(inv: Inventory, i: int, j: int)
    requires
        inv.wf(),
        0 <= i < inv.products@.len(),
        0 <= j < inv.products@.len(),
        i != j,
    ensures
        inv.products@[i].id < inv.next_id,
        inv.products@[i].id != inv.products@[j].id,
{
    if inv.products@[i].id == inv.products@[j].id {
        lemma_id_index_unique(inv.products@, i, j);
    }
}

/// An id removed from a strictly ordered store is afterwards found by no
/// lookup: `remove_product` followed by `get_product` on the same id
/// reports `NotFound`.
pub proof fn lemma_removed_id_not_found(s: Seq<Product>, id: u64)
    requires
        sorted_by_id(s),
        has_id(s, id),
    ensures
        !has_id(s.remove(index_of_id(s, id)), id),
        spec_find(s.remove(index_of_id(s, id)), id) is None,
{
    let i = index_of_id(s, id);
    assert(0 <= i < s.len() && s[i].id == id);
    let t = s.remove(i);
    assert forall|m: int| 0 <= m < t.len() implies (#[trigger] t[m]).id != id by {
        let mo = if m < i {
            m
        } else {
            m + 1
        };
        assert(t[m] == s[mo]);
        if s[mo].id == id {
            lemma_id_index_unique(s, mo, i);
        }
    }
}

/// Clearing the store removes every record but keeps the counter, so every
/// id stored before the clear still lies below the counter afterwards: the
/// next `add_product` after a clear allocates a never-before-used id.
pub proof fn lemma_clear_keeps_counter_fresh(before: Inventory, after: Inventory, i: int)
    requires
        before.wf(),
        after.next_id == before.next_id,
        after.products@.len() == 0,
        0 <= i < before.products@.len(),
    ensures
        before.products@[i].id < after.next_id,
{
}

/// A category search is exactly the filtered full scan: every product of
/// `filter_cat(s, category)` carries that category and occurs in `s`, and
/// every product of `s` carrying the category occurs in the filtered
/// sequence; `filter_cat` keeps the relative order of `s` by construction.
pub proof fn lemma_filter_cat_exact(s: Seq<Product>, category: Category)
    ensures
        forall|i: int|
            0 <= i < filter_cat(s, category).len() ==> (#[trigger] filter_cat(s, category)[i])
                .category == category && s.contains(filter_cat(s, category)[i]),
        forall|i: int|
            0 <= i < s.len() && (#[trigger] s[i]).category == category ==> filter_cat(
                s,
                category,
            ).contains(s[i]),
    decreases s.len(),
{
    if s.len() == 0 {
    } else {
        let t = s.drop_last();
        let f = filter_cat(s, category);
        let ft = filter_cat(t, category);
        lemma_filter_cat_exact(t, category);
        assert forall|i: int| 0 <= i < f.len() implies (#[trigger] f[i]).category == category
            && s.contains(f[i]) by {
            if i < ft.len() {
                assert(f[i] == ft[i]);
                assert(ft[i].category == category);
                let j = choose|j: int| 0 <= j < t.len() && t[j] == ft[i];
                assert(s[j] == f[i]);
            } else {
                assert(f[i] == s.last());
                assert(s[s.len() - 1] == f[i]);
            }
        }
        assert forall|i: int| 0 <= i < s.len() && (#[trigger] s[i]).category == category implies f
            .contains(s[i]) by {
            if i < t.len() {
                assert(t[i] == s[i]);
                assert(ft.contains(t[i]));
                let j = choose|j: int| 0 <= j < ft.len() && ft[j] == t[i];
                assert(f[j] == s[i]);
            } else {
                assert(s[i] == s.last());
                assert(f[f.len() - 1] == s[i]);
            }
        }
    }
}

/// A filtered scan of an id-sorted store is id-sorted as well: together
/// with the exact membership of `lemma_filter_cat_exact`, this pins the
/// relative order of a category search to that of the full scan.
pub proof fn lemma_filter_cat_sorted(s: Seq<Product>, category: Category)
    requires
        sorted_by_id(s),
    ensures
        sorted_by_id(filter_cat(s, category)),
    decreases s.len(),
{
    if s.len() == 0 {
    } else {
        let t = s.drop_last();
        let f = filter_cat(s, category);
        let ft = filter_cat(t, category);
        lemma_filter_cat_sorted(t, category);
        lemma_filter_cat_exact(t, category);
        assert forall|p: int, q: int| 0 <= p < q < f.len() implies #[trigger] f[p].id
            < #[trigger] f[q].id by {
            if q < ft.len() {
                assert(ft[p].id < ft[q].id);
            } else {
                assert(f[q] == s.last());
                assert(f[p] == ft[p]);
                assert(t.contains(ft[p]));
                let j = choose|j: int| 0 <= j < t.len() && t[j] == ft[p];
                assert(s[j].id < s[s.len() - 1].id);
            }
        }
    }
}

/// The whole ledger state: the allocator counter and the stored records,
/// kept in ascending id order.
pub struct Inventory {
    pub next_id: u64,
    pub products: Vec<Product>,
}

impl Inventory {
    /// Well-formedness: records are strictly ordered by id, every stored id
    /// lies below the allocator counter (so the counter never re-issues a
    /// live id), and every stored name is non-blank.
    pub open spec fn wf(self) -> bool {
        &&& sorted_by_id(self.products@)
        &&& forall|i: int|
            0 <= i < self.products@.len() ==> (#[trigger] self.products@[i]).id < self.next_id
        &&& forall|i: int|
            0 <= i < self.products@.len() ==> !spec_is_blank((#[trigger] self.products@[i]).name@)
    }

    /// A fresh, empty ledger whose allocator starts at zero.
    pub fn new() -> (r: Inventory)
        ensures
            r.wf(),
            r.next_id == 0,
            r.products@.len() == 0,
    {
        Inventory { next_id: 0, products: Vec::new() }
    }

    /// The position of the record carrying `id`, if one is stored.
    fn find_index(&self, id: u64) -> (r: Option<usize>)
        requires
            self.wf(),
        ensures
            r matches Some(i) ==> i < self.products@.len()
                && self.products@[i as int].id == id
                && has_id(self.products@, id)
                && index_of_id(self.products@, id) == i,
            r is None ==> !has_id(self.products@, id),
    {
        let n = self.products.len();
        let mut i: usize = 0;
        while i < n
            invariant
                self.wf(),
                n == self.products@.len(),
                i <= n,
                forall|k: int| 0 <= k < i ==> (#[trigger] self.products@[k]).id != id,
            decreases n - i,
        {
            if self.products[i].id == id {
                proof {
                    assert(has_id(self.products@, id)) by {
                        assert(self.products@[i as int].id == id);
                    }
                    lemma_id_index_unique(
                        self.products@,
                        index_of_id(self.products@, id),
                        i as int,
                    );
                }
                return Some(i);
            }
            i += 1;
        }
        None
    }

    /// The record carrying `id`, if one is stored; no side effects.
    pub fn _get_product(&self, id: u64) -> (r: Option<Product>)
        requires
            self.wf(),
        ensures
            r == spec_find(self.products@, id),
    {
        match self.find_index(id) {
            Some(i) => Some(self.products[i].duplicate()),
            None => None,
        }
    }

    /// Looks a product up by id; `NotFound` when no record carries `id`.
    pub fn get_product(&self, id: u64) -> (r: Result<Product, Error>)
        requires
            self.wf(),
        ensures
            r matches Ok(p) ==> spec_find(self.products@, id) == Some(p),
            r is Err <==> !has_id(self.products@, id),
            r matches Err(e) ==> e is NotFound,
    {
        match self._get_product(id) {
            Some(product) => Ok(product),
            None => Err(Error::NotFound {
                msg: "A product with the requested id was not found".to_owned(),
            }),
        }
    }

    /// Reads the current stock of a product; `NotFound` when no record
    /// carries `id`.
    pub fn get_stock(&self, id: u64) -> (r: Result<u32, Error>)
        requires
            self.wf(),
        ensures
            r matches Ok(q) ==> spec_find(self.products@, id) matches Some(p) && p.quantity == q,
            r is Err <==> !has_id(self.products@, id),
            r matches Err(e) ==> e is NotFound,
    {
        match self.find_index(id) {
            Some(i) => Ok(self.products[i].quantity),
            None => Err(Error::NotFound {
                msg: "A product with the requested id was not found".to_owned(),
            }),
        }
    }

    /// Allocates the next identifier: returns the current counter value and
    /// advances the counter, so no id is ever issued twice. The counter is
    /// the only state touched.
    pub fn generate_unique_id(&mut self) -> (r: Result<u64, Error>)
        requires
            old(self).next_id < u64::MAX,
        ensures
            r matches Ok(id) ==> id == old(self).next_id,
            r is Ok,
            final(self).next_id == old(self).next_id + 1,
            final(self).products@ == old(self).products@,
            old(self).wf() ==> final(self).wf(),
    {
        let id = self.next_id;
        self.next_id = self.next_id + 1;
        Ok(id)
    }

    /// Stores `product` under its id: replaces the record that already
    /// carries the id, or inserts at the position that keeps the store
    /// ordered by id.
    pub fn do_insert(&mut self, product: &Product)
        requires
            old(self).wf(),
            product.id < old(self).next_id,
            !spec_is_blank(product.name@),
        ensures
            final(self).wf(),
            final(self).next_id == old(self).next_id,
            has_id(old(self).products@, product.id) ==> final(self).products@
                == old(self).products@.update(
                    index_of_id(old(self).products@, product.id),
                    *product,
                ),
            !has_id(old(self).products@, product.id) ==> exists|k: int|
                #![trigger old(self).products@.insert(k, *product)]
                {
                    &&& 0 <= k <= old(self).products@.len()
                    &&& forall|m: int|
                        0 <= m < k ==> (#[trigger] old(self).products@[m]).id < product.id
                    &&& forall|m: int|
                        k <= m < old(self).products@.len()
                            ==> product.id < (#[trigger] old(self).products@[m]).id
                    &&& final(self).products@ == old(self).products@.insert(k, *product)
                },
    {
        let n = self.products.len();
        let mut i: usize = 0;
        while i < n && self.products[i].id < product.id
            invariant
                self.wf(),
                n == self.products@.len(),
                i <= n,
                forall|k: int| 0 <= k < i ==> (#[trigger] self.products@[k]).id < product.id,
            decreases n - i,
        {
            i += 1;
        }
        if i < n && self.products[i].id == product.id {
            proof {
                assert(has_id(self.products@, product.id)) by {
                    assert(self.products@[i as int].id == product.id);
                }
                lemma_id_index_unique(
                    self.products@,
                    index_of_id(self.products@, product.id),
                    i as int,
                );
            }
            self.products.set(i, product.duplicate());
            proof {
                let s = self.products@;
                assert forall|p: int, q: int| 0 <= p < q < s.len() implies #[trigger] s[p].id
                    < #[trigger] s[q].id by {
                    assert(old(self).products@[p].id < old(self).products@[q].id);
                }
            }
        } else {
            proof {
                let s = old(self).products@;
                assert forall|m: int| i <= m < s.len() implies product.id
                    < (#[trigger] s[m]).id by {
                    if i < s.len() {
                        assert(s[i as int].id <= s[m].id) by {
                            if (i as int) < m {
                                assert(s[i as int].id < s[m].id);
                            }
                        }
                    }
                }
                assert(!has_id(s, product.id));
            }
            self.products.insert(i, product.duplicate());
            proof {
                let olds = old(self).products@;
                let s = self.products@;
                assert forall|p: int, q: int| 0 <= p < q < s.len() implies #[trigger] s[p].id
                    < #[trigger] s[q].id by {
                    if p < i && q < i {
                        assert(olds[p].id < olds[q].id);
                    } else if p < i && q == i {
                        assert(olds[p].id < product.id);
                    } else if p < i && q > i {
                        assert(olds[p].id < olds[q - 1].id);
                    } else if p == i && q > i {
                        assert(product.id < olds[q - 1].id);
                    } else if p > i && q > i {
                        assert(olds[p - 1].id < olds[q - 1].id);
                    }
                }
                assert(old(self).products@.insert(i as int, *product) == s);
            }
        }
    }

    /// Creates a product from a valid payload: allocates a fresh id, stamps
    /// `created_at` with `now`, leaves `updated_at` absent, and appends the
    /// record to the store. Rejects an invalid payload with
    /// `InvalidOperation` and leaves the store untouched.
    pub fn add_product(&mut self, payload: ProductPayload, now: u64) -> (r: Result<Product, Error>)
        requires
            old(self).wf(),
            old(self).next_id < u64::MAX,
        ensures
            final(self).wf(),
            r is Ok <==> payload_valid(payload),
            r matches Err(e) ==> e is InvalidOperation
                && final(self).products@ == old(self).products@
                && final(self).next_id == old(self).next_id,
            r matches Ok(p) ==> p == (Product {
                id: old(self).next_id,
                name: payload.name,
                category: payload.category,
                quantity: payload.quantity,
                created_at: now,
                updated_at: None,
            }) && final(self).next_id == old(self).next_id + 1
                && final(self).products@ == old(self).products@.push(p),
    {
        match validate_product_payload(&payload) {
            Err(e) => Err(e),
            Ok(()) => {
                let id = match self.generate_unique_id() {
                    Ok(id) => id,
                    Err(e) => {
                        return Err(e);
                    },
                };
                let product = Product {
                    id,
                    name: payload.name,
                    category: payload.category,
                    quantity: payload.quantity,
                    created_at: now,
                    updated_at: None,
                };
                self.products.push(product.duplicate());
                proof {
                    let olds = old(self).products@;
                    let s = self.products@;
                    assert forall|p: int, q: int| 0 <= p < q < s.len() implies #[trigger] s[p].id
                        < #[trigger] s[q].id by {
                        if q < olds.len() {
                            assert(olds[p].id < olds[q].id);
                        } else {
                            assert(olds[p].id < old(self).next_id);
                        }
                    }
                }
                Ok(product)
            },
        }
    }

    /// Replaces the name, category and quantity of the record carrying `id`
    /// with a valid payload, stamps `updated_at` with `now`, and preserves
    /// the id and `created_at`. An invalid payload is rejected first with
    /// `InvalidOperation`; a missing id with `NotFound`.
    pub fn update_product(&mut self, id: u64, payload: ProductPayload, now: u64) -> (r: Result<
        Product,
        Error,
    >)
        requires
            old(self).wf(),
        ensures
            final(self).wf(),
            final(self).next_id == old(self).next_id,
            r is Err ==> final(self).products@ == old(self).products@,
            r is Ok <==> payload_valid(payload) && has_id(old(self).products@, id),
            !payload_valid(payload) ==> (r matches Err(e) && e is InvalidOperation),
            payload_valid(payload) && !has_id(old(self).products@, id) ==> (r matches Err(e)
                && e is NotFound),
            r matches Ok(p) ==> ({
                let i = index_of_id(old(self).products@, id);
                &&& p == (Product {
                    id,
                    name: payload.name,
                    category: payload.category,
                    quantity: payload.quantity,
                    created_at: old(self).products@[i].created_at,
                    updated_at: Some(now),
                })
                &&& final(self).products@ == old(self).products@.update(i, p)
            }),
    {
        match validate_product_payload(&payload) {
            Err(e) => Err(e),
            Ok(()) => match self.find_index(id) {
                Some(i) => {
                    let product = Product {
                        id,
                        name: payload.name,
                        category: payload.category,
                        quantity: payload.quantity,
                        created_at: self.products[i].created_at,
                        updated_at: Some(now),
                    };
                    self.products.set(i, product.duplicate());
                    proof {
                        let s = self.products@;
                        assert forall|p: int, q: int| 0 <= p < q < s.len() implies #[trigger] s[p].id
                            < #[trigger] s[q].id by {
                            assert(old(self).products@[p].id < old(self).products@[q].id);
                        }
                    }
                    Ok(product)
                },
                None => Err(Error::NotFound {
                    msg: "A product with the requested id was not found".to_owned(),
                }),
            },
        }
    }

    /// Adds a positive stock amount to the record carrying `id` and stamps
    /// `updated_at` with `now`. A zero amount is rejected first with
    /// `InvalidOperation`; a missing id with `NotFound`.
    pub fn add_quantity(&mut self, id: u64, payload: StockPayload, now: u64) -> (r: Result<
        Product,
        Error,
    >)
        requires
            old(self).wf(),
            spec_find(old(self).products@, id) matches Some(p) ==> p.quantity + payload.amount
                <= u32::MAX,
        ensures
            final(self).wf(),
            final(self).next_id == old(self).next_id,
            r is Err ==> final(self).products@ == old(self).products@,
            r is Ok <==> stock_valid(payload) && has_id(old(self).products@, id),
            !stock_valid(payload) ==> (r matches Err(e) && e is InvalidOperation),
            stock_valid(payload) && !has_id(old(self).products@, id) ==> (r matches Err(e)
                && e is NotFound),
            r matches Ok(p) ==> ({
                let i = index_of_id(old(self).products@, id);
                &&& p == (Product {
                    quantity: (old(self).products@[i].quantity + payload.amount) as u32,
                    updated_at: Some(now),
                    ..old(self).products@[i]
                })
                &&& final(self).products@ == old(self).products@.update(i, p)
            }),
    {
        match validate_stock_payload(&payload) {
            Err(e) => Err(e),
            Ok(()) => match self.find_index(id) {
                Some(i) => {
                    let mut product = self.products[i].duplicate();
                    product.quantity = product.quantity + payload.amount;
                    product.updated_at = Some(now);
                    self.do_insert(&product);
                    Ok(product)
                },
                None => Err(Error::NotFound {
                    msg: "A product with the requested id was not found".to_owned(),
                }),
            },
        }
    }

    /// Removes a positive stock amount from the record carrying `id` and
    /// stamps `updated_at` with `now`. A zero amount is rejected first with
    /// `InvalidOperation`; a missing id with `NotFound`; a record whose
    /// quantity is zero, or an amount above the current quantity, with
    /// `InvalidOperation` — in every failure the store is left untouched,
    /// so the quantity can never go below zero.
    pub fn offload_quantity(&mut self, id: u64, payload: StockPayload, now: u64) -> (r: Result<
        Product,
        Error,
    >)
        requires
            old(self).wf(),
        ensures
            final(self).wf(),
            final(self).next_id == old(self).next_id,
            r is Err ==> final(self).products@ == old(self).products@,
            r is Ok <==> stock_valid(payload) && has_id(old(self).products@, id) && ({
                let p0 = old(self).products@[index_of_id(old(self).products@, id)];
                p0.quantity > 0 && payload.amount <= p0.quantity
            }),
            !stock_valid(payload) ==> (r matches Err(e) && e is InvalidOperation),
            stock_valid(payload) && !has_id(old(self).products@, id) ==> (r matches Err(e)
                && e is NotFound),
            stock_valid(payload) && has_id(old(self).products@, id) && ({
                let p0 = old(self).products@[index_of_id(old(self).products@, id)];
                p0.quantity == 0 || payload.amount > p0.quantity
            }) ==> (r matches Err(e) && e is InvalidOperation),
            r matches Ok(p) ==> ({
                let i = index_of_id(old(self).products@, id);
                &&& p == (Product {
                    quantity: (old(self).products@[i].quantity - payload.amount) as u32,
                    updated_at: Some(now),
                    ..old(self).products@[i]
                })
                &&& final(self).products@ == old(self).products@.update(i, p)
            }),
    {
        match validate_stock_payload(&payload) {
            Err(e) => Err(e),
            Ok(()) => match self.find_index(id) {
                Some(i) => {
                    let mut product = self.products[i].duplicate();
                    if product.quantity == 0 {
                        return Err(Error::InvalidOperation {
                            msg: "The product cannot be offloaded because its quantity is 0"
                                .to_owned(),
                        });
                    } else if payload.amount > product.quantity {
                        return Err(Error::InvalidOperation {
                            msg: "Cannot offload more than the available quantity".to_owned(),
                        });
                    }
                    product.quantity = product.quantity - payload.amount;
                    product.updated_at = Some(now);
                    self.do_insert(&product);
                    Ok(product)
                },
                None => Err(Error::NotFound {
                    msg: "A product with the requested id was not found".to_owned(),
                }),
            },
        }
    }

    /// A full scan of the store: every record, in ascending id order.
    pub fn list_all_products(&self) -> (r: Vec<Product>)
        ensures
            r@ == self.products@,
    {
        let n = self.products.len();
        let mut result: Vec<Product> = Vec::new();
        let mut i: usize = 0;
        while i < n
            invariant
                n == self.products@.len(),
                i <= n,
                result@ == self.products@.take(i as int),
            decreases n - i,
        {
            result.push(self.products[i].duplicate());
            proof {
                assert(self.products@.take(i + 1).drop_last() =~= self.products@.take(i as int));
                assert(result@ =~= self.products@.take(i + 1));
            }
            i += 1;
        }
        proof {
            assert(self.products@.take(n as int) =~= self.products@);
        }
        result
    }

    /// A linear filter over the full scan: exactly the records whose
    /// category is `category`, in the same relative order as the full scan.
    pub fn search_by_category(&self, category: Category) -> (r: Vec<Product>)
        ensures
            r@ == filter_cat(self.products@, category),
    {
        let n = self.products.len();
        let mut result: Vec<Product> = Vec::new();
        let mut i: usize = 0;
        while i < n
            invariant
                n == self.products@.len(),
                i <= n,
                result@ == filter_cat(self.products@.take(i as int), category),
            decreases n - i,
        {
            if self.products[i].category == category {
                result.push(self.products[i].duplicate());
            }
            proof {
                let s = self.products@;
                assert(s.take(i + 1).drop_last() =~= s.take(i as int));
                assert(s.take(i + 1).last() == s[i as int]);
            }
            i += 1;
        }
        proof {
            assert(self.products@.take(n as int) =~= self.products@);
        }
        result
    }

    /// Deletes every record; the id counter is deliberately left untouched,
    /// so ids of cleared records are never reused.
    pub fn clear_all_products(&mut self)
        ensures
            final(self).wf(),
            final(self).products@.len() == 0,
            final(self).next_id == old(self).next_id,
    {
        self.products.clear();
    }

    /// Deletes the record carrying `id` and returns it; `NotFound` when no
    /// record carries `id`. Afterwards the id is absent from the store.
    pub fn remove_product(&mut self, id: u64) -> (r: Result<Product, Error>)
        requires
            old(self).wf(),
        ensures
            final(self).wf(),
            final(self).next_id == old(self).next_id,
            r is Ok <==> has_id(old(self).products@, id),
            r matches Err(e) ==> e is NotFound && final(self).products@ == old(self).products@,
            r matches Ok(p) ==> ({
                let i = index_of_id(old(self).products@, id);
                &&& p == old(self).products@[i]
                &&& final(self).products@ == old(self).products@.remove(i)
            }),
            !has_id(final(self).products@, id),
    {
        match self.find_index(id) {
            Some(i) => {
                let p = self.products.remove(i);
                proof {
                    let olds = old(self).products@;
                    let s = self.products@;
                    assert forall|m: int| 0 <= m < s.len() implies (#[trigger] s[m]).id != id by {
                        let mo = if m < i as int {
                            m
                        } else {
                            m + 1
                        };
                        assert(s[m] == olds[mo]);
                        if olds[mo].id == id {
                            lemma_id_index_unique(olds, mo, i as int);
                        }
                    }
                    assert forall|p2: int, q: int| 0 <= p2 < q < s.len() implies #[trigger] s[p2].id
                        < #[trigger] s[q].id by {
                        let po = if p2 < i as int {
                            p2
                        } else {
                            p2 + 1
                        };
                        let qo = if q < i as int {
                            q
                        } else {
                            q + 1
                        };
                        assert(s[p2] == olds[po]);
                        assert(s[q] == olds[qo]);
                        assert(olds[po].id < olds[qo].id);
                    }
                }
                Ok(p)
            },
            None => Err(Error::NotFound {
                msg: "A product with the requested id was not found".to_owned(),
            }),
        }
    }
}

} // verus!
