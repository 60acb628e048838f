//! The data store that every handler works against, with the
//! well-formedness invariant that all write paths preserve: ids are unique
//! and below their counters, names are unique per user, and every foreign
//! reference that the engine checks at write time really resolves.

use vstd::prelude::*;
use crate::categories::Category;
use crate::product_prices::ProductPrice;
use crate::products::{has_product_id, Product};
use crate::tags::{has_tag_id, Tag};
use crate::transactions::{has_transaction_id, Transaction, TransactionTag};
use crate::users::User;

verus! {

/// The whole data store. Each table is a sequence of rows in insertion
/// order; each table's ids are drawn from its own counter, starting at 1.
#[derive(Debug)]
pub struct Store {
    pub users: Vec<User>,
    pub categories: Vec<Category>,
    pub products: Vec<Product>,
    pub product_prices: Vec<ProductPrice>,
    pub tags: Vec<Tag>,
    pub transactions: Vec<Transaction>,
    pub transaction_tags: Vec<TransactionTag>,
    pub next_user_id: i32,
    pub next_category_id: i32,
    pub next_product_id: i32,
    pub next_product_price_id: i32,
    pub next_tag_id: i32,
    pub next_transaction_id: i32,
}

/// Users: ids unique and below the counter, emails globally unique.
pub open spec fn users_wf(users: Seq<User>, next_id: i32) -> bool {
    &&& 0 < next_id
    &&& forall|i: int| 0 <= i < users.len() ==> 0 < #[trigger] users[i].id < next_id
    &&& forall|i: int, j: int|
        0 <= i < j < users.len() ==> #[trigger] users[i].id != #[trigger] users[j].id
    &&& forall|i: int, j: int|
        0 <= i < j < users.len() ==> #[trigger] users[i].email@ != #[trigger] users[j].email@
}

/// Categories: ids unique and below the counter, names unique per user.
pub open spec fn categories_wf(cats: Seq<Category>, next_id: i32) -> bool {
    &&& 0 < next_id
    &&& forall|i: int| 0 <= i < cats.len() ==> 0 < #[trigger] cats[i].id < next_id
    &&& forall|i: int, j: int|
        0 <= i < j < cats.len() ==> #[trigger] cats[i].id != #[trigger] cats[j].id
    &&& forall|i: int, j: int|
        0 <= i < j < cats.len() && #[trigger] cats[i].user_id == #[trigger] cats[j].user_id
            ==> cats[i].name@ != cats[j].name@
}

/// Products: ids unique and below the counter, names unique per user.
pub open spec fn products_wf(prods: Seq<Product>, next_id: i32) -> bool {
    &&& 0 < next_id
    &&& forall|i: int| 0 <= i < prods.len() ==> 0 < #[trigger] prods[i].id < next_id
    &&& forall|i: int, j: int|
        0 <= i < j < prods.len() ==> #[trigger] prods[i].id != #[trigger] prods[j].id
    &&& forall|i: int, j: int|
        0 <= i < j < prods.len() && #[trigger] prods[i].user_id == #[trigger] prods[j].user_id
            ==> prods[i].name@ != prods[j].name@
}

/// Tags: ids unique and below the counter, names unique per user.
pub open spec fn tags_wf(tags: Seq<Tag>, next_id: i32) -> bool {
    &&& 0 < next_id
    &&& forall|i: int| 0 <= i < tags.len() ==> 0 < #[trigger] tags[i].id < next_id
    &&& forall|i: int, j: int|
        0 <= i < j < tags.len() ==> #[trigger] tags[i].id != #[trigger] tags[j].id
    &&& forall|i: int, j: int|
        0 <= i < j < tags.len() && #[trigger] tags[i].user_id == #[trigger] tags[j].user_id
            ==> tags[i].name@ != tags[j].name@
}

/// Prices: ids unique and below the counter, and every observation
/// belongs to a product that exists.
pub open spec fn prices_wf(prices: Seq<ProductPrice>, next_id: i32, prods: Seq<Product>) -> bool {
    &&& 0 < next_id
    &&& forall|i: int| 0 <= i < prices.len() ==> 0 < #[trigger] prices[i].id < next_id
    &&& forall|i: int, j: int|
        0 <= i < j < prices.len() ==> #[trigger] prices[i].id != #[trigger] prices[j].id
    &&& forall|i: int| 0 <= i < prices.len() ==> has_product_id(prods, #[trigger] prices[i].product_id)
}

/// Transactions: ids unique and below the counter, and the product and
/// price they reference exist.
pub open spec fn transactions_wf(
    txs: Seq<Transaction>,
    next_id: i32,
    prods: Seq<Product>,
    prices: Seq<ProductPrice>,
) -> bool {
    &&& 0 < next_id
    &&& forall|i: int| 0 <= i < txs.len() ==> 0 < #[trigger] txs[i].id < next_id
    &&& forall|i: int, j: int|
        0 <= i < j < txs.len() ==> #[trigger] txs[i].id != #[trigger] txs[j].id
    &&& forall|i: int| 0 <= i < txs.len() ==> has_product_id(prods, #[trigger] txs[i].product_id)
    &&& forall|i: int|
        0 <= i < txs.len() ==> crate::product_prices::has_price_id(
            prices,
            #[trigger] txs[i].product_price_id,
        )
}

/// Join rows: no duplicate pairs, and both ends exist.
pub open spec fn transaction_tags_wf(
    ttags: Seq<TransactionTag>,
    txs: Seq<Transaction>,
    tags: Seq<Tag>,
) -> bool {
    &&& forall|i: int, j: int| 0 <= i < j < ttags.len() ==> #[trigger] ttags[i] != #[trigger] ttags[j]
    &&& forall|i: int|
        0 <= i < ttags.len() ==> has_transaction_id(txs, #[trigger] ttags[i].transaction_id)
    &&& forall|i: int| 0 <= i < ttags.len() ==> has_tag_id(tags, #[trigger] ttags[i].tag_id)
}

impl Store {
    /// The invariant of the whole store.
    pub open spec fn wf(&self) -> bool {
        &&& users_wf(self.users@, self.next_user_id)
        &&& categories_wf(self.categories@, self.next_category_id)
        &&& products_wf(self.products@, self.next_product_id)
        &&& tags_wf(self.tags@, self.next_tag_id)
        &&& prices_wf(self.product_prices@, self.next_product_price_id, self.products@)
        &&& transactions_wf(
            self.transactions@,
            self.next_transaction_id,
            self.products@,
            self.product_prices@,
        )
        &&& transaction_tags_wf(self.transaction_tags@, self.transactions@, self.tags@)
    }

    /// An empty store, with every id counter at 1.
    pub fn new() -> (r: Store)
        ensures
            r.wf(),
            r.users@.len() == 0,
            r.categories@.len() == 0,
            r.products@.len() == 0,
            r.product_prices@.len() == 0,
            r.tags@.len() == 0,
            r.transactions@.len() == 0,
            r.transaction_tags@.len() == 0,
            r.next_user_id == 1,
            r.next_category_id == 1,
            r.next_product_id == 1,
            r.next_product_price_id == 1,
            r.next_tag_id == 1,
            r.next_transaction_id == 1,
    {
        Store {
            users: Vec::new(),
            categories: Vec::new(),
            products: Vec::new(),
            product_prices: Vec::new(),
            tags: Vec::new(),
            transactions: Vec::new(),
            transaction_tags: Vec::new(),
            next_user_id: 1,
            next_category_id: 1,
            next_product_id: 1,
            next_product_price_id: 1,
            next_tag_id: 1,
            next_transaction_id: 1,
        }
    }

    /// Everything but the category table and its counter is unchanged.
    pub open spec fn same_but_categories(self, new: Store) -> bool {
        &&& new.users@ == self.users@
        &&& new.products@ == self.products@
        &&& new.product_prices@ == self.product_prices@
        &&& new.tags@ == self.tags@
        &&& new.transactions@ == self.transactions@
        &&& new.transaction_tags@ == self.transaction_tags@
        &&& new.next_user_id == self.next_user_id
        &&& new.next_product_id == self.next_product_id
        &&& new.next_product_price_id == self.next_product_price_id
        &&& new.next_tag_id == self.next_tag_id
        &&& new.next_transaction_id == self.next_transaction_id
    }

    /// Everything but the user table and its counter is unchanged.
    pub open spec fn same_but_users(self, new: Store) -> bool {
        &&& new.categories@ == self.categories@
        &&& new.products@ == self.products@
        &&& new.product_prices@ == self.product_prices@
        &&& new.tags@ == self.tags@
        &&& new.transactions@ == self.transactions@
        &&& new.transaction_tags@ == self.transaction_tags@
        &&& new.next_category_id == self.next_category_id
        &&& new.next_product_id == self.next_product_id
        &&& new.next_product_price_id == self.next_product_price_id
        &&& new.next_tag_id == self.next_tag_id
        &&& new.next_transaction_id == self.next_transaction_id
    }

    /// Everything but the tag table and its counter is unchanged.
    pub open spec fn same_but_tags(self, new: Store) -> bool {
        &&& new.users@ == self.users@
        &&& new.categories@ == self.categories@
        &&& new.products@ == self.products@
        &&& new.product_prices@ == self.product_prices@
        &&& new.transactions@ == self.transactions@
        &&& new.transaction_tags@ == self.transaction_tags@
        &&& new.next_user_id == self.next_user_id
        &&& new.next_category_id == self.next_category_id
        &&& new.next_product_id == self.next_product_id
        &&& new.next_product_price_id == self.next_product_price_id
        &&& new.next_transaction_id == self.next_transaction_id
    }

    /// Everything but products, categories and prices (the tables a price
    /// write may touch) is unchanged.
    pub open spec fn same_but_pricing(self, new: Store) -> bool {
        &&& new.users@ == self.users@
        &&& new.categories@ == self.categories@
        &&& new.tags@ == self.tags@
        &&& new.transactions@ == self.transactions@
        &&& new.transaction_tags@ == self.transaction_tags@
        &&& new.next_user_id == self.next_user_id
        &&& new.next_category_id == self.next_category_id
        &&& new.next_tag_id == self.next_tag_id
        &&& new.next_transaction_id == self.next_transaction_id
    }

    /// Everything but categories and products (the tables a product write
    /// may touch) is unchanged.
    pub open spec fn same_but_catalog(self, new: Store) -> bool {
        &&& new.users@ == self.users@
        &&& new.product_prices@ == self.product_prices@
        &&& new.tags@ == self.tags@
        &&& new.transactions@ == self.transactions@
        &&& new.transaction_tags@ == self.transaction_tags@
        &&& new.next_user_id == self.next_user_id
        &&& new.next_product_price_id == self.next_product_price_id
        &&& new.next_tag_id == self.next_tag_id
        &&& new.next_transaction_id == self.next_transaction_id
    }

    /// The user table is unchanged (transaction writes touch everything
    /// else).
    pub open spec fn same_users(self, new: Store) -> bool {
        &&& new.users@ == self.users@
        &&& new.next_user_id == self.next_user_id
    }

    /// Everything but the join table is unchanged.
    pub open spec fn same_but_transaction_tags(self, new: Store) -> bool {
        &&& new.users@ == self.users@
        &&& new.categories@ == self.categories@
        &&& new.products@ == self.products@
        &&& new.product_prices@ == self.product_prices@
        &&& new.tags@ == self.tags@
        &&& new.transactions@ == self.transactions@
        &&& new.next_user_id == self.next_user_id
        &&& new.next_category_id == self.next_category_id
        &&& new.next_product_id == self.next_product_id
        &&& new.next_product_price_id == self.next_product_price_id
        &&& new.next_tag_id == self.next_tag_id
        &&& new.next_transaction_id == self.next_transaction_id
    }
}

} // verus!
