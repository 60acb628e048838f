//! Read-only aggregation views over the store: spending summed per
//! calendar day, spending summed per category name, and the price history
//! of one product. Sums are carried in minor units and clamped to a
//! non-negative range; the HTTP boundary renders them in major units.

use vstd::prelude::*;
use vstd::multiset::Multiset;
use crate::categories::{category_of, find_category_by_id, has_category_id, Category};
use crate::dates::{day_of, day_of_spec};
use crate::money::clamp_total;
use crate::product_prices::{find_price_by_id, lemma_price_of_agrees, price_of, ProductPrice};
use crate::products::{find_product_by_id, has_product_id, product_of, Product};
use crate::store::Store;
use crate::text::{lemma_lex_lt_total, lemma_lex_lt_transitive, lex_lt, str_eq, str_lt};
use crate::transactions::Transaction;

verus! {

/// One day of spending: the calendar day (days since the epoch) and the
/// summed minor units.
#[derive(Debug)]
pub struct SpendingTimeSeriesEntry {
    pub date: i64,
    pub total_spending: i64,
}

/// One category's spending: its name and the summed minor units.
#[derive(Debug)]
pub struct CategorySpending {
    pub category_name: String,
    pub total_spending: i64,
}

/// One observation of a product's price history: the calendar day it was
/// recorded and the minor-unit price.
#[derive(Debug)]
pub struct ProductPriceData {
    pub date: i64,
    pub price: i32,
}

/// The query naming the product whose history is charted.
#[derive(Debug)]
pub struct ProductPriceQuery {
    pub product_id: i32,
}

/// The minor units this user spent on this calendar day: the sum of the
/// joined price of every transaction of the user whose date falls on the
/// day.
pub open spec fn sum_on_day(
    txs: Seq<Transaction>,
    prices: Seq<ProductPrice>,
    user_id: i32,
    day: int,
) -> int
    decreases txs.len(),
{
    if txs.len() == 0 {
        0
    } else {
        let rest = sum_on_day(txs.drop_last(), prices, user_id, day);
        if txs.last().user_id == user_id && day_of_spec(txs.last().date as int) == day {
            rest + price_of(prices, txs.last().product_price_id)
        } else {
            rest
        }
    }
}

/// Whether the user has a transaction on this calendar day.
pub open spec fn has_user_day(txs: Seq<Transaction>, user_id: i32, day: int) -> bool {
    exists|j: int|
        0 <= j < txs.len() && txs[j].user_id == user_id && day_of_spec(txs[j].date as int) == day
}

/// Strictly ascending values.
pub open spec fn sorted_strict_i64(s: Seq<i64>) -> bool {
    forall|k: int, l: int| 0 <= k < l < s.len() ==> s[k] < s[l]
}

/// Whether the sequence holds this value.
pub open spec fn contains_i64(s: Seq<i64>, v: i64) -> bool {
    exists|k: int| 0 <= k < s.len() && s[k] == v
}

impl Store {
    /// Sums this user's spending per calendar day, one entry per day that
    /// holds at least one transaction, in strictly ascending day order;
    /// each total is the sum of the joined prices of that day's
    /// transactions, clamped to a non-negative range.
    pub fn spending_time_series(&self, user_id: i32) -> (r: Vec<SpendingTimeSeriesEntry>)
        requires
            self.wf(),
        ensures
            forall|k: int, l: int| 0 <= k < l < r@.len() ==> r@[k].date < r@[l].date,
            forall|k: int|
                0 <= k < r@.len() ==> (#[trigger] r@[k]).total_spending == clamp_total(
                    sum_on_day(self.transactions@, self.product_prices@, user_id, r@[k].date as int),
                ),
            forall|k: int|
                0 <= k < r@.len() ==> has_user_day(
                    self.transactions@,
                    user_id,
                    (#[trigger] r@[k]).date as int,
                ),
            forall|j: int|
                0 <= j < self.transactions@.len() && (#[trigger] self.transactions@[j]).user_id
                    == user_id ==> exists|k: int|
                    0 <= k < r@.len() && r@[k].date == day_of_spec(
                        self.transactions@[j].date as int,
                    ),
    {
        // Phase one: the distinct calendar days, kept sorted.
        let mut days: Vec<i64> = Vec::new();
        let mut i: usize = 0;
        while i < self.transactions.len()
            invariant
                0 <= i <= self.transactions@.len(),
                sorted_strict_i64(days@),
                forall|k: int|
                    0 <= k < days@.len() ==> has_user_day(
                        self.transactions@,
                        user_id,
                        (#[trigger] days@[k]) as int,
                    ),
                forall|j: int|
                    0 <= j < i && (#[trigger] self.transactions@[j]).user_id == user_id
                        ==> contains_i64(days@, day_of_spec(self.transactions@[j].date as int) as i64)
                        && day_of_spec(self.transactions@[j].date as int) == day_of_spec(
                        self.transactions@[j].date as int,
                    ) as i64,
            decreases self.transactions@.len() - i,
        {
            if self.transactions[i].user_id == user_id {
                let d = day_of(self.transactions[i].date);
                let ghost days_old = days@;
                let mut pos: usize = 0;
                while pos < days.len() && days[pos] < d
                    invariant
                        0 <= pos <= days@.len(),
                        days@ == days_old,
                        forall|k: int| 0 <= k < pos ==> days@[k] < d,
                    decreases days@.len() - pos,
                {
                    pos = pos + 1;
                }
                if pos < days.len() && days[pos] == d {
                    proof {
                        assert(contains_i64(days@, d));
                    }
                } else {
                    proof {
                        days_old.insert_ensures(pos as int, d);
                        assert forall|k: int, l: int|
                            0 <= k < l < days_old.insert(pos as int, d).len() implies days_old.insert(
                            pos as int,
                            d,
                        )[k] < days_old.insert(pos as int, d)[l] by {
                            let ins = days_old.insert(pos as int, d);
                            if l < pos {
                                assert(ins[k] == days_old[k] && ins[l] == days_old[l]);
                            } else if k < pos && l == pos {
                                assert(ins[k] == days_old[k] && ins[l] == d);
                            } else if k < pos && l > pos {
                                assert(ins[k] == days_old[k] && ins[l] == days_old[l - 1]);
                                assert(days_old[k] < d);
                                if pos < days_old.len() {
                                    assert(days_old[pos as int] != d);
                                    assert(!(days_old[pos as int] < d));
                                    if l - 1 > pos {
                                        assert(days_old[pos as int] < days_old[l - 1]);
                                    }
                                }
                            } else if k == pos {
                                assert(ins[k] == d && ins[l] == days_old[l - 1]);
                                assert(days_old[pos as int] != d);
                                assert(!(days_old[pos as int] < d));
                                if l - 1 > pos {
                                    assert(days_old[pos as int] < days_old[l - 1]);
                                }
                            } else {
                                assert(ins[k] == days_old[k - 1] && ins[l] == days_old[l - 1]);
                            }
                        }
                    }
                    days.insert(pos, d);
                    proof {
                        days_old.insert_ensures(pos as int, d);
                        assert forall|k: int|
                            0 <= k < days@.len() implies has_user_day(
                            self.transactions@,
                            user_id,
                            (#[trigger] days@[k]) as int,
                        ) by {
                            if k < pos {
                                assert(days@[k] == days_old[k]);
                            } else if k == pos {
                                assert(days@[k] == d);
                                assert(self.transactions@[i as int].user_id == user_id
                                    && day_of_spec(self.transactions@[i as int].date as int) == d);
                            } else {
                                assert(days@[k] == days_old[k - 1]);
                            }
                        }
                        assert forall|j: int|
                            0 <= j < i + 1 && (#[trigger] self.transactions@[j]).user_id == user_id implies contains_i64(
                            days@,
                            day_of_spec(self.transactions@[j].date as int) as i64,
                        ) by {
                            if j < i {
                                let v = day_of_spec(self.transactions@[j].date as int) as i64;
                                assert(contains_i64(days_old, v));
                                let k = choose|k: int| 0 <= k < days_old.len() && days_old[k] == v;
                                if k < pos {
                                    assert(days@[k] == v);
                                } else {
                                    assert(days@[k + 1] == v);
                                }
                            } else {
                                assert(days@[pos as int] == d);
                            }
                        }
                    }
                }
            }
            i = i + 1;
        }
        // Phase two: one pass per day sums that day's joined prices.
        let mut out: Vec<SpendingTimeSeriesEntry> = Vec::new();
        let mut k: usize = 0;
        while k < days.len()
            invariant
                0 <= k <= days@.len(),
                self.wf(),
                out@.len() == k,
                forall|x: int|
                    0 <= x < k ==> (#[trigger] out@[x]).date == days@[x] && out@[x].total_spending
                        == clamp_total(
                        sum_on_day(
                            self.transactions@,
                            self.product_prices@,
                            user_id,
                            days@[x] as int,
                        ),
                    ),
            decreases days@.len() - k,
        {
            let d = days[k];
            let mut acc: i128 = 0;
            let mut j: usize = 0;
            proof {
                assert(self.transactions@.take(0) =~= Seq::<Transaction>::empty());
            }
            while j < self.transactions.len()
                invariant
                    0 <= j <= self.transactions@.len(),
                    self.wf(),
                    acc == sum_on_day(
                        self.transactions@.take(j as int),
                        self.product_prices@,
                        user_id,
                        d as int,
                    ),
                    -(j as int) * 0x8000_0000 <= acc <= (j as int) * 0x8000_0000,
                decreases self.transactions@.len() - j,
            {
                proof {
                    assert(self.transactions@.take(j + 1).drop_last() =~= self.transactions@.take(
                        j as int,
                    ));
                    assert(self.transactions@.take(j + 1).last() == self.transactions@[j as int]);
                }
                let tx = &self.transactions[j];
                if tx.user_id == user_id {
                    let dd = day_of(tx.date);
                    if dd == d {
                        match find_price_by_id(&self.product_prices, tx.product_price_id) {
                            Some(x) => {
                                proof {
                                    lemma_price_of_agrees(
                                        self.product_prices@,
                                        tx.product_price_id,
                                        x as int,
                                        self.next_product_price_id,
                                        self.products@,
                                    );
                                }
                                acc = acc + (self.product_prices[x].price as i128);
                            },
                            None => {
                                proof {
                                    assert(crate::product_prices::has_price_id(
                                        self.product_prices@,
                                        self.transactions@[j as int].product_price_id,
                                    ));
                                    assert(false);
                                }
                            },
                        }
                    }
                }
                j = j + 1;
            }
            proof {
                assert(self.transactions@.take(self.transactions@.len() as int)
                    =~= self.transactions@);
            }
            let total: i64 = if acc < 0 {
                0
            } else if acc > (i32::MAX as i128) {
                i32::MAX as i64
            } else {
                acc as i64
            };
            out.push(SpendingTimeSeriesEntry { date: d, total_spending: total });
            k = k + 1;
        }
        proof {
            assert forall|j: int|
                0 <= j < self.transactions@.len() && (#[trigger] self.transactions@[j]).user_id
                    == user_id implies exists|x: int|
                0 <= x < out@.len() && out@[x].date == day_of_spec(
                    self.transactions@[j].date as int,
                ) by {
                let v = day_of_spec(self.transactions@[j].date as int) as i64;
                assert(contains_i64(days@, v));
                let x = choose|x: int| 0 <= x < days@.len() && days@[x] == v;
                assert(out@[x].date == v);
            }
        }
        out
    }
}


/// The name of the category a transaction's spending counts toward:
/// through its product's category, and nothing when the product has no
/// category or the reference dangles (inner-join semantics).
pub open spec fn tx_category_name(
    tx: Transaction,
    prods: Seq<Product>,
    cats: Seq<Category>,
) -> Option<Seq<char>> {
    if has_product_id(prods, tx.product_id) {
        match product_of(prods, tx.product_id).category_id {
            Some(cid) => if has_category_id(cats, cid) {
                Some(category_of(cats, cid).name@)
            } else {
                None
            },
            None => None,
        }
    } else {
        None
    }
}

/// The minor units this user spent under this category name: the sum of
/// the joined price of every transaction of the user whose product's
/// category carries the name.
pub open spec fn sum_on_category(
    txs: Seq<Transaction>,
    prods: Seq<Product>,
    cats: Seq<Category>,
    prices: Seq<ProductPrice>,
    user_id: i32,
    name: Seq<char>,
) -> int
    decreases txs.len(),
{
    if txs.len() == 0 {
        0
    } else {
        let rest = sum_on_category(txs.drop_last(), prods, cats, prices, user_id, name);
        if txs.last().user_id == user_id && tx_category_name(txs.last(), prods, cats) == Some(name) {
            rest + price_of(prices, txs.last().product_price_id)
        } else {
            rest
        }
    }
}

/// Whether the user has a transaction counting toward this category name.
pub open spec fn has_user_category(
    txs: Seq<Transaction>,
    prods: Seq<Product>,
    cats: Seq<Category>,
    user_id: i32,
    name: Seq<char>,
) -> bool {
    exists|j: int|
        0 <= j < txs.len() && txs[j].user_id == user_id && tx_category_name(txs[j], prods, cats)
            == Some(name)
}

/// Strictly ascending names, by code point.
pub open spec fn sorted_strict_names(s: Seq<String>) -> bool {
    forall|k: int, l: int| 0 <= k < l < s.len() ==> lex_lt(s[k]@, s[l]@)
}

/// Whether the sequence holds a string with this view.
pub open spec fn contains_name(s: Seq<String>, v: Seq<char>) -> bool {
    exists|k: int| 0 <= k < s.len() && s[k]@ == v
}

impl Store {
    /// Sums this user's spending per category name, one entry per name
    /// with at least one matching transaction, ordered by name; products
    /// without a category contribute to no entry, and each total is the
    /// sum of the joined prices, clamped to a non-negative range. A
    /// product's category reference is followed as stored, whoever owns
    /// the category it lands on — category ids are never cross-checked
    /// against the caller.
    pub fn category_spending(&self, user_id: i32) -> (r: Vec<CategorySpending>)
        requires
            self.wf(),
        ensures
            forall|k: int, l: int|
                0 <= k < l < r@.len() ==> lex_lt(r@[k].category_name@, r@[l].category_name@),
            forall|k: int|
                0 <= k < r@.len() ==> (#[trigger] r@[k]).total_spending == clamp_total(
                    sum_on_category(
                        self.transactions@,
                        self.products@,
                        self.categories@,
                        self.product_prices@,
                        user_id,
                        r@[k].category_name@,
                    ),
                ),
            forall|k: int|
                0 <= k < r@.len() ==> has_user_category(
                    self.transactions@,
                    self.products@,
                    self.categories@,
                    user_id,
                    (#[trigger] r@[k]).category_name@,
                ),
            forall|j: int|
                0 <= j < self.transactions@.len() && (#[trigger] self.transactions@[j]).user_id
                    == user_id && tx_category_name(
                    self.transactions@[j],
                    self.products@,
                    self.categories@,
                ) is Some ==> exists|k: int|
                    0 <= k < r@.len() && Some(r@[k].category_name@) == tx_category_name(
                        self.transactions@[j],
                        self.products@,
                        self.categories@,
                    ),
    {
        // Phase one: the distinct category names, kept sorted.
        let mut names: Vec<String> = Vec::new();
        let mut i: usize = 0;
        while i < self.transactions.len()
            invariant
                0 <= i <= self.transactions@.len(),
                self.wf(),
                sorted_strict_names(names@),
                forall|k: int|
                    0 <= k < names@.len() ==> has_user_category(
                        self.transactions@,
                        self.products@,
                        self.categories@,
                        user_id,
                        (#[trigger] names@[k])@,
                    ),
                forall|j: int|
                    0 <= j < i && (#[trigger] self.transactions@[j]).user_id == user_id
                        && tx_category_name(
                        self.transactions@[j],
                        self.products@,
                        self.categories@,
                    ) is Some ==> contains_name(
                        names@,
                        tx_category_name(
                            self.transactions@[j],
                            self.products@,
                            self.categories@,
                        )->0,
                    ),
            decreases self.transactions@.len() - i,
        {
            let tx = &self.transactions[i];
            if tx.user_id == user_id {
                let pi = match find_product_by_id(&self.products, tx.product_id) {
                    Some(pi) => pi,
                    None => {
                        proof {
                            assert(has_product_id(
                                self.products@,
                                self.transactions@[i as int].product_id,
                            ));
                            assert(false);
                        }
                        0
                    },
                };
                proof {
                    crate::products::lemma_product_of_agrees(
                        self.products@,
                        self.transactions@[i as int].product_id,
                        pi as int,
                        self.next_product_id,
                    );
                }
                match self.products[pi].category_id {
                    Some(cid) => {
                        match find_category_by_id(&self.categories, cid) {
                            Some(ci) => {
                                proof {
                                    crate::categories::lemma_category_of_agrees(
                                        self.categories@,
                                        cid,
                                        ci as int,
                                        self.next_category_id,
                                    );
                                }
                                let nm = self.categories[ci].name.clone();
                                let ghost names_old = names@;
                                let mut pos: usize = 0;
                                while pos < names.len() && str_lt(names[pos].as_str(), nm.as_str())
                                    invariant
                                        0 <= pos <= names@.len(),
                                        names@ == names_old,
                                        forall|k: int| 0 <= k < pos ==> lex_lt(names@[k]@, nm@),
                                    decreases names@.len() - pos,
                                {
                                    pos = pos + 1;
                                }
                                let present = if pos < names.len() {
                                    str_eq(names[pos].as_str(), nm.as_str())
                                } else {
                                    false
                                };
                                if present {
                                    proof {
                                        assert(names@[pos as int]@ == nm@);
                                        assert(contains_name(names@, nm@));
                                    }
                                } else {
                                    proof {
                                        names_old.insert_ensures(pos as int, nm);
                                        if pos < names_old.len() {
                                            lemma_lex_lt_total(nm@, names_old[pos as int]@);
                                        }
                                        assert forall|k: int, l: int|
                                            0 <= k < l < names_old.insert(pos as int, nm).len() implies lex_lt(
                                            names_old.insert(pos as int, nm)[k]@,
                                            names_old.insert(pos as int, nm)[l]@,
                                        ) by {
                                            let ins = names_old.insert(pos as int, nm);
                                            if l < pos {
                                                assert(ins[k] == names_old[k] && ins[l]
                                                    == names_old[l]);
                                            } else if k < pos && l == pos {
                                                assert(ins[k] == names_old[k] && ins[l] == nm);
                                            } else if k < pos && l > pos {
                                                assert(ins[k] == names_old[k] && ins[l]
                                                    == names_old[l - 1]);
                                                if l - 1 > pos {
                                                    assert(lex_lt(
                                                        names_old[pos as int]@,
                                                        names_old[l - 1]@,
                                                    ));
                                                    lemma_lex_lt_transitive(
                                                        names_old[k]@,
                                                        nm@,
                                                        names_old[pos as int]@,
                                                    );
                                                    lemma_lex_lt_transitive(
                                                        names_old[k]@,
                                                        names_old[pos as int]@,
                                                        names_old[l - 1]@,
                                                    );
                                                } else {
                                                    lemma_lex_lt_transitive(
                                                        names_old[k]@,
                                                        nm@,
                                                        names_old[pos as int]@,
                                                    );
                                                }
                                            } else if k == pos {
                                                assert(ins[k] == nm && ins[l] == names_old[l - 1]);
                                                if l - 1 > pos {
                                                    assert(lex_lt(
                                                        names_old[pos as int]@,
                                                        names_old[l - 1]@,
                                                    ));
                                                    lemma_lex_lt_transitive(
                                                        nm@,
                                                        names_old[pos as int]@,
                                                        names_old[l - 1]@,
                                                    );
                                                }
                                            } else {
                                                assert(ins[k] == names_old[k - 1] && ins[l]
                                                    == names_old[l - 1]);
                                            }
                                        }
                                    }
                                    names.insert(pos, nm);
                                    proof {
                                        names_old.insert_ensures(pos as int, names@[pos as int]);
                                        assert forall|k: int|
                                            0 <= k < names@.len() implies has_user_category(
                                            self.transactions@,
                                            self.products@,
                                            self.categories@,
                                            user_id,
                                            (#[trigger] names@[k])@,
                                        ) by {
                                            if k < pos {
                                                assert(names@[k] == names_old[k]);
                                            } else if k == pos {
                                                assert(self.transactions@[i as int].user_id
                                                    == user_id && tx_category_name(
                                                    self.transactions@[i as int],
                                                    self.products@,
                                                    self.categories@,
                                                ) == Some(names@[k]@));
                                            } else {
                                                assert(names@[k] == names_old[k - 1]);
                                            }
                                        }
                                        assert forall|j: int|
                                            0 <= j < i + 1 && (#[trigger] self.transactions@[j]).user_id
                                                == user_id && tx_category_name(
                                                self.transactions@[j],
                                                self.products@,
                                                self.categories@,
                                            ) is Some implies contains_name(
                                            names@,
                                            tx_category_name(
                                                self.transactions@[j],
                                                self.products@,
                                                self.categories@,
                                            )->0,
                                        ) by {
                                            if j < i {
                                                let v = tx_category_name(
                                                    self.transactions@[j],
                                                    self.products@,
                                                    self.categories@,
                                                )->0;
                                                assert(contains_name(names_old, v));
                                                let k = choose|k: int|
                                                    0 <= k < names_old.len() && names_old[k]@ == v;
                                                if k < pos {
                                                    assert(names@[k]@ == v);
                                                } else {
                                                    assert(names@[k + 1]@ == v);
                                                }
                                            } else {
                                                assert(names@[pos as int]@ == tx_category_name(
                                                    self.transactions@[j],
                                                    self.products@,
                                                    self.categories@,
                                                )->0);
                                            }
                                        }
                                    }
                                }
                            },
                            None => {},
                        }
                    },
                    None => {},
                }
            }
            i = i + 1;
        }
        // Phase two: one pass per name sums its joined prices.
        let mut out: Vec<CategorySpending> = Vec::new();
        let mut k: usize = 0;
        while k < names.len()
            invariant
                0 <= k <= names@.len(),
                self.wf(),
                out@.len() == k,
                forall|x: int|
                    0 <= x < k ==> (#[trigger] out@[x]).category_name == names@[x] && out@[
                        x
                    ].total_spending == clamp_total(
                        sum_on_category(
                            self.transactions@,
                            self.products@,
                            self.categories@,
                            self.product_prices@,
                            user_id,
                            names@[x]@,
                        ),
                    ),
            decreases names@.len() - k,
        {
            let nm = names[k].clone();
            let mut acc: i128 = 0;
            let mut j: usize = 0;
            proof {
                assert(self.transactions@.take(0) =~= Seq::<Transaction>::empty());
            }
            while j < self.transactions.len()
                invariant
                    0 <= j <= self.transactions@.len(),
                    self.wf(),
                    nm@ == names@[k as int]@,
                    acc == sum_on_category(
                        self.transactions@.take(j as int),
                        self.products@,
                        self.categories@,
                        self.product_prices@,
                        user_id,
                        nm@,
                    ),
                    -(j as int) * 0x8000_0000 <= acc <= (j as int) * 0x8000_0000,
                decreases self.transactions@.len() - j,
            {
                proof {
                    assert(self.transactions@.take(j + 1).drop_last() =~= self.transactions@.take(
                        j as int,
                    ));
                    assert(self.transactions@.take(j + 1).last() == self.transactions@[j as int]);
                }
                let tx = &self.transactions[j];
                if tx.user_id == user_id {
                    let pi = match find_product_by_id(&self.products, tx.product_id) {
                        Some(pi) => pi,
                        None => {
                            proof {
                                assert(has_product_id(
                                    self.products@,
                                    self.transactions@[j as int].product_id,
                                ));
                                assert(false);
                            }
                            0
                        },
                    };
                    proof {
                        crate::products::lemma_product_of_agrees(
                            self.products@,
                            self.transactions@[j as int].product_id,
                            pi as int,
                            self.next_product_id,
                        );
                    }
                    match self.products[pi].category_id {
                        Some(cid) => {
                            match find_category_by_id(&self.categories, cid) {
                                Some(ci) => {
                                    proof {
                                        crate::categories::lemma_category_of_agrees(
                                            self.categories@,
                                            cid,
                                            ci as int,
                                            self.next_category_id,
                                        );
                                    }
                                    if str_eq(self.categories[ci].name.as_str(), nm.as_str()) {
                                        match find_price_by_id(
                                            &self.product_prices,
                                            tx.product_price_id,
                                        ) {
                                            Some(x) => {
                                                proof {
                                                    lemma_price_of_agrees(
                                                        self.product_prices@,
                                                        tx.product_price_id,
                                                        x as int,
                                                        self.next_product_price_id,
                                                        self.products@,
                                                    );
                                                }
                                                acc = acc + (self.product_prices[x].price as i128);
                                            },
                                            None => {
                                                proof {
                                                    assert(crate::product_prices::has_price_id(
                                                        self.product_prices@,
                                                        self.transactions@[j as int].product_price_id,
                                                    ));
                                                    assert(false);
                                                }
                                            },
                                        }
                                    }
                                },
                                None => {},
                            }
                        },
                        None => {},
                    }
                }
                j = j + 1;
            }
            proof {
                assert(self.transactions@.take(self.transactions@.len() as int)
                    =~= self.transactions@);
            }
            let total: i64 = if acc < 0 {
                0
            } else if acc > (i32::MAX as i128) {
                i32::MAX as i64
            } else {
                acc as i64
            };
            out.push(CategorySpending { category_name: nm, total_spending: total });
            k = k + 1;
        }
        proof {
            assert forall|j: int|
                0 <= j < self.transactions@.len() && (#[trigger] self.transactions@[j]).user_id
                    == user_id && tx_category_name(
                    self.transactions@[j],
                    self.products@,
                    self.categories@,
                ) is Some implies exists|k: int|
                0 <= k < out@.len() && Some(out@[k].category_name@) == tx_category_name(
                    self.transactions@[j],
                    self.products@,
                    self.categories@,
                ) by {
                let v = tx_category_name(
                    self.transactions@[j],
                    self.products@,
                    self.categories@,
                )->0;
                assert(contains_name(names@, v));
                let x = choose|x: int| 0 <= x < names@.len() && names@[x]@ == v;
                assert(out@[x].category_name@ == v);
            }
        }
        out
    }
}


/// The charting projection of one stored observation: its calendar day
/// and its minor-unit price.
pub open spec fn ppd_of(p: ProductPrice) -> ProductPriceData {
    ProductPriceData { date: day_of_spec(p.created_at as int) as i64, price: p.price }
}

/// A created_at-sorted arrangement of exactly the price observations of
/// one product.
pub open spec fn sorted_rows_of(
    rows: Seq<ProductPrice>,
    prices: Seq<ProductPrice>,
    product_id: i32,
) -> bool {
    &&& forall|k: int, l: int| 0 <= k < l < rows.len() ==> rows[k].created_at <= rows[l].created_at
    &&& rows.to_multiset() == crate::product_prices::prices_for(prices, product_id).to_multiset()
}

/// The charting projection of a row sequence, point by point.
pub open spec fn ppd_points_of(rows: Seq<ProductPrice>) -> Seq<ProductPriceData> {
    rows.map_values(|p: ProductPrice| ppd_of(p))
}

/// Sorts price observations by their timestamp, oldest first, by
/// repeatedly moving an earliest remaining observation across: the
/// result is a permutation of the input.
fn sort_price_rows(v: Vec<ProductPrice>) -> (r: Vec<ProductPrice>)
    ensures
        r@.len() == v@.len(),
        forall|k: int, l: int| 0 <= k < l < r@.len() ==> r@[k].created_at <= r@[l].created_at,
        r@.to_multiset() == v@.to_multiset(),
{
    broadcast use vstd::seq_lib::group_to_multiset_ensures, vstd::multiset::group_multiset_axioms;

    let mut pending = v;
    let mut out: Vec<ProductPrice> = Vec::new();
    proof {
        assert(out@.to_multiset() =~= Multiset::<ProductPrice>::empty());
        assert(out@.to_multiset().add(pending@.to_multiset()) =~= pending@.to_multiset());
    }
    while pending.len() > 0
        invariant
            out@.len() + pending@.len() == v@.len(),
            out@.to_multiset().add(pending@.to_multiset()) == v@.to_multiset(),
            forall|k: int, l: int|
                0 <= k < l < out@.len() ==> out@[k].created_at <= out@[l].created_at,
            forall|a: int, b: int|
                0 <= a < out@.len() && 0 <= b < pending@.len() ==> out@[a].created_at <= pending@[
                    b
                ].created_at,
        decreases pending@.len(),
    {
        let mut m: usize = 0;
        let mut j: usize = 1;
        while j < pending.len()
            invariant
                0 <= m < j <= pending@.len(),
                forall|b: int| 0 <= b < j ==> pending@[m as int].created_at <= pending@[b].created_at,
            decreases pending@.len() - j,
        {
            if pending[j].created_at < pending[m].created_at {
                m = j;
            }
            j = j + 1;
        }
        let ghost out_old = out@;
        let ghost pending_old = pending@;
        proof {
            pending_old.remove_ensures(m as int);
        }
        let x = pending.remove(m);
        out.push(x);
        proof {
            broadcast use vstd::seq_lib::group_to_multiset_ensures,
                vstd::multiset::group_multiset_axioms;

            assert(pending_old.contains(x)) by {
                assert(pending_old[m as int] == x);
            }
            assert(pending_old.to_multiset().count(x) > 0);
            assert(out@.to_multiset() =~= out_old.to_multiset().insert(x));
            assert(pending@.to_multiset() =~= pending_old.to_multiset().remove(x));
            assert(out@.to_multiset().add(pending@.to_multiset()) =~= out_old.to_multiset().add(
                pending_old.to_multiset(),
            ));
            assert forall|a: int, b: int|
                0 <= a < out@.len() && 0 <= b < pending@.len() implies out@[a].created_at
                <= pending@[b].created_at by {
                if b < m {
                    assert(pending@[b] == pending_old[b]);
                } else {
                    assert(pending@[b] == pending_old[b + 1]);
                }
                if a < out_old.len() {
                    assert(out@[a] == out_old[a]);
                    assert(out_old[a].created_at <= pending_old[m as int].created_at);
                } else {
                    assert(out@[a] == x);
                }
                assert(x.created_at <= pending_old[b + (if b < m { 0int } else { 1int })].created_at);
            }
        }
    }
    proof {
        assert(pending@.to_multiset() =~= Multiset::<ProductPrice>::empty());
        assert(out@.to_multiset().add(pending@.to_multiset()) =~= out@.to_multiset());
    }
    out
}

impl Store {
    /// The price history of one product for charting: the product's
    /// observations ordered by their caller-supplied timestamp, oldest
    /// first (observations sharing a timestamp in unspecified relative
    /// order), each projected to the calendar day it was recorded on and
    /// its minor-unit price. Like the store's other price reads this
    /// query is keyed by the product alone and not scoped to a caller.
    pub fn product_price_data(&self, product_id: i32) -> (r: Vec<ProductPriceData>)
        ensures
            r@.len() == crate::product_prices::prices_for(
                self.product_prices@,
                product_id,
            ).len(),
            forall|k: int, l: int| 0 <= k < l < r@.len() ==> r@[k].date <= r@[l].date,
            exists|rows: Seq<ProductPrice>|
                #[trigger] sorted_rows_of(rows, self.product_prices@, product_id) && r@
                    == ppd_points_of(rows),
    {
        broadcast use vstd::seq_lib::group_to_multiset_ensures;

        let mut matched: Vec<ProductPrice> = Vec::new();
        let mut i: usize = 0;
        proof {
            assert(self.product_prices@.take(0) =~= Seq::<ProductPrice>::empty());
            reveal(Seq::filter);
            assert(matched@ =~= crate::product_prices::prices_for(
                self.product_prices@.take(0),
                product_id,
            ));
        }
        while i < self.product_prices.len()
            invariant
                0 <= i <= self.product_prices@.len(),
                matched@ == crate::product_prices::prices_for(
                    self.product_prices@.take(i as int),
                    product_id,
                ),
            decreases self.product_prices@.len() - i,
        {
            proof {
                broadcast use Seq::lemma_filter_push;

                assert(self.product_prices@.take(i + 1) =~= self.product_prices@.take(i as int).push(
                    self.product_prices@[i as int],
                ));
            }
            if self.product_prices[i].product_id == product_id {
                matched.push(self.product_prices[i].clone());
            }
            i = i + 1;
        }
        proof {
            assert(self.product_prices@.take(self.product_prices@.len() as int)
                =~= self.product_prices@);
        }
        let rows = sort_price_rows(matched);
        proof {
            assert(sorted_rows_of(rows@, self.product_prices@, product_id));
        }
        let mut out: Vec<ProductPriceData> = Vec::new();
        let mut k: usize = 0;
        proof {
            assert(out@ =~= ppd_points_of(rows@.take(0)));
        }
        while k < rows.len()
            invariant
                0 <= k <= rows@.len(),
                out@ == ppd_points_of(rows@.take(k as int)),
            decreases rows@.len() - k,
        {
            proof {
                assert(rows@.take(k + 1) =~= rows@.take(k as int).push(rows@[k as int]));
                assert(ppd_points_of(rows@.take(k + 1)) =~= ppd_points_of(rows@.take(k as int)).push(
                    ppd_of(rows@[k as int]),
                ));
            }
            let row = &rows[k];
            let day = day_of(row.created_at);
            out.push(ProductPriceData { date: day, price: row.price });
            k = k + 1;
        }
        proof {
            assert(rows@.take(rows@.len() as int) =~= rows@);
            assert(out@ == ppd_points_of(rows@));
            assert(out@.len() == rows@.len());
            assert(rows@.to_multiset().len() == crate::product_prices::prices_for(
                self.product_prices@,
                product_id,
            ).to_multiset().len());
            assert forall|x: int, l: int| 0 <= x < l < out@.len() implies out@[x].date <= out@[
                l
            ].date by {
                assert(out@[x] == ppd_of(rows@[x]));
                assert(out@[l] == ppd_of(rows@[l]));
                assert(rows@[x].created_at <= rows@[l].created_at);
                vstd::arithmetic::div_mod::lemma_div_is_ordered(
                    rows@[x].created_at as int,
                    rows@[l].created_at as int,
                    86400,
                );
            }
        }
        out
    }
}

} // verus!
