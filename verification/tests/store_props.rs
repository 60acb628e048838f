//! Property-style checks on concrete values: isolation between users,
//! conflict versus reuse on the two create paths, atomicity of the
//! composite write, and the aggregation views.

use fintrack::categories::CategoryPayload;
use fintrack::errors::ApiError;
use fintrack::product_prices::ProductPricePayload;
use fintrack::products::ProductPayload;
use fintrack::store::Store;
use fintrack::tags::{TagPayload, TagReference};
use fintrack::transactions::{TransactionPayload, TransactionType};

const DAY: i64 = 86_400;

fn category(name: &str) -> CategoryPayload {
    CategoryPayload {
        parent_category_id: None,
        parent_category_name: None,
        name: name.to_string(),
    }
}

fn product(name: &str) -> ProductPayload {
    ProductPayload { category_id: None, category_name: None, name: name.to_string() }
}

fn expense(product_name: &str, cents: i32, date: i64, tags: Option<Vec<TagReference>>) -> TransactionPayload {
    TransactionPayload {
        product_id: None,
        product_name: Some(product_name.to_string()),
        product_price_id: None,
        price: Some(cents),
        transaction_type: TransactionType::Expense,
        description: None,
        date,
        tags,
    }
}

#[test]
fn listings_are_scoped_per_user() {
    let mut store = Store::new();
    store.create_category(1, category("Groceries")).unwrap();
    store.create_product(1, product("Milk")).unwrap();
    store.create_tag(1, TagPayload { name: "weekly".to_string() }).unwrap();
    store.create_transaction(1, expense("Milk", 250, 10 * DAY, None)).unwrap();

    assert_eq!(store.list_categories(2).len(), 0);
    assert_eq!(store.list_products(2).len(), 0);
    assert_eq!(store.list_tags(2).len(), 0);
    assert_eq!(store.list_transactions(2).len(), 0);
    assert_eq!(store.spending_time_series(2).len(), 0);
    assert_eq!(store.category_spending(2).len(), 0);

    // The other user may even hold the same names, in their own rows.
    let c = store.create_category(2, category("Groceries")).unwrap();
    assert_ne!(c.category.id, 1);
    assert_eq!(store.list_categories(2).len(), 1);
    assert_eq!(store.list_categories(1).len(), 1);
}

#[test]
fn direct_creates_conflict_on_second_attempt() {
    let mut store = Store::new();
    store.create_category(1, category("Food")).unwrap();
    assert_eq!(
        store.create_category(1, category("Food")).unwrap_err(),
        ApiError::DuplicateCategory
    );
    store.create_product(1, product("Milk")).unwrap();
    assert_eq!(
        store.create_product(1, product("Milk")).unwrap_err(),
        ApiError::DuplicateProduct
    );
    store.create_tag(1, TagPayload { name: "weekly".to_string() }).unwrap();
    assert_eq!(
        store.create_tag(1, TagPayload { name: "weekly".to_string() }).unwrap_err(),
        ApiError::DuplicateTag
    );
    // Another user is free to take the same names.
    assert!(store.create_category(2, category("Food")).is_ok());
}

#[test]
fn resolving_paths_reuse_existing_rows() {
    let mut store = Store::new();
    let first = store
        .create_product(
            1,
            ProductPayload {
                category_id: None,
                category_name: Some("Food".to_string()),
                name: "Milk".to_string(),
            },
        )
        .unwrap();
    let food_id = first.category.as_ref().unwrap().id;

    // Naming the same category again reuses its row.
    let second = store
        .create_product(
            1,
            ProductPayload {
                category_id: None,
                category_name: Some("Food".to_string()),
                name: "Cheese".to_string(),
            },
        )
        .unwrap();
    assert_eq!(second.category.as_ref().unwrap().id, food_id);
    assert_eq!(store.list_categories(1).len(), 1);

    // The transaction path reuses both the product and a tag.
    let t1 = store
        .create_transaction(
            1,
            expense("Milk", 100, DAY, Some(vec![TagReference::Name("w".to_string())])),
        )
        .unwrap();
    let t2 = store
        .create_transaction(
            1,
            expense("Milk", 150, DAY, Some(vec![TagReference::Name("w".to_string())])),
        )
        .unwrap();
    assert_eq!(t1.transaction.product_id, t2.transaction.product_id);
    assert_eq!(t1.tags[0].id, t2.tags[0].id);
    assert_eq!(store.list_tags(1).len(), 1);
    assert_eq!(store.list_products(1).len(), 2);
}

#[test]
fn three_distinct_tags_link_three_rows() {
    let mut store = Store::new();
    let tx = store
        .create_transaction(
            1,
            expense(
                "Milk",
                100,
                DAY,
                Some(vec![
                    TagReference::Name("a".to_string()),
                    TagReference::Name("b".to_string()),
                    TagReference::Name("c".to_string()),
                ]),
            ),
        )
        .unwrap();
    assert_eq!(tx.tags.len(), 3);
    assert_eq!(store.transaction_tags.len(), 3);
    assert_eq!(tx.tags[0].name, "a");
    assert_eq!(tx.tags[1].name, "b");
    assert_eq!(tx.tags[2].name, "c");
    let ids: Vec<i32> = tx.tags.iter().map(|t| t.id).collect();
    assert!(ids[0] != ids[1] && ids[1] != ids[2] && ids[0] != ids[2]);
    let listed = store.list_transactions(1);
    assert_eq!(listed[0].tags, ids);
}

#[test]
fn failed_transaction_leaves_no_partial_state() {
    let mut store = Store::new();

    // Tag resolution fails on a dangling tag id: nothing persists, not
    // even the product or price the same request would have created.
    let err = store.create_transaction(
        1,
        expense("Milk", 100, DAY, Some(vec![TagReference::Id(999)])),
    );
    assert_eq!(err.unwrap_err(), ApiError::NoSuchTag);
    assert_eq!(store.products.len(), 0);
    assert_eq!(store.product_prices.len(), 0);
    assert_eq!(store.transactions.len(), 0);
    assert_eq!(store.transaction_tags.len(), 0);

    // A duplicated tag reference aborts the same way.
    let err = store.create_transaction(
        1,
        expense(
            "Milk",
            100,
            DAY,
            Some(vec![
                TagReference::Name("w".to_string()),
                TagReference::Name("w".to_string()),
            ]),
        ),
    );
    assert_eq!(err.unwrap_err(), ApiError::DuplicateTransactionTag);
    assert_eq!(store.products.len(), 0);
    assert_eq!(store.tags.len(), 0);
    assert_eq!(store.transactions.len(), 0);
}

#[test]
fn same_day_transactions_aggregate_into_one_entry() {
    let mut store = Store::new();
    // Same calendar day, different times of day.
    store.create_transaction(1, expense("Milk", 250, 10 * DAY + 3600, None)).unwrap();
    store.create_transaction(1, expense("Milk", 150, 10 * DAY + 7200, None)).unwrap();
    // A different day on either side, out of order on purpose.
    store.create_transaction(1, expense("Milk", 100, 12 * DAY, None)).unwrap();
    store.create_transaction(1, expense("Milk", 700, 9 * DAY, None)).unwrap();

    let series = store.spending_time_series(1);
    assert_eq!(series.len(), 3);
    assert_eq!(series[0].date, 9);
    assert_eq!(series[0].total_spending, 700);
    assert_eq!(series[1].date, 10);
    assert_eq!(series[1].total_spending, 400);
    assert_eq!(series[2].date, 12);
    assert_eq!(series[2].total_spending, 100);
}

#[test]
fn category_spending_uses_inner_join_semantics() {
    let mut store = Store::new();
    store
        .create_product(
            1,
            ProductPayload {
                category_id: None,
                category_name: Some("Food".to_string()),
                name: "Milk".to_string(),
            },
        )
        .unwrap();
    // A product without a category, and a category with no transactions.
    store.create_product(1, product("Mystery")).unwrap();
    store.create_category(1, category("Travel")).unwrap();

    store.create_transaction(1, expense("Milk", 300, DAY, None)).unwrap();
    store.create_transaction(1, expense("Milk", 200, 2 * DAY, None)).unwrap();
    store.create_transaction(1, expense("Mystery", 999, DAY, None)).unwrap();

    let spending = store.category_spending(1);
    // "Mystery" counts toward no category, and "Travel" has none: one row.
    assert_eq!(spending.len(), 1);
    assert_eq!(spending[0].category_name, "Food");
    assert_eq!(spending[0].total_spending, 500);
}

#[test]
fn price_history_is_ordered_by_observation_time() {
    let mut store = Store::new();
    // Recorded out of order: a later observation first, then an earlier
    // one (prices are historical records with caller-supplied times).
    store
        .create_product_price(
            1,
            ProductPricePayload {
                product_id: None,
                product_name: Some("Milk".to_string()),
                price: 275,
                created_at: 3 * DAY,
            },
        )
        .unwrap();
    store
        .create_product_price(
            1,
            ProductPricePayload {
                product_id: Some(1),
                product_name: None,
                price: 250,
                created_at: DAY,
            },
        )
        .unwrap();
    // An observation of another product stays out.
    store
        .create_product_price(
            1,
            ProductPricePayload {
                product_id: None,
                product_name: Some("Cheese".to_string()),
                price: 900,
                created_at: 2 * DAY,
            },
        )
        .unwrap();

    // The listing comes back oldest first, regardless of insertion order.
    let prices = store.list_product_prices(1);
    assert_eq!(prices.len(), 2);
    assert_eq!(prices[0].created_at, DAY);
    assert_eq!(prices[0].price, 250);
    assert_eq!(prices[1].created_at, 3 * DAY);
    assert_eq!(prices[1].price, 275);

    let chart = store.product_price_data(1);
    assert_eq!(chart.len(), 2);
    assert_eq!(chart[0].date, 1);
    assert_eq!(chart[0].price, 250);
    assert_eq!(chart[1].date, 3);
    assert_eq!(chart[1].price, 275);
}

#[test]
fn read_endpoints_are_stable_absent_writes() {
    let mut store = Store::new();
    store.create_category(1, category("Food")).unwrap();
    store.create_product(1, product("Milk")).unwrap();
    store.create_tag(1, TagPayload { name: "w".to_string() }).unwrap();
    store.create_transaction(1, expense("Milk", 100, DAY, None)).unwrap();

    let cats_a = store.list_categories(1);
    let cats_b = store.list_categories(1);
    assert_eq!(cats_a.len(), cats_b.len());
    assert_eq!(cats_a[0].id, cats_b[0].id);
    assert_eq!(cats_a[0].name, cats_b[0].name);

    let txs_a = store.list_transactions(1);
    let txs_b = store.list_transactions(1);
    assert_eq!(txs_a.len(), txs_b.len());
    assert_eq!(txs_a[0].id, txs_b[0].id);
    assert_eq!(txs_a[0].tags, txs_b[0].tags);

    let tags_a = store.list_tags(1);
    let tags_b = store.list_tags(1);
    assert_eq!(tags_a.len(), tags_b.len());

    let prods_a = store.list_products(1);
    let prods_b = store.list_products(1);
    assert_eq!(prods_a.len(), prods_b.len());
}

#[test]
fn blank_names_are_rejected_before_any_write() {
    let mut store = Store::new();
    assert_eq!(
        store.create_category(1, category("   ")).unwrap_err(),
        ApiError::BlankCategoryName
    );
    assert_eq!(
        store.create_product(1, product("\t \n")).unwrap_err(),
        ApiError::BlankProductName
    );
    // A blank product reference fails the price path.
    let err = store.create_product_price(
        1,
        ProductPricePayload {
            product_id: None,
            product_name: Some("  ".to_string()),
            price: 100,
            created_at: 0,
        },
    );
    assert_eq!(err.unwrap_err(), ApiError::MissingProductReference);
    assert_eq!(store.categories.len(), 0);
    assert_eq!(store.products.len(), 0);
    assert_eq!(store.product_prices.len(), 0);
}

#[test]
fn resolved_names_are_trimmed_but_direct_names_are_not() {
    let mut store = Store::new();
    let p = store
        .create_product(
            1,
            ProductPayload {
                category_id: None,
                category_name: Some("  Food  ".to_string()),
                name: "Milk".to_string(),
            },
        )
        .unwrap();
    // The category created by resolution carries the trimmed name.
    assert_eq!(p.category.unwrap().name, "Food");
    // Referring to it with different padding still finds it.
    let q = store
        .create_product(
            1,
            ProductPayload {
                category_id: None,
                category_name: Some("Food ".to_string()),
                name: "Cheese".to_string(),
            },
        )
        .unwrap();
    assert_eq!(store.list_categories(1).len(), 1);
    assert_eq!(q.category.unwrap().name, "Food");
}

#[test]
fn dangling_references_are_rejected() {
    let mut store = Store::new();
    // A price for a product id that does not exist.
    let err = store.create_product_price(
        1,
        ProductPricePayload {
            product_id: Some(42),
            product_name: None,
            price: 100,
            created_at: 0,
        },
    );
    assert_eq!(err.unwrap_err(), ApiError::NoSuchProduct);

    // A transaction naming a product id that does not exist.
    let err = store.create_transaction(
        1,
        TransactionPayload {
            product_id: Some(42),
            product_name: None,
            product_price_id: None,
            price: Some(100),
            transaction_type: TransactionType::Expense,
            description: None,
            date: DAY,
            tags: None,
        },
    );
    assert_eq!(err.unwrap_err(), ApiError::NoSuchProduct);

    // A transaction naming a price id that does not exist.
    store.create_product(1, product("Milk")).unwrap();
    let err = store.create_transaction(
        1,
        TransactionPayload {
            product_id: Some(1),
            product_name: None,
            product_price_id: Some(42),
            price: None,
            transaction_type: TransactionType::Expense,
            description: None,
            date: DAY,
            tags: None,
        },
    );
    assert_eq!(err.unwrap_err(), ApiError::NoSuchProductPrice);

    // A transaction with no product reference at all.
    let err = store.create_transaction(
        1,
        TransactionPayload {
            product_id: None,
            product_name: None,
            product_price_id: None,
            price: Some(100),
            transaction_type: TransactionType::Expense,
            description: None,
            date: DAY,
            tags: None,
        },
    );
    assert_eq!(err.unwrap_err(), ApiError::MissingProductReference);
    assert_eq!(store.transactions.len(), 0);
}

#[test]
fn transactions_can_reference_an_existing_price() {
    let mut store = Store::new();
    store
        .create_product_price(
            1,
            ProductPricePayload {
                product_id: None,
                product_name: Some("Milk".to_string()),
                price: 299,
                created_at: DAY,
            },
        )
        .unwrap();
    let tx = store
        .create_transaction(
            1,
            TransactionPayload {
                product_id: Some(1),
                product_name: None,
                product_price_id: Some(1),
                price: None,
                transaction_type: TransactionType::Income,
                description: None,
                date: 2 * DAY,
                tags: None,
            },
        )
        .unwrap();
    // The existing observation is reused, not re-recorded.
    assert_eq!(tx.product_price.id, 1);
    assert_eq!(tx.product_price.price, 299);
    assert_eq!(store.product_prices.len(), 1);
    // An absent price with no price id records a zero-amount observation.
    let tx2 = store
        .create_transaction(
            1,
            TransactionPayload {
                product_id: Some(1),
                product_name: None,
                product_price_id: None,
                price: None,
                transaction_type: TransactionType::Expense,
                description: None,
                date: 2 * DAY,
                tags: None,
            },
        )
        .unwrap();
    assert_eq!(tx2.product_price.price, 0);
    assert_eq!(store.product_prices.len(), 2);
}
