//! End-to-end workflows against the store: the full sign-up to listing
//! path, and the credential scenarios around it.

use fintrack::categories::CategoryPayload;
use fintrack::errors::ApiError;
use fintrack::product_prices::ProductPricePayload;
use fintrack::products::ProductPayload;
use fintrack::store::Store;
use fintrack::transactions::{TransactionPayload, TransactionType};
use fintrack::users::{LoginRequest, NewUser};

const SECRET: &str = "test-signing-secret";
const NOW: u64 = 2_000_000_000;

// 2025-01-08T12:00:00Z as seconds since the epoch.
const JAN8_NOON: i64 = 1_736_337_600;

#[test]
fn test_full_workflow() {
    let mut store = Store::new();

    // 1. Sign up a user.
    let user = store
        .sign_up(NewUser {
            email: "alice@example.com".to_string(),
            password_hash: "secret123".to_string(),
        })
        .expect("sign-up should succeed");
    assert_eq!(user.id, 1);
    assert_eq!(user.email, "alice@example.com");

    // 2. The same email again is a conflict.
    let again = store.sign_up(NewUser {
        email: "alice@example.com".to_string(),
        password_hash: "secret123".to_string(),
    });
    assert_eq!(again.unwrap_err(), ApiError::EmailExists);
    assert_eq!(
        ApiError::EmailExists.message(),
        "A user with that email already exists"
    );

    // 3. Login yields a bearer token that authenticates requests.
    let token = store
        .login(
            LoginRequest {
                email: "alice@example.com".to_string(),
                password_hash: "secret123".to_string(),
            },
            NOW,
            SECRET,
        )
        .expect("login should succeed")
        .token;
    let header = format!("Bearer {}", token);
    let uid = fintrack::auth::require_auth(Some(header.as_str()), SECRET)
        .expect("token should authenticate");
    assert_eq!(uid, 1);

    // 4. Create "Groceries".
    let groceries = store
        .create_category(
            uid,
            CategoryPayload {
                parent_category_id: None,
                parent_category_name: None,
                name: "Groceries".to_string(),
            },
        )
        .expect("category should be created");
    assert_eq!(groceries.category.id, 1);
    assert_eq!(groceries.category.name, "Groceries");
    assert!(groceries.parent.is_none());

    // 5. Create "Dairy" under "Groceries".
    let dairy = store
        .create_category(
            uid,
            CategoryPayload {
                parent_category_id: Some(1),
                parent_category_name: None,
                name: "Dairy".to_string(),
            },
        )
        .expect("subcategory should be created");
    assert_eq!(dairy.category.id, 2);
    assert_eq!(dairy.category.parent_category_id, Some(1));
    let parent = dairy.parent.expect("parent should be echoed");
    assert_eq!(parent.id, 1);
    assert_eq!(parent.name, "Groceries");

    // 6. Create the product "Milk".
    let milk = store
        .create_product(
            uid,
            ProductPayload {
                category_id: None,
                category_name: None,
                name: "Milk".to_string(),
            },
        )
        .expect("product should be created");
    assert_eq!(milk.product.id, 1);

    // 7. Record a price of 299 minor units.
    let price = store
        .create_product_price(
            uid,
            ProductPricePayload {
                product_id: Some(1),
                product_name: None,
                price: 299,
                created_at: JAN8_NOON,
            },
        )
        .expect("price should be recorded");
    assert_eq!(price.product_price.id, 1);
    assert_eq!(price.product_price.product_id, 1);
    assert_eq!(price.product_price.price, 299);
    assert_eq!(price.product.name, "Milk");

    // 8. Create a transaction for the product.
    let tx = store
        .create_transaction(
            uid,
            TransactionPayload {
                product_id: Some(1),
                product_name: None,
                product_price_id: None,
                price: Some(299),
                transaction_type: TransactionType::Expense,
                description: Some("Bought milk at the store".to_string()),
                date: JAN8_NOON,
                tags: None,
            },
        )
        .expect("transaction should be created");
    assert_eq!(tx.transaction.id, 1);
    assert_eq!(tx.transaction.product_id, 1);
    assert_eq!(tx.product.name, "Milk");
    assert_eq!(tx.product_price.price, 299);
    assert_eq!(tx.tags.len(), 0);

    // 9. The listing shows exactly that transaction.
    let listed = store.list_transactions(uid);
    assert_eq!(listed.len(), 1);
    assert_eq!(listed[0].id, 1);
    assert_eq!(listed[0].user_id, 1);
    assert_eq!(listed[0].product_id, 1);
    assert_eq!(
        listed[0].description.as_deref(),
        Some("Bought milk at the store")
    );
    assert_eq!(listed[0].tags.len(), 0);
}

#[test]
fn signup_login_scenario() {
    let mut store = Store::new();

    // Sign up succeeds, the duplicate conflicts.
    let u = store
        .sign_up(NewUser { email: "a@x.com".to_string(), password_hash: "pw".to_string() })
        .expect("sign-up should succeed");
    assert_eq!(u.id, 1);
    let dup = store.sign_up(NewUser {
        email: "a@x.com".to_string(),
        password_hash: "pw".to_string(),
    });
    assert_eq!(dup.unwrap_err(), ApiError::EmailExists);

    // The right password logs in, the wrong one is rejected uniformly.
    assert!(store
        .login(
            LoginRequest { email: "a@x.com".to_string(), password_hash: "pw".to_string() },
            NOW,
            SECRET,
        )
        .is_ok());
    let wrong = store.login(
        LoginRequest { email: "a@x.com".to_string(), password_hash: "wrong".to_string() },
        NOW,
        SECRET,
    );
    assert_eq!(wrong.unwrap_err(), ApiError::InvalidCredentials);
    let unknown = store.login(
        LoginRequest { email: "b@x.com".to_string(), password_hash: "pw".to_string() },
        NOW,
        SECRET,
    );
    assert_eq!(unknown.unwrap_err(), ApiError::InvalidCredentials);
    assert_eq!(
        ApiError::InvalidCredentials.message(),
        "Invalid email or password"
    );

    // Category id 1, product id 1, then a transaction by product name.
    let cat = store
        .create_category(
            1,
            CategoryPayload {
                parent_category_id: None,
                parent_category_name: None,
                name: "Groceries".to_string(),
            },
        )
        .unwrap();
    assert_eq!(cat.category.id, 1);
    let prod = store
        .create_product(
            1,
            ProductPayload {
                category_id: Some(1),
                category_name: None,
                name: "Milk".to_string(),
            },
        )
        .unwrap();
    assert_eq!(prod.product.id, 1);

    let tx = store
        .create_transaction(
            1,
            TransactionPayload {
                product_id: None,
                product_name: Some("Milk".to_string()),
                product_price_id: None,
                price: Some((2.99f64 * 100.0).round() as i32),
                transaction_type: TransactionType::Expense,
                description: None,
                date: 1_736_294_400,
                tags: None,
            },
        )
        .expect("transaction should be created");
    // The resolving path reused product id 1 rather than creating one.
    assert_eq!(tx.transaction.product_id, 1);
    assert_eq!(tx.product_price.price, 299);
    // Rendered in major units at the boundary, the price reads 2.99.
    assert_eq!(tx.product_price.price as f64 / 100.0, 2.99);

    let listed = store.list_transactions(1);
    assert_eq!(listed.len(), 1);
    assert_eq!(listed[0].product_id, 1);
    assert!(listed[0].tags.is_empty());
}

#[test]
fn auth_rejects_bad_headers() {
    assert_eq!(
        fintrack::auth::require_auth(None, SECRET).unwrap_err(),
        ApiError::Unauthorized
    );
    assert_eq!(
        fintrack::auth::require_auth(Some("Basic abc"), SECRET).unwrap_err(),
        ApiError::Unauthorized
    );
    assert_eq!(
        fintrack::auth::require_auth(Some("Bearer not.a.token"), SECRET).unwrap_err(),
        ApiError::Unauthorized
    );
    assert_eq!(
        fintrack::auth::require_auth(Some("Bear"), SECRET).unwrap_err(),
        ApiError::Unauthorized
    );
}

#[test]
fn tokens_verify_only_with_their_secret() {
    let token = fintrack::auth::generate_jwt(7, NOW, SECRET);
    let header = format!("Bearer {}", token);
    assert_eq!(
        fintrack::auth::require_auth(Some(header.as_str()), SECRET).unwrap(),
        7
    );
    assert_eq!(
        fintrack::auth::require_auth(Some(header.as_str()), "another-secret").unwrap_err(),
        ApiError::Unauthorized
    );
}
