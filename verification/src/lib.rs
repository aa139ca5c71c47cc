//! A verified resource layer: role-gated CRUD over an in-memory category
//! store, a read-only user profile lookup, and an idempotent catalog seeder.
//!
//! The store stands in for the relational backend as an explicitly owned,
//! injected value, so every service is verified against a contract over the
//! store's mathematical view.

pub mod auth;
pub mod categories;
pub mod errors;
pub mod seed;
pub mod users;

pub use auth::Identity;
pub use auth::is_admin;
pub use auth::require_admin;
pub use categories::Category;
pub use categories::CategoryDto;
pub use categories::CategoryStore;
pub use categories::create_category;
pub use categories::delete_category;
pub use categories::get_category;
pub use categories::list_categories;
pub use categories::update_category;
pub use errors::AppError;
pub use seed::CatalogEntry;
pub use seed::Product;
pub use seed::ProductStore;
pub use seed::SeedOutcome;
pub use seed::catalog;
pub use seed::seed_products;
pub use seed::seed_with_catalog;
pub use users::UserProfile;
pub use users::UserStore;
pub use users::get_user;
