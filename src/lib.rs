//! Records of students with 504/IEP accommodation plans, the classes they
//! attend, and per-date logs of whether each accommodation was provided.
//!
//! `model` holds the entity types, `schema` the versioned migration chain and
//! the engine that applies it, `rows` what every stored row shares (its id,
//! and the table operations built on it), and `store` the data-access layer
//! that keeps the relational invariants (uniqueness, references, cascading
//! deletes).
pub mod model;
pub mod schema;
pub mod rows;
pub mod store;

pub use model::{
    Accommodation, AccommodationServiceLog, Class, ClassStudent, SixWeekPeriod, Student,
};
pub use schema::{migrations, Migration, SchemaState};
pub use store::{Store, StoreError};
