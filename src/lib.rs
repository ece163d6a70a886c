//! Cinema reservations: the relational data model, the capacity and
//! ownership rules for seat reservations, and the request logic around them.
pub mod app_error;
pub mod consistency;
pub mod db;
pub mod forms;
pub mod handlers;
pub mod models;
pub mod table;
pub mod templates_structs;
