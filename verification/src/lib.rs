pub mod expansion;
pub mod export;
pub mod manifest_checker;
pub mod models;
pub mod order;
pub mod paths;
pub mod reconcile;
pub mod sorting;
pub mod text;
