pub mod path_finder;
pub mod relay_router;
