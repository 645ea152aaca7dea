//! The entry points of the service, one for each route.
pub use crate::accounts::{login_user, register_user};
pub use crate::catalog::{create_command, delete_command, list_commands, suggest_commands};
pub use crate::device::{create_device_code, exchange_token};
pub use crate::health::health;
pub use crate::learned::{learn_command, list_learned, promote_learned};
pub use crate::models::CommandQuery;
