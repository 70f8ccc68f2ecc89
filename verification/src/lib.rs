pub mod clock;
pub mod credentials;
pub mod db;
pub mod lumina_env;
pub mod sql;
pub mod text;
pub mod web_auth;
