pub mod security;
