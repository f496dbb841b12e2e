//! Package search, selection and upgrade logic of the `kea` pacman/AUR helper.
pub mod package;
pub mod search;
pub mod upgrade;
pub mod config;
pub mod callbacks;
pub mod terminal;
pub mod kea;
