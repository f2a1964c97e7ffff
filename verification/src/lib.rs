pub mod text;
pub mod numbers;
pub mod options;
pub mod swapper;
pub mod width;
pub mod view;
pub mod layout;
