pub mod overview;
