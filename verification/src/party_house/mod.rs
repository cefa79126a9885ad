pub mod guest;
pub mod house;
