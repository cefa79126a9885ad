pub mod party_house;
