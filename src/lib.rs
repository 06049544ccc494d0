//! A model of ownership and borrowing: heap cells held by one owning
//! binding each, shared and mutable references as descriptors, and the
//! read / write / own permissions that live loans suspend.

pub mod demo;
pub mod laws;
pub mod tracker;
pub mod value;
