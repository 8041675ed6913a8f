//! A fixed-width unsigned integer of 4096 bits with checked addition, and a
//! few small exercises beside it: temperature and Fibonacci numbers,
//! borrowed values, slices split four ways, and a toy bank.

pub mod bank;
pub mod biguint;
pub mod calc;
pub mod lifetimes;
pub mod slices;
