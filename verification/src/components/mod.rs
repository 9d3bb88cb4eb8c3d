pub mod smc;
