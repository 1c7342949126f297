pub mod options;
pub mod abi_type;
pub mod sig_map;
pub mod signature;
pub mod assembly;
pub mod metadata;
