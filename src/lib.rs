pub mod address;
pub mod keyed;
pub mod laws;
pub mod methods;
pub mod wallet;

pub use address::Address;
pub use methods::AuthMethods;
pub use wallet::{SocialAccount, SocialWallet, WalletError};
