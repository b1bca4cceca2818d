//! Pronounceable random passwords drawn from fixed character pools, an
//! entropy estimate for a password, and the text form of a password list.

pub mod entropy;
pub mod error;
pub mod generate;
pub mod pools;
pub mod power;
pub mod random;
pub mod storage;

pub use crate::entropy::check_entropy;
pub use crate::entropy::Entropy;
pub use crate::entropy::PasswordStrength;
pub use crate::error::Error;
pub use crate::error::LengthRule;
pub use crate::error::Transfer;
pub use crate::generate::generate_list;
pub use crate::generate::generate_numbers;
pub use crate::generate::generate_password;
pub use crate::generate::generate_specials;
pub use crate::generate::generate_words;
pub use crate::random::next_index;
pub use crate::storage::decode_list;
pub use crate::storage::encode_list;
pub use crate::storage::Newline;
