//! A small authentication library: a credential store mapping normalized
//! usernames to credential records, a deterministic password hasher, a pure
//! login decision function, and a binary wire codec for login requests and
//! responses, together with the per-connection protocol step that ties them
//! together.

mod auth;
mod codec;
mod denied_reason;
mod hashing;
mod login_action;
mod primes;
mod protocol;
mod role;
mod shared;
mod store;
mod text;
mod user;

pub use auth::lemma_authenticate_normalized;
pub use auth::lemma_authenticate_padded_username;
pub use auth::lemma_authenticate_unknown;
pub use auth::lemma_wrong_password_indistinguishable;
pub use auth::login;
pub use auth::spec_login;
pub use codec::decode_request;
pub use codec::decode_response;
pub use codec::decoded_action;
pub use codec::decoded_chars;
pub use codec::decoded_reason;
pub use codec::decoded_role;
pub use codec::decoded_str;
pub use codec::encodable_str;
pub use codec::encoded_action;
pub use codec::encoded_char;
pub use codec::encoded_chars;
pub use codec::encoded_reason;
pub use codec::encoded_str;
pub use codec::role_byte;
pub use codec::scalar_value;
pub use codec::valid_char;
pub use codec::valid_chars;
pub use codec::decoded_request;
pub use codec::decoded_response;
pub use codec::encodable_request;
pub use codec::encodable_response;
pub use codec::encode_request;
pub use codec::encode_response;
pub use codec::encoded_request;
pub use codec::encoded_response;
pub use codec::lemma_request_round_trip;
pub use codec::lemma_response_round_trip;
pub use codec::Login;
pub use codec::LoginV;
pub use denied_reason::DeniedReason;
pub use denied_reason::DeniedReasonV;
pub use hashing::hash_password;
pub use hashing::lemma_hash_deterministic;
pub use hashing::sha256_hex_of;
pub use hashing::upper_hex_digit;
pub use login_action::LoginAction;
pub use login_action::LoginActionV;
pub use primes::is_prime;
pub use primes::spec_is_prime;
pub use protocol::connection_step;
pub use protocol::interpret_response;
pub use protocol::spec_connection_step;
pub use protocol::ClientError;
pub use protocol::ConnectionStep;
pub use protocol::ConnectionStepV;
pub use role::Role;
pub use shared::snapshot_lists;
pub use shared::SharedStore;
pub use shared::StorePred;
pub use store::chosen_role;
pub use store::distinct_usernames;
pub use store::get_users_old;
pub use store::records_as_map;
pub use store::store_from_records;
pub use store::UserStore;
pub use text::all_space;
pub use text::is_space_char;
pub use text::lemma_normalized_padding;
pub use text::lemma_trimmed_idempotent;
pub use text::lemma_trimmed_padding;
pub use text::lower_of;
pub use text::normalize_username;
pub use text::normalized_username;
pub use text::trimmed;
pub use text::trim;
pub use user::User;
pub use user::UserV;
