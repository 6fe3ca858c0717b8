//! The configuration, evaluation and request-handling core of a GraphQL gateway.
pub mod auth;
pub mod blueprint;
pub mod config;
pub mod grpc;
pub mod http;
pub mod init;
pub mod kv_cache;
pub mod lambda;
pub mod string_map;
pub mod text;
pub mod valid;
pub mod value;

use vstd::prelude::*;
use vstd::std_specs::cmp::PartialEqSpec;

verus! {

/// Access to the variables of the environment.
pub trait EnvIO: Send + Sync + 'static {
    fn get(&self, key: &str) -> Option<String>;
}

/// Whether a value is the default of its type.
pub fn is_default<T: Default + Eq>(val: &T) -> (res: bool)
    ensures
        exists|default: T| #[trigger]
            call_ensures(T::default, (), default) && (T::obeys_eq_spec() ==> res == val.eq_spec(
                &default,
            )),
{
    *val == T::default()
}

} // verus!
