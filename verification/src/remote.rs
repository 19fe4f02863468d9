//! The addresses of the remote source.

use crate::decimal::{decimal_nat, push_unsigned};
use vstd::prelude::*;

verus! {

/// The address from which the list of records is fetched.
pub fn todos_url() -> (url: &'static str)
    ensures
        url@ == "https://icp-test.fly.dev/todos"@,
{
    "https://icp-test.fly.dev/todos"
}

/// The address that toggles the record with the identifier `id`.
pub fn toggle_url(id: u64) -> (url: String)
    ensures
        url@ == "https://icp-test.fly.dev/toggle/"@ + decimal_nat(id as nat),
{
    let mut url = String::from_str("https://icp-test.fly.dev/toggle/");
    push_unsigned(&mut url, id);
    url
}

} // verus!
