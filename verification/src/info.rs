//! The reply of the `INFO` command, as the redis client library hands it out.

use vstd::prelude::*;

verus! {

/// `redis::InfoDict`: the key/value pairs of an `INFO` reply.
#[verifier::external_type_specification]
#[verifier::external_body]
pub struct ExInfoDict(redis::InfoDict);

/// What an info dictionary holds: for each key, the text that followed the
/// key's first colon on its line of the reply.
pub uninterp spec fn info_entries(info: redis::InfoDict) -> Map<Seq<char>, Seq<char>>;

/// `redis::InfoDict::get::<String>`: the value stored under `key`, if any.
///
/// `InfoDict::new` stores every value as a status string, so the conversion
/// to `String` never fails: the value is returned exactly when the key is
/// present.
#[verifier::external_body]
pub(crate) fn info_get(info: &redis::InfoDict, key: &str) -> (value: Option<String>)
    ensures
        match value {
            Some(v) => info_entries(*info).contains_key(key@) && v@ == info_entries(*info)[key@],
            None => !info_entries(*info).contains_key(key@),
        },
{
    info.get::<String>(key)
}

} // verus!
