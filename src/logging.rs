use vstd::prelude::*;

verus! {

/// The filter directive used when the environment names none: errors only.
pub open spec fn default_directive() -> Seq<char> {
    seq!['e', 'r', 'r', 'o', 'r']
}

/// Chooses the log filter directive from the value of the log environment
/// variable, as read by the caller: a non-empty value is used as given, an
/// absent or empty one falls back to the error level.
pub fn tracing_subscriber(env_value: Option<String>) -> (directive: String)
    ensures
        match env_value {
            Some(s) => s@.len() > 0 ==> directive@ == s@,
            None => true,
        },
        (env_value is None || env_value->0@.len() == 0) ==> directive@ == default_directive(),
{
    match env_value {
        Some(s) => {
            if !s.as_str().is_empty() {
                s
            } else {
                let r = "error".to_string();
                proof { reveal_strlit("error"); }
                assert(r@ =~= default_directive());
                r
            }
        },
        None => {
            let r = "error".to_string();
            proof { reveal_strlit("error"); }
            assert(r@ =~= default_directive());
            r
        },
    }
}

} // verus!
