//! Display helpers that carry no terminal code of their own.

use vstd::prelude::*;
use vstd::string::{StrSliceExecFns, StringExecFns};

verus! {

/// Masks a displayed API key from shoulder snoopers: the first `visible`
/// characters stay, every later character becomes an asterisk.
pub fn mask_api_key(api_key: &str, visible: usize) -> (r: String)
    requires
        visible <= api_key@.len(),
    ensures
        r@ == api_key@.take(visible as int) + Seq::new((api_key@.len() - visible) as nat, |i: int| '*'),
{
    let n = api_key.unicode_len();
    let prefix = api_key.substring_char(0, visible);
    let mut out = String::from_str(prefix);
    proof {
        assert(out@ =~= api_key@.take(visible as int) + Seq::new(0nat, |i: int| '*'));
    }
    let mut i: usize = visible;
    while i < n
        invariant
            visible <= i <= n,
            n == api_key@.len(),
            out@ == api_key@.take(visible as int) + Seq::new((i - visible) as nat, |k: int| '*'),
        decreases n - i,
    {
        out.append("*");
        proof {
            reveal_strlit("*");
            assert("*"@ =~= seq!['*']);
            assert(api_key@.take(visible as int) + Seq::new((i - visible) as nat, |k: int| '*') + "*"@
                =~= api_key@.take(visible as int) + Seq::new((i + 1 - visible) as nat, |k: int| '*'));
        }
        i = i + 1;
    }
    out
}

} // verus!
