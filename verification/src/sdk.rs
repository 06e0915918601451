//! Support for user code compiled to WebAssembly: the entropy stub
//! registered with `getrandom` on targets without a source of entropy,
//! and the export names under which views are published.

use vstd::prelude::*;
use vstd::string::*;

use crate::common::text::chars_of;

verus! {

/// The error type of `getrandom` custom sources.
#[verifier::external_type_specification]
#[verifier::external_body]
pub struct ExGetrandomError(getrandom::Error);

/// A deterministic entropy source: fills `buf` with zeros and never
/// fails. Modules run single-threaded in a sandboxed host, where
/// hash-flooding does not matter; std's hash maps only need some seed.
pub fn always_zero(buf: &mut [u8]) -> (r: Result<(), getrandom::Error>)
    ensures
        r is Ok,
        final(buf)@.len() == old(buf)@.len(),
        forall|i: int| 0 <= i < final(buf)@.len() ==> final(buf)@[i] == 0,
{
    let n = buf.len();
    let mut i: usize = 0;
    while i < n
        invariant
            n == buf@.len(),
            n == old(buf)@.len(),
            i <= n,
            forall|k: int| 0 <= k < i ==> buf@[k] == 0,
        decreases n - i,
    {
        buf[i] = 0;
        i = i + 1;
    }
    Ok(())
}

/// The prefix of the export name of every view.
pub open spec fn view_export_prefix() -> Seq<char> {
    seq!['_', '_', 'c', 'o', 'g', '_', 'v', 'i', 'e', 'w', '_']
}

/// The export name of the view function `fn_name`: the prefix followed
/// by the function's name, so that a host finds every view of a module
/// by filtering its exports on the prefix.
pub fn view_export_name(fn_name: &str) -> (s: String)
    ensures
        s@ == view_export_prefix() + fn_name@,
{
    let prefix = String::from_str("__cog_view_");
    proof {
        reveal_strlit("__cog_view_");
        assert("__cog_view_"@ =~= view_export_prefix());
    }
    prefix.concat(fn_name)
}

/// Whether `name` begins with the view export prefix.
pub fn is_view_export(name: &str) -> (b: bool)
    ensures
        b == view_export_prefix().is_prefix_of(name@),
{
    let cs = chars_of(name);
    let prefix = chars_of("__cog_view_");
    proof {
        reveal_strlit("__cog_view_");
        assert(prefix@ =~= view_export_prefix());
    }
    if cs.len() < prefix.len() {
        return false;
    }
    let mut i: usize = 0;
    while i < prefix.len()
        invariant
            cs@ == name@,
            prefix@ == view_export_prefix(),
            prefix@.len() <= cs@.len(),
            i <= prefix@.len(),
            forall|k: int| 0 <= k < i ==> cs@[k] == prefix@[k],
        decreases prefix@.len() - i,
    {
        if cs[i] != prefix[i] {
            return false;
        }
        i = i + 1;
    }
    true
}

} // verus!
