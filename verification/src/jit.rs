//! The part of the WebAssembly host that decides which exports of a
//! module are views. Compiling, linking and running the module happen
//! outside the verified library.

use vstd::prelude::*;

use crate::sdk::{is_view_export, view_export_prefix};

verus! {

/// Why a module cannot be run as views.
#[derive(Debug, PartialEq, Eq, Structural)]
pub enum RunViewsError {
    /// No export of the module is named as a view.
    NoViewExports,
}

/// The export names that are views, in module order; `NoViewExports`
/// where there is none.
pub fn select_view_exports(names: &Vec<String>) -> (r: Result<Vec<String>, RunViewsError>)
    ensures
        match r {
            Ok(v) => {
                &&& v@.len() > 0
                &&& v@.map_values(|s: String| s@) == names@.map_values(|s: String| s@).filter(|s: Seq<char>| view_export_prefix().is_prefix_of(s))
            },
            Err(_) => forall|i: int| 0 <= i < names@.len() ==> !view_export_prefix().is_prefix_of(#[trigger] names@[i]@),
        },
{
    let ghost pred = |s: Seq<char>| view_export_prefix().is_prefix_of(s);
    let mut out: Vec<String> = Vec::new();
    let mut i: usize = 0;
    while i < names.len()
        invariant
            i <= names@.len(),
            out@.map_values(|s: String| s@) == names@.map_values(|s: String| s@).take(i as int).filter(pred),
            pred == |s: Seq<char>| view_export_prefix().is_prefix_of(s),
        decreases names@.len() - i,
    {
        let ghost all = names@.map_values(|s: String| s@);
        proof {
            reveal(Seq::filter);
            assert(all.take(i + 1).drop_last() =~= all.take(i as int));
            assert(all.take(i + 1).last() == names@[i as int]@);
        }
        if is_view_export(names[i].as_str()) {
            out.push(names[i].clone());
            proof {
                assert(out@.map_values(|s: String| s@) =~= all.take(i as int).filter(pred).push(names@[i as int]@));
            }
        }
        i = i + 1;
    }
    proof {
        assert(names@.map_values(|s: String| s@).take(names@.len() as int) =~= names@.map_values(|s: String| s@));
    }
    if out.len() == 0 {
        proof {
            assert forall|i: int| 0 <= i < names@.len() implies !view_export_prefix().is_prefix_of(#[trigger] names@[i]@) by {
                let all = names@.map_values(|s: String| s@);
                assert(all[i] == names@[i]@);
                if pred(all[i]) {
                    all.lemma_filter_contains(pred, i);
                }
            }
        }
        return Err(RunViewsError::NoViewExports);
    }
    Ok(out)
}

} // verus!
