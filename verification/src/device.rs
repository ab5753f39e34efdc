//! Which RDMA device a process opens.

use vstd::prelude::*;
use vstd::string::*;

verus! {

/// Whether a device listed under `name` is the one asked for by `wanted`.
pub open spec fn is_named(name: Option<String>, wanted: Seq<char>) -> bool {
    name matches Some(n) && n@ == wanted
}

pub open spec fn msg_no_device() -> Seq<char> {
    "no RDMA device available"@
}

pub open spec fn msg_no_device_named(wanted: Seq<char>) -> Seq<char> {
    "no RDMA device named '"@ + wanted + "' found"@
}

/// Picks the device to open among those listed, by their names (`None` for a device without
/// a readable name): the first one named `wanted`, or the first one of all when no name is
/// given.
pub fn pick_device(names: &Vec<Option<String>>, wanted: Option<&str>) -> (r: Result<usize, String>)
    ensures
        wanted is None && names@.len() > 0 ==> r == Ok::<usize, String>(0),
        wanted is None && names@.len() == 0 ==> (r matches Err(e) && e@ == msg_no_device()),
        wanted matches Some(w) ==> match r {
            Ok(i) => i < names@.len() && is_named(names@[i as int], w@) && forall|j: int|
                0 <= j < i ==> !is_named(#[trigger] names@[j], w@),
            Err(e) => e@ == msg_no_device_named(w@) && forall|j: int|
                0 <= j < names@.len() ==> !is_named(#[trigger] names@[j], w@),
        },
{
    match wanted {
        None => {
            if names.len() == 0 {
                Err(String::from_str("no RDMA device available"))
            } else {
                Ok(0)
            }
        },
        Some(w) => {
            let target = String::from_str(w);
            let mut i: usize = 0;
            while i < names.len()
                invariant
                    i <= names@.len(),
                    target@ == w@,
                    wanted == Some(w),
                    forall|j: int| 0 <= j < i ==> !is_named(#[trigger] names@[j], w@),
                decreases names@.len() - i,
            {
                match &names[i] {
                    Some(n) => {
                        if *n == target {
                            return Ok(i);
                        }
                    },
                    None => {},
                }
                i = i + 1;
            }
            let mut e = String::from_str("no RDMA device named '");
            e.append(w);
            e.append("' found");
            Err(e)
        },
    }
}

} // verus!
