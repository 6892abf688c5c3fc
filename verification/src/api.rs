//! What the control interface decides.
use vstd::prelude::*;

pub mod log_laws;
pub mod log_stream;

verus! {

/// The dashboard directory to serve: the one that is set, if it is there;
/// otherwise the built-in panel is served.
pub fn resolve_external_ui(dir: Option<&str>, is_dir: bool) -> (out: Option<String>)
    ensures
        match dir {
            Some(d) if is_dir => out matches Some(s) && s@ == d@,
            _ => out is None,
        },
{
    match dir {
        Some(d) => if is_dir {
            Some(d.to_owned())
        } else {
            None
        },
        None => None,
    }
}

} // verus!
