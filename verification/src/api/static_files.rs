//! The directory that a web page is served from.

use crate::text::{copy_text, push_text};
use vstd::prelude::*;

verus! {

/// The complaint about a directory that is none.
pub open spec fn not_a_directory(web_dir: Seq<char>) -> Seq<char> {
    "web_dir does not exist or is not a directory: "@ + web_dir
}

/// The complaint about a directory without a start page.
pub open spec fn missing_index(index_file: Seq<char>) -> Seq<char> {
    "web_dir is missing index.html: "@ + index_file
}

/// Checks the directory that a web page is served from: it has to exist, with a start page in it.
pub fn validate_web_dir(web_dir: &str, is_dir: bool, index_file: &str, has_index: bool) -> (r: Result<
    (),
    String,
>)
    ensures
        match r {
            Ok(()) => is_dir && has_index,
            Err(e) => e@ == if !is_dir {
                not_a_directory(web_dir@)
            } else {
                missing_index(index_file@)
            } && !(is_dir && has_index),
        },
{
    if !is_dir {
        let mut e = copy_text("web_dir does not exist or is not a directory: ");
        push_text(&mut e, web_dir);
        return Err(e);
    }
    if !has_index {
        let mut e = copy_text("web_dir is missing index.html: ");
        push_text(&mut e, index_file);
        return Err(e);
    }
    Ok(())
}

} // verus!
